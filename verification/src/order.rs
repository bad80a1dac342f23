use vstd::prelude::*;
use vstd::multiset::Multiset;
use crate::text::{seq_lex_lt, chars_lex_lt};

verus! {

broadcast use vstd::seq_lib::group_seq_properties;

/// Listing order of two keys: larger size first, then smaller name first.
pub open spec fn key_before(a: (u64, Seq<char>), b: (u64, Seq<char>)) -> bool {
    a.0 > b.0 || (a.0 == b.0 && seq_lex_lt(a.1, b.1))
}

/// Listing order of two positions: by key, and by position where the keys are equal.
pub open spec fn ranks_before(keys: Seq<(u64, Seq<char>)>, i: int, j: int) -> bool {
    key_before(keys[i], keys[j]) || (keys[i] == keys[j] && i < j)
}

/// The positions `lo, lo + 1, .., hi - 1`.
pub open spec fn index_range(lo: int, hi: int) -> Seq<usize> {
    Seq::new((hi - lo) as nat, |k: int| (lo + k) as usize)
}

/// `o` lists every position of `keys` once, in listing order.
pub open spec fn is_sorted_perm(keys: Seq<(u64, Seq<char>)>, o: Seq<usize>) -> bool {
    &&& o.to_multiset() == index_range(0, keys.len() as int).to_multiset()
    &&& forall|a: int, b: int| 0 <= a < b < o.len() ==> ranks_before(keys, o[a] as int, o[b] as int)
}

/// The listing order of `keys`: sizes descending, then names ascending, ties kept in place.
pub open spec fn stable_order(keys: Seq<(u64, Seq<char>)>) -> Seq<usize> {
    choose|o: Seq<usize>| is_sorted_perm(keys, o)
}

/// The abstract keys of executable keys.
pub open spec fn key_view(keys: Seq<(u64, Vec<char>)>) -> Seq<(u64, Seq<char>)> {
    Seq::new(keys.len(), |k: int| (keys[k].0, keys[k].1@))
}

pub proof fn lemma_lex_irreflexive(a: Seq<char>)
    ensures
        !seq_lex_lt(a, a),
    decreases a.len(),
{
    if a.len() > 0 {
        lemma_lex_irreflexive(a.drop_first());
    }
}

pub proof fn lemma_lex_transitive(a: Seq<char>, b: Seq<char>, c: Seq<char>)
    requires
        seq_lex_lt(a, b),
        seq_lex_lt(b, c),
    ensures
        seq_lex_lt(a, c),
    decreases a.len(),
{
    if a.len() > 0 && b.len() > 0 && c.len() > 0 {
        if a[0] == b[0] && b[0] == c[0] {
            lemma_lex_transitive(a.drop_first(), b.drop_first(), c.drop_first());
        }
    }
}

pub proof fn lemma_lex_total(a: Seq<char>, b: Seq<char>)
    requires
        a != b,
    ensures
        seq_lex_lt(a, b) || seq_lex_lt(b, a),
    decreases a.len(),
{
    if a.len() > 0 && b.len() > 0 && a[0] == b[0] {
        if a.drop_first() == b.drop_first() {
            assert(a[0] == b[0]);
            assert(a =~= seq![a[0]] + a.drop_first());
            assert(b =~= seq![b[0]] + b.drop_first());
        } else {
            lemma_lex_total(a.drop_first(), b.drop_first());
        }
    } else if a.len() == 0 && b.len() == 0 {
        assert(a =~= b);
    }
}

pub proof fn lemma_ranks_irreflexive(keys: Seq<(u64, Seq<char>)>, i: int)
    ensures
        !ranks_before(keys, i, i),
{
    lemma_lex_irreflexive(keys[i].1);
}

pub proof fn lemma_ranks_transitive(keys: Seq<(u64, Seq<char>)>, i: int, j: int, k: int)
    requires
        ranks_before(keys, i, j),
        ranks_before(keys, j, k),
    ensures
        ranks_before(keys, i, k),
{
    if key_before(keys[i], keys[j]) && key_before(keys[j], keys[k]) {
        if keys[i].0 == keys[j].0 && keys[j].0 == keys[k].0 {
            lemma_lex_transitive(keys[i].1, keys[j].1, keys[k].1);
        }
    }
}

pub proof fn lemma_ranks_total(keys: Seq<(u64, Seq<char>)>, i: int, j: int)
    requires
        i != j,
    ensures
        ranks_before(keys, i, j) || ranks_before(keys, j, i),
{
    if keys[i].0 == keys[j].0 && keys[i].1 != keys[j].1 {
        lemma_lex_total(keys[i].1, keys[j].1);
    }
    if keys[i].0 == keys[j].0 && keys[i].1 == keys[j].1 {
        assert(keys[i] == keys[j]);
    }
}

pub proof fn lemma_ranks_asymmetric(keys: Seq<(u64, Seq<char>)>, i: int, j: int)
    requires
        ranks_before(keys, i, j),
    ensures
        !ranks_before(keys, j, i),
{
    if ranks_before(keys, j, i) {
        lemma_ranks_transitive(keys, i, j, i);
        lemma_ranks_irreflexive(keys, i);
    }
}


/// No key of `keys` comes before a key listed ahead of it.
pub open spec fn keys_listed(keys: Seq<(u64, Seq<char>)>) -> bool {
    forall|a: int, b: int| 0 <= a < b < keys.len() ==> !key_before(#[trigger] keys[b], #[trigger] keys[a])
}

/// The keys of `keys` taken in the order `o`.
pub open spec fn keys_in_order(keys: Seq<(u64, Seq<char>)>, o: Seq<usize>) -> Seq<(u64, Seq<char>)> {
    Seq::new(o.len(), |k: int| keys[o[k] as int])
}

proof fn lemma_key_before_asymmetric(a: (u64, Seq<char>), b: (u64, Seq<char>))
    requires
        key_before(a, b) || a == b,
    ensures
        !key_before(b, a),
{
    lemma_lex_irreflexive(a.1);
    if a.0 == b.0 && seq_lex_lt(a.1, b.1) && seq_lex_lt(b.1, a.1) {
        lemma_lex_transitive(a.1, b.1, a.1);
    }
}

/// Keys taken in a listing order are listed.
pub proof fn lemma_sorted_perm_listed(keys: Seq<(u64, Seq<char>)>, o: Seq<usize>)
    requires
        is_sorted_perm(keys, o),
    ensures
        keys_listed(keys_in_order(keys, o)),
{
    let ks = keys_in_order(keys, o);
    assert forall|a: int, b: int| 0 <= a < b < ks.len() implies !key_before(#[trigger] ks[b], #[trigger] ks[a]) by {
        assert(ranks_before(keys, o[a] as int, o[b] as int));
        lemma_key_before_asymmetric(ks[a], ks[b]);
    }
}

proof fn lemma_insert_position(keys: Seq<(u64, Seq<char>)>, o: Seq<usize>, x: int, i: int) -> (p: int)
    requires
        0 <= i <= o.len(),
    ensures
        i <= p <= o.len(),
        forall|a: int| i <= a < p ==> ranks_before(keys, #[trigger] o[a] as int, x),
        p < o.len() ==> !ranks_before(keys, o[p] as int, x),
    decreases o.len() - i,
{
    if i == o.len() || !ranks_before(keys, o[i] as int, x) {
        i
    } else {
        lemma_insert_position(keys, o, x, i + 1)
    }
}

/// The first `n` positions of `keys` can be listed in listing order.
proof fn lemma_ranked_prefix(keys: Seq<(u64, Seq<char>)>, n: int) -> (o: Seq<usize>)
    requires
        0 <= n <= keys.len(),
        n <= usize::MAX + 1,
    ensures
        o.to_multiset() == index_range(0, n).to_multiset(),
        is_ranked(keys, o),
        o.len() == n,
        forall|q: int| 0 <= q < o.len() ==> #[trigger] o[q] < n,
    decreases n,
{
    broadcast use vstd::seq_lib::group_to_multiset_ensures;
    broadcast use vstd::multiset::group_multiset_axioms;

    if n == 0 {
        let o = Seq::<usize>::empty();
        assert(index_range(0, 0) =~= o);
        o
    } else {
        let o1 = lemma_ranked_prefix(keys, n - 1);
        let x = (n - 1) as usize;
        let p = lemma_insert_position(keys, o1, n - 1, 0);
        let o = o1.insert(p, x);
        assert(index_range(0, n) =~= index_range(0, n - 1).push(x));
        assert(o.to_multiset() =~= index_range(0, n).to_multiset()) by {
            vstd::seq_lib::to_multiset_insert(o1, p, x);
        }
        assert forall|a: int, b: int| 0 <= a < b < o.len() implies ranks_before(keys, o[a] as int, o[b] as int) by {
            if b < p {
                assert(o[a] == o1[a] && o[b] == o1[b]);
            } else if a > p {
                assert(o[a] == o1[a - 1] && o[b] == o1[b - 1]);
            } else if b == p {
                assert(o[a] == o1[a] && o[b] == x);
            } else if a == p {
                assert(o[a] == x && o[b] == o1[b - 1]);
                assert(o1[p] < n - 1);
                lemma_ranks_total(keys, o1[p] as int, n - 1);
                if b - 1 > p {
                    lemma_ranks_transitive(keys, n - 1, o1[p] as int, o1[b - 1] as int);
                }
            } else {
                assert(o[a] == o1[a] && o[b] == o1[b - 1]);
            }
        }
        assert forall|q: int| 0 <= q < o.len() implies #[trigger] o[q] < n by {
            if q < p {
                assert(o[q] == o1[q]);
            } else if q > p {
                assert(o[q] == o1[q - 1]);
            }
        }
        o
    }
}

/// The listing order of `keys` exists: `stable_order` lists every position once, in order.
pub proof fn lemma_stable_order_sorted(keys: Seq<(u64, Seq<char>)>)
    requires
        keys.len() <= usize::MAX + 1,
    ensures
        is_sorted_perm(keys, stable_order(keys)),
        stable_order(keys).len() == keys.len(),
        forall|q: int| 0 <= q < stable_order(keys).len() ==> #[trigger] stable_order(keys)[q] < keys.len(),
{
    broadcast use vstd::seq_lib::group_to_multiset_ensures;

    let o = lemma_ranked_prefix(keys, keys.len() as int);
    assert(is_sorted_perm(keys, o));
    let s = stable_order(keys);
    assert(is_sorted_perm(keys, s));
    lemma_sorted_perm_unique(keys, s, o);
}

/// `o` is listed in the order of `keys`.
pub open spec fn is_ranked(keys: Seq<(u64, Seq<char>)>, o: Seq<usize>) -> bool {
    forall|a: int, b: int| 0 <= a < b < o.len() ==> ranks_before(keys, o[a] as int, o[b] as int)
}

/// Two orderings of the same positions, both in listing order, are equal.
pub proof fn lemma_sorted_perm_unique(keys: Seq<(u64, Seq<char>)>, o1: Seq<usize>, o2: Seq<usize>)
    requires
        o1.to_multiset() == o2.to_multiset(),
        is_ranked(keys, o1),
        is_ranked(keys, o2),
    ensures
        o1 == o2,
    decreases o1.len(),
{
    broadcast use vstd::seq_lib::group_to_multiset_ensures;
    broadcast use vstd::multiset::group_multiset_axioms;

    assert(o1.len() == o1.to_multiset().len());
    assert(o2.len() == o2.to_multiset().len());
    if o1.len() == 0 {
        assert(o1 =~= o2);
    } else {
        let n = o1.len() - 1;
        let x1 = o1[n];
        let x2 = o2[n];
        if x1 != x2 {
            assert(o1.to_multiset().count(x1) > 0) by {
                assert(o1.contains(x1));
            }
            assert(o2.contains(x1));
            let p = choose|p: int| 0 <= p < o2.len() && o2[p] == x1;
            assert(o1.contains(x2)) by {
                assert(o2.contains(x2));
                assert(o2.to_multiset().count(x2) > 0);
            }
            let q = choose|q: int| 0 <= q < o1.len() && o1[q] == x2;
            assert(ranks_before(keys, x1 as int, x2 as int));
            assert(ranks_before(keys, x2 as int, x1 as int));
            lemma_ranks_asymmetric(keys, x1 as int, x2 as int);
        }
        let d1 = o1.drop_last();
        let d2 = o2.drop_last();
        assert(o1 =~= d1.push(x1));
        assert(o2 =~= d2.push(x2));
        assert(d1.to_multiset() =~= o1.to_multiset().remove(x1));
        assert(d2.to_multiset() =~= o2.to_multiset().remove(x2));
        lemma_sorted_perm_unique(keys, d1, d2);
        assert(o1 =~= o2);
    }
}

/// Whether position `i` of `keys` is listed before position `j`.
pub fn position_before(keys: &Vec<(u64, Vec<char>)>, i: usize, j: usize) -> (res: bool)
    requires
        i < keys@.len(),
        j < keys@.len(),
    ensures
        res == ranks_before(key_view(keys@), i as int, j as int),
{
    let ghost kv = key_view(keys@);
    let si = keys[i].0;
    let sj = keys[j].0;
    if si > sj {
        return true;
    }
    if si < sj {
        return false;
    }
    let lt = chars_lex_lt(&keys[i].1, &keys[j].1);
    if lt {
        return true;
    }
    let gt = chars_lex_lt(&keys[j].1, &keys[i].1);
    if gt {
        proof {
            lemma_lex_irreflexive(kv[i as int].1);
        }
        return false;
    }
    proof {
        if kv[i as int].1 != kv[j as int].1 {
            lemma_lex_total(kv[i as int].1, kv[j as int].1);
        }
        assert(kv[i as int] == kv[j as int]);
    }
    i < j
}

/// Merges two listings of disjoint positions into one listing.
fn merge(keys: &Vec<(u64, Vec<char>)>, a: Vec<usize>, b: Vec<usize>, lo: usize, hi: usize) -> (res: Vec<usize>)
    requires
        hi <= keys@.len(),
        forall|k: int| 0 <= k < a@.len() ==> lo <= #[trigger] a@[k] < hi,
        forall|k: int| 0 <= k < b@.len() ==> lo <= #[trigger] b@[k] < hi,
        forall|p: int, q: int| 0 <= p < a@.len() && 0 <= q < b@.len() ==> a@[p] != b@[q],
        is_ranked(key_view(keys@), a@),
        is_ranked(key_view(keys@), b@),
    ensures
        res@.to_multiset() == a@.to_multiset().add(b@.to_multiset()),
        forall|k: int| 0 <= k < res@.len() ==> lo <= #[trigger] res@[k] < hi,
        is_ranked(key_view(keys@), res@),
{
    broadcast use vstd::seq_lib::group_to_multiset_ensures;
    broadcast use vstd::multiset::group_multiset_axioms;

    let ghost kv = key_view(keys@);
    let mut res: Vec<usize> = Vec::new();
    let mut i: usize = 0;
    let mut j: usize = 0;
    assert(a@.take(0) =~= Seq::<usize>::empty());
    assert(b@.take(0) =~= Seq::<usize>::empty());
    while i < a.len() || j < b.len()
        invariant
            hi <= keys@.len(),
            kv == key_view(keys@),
            i <= a@.len(),
            j <= b@.len(),
            forall|k: int| 0 <= k < a@.len() ==> lo <= #[trigger] a@[k] < hi,
            forall|k: int| 0 <= k < b@.len() ==> lo <= #[trigger] b@[k] < hi,
            forall|p: int, q: int| 0 <= p < a@.len() && 0 <= q < b@.len() ==> a@[p] != b@[q],
            is_ranked(kv, a@),
            is_ranked(kv, b@),
            is_ranked(kv, res@),
            res@.to_multiset() == a@.take(i as int).to_multiset().add(b@.take(j as int).to_multiset()),
            forall|k: int| 0 <= k < res@.len() ==> lo <= #[trigger] res@[k] < hi,
            forall|p: int, q: int|
                0 <= p < res@.len() && i <= q < a@.len() ==> ranks_before(kv, #[trigger] res@[p] as int, #[trigger] a@[q] as int),
            forall|p: int, q: int|
                0 <= p < res@.len() && j <= q < b@.len() ==> ranks_before(kv, #[trigger] res@[p] as int, #[trigger] b@[q] as int),
        decreases a@.len() + b@.len() - i - j,
    {
        let take_a = if i < a.len() && j < b.len() {
            position_before(keys, a[i], b[j])
        } else {
            i < a.len()
        };
        let ghost old_res = res@;
        if take_a {
            let x = a[i];
            proof {
                if j < b@.len() {
                    assert forall|q: int| j <= q < b@.len() implies ranks_before(kv, x as int, #[trigger] b@[q] as int) by {
                        if q > j {
                            lemma_ranks_transitive(kv, x as int, b@[j as int] as int, b@[q] as int);
                        }
                    }
                }
                assert(a@.take(i + 1) =~= a@.take(i as int).push(x));
            }
            res.push(x);
            i = i + 1;
            proof {
                assert(res@ =~= old_res.push(x));
                assert(res@.to_multiset() =~= a@.take(i as int).to_multiset().add(b@.take(j as int).to_multiset()));
            }
        } else {
            let x = b[j];
            proof {
                if i < a@.len() {
                    assert(a@[i as int] != x);
                    lemma_ranks_total(kv, a@[i as int] as int, x as int);
                    assert forall|q: int| i <= q < a@.len() implies ranks_before(kv, x as int, #[trigger] a@[q] as int) by {
                        if q > i {
                            lemma_ranks_transitive(kv, x as int, a@[i as int] as int, a@[q] as int);
                        }
                    }
                }
                assert(b@.take(j + 1) =~= b@.take(j as int).push(x));
            }
            res.push(x);
            j = j + 1;
            proof {
                assert(res@ =~= old_res.push(x));
                assert(res@.to_multiset() =~= a@.take(i as int).to_multiset().add(b@.take(j as int).to_multiset()));
            }
        }
    }
    assert(a@.take(a@.len() as int) =~= a@);
    assert(b@.take(b@.len() as int) =~= b@);
    res
}

/// Lists the positions `lo..hi` of `keys` in listing order.
fn sort_range(keys: &Vec<(u64, Vec<char>)>, lo: usize, hi: usize) -> (res: Vec<usize>)
    requires
        lo <= hi <= keys@.len(),
    ensures
        res@.to_multiset() == index_range(lo as int, hi as int).to_multiset(),
        forall|k: int| 0 <= k < res@.len() ==> lo <= #[trigger] res@[k] < hi,
        is_ranked(key_view(keys@), res@),
    decreases hi - lo,
{
    broadcast use vstd::seq_lib::group_to_multiset_ensures;
    broadcast use vstd::multiset::group_multiset_axioms;

    if hi - lo == 0 {
        let res: Vec<usize> = Vec::new();
        assert(index_range(lo as int, hi as int) =~= res@);
        return res;
    }
    if hi - lo == 1 {
        let mut res: Vec<usize> = Vec::new();
        res.push(lo);
        assert(index_range(lo as int, hi as int) =~= res@);
        return res;
    }
    let mid = lo + (hi - lo) / 2;
    let left = sort_range(keys, lo, mid);
    let right = sort_range(keys, mid, hi);
    let ghost l = left@;
    let ghost r = right@;
    let res = merge(keys, left, right, lo, hi);
    proof {
        assert(index_range(lo as int, hi as int) =~= index_range(lo as int, mid as int) + index_range(mid as int, hi as int));
        vstd::seq_lib::lemma_multiset_commutative(index_range(lo as int, mid as int), index_range(mid as int, hi as int));
    }
    res
}

/// The listing order of `keys`: each position once, larger sizes first, then smaller names
/// first, and positions with equal keys in the order they were given.
pub fn listing_order(keys: &Vec<(u64, Vec<char>)>) -> (order: Vec<usize>)
    ensures
        order@ == stable_order(key_view(keys@)),
        is_sorted_perm(key_view(keys@), order@),
{
    let order = sort_range(keys, 0, keys.len());
    proof {
        let kv = key_view(keys@);
        assert(is_sorted_perm(kv, order@));
        let o2 = stable_order(kv);
        assert(is_sorted_perm(kv, o2));
        lemma_sorted_perm_unique(kv, order@, o2);
    }
    order
}

} // verus!
