use vstd::prelude::*;
use crate::order::{
    stable_order, listing_order, key_view, index_range, is_sorted_perm, lemma_ranks_irreflexive, keys_in_order,
    lemma_sorted_perm_listed, key_before,
};
use crate::text::{chars_of, push_str, seq_lex_lt};
use crate::path::{path_file_name_of, file_name_of};
use crate::treemap::{entries_total, lemma_entries_total_prefix, lemma_entries_permute_total};

verus! {

/// Whether a scanned entry is a leaf file or a directory.
#[derive(Debug, Clone, Copy, PartialEq, Eq, Structural)]
pub enum EntryKind {
    File,
    Directory,
}

/// One node of a scanned tree: a file, or a directory with its children.
#[derive(Debug)]
pub struct FsEntry {
    pub path: String,
    pub name: String,
    pub kind: EntryKind,
    pub size: u64,
    pub children: Vec<FsEntry>,
    pub errors: Vec<String>,
}

/// The number of scan errors recorded in `e` and in all entries below it.
pub open spec fn error_total(e: FsEntry) -> nat
    decreases e, e.children@.len() + 1,
{
    e.errors@.len() + children_error_total(e, e.children@.len() as int)
}

/// The number of scan errors recorded in the first `n` children of `e` and below them.
pub open spec fn children_error_total(e: FsEntry, n: int) -> nat
    decreases e, if n <= 0 { 0 } else { n as nat },
{
    if n <= 0 || n > e.children@.len() {
        0
    } else {
        proof {
            assert(decreases_to!(e => e.children));
            assert(decreases_to!(e.children => e.children@));
            assert(decreases_to!(e.children@ => e.children@[n - 1]));
        }
        children_error_total(e, n - 1) + error_total(e.children@[n - 1])
    }
}

/// Two trees hold the same paths, names, kinds, sizes and errors, node for node.
pub open spec fn same_tree(a: FsEntry, b: FsEntry) -> bool
    decreases a, a.children@.len() + 1,
{
    &&& a.path == b.path
    &&& a.name == b.name
    &&& a.kind == b.kind
    &&& a.size == b.size
    &&& a.errors@ == b.errors@
    &&& a.children@.len() == b.children@.len()
    &&& same_children(a, b, a.children@.len() as int)
}

/// The first `n` children of `a` and `b` are pairwise the same trees.
pub open spec fn same_children(a: FsEntry, b: FsEntry, n: int) -> bool
    decreases a, if n <= 0 { 0 } else { n as nat },
{
    if n <= 0 || n > a.children@.len() || n > b.children@.len() {
        n <= 0
    } else {
        proof {
            assert(decreases_to!(a => a.children));
            assert(decreases_to!(a.children => a.children@));
            assert(decreases_to!(a.children@ => a.children@[n - 1]));
        }
        same_children(a, b, n - 1) && same_tree(a.children@[n - 1], b.children@[n - 1])
    }
}

impl Clone for FsEntry {
    /// A deep copy of the tree.
    fn clone(&self) -> (res: Self)
        ensures
            same_tree(*self, res),
        decreases self,
    {
        let mut children: Vec<FsEntry> = Vec::new();
        let mut i: usize = 0;
        while i < self.children.len()
            invariant
                i <= self.children@.len(),
                children@.len() == i,
                forall|j: int| 0 <= j < i ==> same_tree(#[trigger] self.children@[j], children@[j]),
            decreases self.children@.len() - i,
        {
            proof {
                assert(decreases_to!(self => self.children));
                assert(decreases_to!(self.children => self.children@));
                assert(decreases_to!(self.children@ => self.children@[i as int]));
            }
            let c = self.children[i].clone();
            children.push(c);
            i = i + 1;
        }
        let mut errors: Vec<String> = Vec::new();
        let mut k: usize = 0;
        while k < self.errors.len()
            invariant
                k <= self.errors@.len(),
                errors@ == self.errors@.subrange(0, k as int),
            decreases self.errors@.len() - k,
        {
            errors.push(self.errors[k].clone());
            k = k + 1;
        }
        assert(errors@ =~= self.errors@);
        let res = FsEntry {
            path: self.path.clone(),
            name: self.name.clone(),
            kind: self.kind,
            size: self.size,
            children,
            errors,
        };
        proof {
            lemma_same_children_prefix(*self, res, res.children@.len() as int);
        }
        res
    }
}

proof fn lemma_same_children_prefix(a: FsEntry, b: FsEntry, n: int)
    requires
        0 <= n <= a.children@.len(),
        a.children@.len() == b.children@.len(),
        forall|j: int| 0 <= j < n ==> same_tree(#[trigger] a.children@[j], b.children@[j]),
    ensures
        same_children(a, b, n),
    decreases n,
{
    if n > 0 {
        lemma_same_children_prefix(a, b, n - 1);
    }
}

/// The sort keys of entries: size and name.
pub open spec fn entry_keys(s: Seq<FsEntry>) -> Seq<(u64, Seq<char>)> {
    Seq::new(s.len(), |k: int| (s[k].size, s[k].name@))
}

/// The entries of `s` in listing order: sizes descending, then names ascending, entries with
/// equal keys in the order they were given.
pub open spec fn listed_entries(s: Seq<FsEntry>) -> Seq<FsEntry> {
    let o = stable_order(entry_keys(s));
    Seq::new(o.len(), |k: int| s[o[k] as int])
}

/// Each entry of `s` is at least as large as the next, and entries of equal size have their
/// names in ascending order.
pub open spec fn entries_listed(s: Seq<FsEntry>) -> bool {
    forall|a: int, b: int|
        0 <= a < b < s.len() ==> #[trigger] s[a].size > #[trigger] s[b].size || (s[a].size == s[b].size
            && !seq_lex_lt(s[b].name@, s[a].name@))
}

/// A file: a leaf entry of `size` bytes with no children and no errors.
pub fn file_entry(path: String, name: String, size: u64) -> (e: FsEntry)
    ensures
        e.path == path,
        e.name == name,
        e.kind == EntryKind::File,
        e.size == size,
        e.children@.len() == 0,
        e.errors@.len() == 0,
{
    FsEntry { path, name, kind: EntryKind::File, size, children: Vec::new(), errors: Vec::new() }
}

/// A directory holding `children`, listed largest first and then by name, whose size is the
/// total size of its children, with the errors met while reading it.
pub fn directory_entry(path: String, name: String, children: Vec<FsEntry>, errors: Vec<String>) -> (e: FsEntry)
    requires
        entries_total(children@) <= u64::MAX,
    ensures
        e.path == path,
        e.name == name,
        e.kind == EntryKind::Directory,
        e.size == entries_total(children@),
        e.children@ == listed_entries(children@),
        entries_listed(e.children@),
        e.size == entries_total(e.children@),
        e.errors == errors,
{
    broadcast use vstd::seq_lib::group_to_multiset_ensures;

    let ghost cs = children@;
    let n = children.len();
    let mut total: u64 = 0;
    let mut keys: Vec<(u64, Vec<char>)> = Vec::new();
    let mut i: usize = 0;
    while i < n
        invariant
            cs == children@,
            n == cs.len(),
            entries_total(cs) <= u64::MAX,
            i <= n,
            total == entries_total(cs.take(i as int)),
            key_view(keys@) == entry_keys(cs).take(i as int),
        decreases n - i,
    {
        proof {
            assert(cs.take(i + 1).drop_last() =~= cs.take(i as int));
            lemma_entries_total_prefix(cs, i + 1);
        }
        total = total + children[i].size;
        let key = (children[i].size, chars_of(children[i].name.as_str()));
        let ghost before = keys@;
        keys.push(key);
        proof {
            assert(key_view(before.push(key)) =~= key_view(before).push((key.0, key.1@)));
            assert(key_view(keys@) =~= entry_keys(cs).take(i + 1));
        }
        i = i + 1;
    }
    assert(cs.take(n as int) =~= cs);
    assert(entry_keys(cs).take(n as int) =~= entry_keys(cs));
    let order = listing_order(&keys);
    let ghost o = order@;
    proof {
        assert forall|q: int| 0 <= q < o.len() implies #[trigger] o[q] < n by {
            assert(o.contains(o[q]));
            assert(o.to_multiset().count(o[q]) > 0);
            assert(index_range(0, n as int).contains(o[q]));
        }
        assert(o.len() == n) by {
            assert(o.len() == o.to_multiset().len());
            assert(index_range(0, n as int).len() == index_range(0, n as int).to_multiset().len());
        }
    }
    let mut rest = children;
    let mut slots: Vec<Option<FsEntry>> = Vec::new();
    let mut j: usize = 0;
    while j < n
        invariant
            n == cs.len(),
            j <= n,
            rest@ == cs.take(n - j),
            slots@.len() == j,
            forall|k: int| 0 <= k < j ==> #[trigger] slots@[k] == Some(cs[n - 1 - k]),
        decreases n - j,
    {
        let last = rest.pop();
        slots.push(last);
        proof {
            assert(cs.take(n - j).subrange(0, n - j - 1) =~= cs.take(n - j - 1));
        }
        j = j + 1;
    }
    let mut sorted: Vec<FsEntry> = Vec::new();
    let mut q: usize = 0;
    while q < n
        invariant
            n == cs.len(),
            o == order@,
            o.len() == n,
            forall|p: int| 0 <= p < o.len() ==> #[trigger] o[p] < n,
            is_sorted_perm(entry_keys(cs), o),
            q <= n,
            slots@.len() == n,
            forall|k: int|
                0 <= k < n && !o.take(q as int).contains((n - 1 - k) as usize) ==> #[trigger] slots@[k] == Some(cs[n - 1 - k]),
            sorted@ == Seq::new(q as nat, |k: int| cs[o[k] as int]),
        decreases n - q,
    {
        let idx = order[q];
        let slot_index = n - 1 - idx;
        proof {
            assert(!o.take(q as int).contains(idx)) by {
                if o.take(q as int).contains(idx) {
                    let p = choose|p: int| 0 <= p < q && o.take(q as int)[p] == idx;
                    assert(o[p] == o[q as int]);
                    lemma_ranks_irreflexive(entry_keys(cs), idx as int);
                }
            }
            assert((n - 1 - slot_index) as usize == idx);
        }
        let mut slot: Option<FsEntry> = None;
        slots.set_and_swap(slot_index, &mut slot);
        let entry = slot.unwrap();
        let ghost before = sorted@;
        sorted.push(entry);
        proof {
            assert(sorted@ =~= Seq::new((q + 1) as nat, |k: int| cs[o[k] as int]));
            assert forall|k: int|
                0 <= k < n && !o.take(q + 1).contains((n - 1 - k) as usize) implies #[trigger] slots@[k] == Some(cs[n - 1 - k]) by {
                assert(o.take(q + 1) =~= o.take(q as int).push(idx));
                if o.take(q as int).contains((n - 1 - k) as usize) {
                    let p = choose|p: int| 0 <= p < q && o.take(q as int)[p] == (n - 1 - k) as usize;
                    assert(o.take(q + 1)[p] == (n - 1 - k) as usize);
                }
                assert(o.take(q + 1)[q as int] == idx);
                assert(o.take(q + 1).contains(idx));
                assert(k != slot_index);
            }
        }
        q = q + 1;
    }
    assert(sorted@ =~= listed_entries(cs));
    proof {
        lemma_entries_permute_total(cs, o);
        let ks = keys_in_order(entry_keys(cs), o);
        lemma_sorted_perm_listed(entry_keys(cs), o);
        assert forall|a: int, b: int| 0 <= a < b < sorted@.len() implies #[trigger] sorted@[a].size > #[trigger] sorted@[b].size
            || (sorted@[a].size == sorted@[b].size && !seq_lex_lt(sorted@[b].name@, sorted@[a].name@)) by {
            assert(ks[a] == (sorted@[a].size, sorted@[a].name@));
            assert(ks[b] == (sorted@[b].size, sorted@[b].name@));
            assert(!key_before(ks[b], ks[a]));
        }
    }
    FsEntry { path, name, kind: EntryKind::Directory, size: total, children: sorted, errors }
}

/// The errors recorded in the trees `s` and everywhere below them.
pub open spec fn subtree_errors(s: Seq<FsEntry>) -> nat
    decreases s.len(),
{
    if s.len() == 0 {
        0
    } else {
        subtree_errors(s.drop_last()) + error_total(s.last())
    }
}

proof fn lemma_children_error_total_prefix(e: FsEntry, n: int)
    requires
        0 <= n <= e.children@.len(),
    ensures
        children_error_total(e, n) == subtree_errors(e.children@.take(n)),
    decreases n,
{
    if n > 0 {
        lemma_children_error_total_prefix(e, n - 1);
        assert(e.children@.take(n).drop_last() =~= e.children@.take(n - 1));
    }
}

/// The error count of a tree is its own errors plus the error counts of its children, each
/// counted over its own whole tree, so an error at any depth is counted once; no child holds
/// more errors than the tree it is in.
pub proof fn law_errors_counted_at_every_depth(e: FsEntry)
    ensures
        error_total(e) == e.errors@.len() + subtree_errors(e.children@),
        forall|i: int| 0 <= i < e.children@.len() ==> error_total(#[trigger] e.children@[i]) <= error_total(e),
{
    let n = e.children@.len() as int;
    lemma_children_error_total_prefix(e, n);
    assert(e.children@.take(n) =~= e.children@);
    assert forall|i: int| 0 <= i < n implies error_total(#[trigger] e.children@[i]) <= error_total(e) by {
        lemma_children_error_total_mono(e, i + 1, n);
    }
}

proof fn lemma_children_error_total_mono(e: FsEntry, i: int, j: int)
    requires
        0 <= i <= j <= e.children@.len(),
    ensures
        children_error_total(e, i) <= children_error_total(e, j),
    decreases j - i,
{
    if i < j {
        lemma_children_error_total_mono(e, i, j - 1);
    }
}

/// The number of scan errors recorded in `entry` and in all entries below it.
pub fn count_errors(entry: &FsEntry) -> (n: usize)
    requires
        error_total(*entry) <= usize::MAX,
    ensures
        n == error_total(*entry),
    decreases entry,
{
    let mut total: usize = entry.errors.len();
    let mut i: usize = 0;
    while i < entry.children.len()
        invariant
            i <= entry.children@.len(),
            error_total(*entry) <= usize::MAX,
            total == entry.errors@.len() + children_error_total(*entry, i as int),
        decreases entry.children@.len() - i,
    {
        proof {
            assert(decreases_to!(entry => entry.children));
            assert(decreases_to!(entry.children => entry.children@));
            assert(decreases_to!(entry.children@ => entry.children@[i as int]));
            lemma_children_error_total_mono(*entry, i + 1, entry.children@.len() as int);
        }
        let below = count_errors(&entry.children[i]);
        total = total + below;
        i = i + 1;
    }
    total
}

/// The number of scan errors recorded in `entry` and below it, or nothing when that number
/// does not fit in a `usize`.
pub fn checked_count_errors(entry: &FsEntry) -> (n: Option<usize>)
    ensures
        n == (if error_total(*entry) <= usize::MAX { Some(error_total(*entry) as usize) } else { None::<usize> }),
    decreases entry,
{
    let mut total: usize = entry.errors.len();
    let mut i: usize = 0;
    while i < entry.children.len()
        invariant
            i <= entry.children@.len(),
            total == entry.errors@.len() + children_error_total(*entry, i as int),
        decreases entry.children@.len() - i,
    {
        proof {
            assert(decreases_to!(entry => entry.children));
            assert(decreases_to!(entry.children => entry.children@));
            assert(decreases_to!(entry.children@ => entry.children@[i as int]));
            lemma_children_error_total_mono(*entry, i + 1, entry.children@.len() as int);
        }
        let below = checked_count_errors(&entry.children[i]);
        match below {
            Some(b) => {
                if total > usize::MAX - b {
                    return None;
                }
                total = total + b;
            },
            None => {
                return None;
            },
        }
        i = i + 1;
    }
    Some(total)
}

/// The kind of entry that metadata describes: files and symbolic links are leaves, anything
/// else is read as a directory.
pub fn kind_from_metadata(is_file: bool, is_symlink: bool) -> (k: EntryKind)
    ensures
        k == (if is_file || is_symlink { EntryKind::File } else { EntryKind::Directory }),
{
    if is_file || is_symlink {
        EntryKind::File
    } else {
        EntryKind::Directory
    }
}

/// The name shown for the entry at `path`: its last component, or the whole path where it has
/// none.
pub fn entry_name(path: &str) -> (name: String)
    ensures
        name@ == (match path_file_name_of(path@) {
            Some(n) => n,
            None => path@,
        }),
{
    match file_name_of(path) {
        Some(n) => n,
        None => String::from_str(path),
    }
}

/// Why a path could not be scanned.
pub enum ScanError {
    /// The path does not exist.
    NotFound(String),
    /// Its metadata could not be read; `source` describes the failure.
    Metadata { path: String, source: String },
}

/// The text of a scan error.
pub open spec fn scan_error_text(e: ScanError) -> Seq<char> {
    match e {
        ScanError::NotFound(p) => "path does not exist: "@ + p@,
        ScanError::Metadata { path, source } => "failed to read metadata for "@ + path@ + ": "@ + source@,
    }
}

impl ScanError {
    /// The message that describes this error.
    pub fn message(&self) -> (m: String)
        ensures
            m@ == scan_error_text(*self),
    {
        match self {
            ScanError::NotFound(p) => {
                let mut m = String::from_str("path does not exist: ");
                push_str(&mut m, p.as_str());
                m
            },
            ScanError::Metadata { path, source } => {
                let mut m = String::from_str("failed to read metadata for ");
                push_str(&mut m, path.as_str());
                push_str(&mut m, ": ");
                push_str(&mut m, source.as_str());
                m
            },
        }
    }
}

/// The error recorded when an entry of a directory listing could not be read.
pub fn entry_read_error(detail: &str) -> (m: String)
    ensures
        m@ == "failed to read directory entry: "@ + detail@,
{
    let mut m = String::from_str("failed to read directory entry: ");
    push_str(&mut m, detail);
    m
}

/// The error recorded when the directory at `path` could not be listed.
pub fn directory_read_error(path: &str, detail: &str) -> (m: String)
    ensures
        m@ == "failed to read directory "@ + path@ + ": "@ + detail@,
{
    let mut m = String::from_str("failed to read directory ");
    push_str(&mut m, path);
    push_str(&mut m, ": ");
    push_str(&mut m, detail);
    m
}

} // verus!
