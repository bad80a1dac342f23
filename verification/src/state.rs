use vstd::prelude::*;
use crate::entry::{EntryKind, FsEntry, same_tree};
use crate::path::{path_matches, path_parent_of, parent_path, same_path};

verus! {

/// The navigation state of a scanned tree: the tree, the directory shown, the selected row and
/// the first visible row.
pub struct AppState {
    pub root: FsEntry,
    pub current_dir: String,
    pub selected_index: usize,
    pub scroll_offset: usize,
}

/// A navigation state as plain values: the tree, the shown directory as text, the selected row
/// and the first visible row.
pub type StateV = (FsEntry, Seq<char>, usize, usize);

impl View for AppState {
    type V = StateV;

    open spec fn view(&self) -> StateV {
        (self.root, self.current_dir@, self.selected_index, self.scroll_offset)
    }
}

/// The first entry, in depth-first order from `e`, whose path is the path `p`.
pub open spec fn find_in(e: FsEntry, p: Seq<char>) -> Option<FsEntry>
    decreases e, e.children@.len() + 1,
{
    if path_matches(e.path@, p) {
        Some(e)
    } else {
        find_in_children(e, p, 0)
    }
}

/// The first entry, in depth-first order from the children `i..` of `e`, whose path is `p`.
pub open spec fn find_in_children(e: FsEntry, p: Seq<char>, i: int) -> Option<FsEntry>
    decreases e, if i < 0 { e.children@.len() + 1 } else if i > e.children@.len() { 0 } else { (e.children@.len() - i) as nat },
{
    if i < 0 || i >= e.children@.len() {
        None
    } else {
        proof {
            assert(decreases_to!(e => e.children));
            assert(decreases_to!(e.children => e.children@));
            assert(decreases_to!(e.children@ => e.children@[i]));
        }
        match find_in(e.children@[i], p) {
            Some(found) => Some(found),
            None => find_in_children(e, p, i + 1),
        }
    }
}

/// The entry of the shown directory.
pub open spec fn current_entry_spec(v: StateV) -> Option<FsEntry> {
    find_in(v.0, v.1)
}

/// The entries listed in the shown directory: its children, or none when it is not in the tree.
pub open spec fn children_spec(v: StateV) -> Seq<FsEntry> {
    match current_entry_spec(v) {
        Some(e) => e.children@,
        None => Seq::empty(),
    }
}

/// The selected entry, if the selection points at one.
pub open spec fn selected_spec(v: StateV) -> Option<FsEntry> {
    if v.2 < children_spec(v).len() {
        Some(children_spec(v)[v.2 as int])
    } else {
        None
    }
}

/// The selection points at a listed entry, or there is nothing to select and it is zero.
pub open spec fn selection_valid(v: StateV) -> bool {
    if children_spec(v).len() == 0 {
        v.2 == 0
    } else {
        v.2 < children_spec(v).len()
    }
}

/// The state after the selection is pulled back onto the list.
pub open spec fn clamp_spec(v: StateV) -> StateV {
    let len = children_spec(v).len();
    if len == 0 {
        (v.0, v.1, 0, v.3)
    } else if v.2 >= len {
        (v.0, v.1, (len - 1) as usize, v.3)
    } else {
        v
    }
}

/// The state after selecting the previous row, if there is one.
pub open spec fn up_spec(v: StateV) -> StateV {
    (v.0, v.1, if v.2 > 0 { (v.2 - 1) as usize } else { v.2 }, v.3)
}

/// The state after selecting the next row, if there is one.
pub open spec fn down_spec(v: StateV) -> StateV {
    let len = children_spec(v).len();
    (v.0, v.1, if len > 0 && v.2 + 1 < len { (v.2 + 1) as usize } else { v.2 }, v.3)
}

/// The state after moving the selection `amount` rows up, stopping at the first row.
pub open spec fn page_up_spec(v: StateV, amount: int) -> StateV {
    (v.0, v.1, if v.2 >= amount { (v.2 - amount) as usize } else { 0usize }, v.3)
}

/// The state after moving the selection `amount` rows down, stopping at the last row; with no
/// rows nothing changes.
pub open spec fn page_down_spec(v: StateV, amount: int) -> StateV {
    let len = children_spec(v).len();
    (v.0, v.1, if len == 0 {
        v.2
    } else if v.2 + amount <= len - 1 {
        (v.2 + amount) as usize
    } else {
        (len - 1) as usize
    }, v.3)
}

/// The state after selecting the first row.
pub open spec fn top_spec(v: StateV) -> StateV {
    (v.0, v.1, 0usize, v.3)
}

/// The state after selecting the last row, if there is one.
pub open spec fn bottom_spec(v: StateV) -> StateV {
    let len = children_spec(v).len();
    (v.0, v.1, if len > 0 { (len - 1) as usize } else { v.2 }, v.3)
}

/// The state after opening the selected entry: a directory becomes the shown directory, with
/// the first row selected and shown; a file, or no selection, changes nothing.
pub open spec fn enter_spec(v: StateV) -> StateV {
    match selected_spec(v) {
        Some(c) => if c.kind == EntryKind::Directory {
            clamp_spec((v.0, c.path@, 0, 0))
        } else {
            v
        },
        None => v,
    }
}

/// The state after going to the parent directory: nothing changes at the root of the tree or
/// where the path has no parent; otherwise the parent is shown, first row selected and shown.
pub open spec fn parent_spec(v: StateV) -> StateV {
    if path_matches(v.1, v.0.path@) {
        v
    } else {
        match path_parent_of(v.1) {
            Some(p) => clamp_spec((v.0, p, 0, 0)),
            None => v,
        }
    }
}

/// The state after the viewport of `viewport_items` rows is scrolled just enough to show the
/// selection; a viewport of no rows changes nothing.
pub open spec fn visible_spec(v: StateV, viewport_items: int) -> StateV {
    if viewport_items == 0 {
        v
    } else if v.2 < v.3 {
        (v.0, v.1, v.2, v.2)
    } else if v.2 >= v.3 + viewport_items {
        (v.0, v.1, v.2, (v.2 + 1 - viewport_items) as usize)
    } else {
        v
    }
}

/// The first entry, depth-first from `root`, whose path is `path`.
fn find_entry<'a>(root: &'a FsEntry, path: &String) -> (res: Option<&'a FsEntry>)
    ensures
        match res {
            Some(r) => find_in(*root, path@) == Some(*r),
            None => find_in(*root, path@) is None,
        },
    decreases root,
{
    if same_path(root.path.as_str(), path.as_str()) {
        return Some(root);
    }
    let mut i: usize = 0;
    while i < root.children.len()
        invariant
            i <= root.children@.len(),
            !path_matches(root.path@, path@),
            find_in(*root, path@) == find_in_children(*root, path@, i as int),
        decreases root.children@.len() - i,
    {
        proof {
            assert(decreases_to!(root => root.children));
            assert(decreases_to!(root.children => root.children@));
            assert(decreases_to!(root.children@ => root.children@[i as int]));
        }
        let found = find_entry(&root.children[i], path);
        if found.is_some() {
            return found;
        }
        i = i + 1;
    }
    None
}

impl Clone for AppState {
    /// A deep copy of the state.
    fn clone(&self) -> (res: Self)
        ensures
            same_tree(self.root, res.root),
            res.current_dir@ == self.current_dir@,
            res.selected_index == self.selected_index,
            res.scroll_offset == self.scroll_offset,
    {
        AppState {
            root: self.root.clone(),
            current_dir: self.current_dir.clone(),
            selected_index: self.selected_index,
            scroll_offset: self.scroll_offset,
        }
    }
}

impl AppState {
    /// A state that shows the root of `root`, first row selected and shown.
    pub fn new(root: FsEntry) -> (s: AppState)
        ensures
            s@ == (root, root.path@, 0usize, 0usize),
            current_entry_spec(s@) == Some(root),
    {
        let current_dir = root.path.clone();
        AppState { root, current_dir, selected_index: 0, scroll_offset: 0 }
    }

    /// The entry of the shown directory, if the tree holds it.
    pub fn current_entry(&self) -> (res: Option<&FsEntry>)
        ensures
            match res {
                Some(r) => current_entry_spec(self@) == Some(*r),
                None => current_entry_spec(self@) is None,
            },
    {
        find_entry(&self.root, &self.current_dir)
    }

    /// The entries listed in the shown directory.
    pub fn current_children(&self) -> (res: &[FsEntry])
        ensures
            res@ == children_spec(self@),
    {
        match self.current_entry() {
            Some(e) => e.children.as_slice(),
            None => {
                let empty: &[FsEntry] = &[];
                assert(empty@ =~= Seq::<FsEntry>::empty());
                empty
            },
        }
    }

    /// The selected entry, if the selection points at one.
    pub fn selected_child(&self) -> (res: Option<&FsEntry>)
        ensures
            match res {
                Some(r) => selected_spec(self@) == Some(*r),
                None => selected_spec(self@) is None,
            },
    {
        let children = self.current_children();
        if self.selected_index < children.len() {
            Some(&children[self.selected_index])
        } else {
            None
        }
    }

    /// Selects the previous row, if there is one.
    pub fn move_up(&mut self)
        ensures
            final(self)@ == up_spec(old(self)@),
    {
        if self.selected_index > 0 {
            self.selected_index -= 1;
        }
    }

    /// Selects the next row, if there is one.
    pub fn move_down(&mut self)
        requires
            children_spec(old(self)@).len() > 0 ==> old(self).selected_index < usize::MAX,
        ensures
            final(self)@ == down_spec(old(self)@),
    {
        let max = self.current_children().len();
        if max > 0 && self.selected_index + 1 < max {
            self.selected_index += 1;
        }
    }

    /// Moves the selection `amount` rows up, stopping at the first row.
    pub fn move_page_up(&mut self, amount: usize)
        ensures
            final(self)@ == page_up_spec(old(self)@, amount as int),
    {
        self.selected_index = self.selected_index.saturating_sub(amount);
    }

    /// Moves the selection `amount` rows down, stopping at the last row.
    pub fn move_page_down(&mut self, amount: usize)
        requires
            children_spec(old(self)@).len() > 0 ==> old(self).selected_index + amount <= usize::MAX,
        ensures
            final(self)@ == page_down_spec(old(self)@, amount as int),
    {
        let len = self.current_children().len();
        if len == 0 {
            return;
        }
        let target = self.selected_index + amount;
        self.selected_index = if target < len - 1 { target } else { len - 1 };
    }

    /// Selects the first row.
    pub fn move_top(&mut self)
        ensures
            final(self)@ == top_spec(old(self)@),
    {
        self.selected_index = 0;
    }

    /// Selects the last row, if there is one.
    pub fn move_bottom(&mut self)
        ensures
            final(self)@ == bottom_spec(old(self)@),
    {
        let len = self.current_children().len();
        if len > 0 {
            self.selected_index = len - 1;
        }
    }

    /// Pulls the selection back onto the list of the shown directory.
    pub fn clamp_selection(&mut self)
        ensures
            final(self)@ == clamp_spec(old(self)@),
            selection_valid(final(self)@),
    {
        let len = self.current_children().len();
        if len == 0 {
            self.selected_index = 0;
        } else if self.selected_index >= len {
            self.selected_index = len - 1;
        }
    }

    /// Opens the selected entry when it is a directory.
    pub fn enter_selected(&mut self)
        ensures
            final(self)@ == enter_spec(old(self)@),
    {
        let next_path = match self.selected_child() {
            Some(e) => if e.kind == EntryKind::Directory {
                Some(e.path.clone())
            } else {
                None
            },
            None => None,
        };
        if let Some(path) = next_path {
            self.current_dir = path;
            self.selected_index = 0;
            self.scroll_offset = 0;
            self.clamp_selection();
        }
    }

    /// Shows the parent of the shown directory, unless it is the root of the tree.
    pub fn go_parent(&mut self)
        ensures
            final(self)@ == parent_spec(old(self)@),
    {
        if same_path(self.current_dir.as_str(), self.root.path.as_str()) {
            return;
        }
        if let Some(parent) = parent_path(self.current_dir.as_str()) {
            self.current_dir = parent;
            self.selected_index = 0;
            self.scroll_offset = 0;
            self.clamp_selection();
        }
    }

    /// Scrolls a viewport of `viewport_items` rows just enough to show the selection.
    pub fn ensure_visible(&mut self, viewport_items: usize)
        requires
            viewport_items > 0 && old(self).selected_index >= old(self).scroll_offset ==> old(self).scroll_offset
                + viewport_items <= usize::MAX,
            viewport_items > 0 && old(self).selected_index >= old(self).scroll_offset + viewport_items
                ==> old(self).selected_index < usize::MAX,
        ensures
            final(self)@ == visible_spec(old(self)@, viewport_items as int),
    {
        if viewport_items == 0 {
            return;
        }
        if self.selected_index < self.scroll_offset {
            self.scroll_offset = self.selected_index;
        } else {
            let end = self.scroll_offset + viewport_items;
            if self.selected_index >= end {
                self.scroll_offset = self.selected_index + 1 - viewport_items;
            }
        }
    }
}

/// Every navigation step keeps a valid selection valid, and pulling the selection back always
/// leaves it valid.
pub proof fn law_navigation_keeps_selection_valid(v: StateV, amount: int)
    requires
        amount >= 0,
    ensures
        selection_valid(v) ==> selection_valid(up_spec(v)),
        selection_valid(v) ==> selection_valid(down_spec(v)),
        selection_valid(v) ==> selection_valid(page_up_spec(v, amount)),
        selection_valid(v) ==> selection_valid(page_down_spec(v, amount)),
        selection_valid(v) ==> selection_valid(top_spec(v)),
        selection_valid(v) ==> selection_valid(bottom_spec(v)),
        selection_valid(clamp_spec(v)),
        selection_valid(v) ==> selection_valid(enter_spec(v)),
        selection_valid(v) ==> selection_valid(parent_spec(v)),
{
    if let Some(c) = selected_spec(v) {
        if c.kind == EntryKind::Directory {
            lemma_clamp_valid((v.0, c.path@, 0, 0));
        }
    }
    lemma_clamp_valid(v);
    if !path_matches(v.1, v.0.path@) {
        if let Some(p) = path_parent_of(v.1) {
            lemma_clamp_valid((v.0, p, 0, 0));
        }
    }
}

/// The state after `n` presses of Up.
pub open spec fn repeat_up(v: StateV, n: nat) -> StateV
    decreases n,
{
    if n == 0 {
        v
    } else {
        up_spec(repeat_up(v, (n - 1) as nat))
    }
}

/// Page Up by `amount` moves the selection from row `i` to row `i - amount`, or to the first
/// row when fewer than `amount` rows lie above it, and changes nothing else: it goes exactly as
/// far as `amount` presses of Up.
pub proof fn law_page_up_moves_by_amount(v: StateV, amount: nat)
    ensures
        v.2 >= amount ==> page_up_spec(v, amount as int).2 == v.2 - amount,
        v.2 < amount ==> page_up_spec(v, amount as int).2 == 0,
        page_up_spec(v, amount as int).0 == v.0,
        page_up_spec(v, amount as int).1 == v.1,
        page_up_spec(v, amount as int).3 == v.3,
        page_up_spec(v, amount as int) == repeat_up(v, amount),
    decreases amount,
{
    if amount > 0 {
        law_page_up_moves_by_amount(v, (amount - 1) as nat);
    }
}

/// Opening a selected directory shows that directory with its first row selected and shown,
/// whatever row was selected before, and keeps the tree.
pub proof fn law_enter_directory_starts_at_top(v: StateV)
    requires
        selected_spec(v) matches Some(c) && c.kind == EntryKind::Directory,
    ensures
        enter_spec(v).0 == v.0,
        enter_spec(v).1 == selected_spec(v)->Some_0.path@,
        enter_spec(v).2 == 0,
        enter_spec(v).3 == 0,
{
}

proof fn lemma_clamp_valid(v: StateV)
    ensures
        selection_valid(clamp_spec(v)),
        children_spec(clamp_spec(v)) == children_spec(v),
{
    assert(current_entry_spec(clamp_spec(v)) == current_entry_spec(v));
}

/// Going to the parent from the root of the tree changes nothing.
pub proof fn law_parent_at_root_stays(v: StateV)
    requires
        path_matches(v.1, v.0.path@),
    ensures
        parent_spec(v) == v,
{
}

/// Opening a file changes nothing.
pub proof fn law_enter_file_changes_nothing(v: StateV)
    requires
        selected_spec(v) matches Some(c) && c.kind == EntryKind::File,
    ensures
        enter_spec(v) == v,
{
}

/// Opening a child directory and then going to the parent shows the directory again, with
/// the first row selected and shown, where the child's path has the shown directory as its
/// parent and is not the root's path.
pub proof fn law_enter_then_parent_returns(v: StateV)
    requires
        selected_spec(v) matches Some(c) && c.kind == EntryKind::Directory && !path_matches(c.path@, v.0.path@)
            && path_parent_of(c.path@) == Some(v.1),
    ensures
        parent_spec(enter_spec(v)) == (v.0, v.1, 0usize, 0usize),
{
    let c = selected_spec(v)->Some_0;
    lemma_clamp_valid((v.0, c.path@, 0, 0));
    let w = enter_spec(v);
    assert(w == (v.0, c.path@, 0usize, 0usize));
    lemma_clamp_valid((v.0, v.1, 0, 0));
}

/// After scrolling a viewport of at least one row, the selection lies in it.
pub proof fn law_scroll_shows_selection(v: StateV, viewport_items: int)
    requires
        viewport_items > 0,
    ensures
        visible_spec(v, viewport_items).3 <= v.2 < visible_spec(v, viewport_items).3 + viewport_items,
        visible_spec(v, viewport_items).2 == v.2,
{
}

} // verus!