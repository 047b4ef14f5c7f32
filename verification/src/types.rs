//! The explorer's data: directory entries, the clipboard, modal dialogs and
//! the remembered position in each visited folder.
use vstd::prelude::*;

verus! {

/// One item of a directory listing: a file or a folder.
#[derive(Debug)]
pub struct EntryItem {
    pub name: String,
    pub path: String,
    pub is_dir: bool,
    pub is_file: bool,
}

pub struct EntryView {
    pub name: Seq<char>,
    pub path: Seq<char>,
    pub is_dir: bool,
    pub is_file: bool,
}

impl View for EntryItem {
    type V = EntryView;

    open spec fn view(&self) -> EntryView {
        EntryView { name: self.name@, path: self.path@, is_dir: self.is_dir, is_file: self.is_file }
    }
}

impl EntryItem {
    /// A copy of the item.
    pub fn duplicate(&self) -> (r: EntryItem)
        ensures
            r@ == self@,
    {
        EntryItem {
            name: self.name.clone(),
            path: self.path.clone(),
            is_dir: self.is_dir,
            is_file: self.is_file,
        }
    }
}

pub open spec fn entry_views(v: Seq<EntryItem>) -> Seq<EntryView> {
    v.map_values(|e: EntryItem| e@)
}

/// A copy of a list of entries.
pub fn duplicate_entries(v: &Vec<EntryItem>) -> (r: Vec<EntryItem>)
    ensures
        entry_views(r@) == entry_views(v@),
{
    let mut r: Vec<EntryItem> = Vec::new();
    let n = v.len();
    for i in 0..n
        invariant
            n == v@.len(),
            entry_views(r@) == entry_views(v@).take(i as int),
    {
        r.push(v[i].duplicate());
        assert(entry_views(v@).take(i + 1) == entry_views(v@).take(i as int).push(v@[i as int]@));
    }
    assert(entry_views(v@).take(n as int) == entry_views(v@));
    r
}

/// Whether a pasted item is copied or moved.
#[derive(Clone, Copy, Debug, PartialEq, Eq, Structural)]
pub enum ClipboardMode {
    Copy,
    Cut,
}

/// The item on the clipboard: its path and what pasting does with it.
#[derive(Debug)]
pub struct ClipboardItem {
    pub source: String,
    pub mode: ClipboardMode,
}

pub struct ClipboardView {
    pub source: Seq<char>,
    pub mode: ClipboardMode,
}

impl View for ClipboardItem {
    type V = ClipboardView;

    open spec fn view(&self) -> ClipboardView {
        ClipboardView { source: self.source@, mode: self.mode }
    }
}

impl ClipboardItem {
    /// A copy of the clipboard item.
    pub fn duplicate(&self) -> (r: ClipboardItem)
        ensures
            r@ == self@,
    {
        ClipboardItem { source: self.source.clone(), mode: self.mode }
    }
}

pub open spec fn option_clipboard_view(c: Option<ClipboardItem>) -> Option<ClipboardView> {
    match c {
        Some(item) => Some(item@),
        None => None,
    }
}

/// Where the cursor and the scroll window were in a folder.
#[derive(Clone, Copy, PartialEq, Eq, Structural)]
pub struct NavigationState {
    pub selected: usize,
    pub scroll_offset: usize,
}

/// A dialog that takes over the keyboard: the help screen or the question
/// whether an item should be deleted.
#[derive(Debug)]
pub enum Modal {
    Help,
    ConfirmDelete { path: String, label: String },
}

pub enum ModalView {
    Help,
    ConfirmDelete { path: Seq<char>, label: Seq<char> },
}

impl View for Modal {
    type V = ModalView;

    open spec fn view(&self) -> ModalView {
        match self {
            Modal::Help => ModalView::Help,
            Modal::ConfirmDelete { path, label } => ModalView::ConfirmDelete {
                path: path@,
                label: label@,
            },
        }
    }
}

impl Modal {
    /// A copy of the dialog.
    pub fn duplicate(&self) -> (r: Modal)
        ensures
            r@ == self@,
    {
        match self {
            Modal::Help => Modal::Help,
            Modal::ConfirmDelete { path, label } => Modal::ConfirmDelete {
                path: path.clone(),
                label: label.clone(),
            },
        }
    }
}

pub open spec fn option_modal_view(m: Option<Modal>) -> Option<ModalView> {
    match m {
        Some(modal) => Some(modal@),
        None => None,
    }
}

/// The remembered position of every visited folder, one record per folder.
pub struct NavigationHistory {
    pub records: Vec<(String, NavigationState)>,
}

pub open spec fn record_keys(s: Seq<(String, NavigationState)>) -> Seq<Seq<char>> {
    s.map_values(|r: (String, NavigationState)| r.0@)
}

impl NavigationHistory {
    /// No folder appears twice.
    pub open spec fn wf(&self) -> bool {
        record_keys(self.records@).no_duplicates()
    }

    /// The history as a map from folder to remembered position.
    pub open spec fn view(&self) -> Map<Seq<char>, NavigationState> {
        Map::new(
            |k: Seq<char>| record_keys(self.records@).contains(k),
            |k: Seq<char>|
                self.records@[record_keys(self.records@).index_of(k)].1,
        )
    }

    /// An empty history.
    pub fn new() -> (r: NavigationHistory)
        ensures
            r.wf(),
            r.view() == Map::<Seq<char>, NavigationState>::empty(),
    {
        let r = NavigationHistory { records: Vec::new() };
        assert(record_keys(r.records@) == Seq::<Seq<char>>::empty());
        assert(r.view() =~= Map::<Seq<char>, NavigationState>::empty());
        r
    }

    fn position(&self, key: &String) -> (r: Option<usize>)
        requires
            self.wf(),
        ensures
            match r {
                Some(i) => i < self.records@.len() && record_keys(self.records@)[i as int]
                    == key@,
                None => !record_keys(self.records@).contains(key@),
            },
    {
        let n = self.records.len();
        for i in 0..n
            invariant
                n == self.records@.len(),
                forall|j: int| 0 <= j < i ==> record_keys(self.records@)[j] != key@,
        {
            if self.records[i].0 == *key {
                return Some(i);
            }
        }
        None
    }

    /// The position remembered for `key`, if any.
    pub fn get(&self, key: &String) -> (r: Option<NavigationState>)
        requires
            self.wf(),
        ensures
            r == (if self.view().dom().contains(key@) {
                Some(self.view()[key@])
            } else {
                None
            }),
    {
        match self.position(key) {
            Some(i) => {
                proof {
                    let ks = record_keys(self.records@);
                    assert(ks.contains(key@));
                    ks.index_of_first_ensures(key@);
                    assert(ks[ks.index_of(key@)] == key@);
                    assert(ks.index_of(key@) == i as int);
                }
                Some(self.records[i].1)
            },
            None => None,
        }
    }

    /// Remembers `state` for `key`, replacing what was remembered before.
    pub fn insert(&mut self, key: String, state: NavigationState)
        requires
            old(self).wf(),
        ensures
            final(self).wf(),
            final(self).view() == old(self).view().insert(key@, state),
    {
        let ghost old_records = self.records@;
        let ghost k = key@;
        match self.position(&key) {
            Some(i) => {
                self.records.set(i, (key, state));
                proof {
                    let ks0 = record_keys(old_records);
                    let ks = record_keys(self.records@);
                    assert(ks =~= ks0);
                    assert forall|j: Seq<char>| ks.contains(j) implies
                        self.records@[ks.index_of(j)].1 == (if j == k { state } else { old_records[ks0.index_of(j)].1 }) by {
                        ks.index_of_first_ensures(j);
                        if j == k {
                            assert(ks[i as int] == k);
                            assert(ks.index_of(j) == i as int);
                        } else {
                            assert(ks.index_of(j) != i as int);
                        }
                    }
                    assert(self.view() =~= old(self).view().insert(k, state));
                }
            },
            None => {
                self.records.push((key, state));
                proof {
                    let ks0 = record_keys(old_records);
                    let ks = record_keys(self.records@);
                    assert(ks =~= ks0.push(k));
                    assert forall|a: int, b: int| 0 <= a < ks.len() && 0 <= b < ks.len() && a != b implies ks[a] != ks[b] by {
                        if a < ks0.len() && b < ks0.len() {
                        } else if a == ks0.len() {
                            assert(ks0.contains(ks[b]) || b == a);
                        } else {
                            assert(ks0.contains(ks[a]));
                        }
                    }
                    assert forall|j: Seq<char>| ks.contains(j) implies
                        self.records@[ks.index_of(j)].1 == (if j == k { state } else { old_records[ks0.index_of(j)].1 }) by {
                        ks.index_of_first_ensures(j);
                        if j == k {
                            assert(ks[ks0.len() as int] == k);
                            assert(ks.index_of(j) == ks0.len() as int);
                        } else {
                            let x = ks.index_of(j);
                            assert(x < ks0.len());
                            assert(ks0.contains(j));
                            ks0.index_of_first_ensures(j);
                            assert(ks0[x] == j);
                            assert(ks0.index_of(j) == x);
                        }
                    }
                    assert forall|j: Seq<char>| ks.contains(j) <==> (ks0.contains(j) || j == k) by {
                        if ks0.contains(j) {
                            let x = choose|x: int| 0 <= x < ks0.len() && ks0[x] == j;
                            assert(ks[x] == j);
                        }
                        if j == k {
                            assert(ks[ks0.len() as int] == j);
                        }
                    }
                    assert(self.view() =~= old(self).view().insert(k, state));
                }
            },
        }
    }
}

} // verus!
