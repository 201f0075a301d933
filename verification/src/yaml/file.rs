//! What is known of the history file.
use crate::api::{item_views, HistoryItem, ItemView};
use vstd::prelude::*;

verus! {

/// What tells one state of a file from another. Two equal IDs belong to one unchanged file.
#[derive(Clone, Copy, Debug, PartialEq, Eq, Structural)]
pub struct FileId {
    pub device: u64,
    pub inode: u64,
    pub size: u64,
    pub change_seconds: i64,
    pub change_nanoseconds: i64,
    pub mod_seconds: i64,
    pub mod_nanoseconds: i64,
}

/// The ID of no file.
pub open spec fn no_file_id() -> FileId {
    FileId {
        device: u64::MAX,
        inode: u64::MAX,
        size: u64::MAX,
        change_seconds: i64::MIN,
        change_nanoseconds: i64::MIN,
        mod_seconds: i64::MIN,
        mod_nanoseconds: i64::MIN,
    }
}

/// The ID of no file.
pub fn invalid_file_id() -> (id: FileId)
    ensures
        id == no_file_id(),
{
    FileId {
        device: u64::MAX,
        inode: u64::MAX,
        size: u64::MAX,
        change_seconds: i64::MIN,
        change_nanoseconds: i64::MIN,
        mod_seconds: i64::MIN,
        mod_nanoseconds: i64::MIN,
    }
}

/// What was found in a history file: how many entries there are, and those that could be decoded, the
/// oldest first.
#[derive(Debug, PartialEq, Eq)]
pub struct HistoryFile {
    entry_count: usize,
    items: Vec<HistoryItem>,
}

/// What is known of the contents of a history file.
#[verifier::ext_equal]
pub struct FileState {
    /// How many entries there are.
    pub entry_count: nat,
    /// The items of those that could be decoded, the oldest first.
    pub items: Seq<ItemView>,
}

/// What an entry that may have been decoded says.
pub open spec fn entry_view(entry: Option<HistoryItem>) -> Option<ItemView> {
    match entry {
        Some(item) => Some(item@),
        None => None,
    }
}

/// What each entry of a list says.
pub open spec fn entry_views(entries: Seq<Option<HistoryItem>>) -> Seq<Option<ItemView>> {
    entries.map_values(|entry: Option<HistoryItem>| entry_view(entry))
}

/// The items of the entries that could be decoded, in order.
pub open spec fn decoded(entries: Seq<Option<ItemView>>) -> Seq<ItemView>
    decreases entries.len(),
{
    if entries.len() == 0 {
        Seq::empty()
    } else {
        match entries.last() {
            Some(item) => decoded(entries.drop_last()).push(item),
            None => decoded(entries.drop_last()),
        }
    }
}

/// What is known of a file with the given entries, the oldest first.
pub open spec fn file_state(entries: Seq<Option<ItemView>>) -> FileState {
    FileState { entry_count: entries.len(), items: decoded(entries) }
}

impl View for HistoryFile {
    type V = FileState;

    closed spec fn view(&self) -> FileState {
        FileState { entry_count: self.entry_count as nat, items: item_views(self.items@) }
    }
}

impl HistoryFile {
    /// A file with the given entries, the oldest first. What could not be decoded is `None`.
    pub fn new(entries: Vec<Option<HistoryItem>>) -> (file: Self)
        ensures
            file@ == file_state(entry_views(entries@)),
    {
        let ghost all = entry_views(entries@);
        let mut items: Vec<HistoryItem> = Vec::new();
        let mut i: usize = 0;
        assert(item_views(items@) =~= decoded(all.take(0)));
        while i < entries.len()
            invariant
                i <= entries@.len(),
                all == entry_views(entries@),
                item_views(items@) == decoded(all.take(i as int)),
            decreases entries@.len() - i,
        {
            let ghost before = items@;
            assert(all.take(i + 1).drop_last() =~= all.take(i as int));
            assert(all.take(i + 1).last() == entry_view(entries@[i as int]));
            if let Some(item) = &entries[i] {
                items.push(item.clone());
                assert(item_views(items@) =~= item_views(before).push(item@));
            }
            i = i + 1;
        }
        assert(all.take(i as int) =~= all);
        HistoryFile { entry_count: entries.len(), items }
    }

    /// A file without entries.
    pub fn create_empty() -> (file: Self)
        ensures
            file@ == file_state(Seq::empty()),
    {
        let file = HistoryFile { entry_count: 0, items: Vec::new() };
        assert(file@ =~= file_state(Seq::empty()));
        file
    }

    /// Returns whether there are no entries at all.
    pub fn is_empty(&self) -> (empty: bool)
        ensures
            empty == (self@.entry_count == 0),
    {
        self.entry_count == 0
    }

    /// The number of entries that could be decoded.
    pub fn len(&self) -> (len: usize)
        ensures
            len == self@.items.len(),
    {
        assert(item_views(self.items@).len() == self.items@.len());
        self.items.len()
    }

    /// The item of the decoded entry at the given place.
    pub fn item(&self, i: usize) -> (item: HistoryItem)
        requires
            i < self@.items.len(),
        ensures
            item@ == self@.items[i as int],
    {
        assert(item_views(self.items@).len() == self.items@.len());
        self.items[i].clone()
    }
}

} // verus!
