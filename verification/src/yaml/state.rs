//! What one shell knows of a history, and what becomes of it.
use super::cache::{oldest_first, with_items};
use super::deletion_scope::DeletionScope;
use super::file::{no_file_id, FileId, FileState};
use super::item_list::{has_text, keep_last, without_text};
use crate::api::ItemView;
use crate::timestamp::{Timestamp, NANOS_PER_SEC};
use vstd::prelude::*;

verus! {

/// We try to vacuum every so many saves.
pub const VACUUM_FREQUENCY: usize = 25;

/// When we rewrite the history, the number of items we keep.
pub const HISTORY_SAVE_MAX: usize = 262_144;

/// What one shell knows of a history.
#[verifier::ext_equal]
pub struct HistoryState {
    pub name: Seq<char>,
    pub directory: Option<Seq<char>>,
    pub new_items: Seq<ItemView>,
    pub first_unwritten: int,
    pub deleted: Map<Seq<char>, DeletionScope>,
    pub file: Option<FileState>,
    pub file_id: FileId,
    pub countdown: Option<usize>,
    pub boundary: Timestamp,
}

impl HistoryState {
    /// What holds of every history: the mark between written and unwritten items lies within the new
    /// items, none of which is empty, and the countdown stays below its start.
    pub open spec fn wf(self) -> bool {
        &&& 0 <= self.first_unwritten <= self.new_items.len()
        &&& forall|i: int|
            0 <= i < self.new_items.len() ==> (#[trigger] self.new_items[i]).contents.len() > 0
        &&& self.countdown is Some ==> self.countdown->0 < VACUUM_FREQUENCY
    }

    /// The new items that were not written yet.
    pub open spec fn unwritten(self) -> Seq<ItemView> {
        self.new_items.skip(self.first_unwritten)
    }

    /// A history that nothing happened to yet.
    pub open spec fn fresh(
        name: Seq<char>,
        directory: Option<Seq<char>>,
        now: Timestamp,
    ) -> HistoryState {
        HistoryState {
            name,
            directory,
            new_items: Seq::empty(),
            first_unwritten: 0,
            deleted: Map::empty(),
            file: None,
            file_id: no_file_id(),
            countdown: None,
            boundary: now,
        }
    }

    /// The same without what is known of the file.
    pub open spec fn forget_file(self) -> HistoryState {
        HistoryState { file: None, ..self }
    }
}

/// The second of `time` is that of `boundary`. Before the epoch all times count as one second.
pub open spec fn same_second(time: Timestamp, boundary: Timestamp) -> bool {
    time.spec_epoch_secs() == boundary.spec_epoch_secs()
}

/// `time`, or a second later where it falls into the second of `boundary`.
pub open spec fn nudged(time: Timestamp, boundary: Timestamp) -> int {
    if same_second(time, boundary) {
        time.nanos + NANOS_PER_SEC
    } else {
        time.nanos as int
    }
}

/// What a [`SaveAction`] says.
pub enum SaveActionView {
    Finished,
    ResolvePath { vacuum: bool },
    Append { path: Seq<char> },
    Rewrite { path: Seq<char> },
}

impl HistoryState {
    /// The history takes `item` as a new item of its own: it has a text, and not that of the last one.
    pub open spec fn takes(self, item: ItemView) -> bool {
        &&& item.contents.len() > 0
        &&& self.new_items.len() > 0 ==> self.new_items.last().contents != item.contents
    }

    /// The time that `item` comes to have, in nanoseconds: that of a new item is nudged, and where it is
    /// merged with the last one, the later of the two is, unless the boundary lies before the epoch.
    pub open spec fn joined_nanos(self, item: ItemView) -> int {
        if self.takes(item) {
            nudged(item.creation_timestamp, self.boundary)
        } else {
            let later = self.new_items.last().creation_timestamp.spec_later(item.creation_timestamp);
            if self.boundary.nanos >= 0 {
                nudged(later, self.boundary)
            } else {
                later.nanos as int
            }
        }
    }

    /// What stands at the end once `item` was added.
    pub open spec fn joined(self, item: ItemView) -> ItemView {
        ItemView {
            contents: item.contents,
            creation_timestamp: Timestamp { nanos: self.joined_nanos(item) as i128 },
        }
    }

    /// The history once `item` was added: an empty one is skipped, one with the text of the last one is
    /// merged with it, and any other stands at the end.
    pub open spec fn with_new_item(self, item: ItemView) -> HistoryState {
        if item.contents.len() == 0 {
            self
        } else if self.takes(item) {
            HistoryState { new_items: self.new_items.push(self.joined(item)), ..self }
        } else {
            HistoryState {
                new_items: self.new_items.update(self.new_items.len() - 1, self.joined(item)),
                ..self
            }
        }
    }

    /// The history without duplicates among its new items: the most recent ones stay.
    pub open spec fn compacted(self) -> HistoryState {
        HistoryState {
            new_items: keep_last(self.new_items),
            first_unwritten: keep_last(self.new_items).len() - keep_last(self.unwritten()).len(),
            ..self
        }
    }

    /// There is something to save: items that were not written, or deletions.
    pub open spec fn unsaved(self) -> bool {
        self.first_unwritten < self.new_items.len() || !self.deleted.is_empty()
    }

    /// The history with all new items taken for written, and all deletions for done.
    pub open spec fn all_saved(self) -> HistoryState {
        HistoryState {
            first_unwritten: self.new_items.len() as int,
            deleted: Map::empty(),
            file: None,
            ..self
        }
    }

    /// The history when saving has begun.
    pub open spec fn saving(self) -> HistoryState {
        if !self.unsaved() {
            self
        } else if self.name.len() == 0 {
            self.compacted().all_saved()
        } else {
            self.compacted()
        }
    }

    /// What is to be done when saving has begun: nothing if nothing is unsaved, nor without a name.
    pub open spec fn saving_action(self, vacuum: bool) -> SaveActionView {
        if self.unsaved() && self.name.len() > 0 {
            SaveActionView::ResolvePath { vacuum }
        } else {
            SaveActionView::Finished
        }
    }

    /// The countdown as a save finds it, where `picked` is the start for a history without one.
    pub open spec fn countdown_from(self, picked: usize) -> usize {
        match self.countdown {
            Some(countdown) => countdown,
            None => picked,
        }
    }

    /// The history with the countdown one further.
    pub open spec fn ticked(self, picked: usize) -> HistoryState {
        HistoryState { countdown: Some(next_countdown(self.countdown_from(picked))), ..self }
    }
}

/// The countdown after a save that finds it at `countdown`: from zero it starts over.
pub open spec fn next_countdown(countdown: usize) -> usize {
    if countdown == 0 {
        (VACUUM_FREQUENCY - 1) as usize
    } else {
        (countdown - 1) as usize
    }
}

/// A save of `before`, with `picked` as the start of a countdown where there is none, leads to `after`
/// and to `action`.
pub open spec fn saved_as(
    before: HistoryState,
    picked: usize,
    action: SaveActionView,
    after: HistoryState,
) -> bool {
    &&& after == before.ticked(picked).saving()
    &&& action == before.saving_action(before.countdown_from(picked) == 0)
}

impl HistoryState {
    /// An item of the old file stays when the file is rewritten: it has a text, and was not deleted. An
    /// item that is newer than the session goes with any deletion; an older one stays if only the
    /// session was cleared.
    pub open spec fn survives(self, item: ItemView) -> bool {
        &&& item.contents.len() > 0
        &&& !(self.deleted.contains_key(item.contents) && (item.creation_timestamp.nanos
            > self.boundary.nanos || self.deleted[item.contents] == DeletionScope::AllSessions))
    }

    /// The items of an old file that stay, in order. What could not be decoded does not.
    pub open spec fn survivors(self, old_items: Seq<Option<ItemView>>) -> Seq<ItemView>
        decreases old_items.len(),
    {
        if old_items.len() == 0 {
            Seq::empty()
        } else {
            let before = self.survivors(old_items.drop_last());
            match old_items.last() {
                Some(item) => if self.survives(item) {
                    before.push(item)
                } else {
                    before
                },
                None => before,
            }
        }
    }

    /// All that could be written when the file is rewritten: what stays of the old file, then the
    /// unwritten new items.
    pub open spec fn candidates(self, old_items: Seq<Option<ItemView>>) -> Seq<ItemView> {
        self.survivors(old_items) + self.unwritten()
    }

    /// The items that a rewritten file holds, the least recently used first.
    pub open spec fn retained(self, old_items: Seq<Option<ItemView>>) -> Seq<ItemView> {
        oldest_first(with_items(HISTORY_SAVE_MAX as nat, self.candidates(old_items)))
    }
}

/// The texts of the items, deleted for the session.
pub open spec fn session_deletions(items: Seq<ItemView>) -> Map<Seq<char>, DeletionScope> {
    Map::new(|text: Seq<char>| has_text(items, text), |text: Seq<char>| DeletionScope::SessionOnly)
}

impl HistoryState {
    /// The history without the text `text`, which is deleted for all sessions.
    pub open spec fn without(self, text: Seq<char>) -> HistoryState {
        HistoryState {
            new_items: without_text(self.new_items, text),
            first_unwritten: without_text(self.new_items, text).len() - without_text(
                self.unwritten(),
                text,
            ).len(),
            deleted: self.deleted.insert(text, DeletionScope::AllSessions),
            ..self
        }
    }

    /// The history without anything in it.
    pub open spec fn emptied(self) -> HistoryState {
        HistoryState {
            new_items: Seq::empty(),
            first_unwritten: 0,
            deleted: Map::empty(),
            file: None,
            ..self
        }
    }

    /// The history without the new items, whose texts are deleted for this session.
    pub open spec fn session_cleared(self) -> HistoryState {
        HistoryState {
            new_items: Seq::empty(),
            first_unwritten: 0,
            deleted: self.deleted.union_prefer_right(session_deletions(self.new_items)),
            ..self
        }
    }
}

/// The file of the history `name` in the directory `directory`.
pub open spec fn file_in(directory: Seq<char>, name: Seq<char>) -> Seq<char> {
    directory + seq!['/'] + name + "_history"@
}

/// What an [`ItemLookup`] says.
pub enum ItemLookupView {
    Nothing,
    Item { item: ItemView },
    LoadFirst,
}

impl HistoryState {
    /// What stands at the given index: the most recent item at 1, behind the new items those of the
    /// file. Entries that could not be decoded have no index.
    pub open spec fn lookup(self, idx: int) -> ItemLookupView {
        let new = self.new_items.len();
        if idx <= 0 {
            ItemLookupView::Nothing
        } else if idx <= new {
            ItemLookupView::Item { item: self.new_items[new - idx] }
        } else {
            match self.file {
                None => ItemLookupView::LoadFirst,
                Some(file) => if idx - new <= file.items.len() {
                    ItemLookupView::Item { item: file.items[file.items.len() - (idx - new)] }
                } else {
                    ItemLookupView::Nothing
                },
            }
        }
    }
}

impl HistoryState {
    /// The history as of `now`, with nothing known of the file.
    pub open spec fn moved_to(self, now: Timestamp) -> HistoryState {
        HistoryState { boundary: now, file: None, ..self }
    }
}

impl HistoryState {
    /// What is to be done once the path of the history file is known, or is known not to be.
    pub open spec fn file_action(self, vacuum: bool, path: Option<Seq<char>>) -> SaveActionView {
        match path {
            None => SaveActionView::Finished,
            Some(path) => if vacuum || !self.deleted.is_empty() {
                SaveActionView::Rewrite { path }
            } else {
                SaveActionView::Append { path }
            },
        }
    }

    /// The history when its file was locked, and then had the ID `locked`.
    pub open spec fn with_file_locked(self, locked: FileId) -> HistoryState {
        if locked == self.file_id {
            self
        } else {
            self.forget_file()
        }
    }

    /// The history when everything unwritten was appended to the file, which then has the ID `file_id`.
    pub open spec fn appended(self, file_id: FileId) -> HistoryState {
        HistoryState { first_unwritten: self.new_items.len() as int, file_id, ..self }
    }

    /// The history when its file was read, if it could be.
    pub open spec fn loaded(self, found: Option<(FileId, FileState)>) -> HistoryState {
        match found {
            Some((file_id, file)) => HistoryState { file: Some(file), file_id, ..self },
            None => HistoryState {
                file: Some(FileState { entry_count: 0, items: Seq::empty() }),
                ..self
            },
        }
    }

    /// The history without its new items, which are in the file by now.
    pub open spec fn incorporated(self) -> HistoryState {
        HistoryState { new_items: Seq::empty(), first_unwritten: 0, ..self }
    }

    /// Whether there are no items at all, as far as that is known.
    pub open spec fn known_to_be_empty(self) -> Option<bool> {
        if self.new_items.len() > 0 {
            Some(false)
        } else {
            match self.file {
                Some(file) => Some(file.entry_count == 0),
                None => None,
            }
        }
    }
}

} // verus!
