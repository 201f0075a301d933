//! Fish supports multiple shells writing to history at once. Here is its strategy:
//!
//! 1. All history files are append-only. Data, once written, is never modified.
//!
//! 2. A history file may be re-written ("vacuumed"). This involves reading in the file and writing
//!    a new one, while performing maintenance tasks: discarding items in an LRU fashion until we
//!    reach the desired maximum count, removing duplicates, and sorting them by timestamp. The new
//!    file is atomically moved into place.
//!
//! 3. Accesses to the history file need to be synchronized.
//!
//! Everything that touches a file is the caller's part: where one is needed, a function says so in its
//! result, and a second function is told how it went.
use super::cache::{into_items, lru_cap, lru_entries, lru_new, with_items, LruCacheExt};
use super::deletion_scope::DeletionScope;
use super::file::{entry_view, entry_views, file_state, invalid_file_id, FileId, HistoryFile};
use super::item_list::{
    drop_duplicates, drop_text, has_text, is_stable_sort, keep_last, sort_by_timestamp,
    without_text,
};
use super::rewrite_laws::{counts_in, everything_counts_if_there_is_room};
use super::state::{
    file_in, nudged, saved_as, session_deletions, HistoryState, ItemLookupView,
    SaveActionView, HISTORY_SAVE_MAX, VACUUM_FREQUENCY,
};
use crate::api::{item_views, HistoryItem};
use crate::text::opt_text;
use crate::timestamp::{Timestamp, NANOS_PER_SEC};
use rand::Rng;
use vstd::hash_map::StringHashMap;
use vstd::prelude::*;
use vstd::string::*;

verus! {

/// The history of one name, as one shell knows it.
pub struct HistoryImpl {
    /// The name of the YAMLHistory parent.
    cached_name: String,
    /// Optional custom directory for the history file. If None, the data directory is used.
    custom_directory: Option<String>,
    /// New items to save to the history file. We need to keep these around so we can
    /// distinguish between items in our history and items in the history of other shells that were
    /// started after we were started.
    new_items: Vec<HistoryItem>,
    /// The index of the first new item that we have not yet written.
    first_unwritten_new_item_index: usize,
    /// Deleted item contents, and the scope of the deletion.
    deleted_items: StringHashMap<DeletionScope>,
    /// The history file contents.
    file_contents: Option<HistoryFile>,
    /// The file ID of the history file.
    history_file_id: FileId,
    /// How many items we add until the next vacuum. Initially a random value.
    countdown_to_vacuum: Option<usize>,
    /// The boundary timestamp distinguishes old items from new items. Items whose timestamps are <=
    /// the boundary are considered "old". Items whose timestamps are > the boundary are new, and are
    /// ignored by this instance (unless they came from this instance). The timestamp may be adjusted
    /// by incorporate_external_changes().
    boundary_timestamp: Timestamp,
}

impl View for HistoryImpl {
    type V = HistoryState;

    closed spec fn view(&self) -> HistoryState {
        HistoryState {
            name: self.cached_name@,
            directory: opt_text(self.custom_directory),
            new_items: item_views(self.new_items@),
            first_unwritten: self.first_unwritten_new_item_index as int,
            deleted: self.deleted_items@,
            file: match self.file_contents {
                Some(file) => Some(file@),
                None => None,
            },
            file_id: self.history_file_id,
            countdown: self.countdown_to_vacuum,
            boundary: self.boundary_timestamp,
        }
    }
}

/// Big hack: do not allow timestamps equal to our boundary date. This is because we include
/// items whose timestamps are equal to our boundary when reading old history, so we can catch
/// "just closed" items. But this means that we may interpret our own items, that we just wrote,
/// as old items, if we wrote them in the same second as our birthdate.
pub fn nudge_timestamp_if_at_boundary(time: Timestamp, boundary: Timestamp) -> (out: Timestamp)
    requires
        nudged(time, boundary) <= i128::MAX,
    ensures
        out.nanos == nudged(time, boundary),
{
    let at_boundary = match (time.epoch_secs(), boundary.epoch_secs()) {
        (Some(a), Some(b)) => a == b,
        (None, None) => true,
        _ => false,
    };
    if at_boundary {
        Timestamp { nanos: time.nanos + NANOS_PER_SEC }
    } else {
        time
    }
}

/// What the caller has to do next so that a history gets saved.
#[derive(Debug, PartialEq, Eq)]
pub enum SaveAction {
    /// Nothing.
    Finished,
    /// Find out the path of the history file, and continue with
    /// [`HistoryImpl::save_path_resolved`].
    ResolvePath { vacuum: bool },
    /// Lock the file at `path` for appending, and continue with
    /// [`HistoryImpl::save_internal_via_appending`]. If anything fails on the way, continue with
    /// [`append_failed`].
    Append { path: String },
    /// Rewrite the file at `path` with what [`HistoryImpl::rewrite_to_temporary_file`] says. Once the
    /// new file is in place, continue with [`HistoryImpl::save_internal_via_rewrite`]; if anything fails
    /// on the way, the history stays as it is.
    Rewrite { path: String },
}

impl View for SaveAction {
    type V = SaveActionView;

    open spec fn view(&self) -> SaveActionView {
        match *self {
            SaveAction::Finished => SaveActionView::Finished,
            SaveAction::ResolvePath { vacuum } => SaveActionView::ResolvePath { vacuum },
            SaveAction::Append { path } => SaveActionView::Append { path: path@ },
            SaveAction::Rewrite { path } => SaveActionView::Rewrite { path: path@ },
        }
    }
}

/// Calls `random_range` of the generator that `rand::rng` gives: a number below `limit`. Nothing else
/// holds of every outcome.
#[verifier::external_body]
fn random_below(limit: usize) -> (n: usize)
    requires
        0 < limit,
    ensures
        n < limit,
{
    rand::rng().random_range(0..limit)
}

/// The append did not work out: rewrite the file instead ("vacuum" it).
pub fn append_failed(path: String) -> (action: SaveAction)
    ensures
        action@ == (SaveActionView::Rewrite { path: path@ }),
{
    SaveAction::Rewrite { path }
}

impl HistoryImpl {
    /// A history that nothing happened to yet, as of `now`.
    pub fn new(name: String, custom_directory: Option<String>, now: Timestamp) -> (history: Self)
        ensures
            history@.wf(),
            history@ == HistoryState::fresh(name@, opt_text(custom_directory), now),
    {
        let history = HistoryImpl {
            cached_name: name,
            custom_directory,
            new_items: Vec::new(),
            first_unwritten_new_item_index: 0,
            deleted_items: StringHashMap::new(),
            file_contents: None,
            history_file_id: invalid_file_id(),
            countdown_to_vacuum: None,
            boundary_timestamp: now,
        };
        assert(history@.new_items =~= Seq::empty());
        history
    }

    /// Erases everything we know about our file.
    fn clear_file_state(&mut self)
        ensures
            final(self)@ == old(self)@.forget_file(),
    {
        self.file_contents = None;
    }

    /// Deletes duplicates in new_items.
    pub fn compact_new_items(&mut self)
        requires
            old(self)@.wf(),
        ensures
            final(self)@ == old(self)@.compacted(),
            final(self)@.wf(),
    {
        // Keep only the most recent items with the given contents.
        let ghost before = self@;
        let ghost old_items = self.new_items@;
        self.first_unwritten_new_item_index = drop_duplicates(
            &mut self.new_items,
            self.first_unwritten_new_item_index,
        );
        proof {
            assert(before.new_items.len() == old_items.len());
            assert(self@.new_items.len() == self.new_items@.len());
            let kept = keep_last(before.new_items);
            assert(self@.unwritten().len() == kept.len() - self@.first_unwritten);
            assert forall|i: int| 0 <= i < kept.len() implies (#[trigger] kept[i]).contents.len() > 0 by {
                super::item_list::dropping_duplicates_loses_no_text(before.new_items, kept[i].contents);
                assert(has_text(kept, kept[i].contents));
            }
        }
    }

    /// Save history and vacuum it (commit deleted commands causing a rewrite of the history) if needed.
    pub fn save_and_vacuum(&mut self, vacuum: bool) -> (action: SaveAction)
        requires
            old(self)@.wf(),
        ensures
            final(self)@ == old(self)@.saving(),
            action@ == old(self)@.saving_action(vacuum),
            final(self)@.wf(),
    {
        // Nothing to do if there's no new items.
        if self.first_unwritten_new_item_index >= self.new_items.len()
            && self.deleted_items.is_empty() {
            return SaveAction::Finished;
        }

        // Compact our new items so we don't have duplicates.
        self.compact_new_items();
        if self.cached_name.as_str().is_empty() {
            // We're in the "incognito" mode. Pretend we've saved the history.
            self.first_unwritten_new_item_index = self.new_items.len();
            self.deleted_items.clear();
            self.clear_file_state();
            return SaveAction::Finished;
        }
        SaveAction::ResolvePath { vacuum }
    }

    /// Saves history, where `picked` is the start of the countdown to the next vacuum for a history that
    /// has none yet.
    pub fn save_with_countdown(&mut self, picked: usize) -> (action: SaveAction)
        requires
            old(self)@.wf(),
            picked < VACUUM_FREQUENCY,
        ensures
            final(self)@ == old(self)@.ticked(picked).saving(),
            action@ == old(self)@.saving_action(old(self)@.countdown_from(picked) == 0),
            final(self)@.wf(),
    {
        let mut countdown: usize = match self.countdown_to_vacuum {
            Some(countdown) => countdown,
            None => picked,
        };
        // Determine if we're going to vacuum.
        let mut vacuum = false;
        if countdown == 0 {
            countdown = VACUUM_FREQUENCY;
            vacuum = true;
        }

        // Update our countdown.
        countdown = countdown - 1;
        self.countdown_to_vacuum = Some(countdown);
        self.save_and_vacuum(vacuum)
    }

    /// Saves history.
    ///
    /// We may or may not vacuum. We try to vacuum every `VACUUM_FREQUENCY` items, but start the
    /// countdown at a random number so that even if the user never runs more than 25 commands, we'll
    /// eventually vacuum.
    pub fn save(&mut self) -> (action: SaveAction)
        requires
            old(self)@.wf(),
        ensures
            exists|picked: usize|
                picked < VACUUM_FREQUENCY && #[trigger] saved_as(
                    old(self)@,
                    picked,
                    action@,
                    final(self)@,
                ),
            final(self)@.wf(),
    {
        let picked = match self.countdown_to_vacuum {
            Some(countdown) => countdown,
            None => random_below(VACUUM_FREQUENCY),
        };
        let ghost before = self@;
        let action = self.save_with_countdown(picked);
        assert(saved_as(before, picked, action@, self@));
        action
    }

    /// Returns whether the last save began a vacuum: the countdown has just started over.
    pub fn has_just_vacuumed(&self) -> (yes: bool)
        ensures
            yes == (self@.countdown == Some((VACUUM_FREQUENCY - 1) as usize)),
    {
        match self.countdown_to_vacuum {
            Some(countdown) => countdown == VACUUM_FREQUENCY - 1,
            None => false,
        }
    }

    /// Add a new history item to the end.
    pub fn add(&mut self, item: HistoryItem, do_save: bool) -> (action: SaveAction)
        requires
            old(self)@.wf(),
            item@.contents.len() > 0 ==> old(self)@.joined_nanos(item@) <= i128::MAX,
        ensures
            if do_save && old(self)@.takes(item@) {
                exists|picked: usize|
                    picked < VACUUM_FREQUENCY && #[trigger] saved_as(
                        old(self)@.with_new_item(item@),
                        picked,
                        action@,
                        final(self)@,
                    )
            } else {
                final(self)@ == old(self)@.with_new_item(item@) && action@
                    == SaveActionView::Finished
            },
            final(self)@.wf(),
    {
        // We use empty items as sentinels to indicate the end of history.
        // Do not allow them to be added (#6032).
        if item.is_empty() {
            return SaveAction::Finished;
        }

        // Try merging with the last item.
        let ghost before = self@;
        let len: usize = self.new_items.len();
        assert(before.new_items.len() == len);
        if len > 0 {
            let last = &mut self.new_items[len - 1];
            if last.merge(&item) {
                // The later time may be one at the boundary.
                if self.boundary_timestamp.nanos >= 0 {
                    last.set_timestamp(
                        nudge_timestamp_if_at_boundary(
                            last.get_timestamp(),
                            self.boundary_timestamp,
                        ),
                    );
                }
                assert(self@.new_items =~= before.with_new_item(item@).new_items);
                return SaveAction::Finished;
            }
        }
        assert(self@ == before);
        let mut item = item;
        let ghost given = item@;
        item.set_timestamp(
            nudge_timestamp_if_at_boundary(item.get_timestamp(), self.boundary_timestamp),
        );
        // We have to add a new item.
        self.new_items.push(item);
        assert(self@ == before.with_new_item(given));
        if do_save {
            self.save()
        } else {
            SaveAction::Finished
        }
    }

    /// The path of the history file is known, or could not be found out (`None`). If we have items to
    /// delete, we have to rewrite the file. If we do not, we can append to it.
    pub fn save_path_resolved(&self, vacuum: bool, path: Option<String>) -> (action: SaveAction)
        ensures
            action@ == match path {
                None => SaveActionView::Finished,
                Some(path) => if !vacuum && self@.deleted.is_empty() {
                    SaveActionView::Append { path: path@ }
                } else {
                    SaveActionView::Rewrite { path: path@ }
                },
            },
            action@ == self@.file_action(vacuum, opt_text(path)),
    {
        match path {
            None => SaveAction::Finished,
            Some(path) => if !vacuum && self.deleted_items.is_empty() {
                SaveAction::Append { path }
            } else {
                SaveAction::Rewrite { path }
            },
        }
    }

    /// Saves history by appending to the file, which was locked and then had the ID `locked`. The result
    /// is what to append; once it has been written, continue with [`HistoryImpl::append_succeeded`].
    pub fn save_internal_via_appending(&mut self, locked: FileId) -> (items: Vec<HistoryItem>)
        requires
            old(self)@.wf(),
            old(self)@.deleted.is_empty(),
        ensures
            item_views(items@) == old(self)@.unwritten(),
            final(self)@ == if locked != old(self)@.file_id {
                old(self)@.forget_file()
            } else {
                old(self)@
            },
            final(self)@ == old(self)@.with_file_locked(locked),
            final(self)@.wf(),
    {
        // Check if the file was modified since it was last read.
        // If someone has replaced the file, forget our file state.
        if locked != self.history_file_id {
            self.clear_file_state();
        }
        let ghost first = self.first_unwritten_new_item_index as int;
        let mut items: Vec<HistoryItem> = Vec::new();
        let mut new_first_index: usize = self.first_unwritten_new_item_index;
        while new_first_index < self.new_items.len()
            invariant
                0 <= first <= new_first_index <= self.new_items@.len(),
                items@ == self.new_items@.subrange(first, new_first_index as int),
            decreases self.new_items@.len() - new_first_index,
        {
            items.push(self.new_items[new_first_index].clone());
            new_first_index = new_first_index + 1;
            assert(self.new_items@.subrange(first, new_first_index as int) =~= self.new_items@.subrange(
                first,
                new_first_index - 1,
            ).push(self.new_items@[new_first_index - 1]));
        }
        assert(item_views(items@) =~= old(self)@.unwritten());
        items
    }

    /// Everything that was to be appended has been, and the file has the ID `file_id` now.
    ///
    /// We don't update the file contents since we only appended to the file, and everything we appended
    /// remains in our new_items.
    pub fn append_succeeded(&mut self, file_id: FileId)
        requires
            old(self)@.wf(),
        ensures
            final(self)@ == (HistoryState {
                first_unwritten: old(self)@.new_items.len() as int,
                file_id,
                ..old(self)@
            }),
            final(self)@ == old(self)@.appended(file_id),
            final(self)@.wf(),
    {
        assert(self@.new_items.len() == self.new_items@.len());
        self.first_unwritten_new_item_index = self.new_items.len();
        self.history_file_id = file_id;
    }

    /// Saves history by rewriting the file: the new file is in place, and has the ID `file_id`.
    pub fn save_internal_via_rewrite(&mut self, file_id: FileId)
        requires
            old(self)@.wf(),
        ensures
            final(self)@ == (HistoryState { file_id, ..old(self)@.all_saved() }),
            final(self)@.new_items == old(self)@.new_items,
            final(self)@.first_unwritten == old(self)@.new_items.len(),
            final(self)@.deleted.is_empty(),
            final(self)@.file is None,
            final(self)@.file_id == file_id,
            final(self)@.wf(),
    {
        assert(self@.new_items.len() == self.new_items@.len());
        self.history_file_id = file_id;
        // We've saved everything, so we have no more unsaved items.
        self.first_unwritten_new_item_index = self.new_items.len();
        // We deleted our deleted items.
        self.deleted_items.clear();
        // Our history has been written to the file, so clear our state so we can re-reference the
        // file.
        self.clear_file_state();
    }
}

impl HistoryImpl {
    /// Given the items of an existing history file, says which items a new history file has, in order.
    pub fn rewrite_to_temporary_file(&self, old_items: Vec<Option<HistoryItem>>) -> (items: Vec<
        HistoryItem,
    >)
        requires
            self@.wf(),
        ensures
            is_stable_sort(item_views(items@), self@.retained(entry_views(old_items@))),
            self@.new_items.len() - self@.first_unwritten <= HISTORY_SAVE_MAX ==> forall|i: int|
                self@.first_unwritten <= i < self@.new_items.len() ==> counts_in(
                    item_views(items@),
                    #[trigger] self@.new_items[i],
                ),
    {
        // Make an LRU cache to save only the last N elements.
        let mut lru = lru_new(HISTORY_SAVE_MAX);
        let ghost entries = entry_views(old_items@);
        let ghost cap = HISTORY_SAVE_MAX as nat;
        // Read in existing items (which may have changed out from underneath us, so don't trust our
        // old file contents).
        let mut i: usize = 0;
        while i < old_items.len()
            invariant
                i <= old_items@.len(),
                entries == entry_views(old_items@),
                lru_cap(lru) == cap,
                lru_entries(lru) == with_items(cap, self@.survivors(entries.take(i as int))),
            decreases old_items@.len() - i,
        {
            let ghost upto = entries.take(i + 1);
            proof {
                assert(upto.drop_last() =~= entries.take(i as int));
                assert(upto.last() == entry_view(old_items@[i as int]));
                let before = self@.survivors(entries.take(i as int));
                if upto.last() is Some {
                    assert(before.push(upto.last()->0).drop_last() =~= before);
                }
            }
            if let Some(old_item) = &old_items[i] {
                // Check if this item should be deleted.
                let delete = match self.deleted_items.get(old_item.str()) {
                    // If old item is newer than session always erase if in deleted.
                    // If old item is older and in deleted items don't erase if added by clear_session.
                    Some(scope) => old_item.get_timestamp().nanos > self.boundary_timestamp.nanos
                        || *scope == DeletionScope::AllSessions,
                    None => false,
                };
                if !old_item.is_empty() && !delete {
                    lru.add_item(old_item.clone());
                }
            }
            i = i + 1;
        }
        let ghost survivors = self@.survivors(entries);
        assert(entries.take(i as int) =~= entries);
        // Insert any unwritten new items
        let ghost first = self.first_unwritten_new_item_index as int;
        let ghost unwritten = self@.unwritten();
        let mut j: usize = self.first_unwritten_new_item_index;
        assert(survivors + unwritten.take(0) =~= survivors);
        while j < self.new_items.len()
            invariant
                first == self@.first_unwritten,
                0 <= first <= j <= self.new_items@.len(),
                unwritten == self@.unwritten(),
                lru_cap(lru) == cap,
                lru_entries(lru) == with_items(cap, survivors + unwritten.take(j - first)),
            decreases self.new_items@.len() - j,
        {
            proof {
                assert(self@.new_items.len() == self.new_items@.len());
                let next = survivors + unwritten.take(j - first + 1);
                assert(next.drop_last() =~= survivors + unwritten.take(j - first));
                assert(next.last() == self.new_items@[j as int]@);
            }
            lru.add_item(self.new_items[j].clone());
            j = j + 1;
        }
        assert(unwritten.take(j - first) =~= unwritten);
        // Stable-sort our items by timestamp
        // This is because we may have read "old" items with a later timestamp than our "new" items
        // This is the essential step that roughly orders items by history
        let mut items = into_items(lru);
        sort_by_timestamp(&mut items);
        proof {
            everything_counts_if_there_is_room(self@, entries, item_views(items@));
        }
        items
    }

    /// Remove a history item.
    pub fn remove(&mut self, str_to_remove: &str)
        requires
            old(self)@.wf(),
        ensures
            final(self)@ == old(self)@.without(str_to_remove@),
            final(self)@.wf(),
    {
        // Add to our list of deleted items.
        let ghost before = self@;
        self.deleted_items.insert(str_to_remove.to_owned(), DeletionScope::AllSessions);
        assert(before.new_items.len() == self.new_items@.len());
        self.first_unwritten_new_item_index = drop_text(
            &mut self.new_items,
            str_to_remove,
            self.first_unwritten_new_item_index,
        );
        proof {
            let kept = without_text(before.new_items, str_to_remove@);
            assert(self@.unwritten().len() == kept.len() - self@.first_unwritten);
            assert forall|i: int| 0 <= i < kept.len() implies (#[trigger] kept[i]).contents.len() > 0 by {
                super::item_list::dropping_a_text_drops_no_other(
                    before.new_items,
                    str_to_remove@,
                    kept[i].contents,
                );
                assert(has_text(kept, kept[i].contents));
            }
        }
    }

    /// Irreversibly clears history. The result says whether there may be a history file, which the caller
    /// then deletes.
    pub fn clear(&mut self) -> (has_file: bool)
        ensures
            final(self)@ == old(self)@.emptied(),
            has_file == (old(self)@.name.len() > 0),
            old(self)@.wf() ==> final(self)@.wf(),
    {
        self.new_items.clear();
        self.deleted_items.clear();
        self.first_unwritten_new_item_index = 0;
        self.clear_file_state();
        assert(self@.new_items =~= Seq::empty());
        !self.cached_name.as_str().is_empty()
    }

    /// Clears only session.
    pub fn clear_session(&mut self)
        ensures
            final(self)@ == old(self)@.session_cleared(),
            old(self)@.wf() ==> final(self)@.wf(),
    {
        let ghost before = self@;
        let mut i: usize = 0;
        assert(self@.deleted =~= before.deleted.union_prefer_right(session_deletions(before.new_items.take(0))));
        while i < self.new_items.len()
            invariant
                i <= self.new_items@.len(),
                before.new_items == item_views(self.new_items@),
                self@ == (HistoryState {
                    deleted: before.deleted.union_prefer_right(
                        session_deletions(before.new_items.take(i as int)),
                    ),
                    ..before
                }),
            decreases self.new_items@.len() - i,
        {
            let ghost text = self.new_items@[i as int]@.contents;
            let ghost deleted = self@.deleted;
            self.deleted_items.insert(
                self.new_items[i].str().to_owned(),
                DeletionScope::SessionOnly,
            );
            i = i + 1;
            proof {
                let upto = before.new_items.take(i as int);
                let less = before.new_items.take(i - 1);
                assert(before.new_items[i - 1].contents == text);
                assert forall|t: Seq<char>| has_text(upto, t) == (t == text || has_text(less, t)) by {
                    if has_text(less, t) {
                        let k = choose|k: int| 0 <= k < less.len() && #[trigger] less[k].contents == t;
                        assert(upto[k].contents == t);
                    }
                    if has_text(upto, t) && t != text {
                        let k = choose|k: int| 0 <= k < upto.len() && #[trigger] upto[k].contents == t;
                        assert(less[k].contents == t);
                    }
                    assert(upto[i - 1].contents == text);
                }
                assert(deleted.insert(text, DeletionScope::SessionOnly)
                    =~= before.deleted.union_prefer_right(session_deletions(upto)));
            }
        }
        assert(before.new_items.take(i as int) =~= before.new_items);
        self.new_items.clear();
        self.first_unwritten_new_item_index = 0;
        assert(self@.new_items =~= Seq::empty());
    }
}

/// Why the path of the history file is not known.
#[derive(Debug, PartialEq, Eq)]
pub enum HistoryPathError {
    /// There is no data directory.
    NoDataDirectory,
    /// There is no canonical version of this path.
    NotCanonical { path: String },
}

impl HistoryPathError {
    /// The error in words.
    pub fn message(&self) -> (text: String)
        ensures
            text@ == match *self {
                HistoryPathError::NoDataDirectory => NO_DATA_DIRECTORY@,
                HistoryPathError::NotCanonical { path } => NOT_CANONICAL@ + path@ + "'."@,
            },
    {
        match self {
            HistoryPathError::NoDataDirectory => NO_DATA_DIRECTORY.to_owned(),
            HistoryPathError::NotCanonical { path } => {
                let mut text = NOT_CANONICAL.to_owned();
                text.append(path.as_str());
                text.append("'.");
                text
            },
        }
    }
}

/// What an error about the data directory says.
pub const NO_DATA_DIRECTORY: &'static str = "Error obtaining data directory. This is a manually constructed error which does not indicate why this happened.";

/// How an error about a path that has no canonical version begins.
pub const NOT_CANONICAL: &'static str = "wrealpath failed to produce a canonical version of '";

/// What is known of the path of the history file before it is looked up.
#[derive(Debug, PartialEq, Eq)]
pub enum PathStep {
    /// There is no history file: the session is private.
    NoFile,
    /// This is the path.
    Ready { path: String },
    /// The canonical version of this path is the path. Continue with [`canonical_path`].
    Canonicalize { path: String },
}

/// The file of the history `name` in the directory `directory`.
fn join_file(directory: &str, name: &str) -> (path: String)
    ensures
        path@ == file_in(directory@, name@),
{
    let mut path = directory.to_owned();
    path.push('/');
    path.append(name);
    path.append("_history");
    assert(path@ =~= file_in(directory@, name@));
    path
}

/// Given the canonical version of the path of the history file, if there is one, says what the path is.
pub fn canonical_path(path: String, canonical: Option<String>) -> (out: Result<
    String,
    HistoryPathError,
>)
    ensures
        out == match canonical {
            Some(canonical) => Ok::<String, HistoryPathError>(canonical),
            None => Err(HistoryPathError::NotCanonical { path }),
        },
{
    match canonical {
        Some(canonical) => Ok(canonical),
        None => Err(HistoryPathError::NotCanonical { path }),
    }
}

/// What the caller has to do next so that the old items get loaded.
#[derive(Debug, PartialEq, Eq)]
pub enum LoadAction {
    /// Nothing: they are loaded.
    Loaded,
    /// Find out the path of the history file, and continue with
    /// [`HistoryImpl::load_path_resolved`].
    ResolvePath,
    /// Lock the file at `path`, read its entries up to the time `cutoff`, and continue with
    /// [`HistoryImpl::load_finished`].
    ReadFile { path: String, cutoff: Timestamp },
}

/// The result of looking an item up.
#[derive(Debug, PartialEq, Eq)]
pub enum ItemLookup {
    /// There is no such item.
    Nothing,
    /// This is the item.
    Item { item: HistoryItem },
    /// The old items have to be loaded first.
    LoadFirst,
}

impl View for ItemLookup {
    type V = ItemLookupView;

    open spec fn view(&self) -> ItemLookupView {
        match *self {
            ItemLookup::Nothing => ItemLookupView::Nothing,
            ItemLookup::Item { item } => ItemLookupView::Item { item: item@ },
            ItemLookup::LoadFirst => ItemLookupView::LoadFirst,
        }
    }
}

impl HistoryImpl {
    /// Says what the path of the history file is, given the data directory, if there is one.
    pub fn history_file_path(&self, data_path: Option<String>) -> (step: Result<
        PathStep,
        HistoryPathError,
    >)
        ensures
            if self@.name.len() == 0 {
                step == Ok::<PathStep, HistoryPathError>(PathStep::NoFile)
            } else {
                match self@.directory {
                    Some(directory) => step matches Ok(PathStep::Ready { path }) && path@ == file_in(
                        directory,
                        self@.name,
                    ),
                    None => match data_path {
                        Some(data_path) => step matches Ok(PathStep::Canonicalize { path }) && path@
                            == file_in(data_path@, self@.name),
                        None => step == Err::<PathStep, HistoryPathError>(
                            HistoryPathError::NoDataDirectory,
                        ),
                    },
                }
            },
    {
        if self.cached_name.as_str().is_empty() {
            return Ok(PathStep::NoFile);
        }
        match &self.custom_directory {
            // For custom directories, the file may not exist yet
            Some(custom_dir) => Ok(
                PathStep::Ready { path: join_file(custom_dir.as_str(), self.cached_name.as_str()) },
            ),
            None => match data_path {
                Some(data_path) => Ok(
                    PathStep::Canonicalize {
                        path: join_file(data_path.as_str(), self.cached_name.as_str()),
                    },
                ),
                None => Err(HistoryPathError::NoDataDirectory),
            },
        }
    }

    /// Loads old items if necessary.
    pub fn load_old_if_needed(&self) -> (action: LoadAction)
        ensures
            action == if self@.file is Some {
                LoadAction::Loaded
            } else {
                LoadAction::ResolvePath
            },
    {
        if self.file_contents.is_some() {
            LoadAction::Loaded
        } else {
            LoadAction::ResolvePath
        }
    }

    /// The path of the history file is known, or there is none. Without one there are no old items.
    pub fn load_path_resolved(&mut self, path: Option<String>) -> (action: LoadAction)
        ensures
            match path {
                Some(path) => action == (LoadAction::ReadFile { path, cutoff: old(self)@.boundary })
                    && final(self)@ == old(self)@,
                None => action == LoadAction::Loaded && final(self)@ == (HistoryState {
                    file: Some(file_state(Seq::empty())),
                    ..old(self)@
                }),
            },
            path is None ==> final(self)@ == old(self)@.loaded(None),
    {
        match path {
            Some(path) => LoadAction::ReadFile { path, cutoff: self.boundary_timestamp },
            None => {
                self.file_contents = Some(HistoryFile::create_empty());
                LoadAction::Loaded
            },
        }
    }

    /// The history file was read, and then had the given ID, or it could not be (`None`). Then there are
    /// no old items.
    pub fn load_finished(&mut self, loaded: Option<(FileId, HistoryFile)>)
        ensures
            final(self)@ == match loaded {
                Some((file_id, file)) => HistoryState { file: Some(file@), file_id, ..old(self)@ },
                None => HistoryState { file: Some(file_state(Seq::empty())), ..old(self)@ },
            },
            final(self)@ == old(self)@.loaded(
                match loaded {
                    Some((file_id, file)) => Some((file_id, file@)),
                    None => None,
                },
            ),
    {
        match loaded {
            Some((file_id, file)) => {
                self.history_file_id = file_id;
                self.file_contents = Some(file);
            },
            None => {
                self.file_contents = Some(HistoryFile::create_empty());
            },
        }
    }

    /// Return the specified history at the specified index. 0 is the index of the current
    /// commandline. (So the most recent item is at index 1.)
    pub fn item_at_index(&self, idx: usize) -> (out: ItemLookup)
        ensures
            out@ == self@.lookup(idx as int),
    {
        // 0 is considered an invalid index.
        if idx == 0 {
            return ItemLookup::Nothing;
        }
        let new_item_count: usize = self.new_items.len();
        // index 1 corresponds to the last new item.
        if idx <= new_item_count {
            return ItemLookup::Item { item: self.new_items[new_item_count - idx].clone() };
        }

        // Now look in our old items.
        let idx: usize = idx - new_item_count;
        match &self.file_contents {
            None => ItemLookup::LoadFirst,
            Some(file) => {
                let old_item_count: usize = file.len();
                if idx <= old_item_count {
                    ItemLookup::Item { item: file.item(old_item_count - idx) }
                } else {
                    // Index past the valid range.
                    ItemLookup::Nothing
                }
            },
        }
    }

    /// Return the number of history entries that [`HistoryImpl::item_at_index`] gives, or `None` if the old items have to be loaded first.
    pub fn size(&self) -> (size: Option<usize>)
        requires
            self@.file is Some ==> self@.new_items.len() + self@.file->0.items.len() <= usize::MAX,
        ensures
            size is Some == self@.file is Some,
            size is Some ==> size->0 == self@.new_items.len() + self@.file->0.items.len(),
    {
        match &self.file_contents {
            None => None,
            Some(file) => Some(self.new_items.len() + file.len()),
        }
    }

    /// Determines whether the history is empty, as far as that is known (otherwise `None`).
    ///
    /// If we have not loaded old items, don't actually load them (which may be expensive); the caller
    /// then sees if the file exists and is nonempty, and asks [`is_empty_by_file_len`].
    pub fn is_empty(&self) -> (empty: Option<bool>)
        ensures
            empty == if self@.new_items.len() > 0 {
                Some(false)
            } else {
                match self@.file {
                    Some(file) => Some(file.entry_count == 0),
                    None => None,
                }
            },
            empty == self@.known_to_be_empty(),
    {
        // If we have new items, we're not empty.
        if !self.new_items.is_empty() {
            return Some(false);
        }
        match &self.file_contents {
            // If we've loaded old items, see if there are any entries, decodable or not.
            Some(file) => Some(file.is_empty()),
            None => None,
        }
    }

    /// Incorporates the history of other shells into this history, as of `now`. The result says how to
    /// save it; once that is finished, continue with
    /// [`HistoryImpl::external_changes_incorporated`]. There is nothing to do if it is `None`.
    pub fn incorporate_external_changes(&mut self, now: Timestamp) -> (action: Option<SaveAction>)
        requires
            old(self)@.wf(),
        ensures
            if now.nanos > old(self)@.boundary.nanos {
                &&& action is Some
                &&& final(self)@.boundary == now
                &&& final(self)@.file is None
                &&& final(self)@ == old(self)@.moved_to(now).saving()
                &&& action->0@ == old(self)@.saving_action(false)
            } else {
                action is None && final(self)@ == old(self)@
            },
            final(self)@.wf(),
    {
        // To incorporate new items, we simply update our timestamp to now, so that items from previous
        // instances get added. We then clear the file state so that we remap the file.
        // If for some reason the clock went backwards, we don't want to start dropping items;
        // therefore we only do work if time has progressed. This also makes multiple calls cheap.
        if now.nanos > self.boundary_timestamp.nanos {
            self.boundary_timestamp = now;
            self.clear_file_state();
            Some(self.save_and_vacuum(false))
        } else {
            None
        }
    }

    /// The history was saved so that external changes can be incorporated.
    ///
    /// We also need to erase new items, since we go through those first, and that means we
    /// will not properly interleave them with items from other instances.
    /// We'll pick them up from the file (#2312)
    pub fn external_changes_incorporated(&mut self)
        ensures
            final(self)@ == (HistoryState {
                new_items: Seq::empty(),
                first_unwritten: 0,
                ..old(self)@
            }),
            final(self)@ == old(self)@.incorporated(),
            old(self)@.wf() ==> final(self)@.wf(),
    {
        self.new_items.clear();
        self.first_unwritten_new_item_index = 0;
        assert(self@.new_items =~= Seq::empty());
    }
}

/// Takes a history that nothing is known of for empty if its file has no length, or cannot be accessed.
pub fn is_empty_by_file_len(len: Option<u64>) -> (empty: bool)
    ensures
        empty == (len is None || len->0 == 0),
{
    match len {
        Some(len) => len == 0,
        // Access failed, assume missing.
        None => true,
    }
}

/// What the caller has to do next so that the history is populated from its older location.
#[derive(Debug, PartialEq, Eq)]
pub enum PopulateAction {
    /// Nothing.
    Finished,
    /// Find out the directory of the configuration, and continue with
    /// [`HistoryImpl::config_path_found`].
    FindConfigPath { new_file: String },
    /// Open `old_file` for reading, and continue with [`HistoryImpl::old_file_opened`].
    OpenOldFile { old_file: String, new_file: String },
    /// Delete the history file, create `new_file` for writing, and continue with
    /// [`new_file_opened`].
    CreateNewFile { new_file: String },
    /// Read from the old file, and continue with [`old_file_read`].
    Read,
    /// Write the `len` bytes that were read to the new file, and continue with [`new_file_written`].
    Write { len: usize },
}

impl HistoryImpl {
    /// Populates from older location (in config path, rather than data path).
    /// This is accomplished by clearing ourselves, and copying the contents of the old history
    /// file to the new history file.
    /// The new contents will automatically be loaded later.
    ///
    /// `new_file` is the path of the history file, if it is known.
    pub fn populate_from_config_path(&self, new_file: Option<String>) -> (action: PopulateAction)
        ensures
            action == match new_file {
                Some(new_file) => PopulateAction::FindConfigPath { new_file },
                None => PopulateAction::Finished,
            },
    {
        match new_file {
            Some(new_file) => PopulateAction::FindConfigPath { new_file },
            None => PopulateAction::Finished,
        }
    }

    /// The directory of the configuration is known, or there is none.
    pub fn config_path_found(&self, config_path: Option<String>, new_file: String) -> (action:
        PopulateAction)
        ensures
            match config_path {
                Some(config_path) => action matches PopulateAction::OpenOldFile {
                    old_file,
                    new_file: n,
                } && n == new_file && old_file@ == file_in(config_path@, self@.name),
                None => action == PopulateAction::Finished,
            },
    {
        match config_path {
            Some(config_path) => PopulateAction::OpenOldFile {
                old_file: join_file(config_path.as_str(), self.cached_name.as_str()),
                new_file,
            },
            None => PopulateAction::Finished,
        }
    }

    /// The old file could be opened, or not.
    ///
    /// Clear must come after we've retrieved the new_file name, and before we open
    /// destination file descriptor, since it destroys the name and the file.
    pub fn old_file_opened(&mut self, opened: bool, new_file: String) -> (action: PopulateAction)
        ensures
            if opened {
                action == (PopulateAction::CreateNewFile { new_file }) && final(self)@ == old(
                    self,
                )@.emptied()
            } else {
                action == PopulateAction::Finished && final(self)@ == old(self)@
            },
            old(self)@.wf() ==> final(self)@.wf(),
    {
        if !opened {
            return PopulateAction::Finished;
        }
        self.clear();
        PopulateAction::CreateNewFile { new_file }
    }
}

/// The new file could be created, or not.
pub fn new_file_opened(opened: bool) -> (action: PopulateAction)
    ensures
        action == if opened {
            PopulateAction::Read
        } else {
            PopulateAction::Finished
        },
{
    if opened {
        PopulateAction::Read
    } else {
        PopulateAction::Finished
    }
}

/// So many bytes were read from the old file, none at its end, or it could not be read.
pub fn old_file_read(len: Option<usize>) -> (action: PopulateAction)
    ensures
        action == match len {
            Some(len) => if len == 0 {
                PopulateAction::Finished
            } else {
                PopulateAction::Write { len }
            },
            None => PopulateAction::Finished,
        },
{
    match len {
        Some(len) => if len == 0 {
            PopulateAction::Finished
        } else {
            PopulateAction::Write { len }
        },
        None => PopulateAction::Finished,
    }
}

/// What was read could be written to the new file, or not.
pub fn new_file_written(written: bool) -> (action: PopulateAction)
    ensures
        action == if written {
            PopulateAction::Read
        } else {
            PopulateAction::Finished
        },
{
    if written {
        PopulateAction::Read
    } else {
        PopulateAction::Finished
    }
}

/// A history that is kept in a file.
pub struct YAMLHistory {
    /// The name of this list. Used for picking a suitable filename and for switching modes.
    name: String,
    inner: HistoryImpl,
}

impl YAMLHistory {
    /// What this shell knows of the history.
    pub closed spec fn state(self) -> HistoryState {
        self.inner@
    }

    /// The history goes by its name, and is a valid one.
    pub closed spec fn wf(self) -> bool {
        self.inner@.wf() && self.name@ == self.inner@.name
    }

    /// What is done to the history, wherever files have to be touched.
    pub fn imp(&mut self) -> (inner: &mut HistoryImpl)
        ensures
            inner@ == old(self).state(),
            final(self).state() == final(inner)@,
            old(self).wf() && final(inner)@.wf() && final(inner)@.name == inner@.name
                ==> final(self).wf(),
    {
        &mut self.inner
    }

    /// Creates a new History with a custom directory path, as of `now`.
    /// The history file will be stored at `{directory}/{name}_history`.
    /// If the directory is None, it will be stored in the data directory.
    ///
    /// The caller continues with [`YAMLHistory::populate_from_config_path`].
    pub fn new(name: &str, directory: Option<String>, now: Timestamp) -> (history: Self)
        ensures
            history.wf(),
            history.state() == HistoryState::fresh(name@, opt_text(directory), now),
    {
        YAMLHistory {
            name: name.to_owned(),
            inner: HistoryImpl::new(name.to_owned(), directory, now),
        }
    }

    /// Name of the history.
    pub fn name(&self) -> (s: &str)
        requires
            self.wf(),
        ensures
            s@ == self.state().name,
    {
        self.name.as_str()
    }

    /// Irreversibly clears history for the current session.
    pub fn clear_session(&mut self)
        requires
            old(self).wf(),
        ensures
            final(self).state() == old(self).state().session_cleared(),
            final(self).wf(),
    {
        self.inner.clear_session();
    }

    /// Populates from older location (in config path, rather than data path). `new_file` is the path of
    /// the history file, if it is known.
    pub fn populate_from_config_path(&self, new_file: Option<String>) -> (action: PopulateAction)
        ensures
            action == match new_file {
                Some(new_file) => PopulateAction::FindConfigPath { new_file },
                None => PopulateAction::Finished,
            },
    {
        self.inner.populate_from_config_path(new_file)
    }

    /// Incorporates the history of other shells into this history, as of `now`. The result says how to go
    /// on, as that of [`HistoryImpl::incorporate_external_changes`].
    pub fn incorporate_external_changes(&mut self, now: Timestamp) -> (action: Option<SaveAction>)
        requires
            old(self).wf(),
        ensures
            if now.nanos > old(self).state().boundary.nanos {
                &&& action is Some
                &&& final(self).state().boundary == now
                &&& final(self).state().file is None
                &&& final(self).state() == old(self).state().moved_to(now).saving()
                &&& action->0@ == old(self).state().saving_action(false)
            } else {
                action is None && final(self).state() == old(self).state()
            },
            final(self).wf(),
    {
        self.inner.incorporate_external_changes(now)
    }
}

} // verus!
