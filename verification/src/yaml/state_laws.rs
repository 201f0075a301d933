//! What each operation on a history does to what the shell knows of it.
use super::deletion_scope::DeletionScope;
use super::file::{file_state, FileId};
use super::item_list::{
    dropping_a_text_drops_no_other, dropping_duplicates_loses_no_text, has_text, keep_last,
    lemma_keep_last_of_tail, lemma_without_text_of_tail, without_text,
};
use super::laws::{compacting_moves_no_mark, removing_moves_no_mark, rewritten};
use super::list_laws::{
    are_the_last_places, dropping_a_text_goes_item_by_item, dropping_duplicates_keeps_the_order,
    every_item_is_decoded, stand_at,
};
use super::rewrite_laws::{
    a_rewritten_file_makes_nothing_up, counts_in, everything_counts_if_there_is_room,
};
use super::state::{
    file_in, nudged, saved_as, HistoryState, ItemLookupView, SaveActionView, VACUUM_FREQUENCY,
};
use crate::api::ItemView;
use crate::timestamp::Timestamp;
use vstd::prelude::*;

verus! {

/// A new history has no items, has deleted nothing, and has yet to read its file.
pub proof fn a_new_history_knows_nothing(
    name: Seq<char>,
    directory: Option<Seq<char>>,
    now: Timestamp,
    idx: int,
)
    ensures
        ({
            let state = HistoryState::fresh(name, directory, now);
            &&& state.name == name
            &&& state.directory == directory
            &&& state.boundary == now
            &&& state.new_items.len() == 0
            &&& state.first_unwritten == 0
            &&& state.deleted.is_empty()
            &&& state.file is None
            &&& state.countdown is None
            &&& state.file_id.size == u64::MAX
            &&& state.file_id.inode == u64::MAX
            &&& idx > 0 ==> state.lookup(idx) is LoadFirst
            &&& idx <= 0 ==> state.lookup(idx) is Nothing
        }),
{
}

/// The new items have the first indexes, the last one index 1; behind them come those of the file, again from
/// the last on. There is nothing at zero, nor behind the first item of the file.
pub proof fn indexes_count_back_from_the_last_item(state: HistoryState, i: int, idx: int)
    ensures
        0 <= i < state.new_items.len() ==> state.lookup(state.new_items.len() - i) == (
        ItemLookupView::Item { item: state.new_items[i] }),
        state.file is Some && 0 <= i < state.file->0.items.len() ==> state.lookup(
            state.new_items.len() + state.file->0.items.len() - i,
        ) == (ItemLookupView::Item { item: state.file->0.items[i] }),
        state.file is Some && idx > state.new_items.len() + state.file->0.items.len()
            ==> state.lookup(idx) is Nothing,
        state.file is None && idx > state.new_items.len() ==> state.lookup(idx) is LoadFirst,
        idx <= 0 ==> state.lookup(idx) is Nothing,
{
}

/// A time moves by exactly one second if it falls into the second of the boundary, and stays otherwise. Before
/// the epoch all times are of one second, which is none of those behind it.
pub proof fn only_times_at_the_boundary_move(time: Timestamp, boundary: Timestamp)
    ensures
        time.nanos >= 0 && boundary.nanos >= 0 && time.nanos as int / 1_000_000_000
            == boundary.nanos as int / 1_000_000_000 ==> nudged(time, boundary) == time.nanos
            + 1_000_000_000,
        time.nanos >= 0 && boundary.nanos >= 0 && time.nanos as int / 1_000_000_000
            != boundary.nanos as int / 1_000_000_000 ==> nudged(time, boundary) == time.nanos,
        time.nanos < 0 && boundary.nanos >= 0 ==> nudged(time, boundary) == time.nanos,
        time.nanos >= 0 && boundary.nanos < 0 ==> nudged(time, boundary) == time.nanos,
        time.nanos < 0 && boundary.nanos < 0 ==> nudged(time, boundary) == time.nanos
            + 1_000_000_000,
{
}

/// An item without text is not added. Adding any other changes nothing but the new items, and of these none
/// but the last.
pub proof fn adding_changes_the_end_only(state: HistoryState, item: ItemView)
    ensures
        ({
            let after = state.with_new_item(item);
            &&& item.contents.len() == 0 ==> after == state
            &&& after == (HistoryState { new_items: after.new_items, ..state })
            &&& item.contents.len() > 0 && (state.new_items.len() == 0
                || state.new_items.last().contents != item.contents) ==> after.new_items.len()
                == state.new_items.len() + 1 && after.new_items.drop_last() == state.new_items
            &&& item.contents.len() > 0 && state.new_items.len() > 0
                && state.new_items.last().contents == item.contents ==> after.new_items.len()
                == state.new_items.len() && after.new_items.drop_last()
                == state.new_items.drop_last()
            &&& item.contents.len() > 0 ==> after.new_items.last().contents == item.contents
        }),
{
    let after = state.with_new_item(item);
    if item.contents.len() > 0 {
        if state.takes(item) {
            assert(after.new_items.drop_last() =~= state.new_items);
        } else {
            assert(after.new_items.drop_last() =~= state.new_items.drop_last());
        }
    }
}

/// An item that is added comes to have its own time, or, if it repeats the last one, the later of the two
/// times, give or take the second of the boundary: it is later by a second at most, and never earlier.
pub proof fn an_added_item_keeps_its_time(state: HistoryState, item: ItemView)
    requires
        item.contents.len() > 0,
        state.joined_nanos(item) <= i128::MAX,
    ensures
        ({
            let added = state.with_new_item(item).new_items.last().creation_timestamp.nanos;
            let own = item.creation_timestamp.nanos;
            let repeats = state.new_items.len() > 0 && state.new_items.last().contents
                == item.contents;
            let last = state.new_items.last().creation_timestamp.nanos;
            &&& added >= own
            &&& repeats ==> added >= last
            &&& added == own || added == own + 1_000_000_000 || (repeats && (added == last || added
                == last + 1_000_000_000))
            &&& repeats && added != own && added != own + 1_000_000_000 ==> last > own
            &&& state.boundary.nanos < 0 && !repeats && own >= 0 ==> added == own
            &&& state.boundary.nanos < 0 && repeats ==> added == own || added == last
            &&& state.boundary.nanos >= 0 && !repeats && own as int / 1_000_000_000
                != state.boundary.nanos as int / 1_000_000_000 ==> added == own
            &&& state.boundary.nanos >= 0 && added >= 0 ==> added as int / 1_000_000_000
                != state.boundary.nanos as int / 1_000_000_000
        }),
{
}

/// There is nothing to save just if every new item was written and nothing was deleted; then saving does
/// nothing. A history with a name goes on to its file, and forgets neither its deletions nor its file yet; one
/// without a name is done.
pub proof fn saving_needs_something_unsaved(state: HistoryState, vacuum: bool)
    requires
        state.wf(),
    ensures
        ({
            let after = state.saving();
            let clean = state.first_unwritten == state.new_items.len() && state.deleted.is_empty();
            &&& clean ==> after == state && state.saving_action(vacuum) == SaveActionView::Finished
            &&& !clean && state.name.len() > 0 ==> state.saving_action(vacuum) == (
            SaveActionView::ResolvePath { vacuum })
            &&& state.name.len() == 0 ==> state.saving_action(vacuum) == SaveActionView::Finished
            &&& !clean && state.name.len() == 0 ==> after.deleted.is_empty() && after.file is None
                && after.first_unwritten == after.new_items.len()
            &&& state.name.len() > 0 ==> after.deleted == state.deleted && after.file == state.file
            &&& after == (HistoryState {
                new_items: after.new_items,
                first_unwritten: after.first_unwritten,
                deleted: after.deleted,
                file: after.file,
                ..state
            })
        }),
{
}

/// Saving drops no text that is unwritten from what it is about to write, and writes nothing else.
pub proof fn saving_writes_what_is_unwritten(state: HistoryState, text: Seq<char>)
    requires
        state.wf(),
        state.name.len() > 0,
    ensures
        has_text(state.saving().new_items.skip(state.saving().first_unwritten), text) <==> has_text(
            state.new_items.skip(state.first_unwritten),
            text,
        ),
        has_text(state.saving().new_items, text) <==> has_text(state.new_items, text),
{
    compacting_moves_no_mark(state);
    dropping_duplicates_loses_no_text(state.unwritten(), text);
    dropping_duplicates_loses_no_text(state.new_items, text);
}

/// When the file was rewritten, everything counts as written and nothing as deleted, the new items stay, and
/// the file has to be read anew.
pub proof fn a_rewrite_leaves_nothing_to_save(state: HistoryState, idx: int)
    ensures
        ({
            let after = state.all_saved();
            &&& after.new_items == state.new_items
            &&& after.first_unwritten == state.new_items.len()
            &&& after.deleted.is_empty()
            &&& after.file is None
            &&& after == (HistoryState {
                first_unwritten: after.first_unwritten,
                deleted: after.deleted,
                file: after.file,
                ..state
            })
            &&& idx > state.new_items.len() ==> after.lookup(idx) is LoadFirst
        }),
{
}

/// Once a text was removed and the file rewritten, no index has it: not before the file is read again, and not
/// when what was written is read back either.
pub proof fn a_removed_text_has_no_index(
    state: HistoryState,
    text: Seq<char>,
    old_items: Seq<Option<ItemView>>,
    items: Seq<ItemView>,
    file_id: FileId,
    idx: int,
)
    requires
        state.wf(),
        state.name.len() > 0,
        rewritten(state.without(text).saving(), old_items, items),
    ensures
        ({
            let after = HistoryState { file_id, ..state.without(text).saving().all_saved() };
            let entries = items.map_values(|item: ItemView| Some(item));
            let loaded = HistoryState { file: Some(file_state(entries)), ..after };
            &&& after.file is None
            &&& after.lookup(idx) is Item ==> after.lookup(idx)->item.contents != text
            &&& loaded.lookup(idx) is Item ==> loaded.lookup(idx)->item.contents != text
        }),
{
    let removed = state.without(text);
    let saving = removed.saving();
    let after = HistoryState { file_id, ..saving.all_saved() };
    let entries = items.map_values(|item: ItemView| Some(item));
    let loaded = HistoryState { file: Some(file_state(entries)), ..after };
    dropping_a_text_drops_no_other(state.new_items, text, text);
    dropping_duplicates_loses_no_text(removed.new_items, text);
    assert(!has_text(saving.new_items, text));
    assert(removed.deleted.contains_key(text));
    lemma_removing_keeps_wf(state, text);
    compacting_moves_no_mark(removed);
    if loaded.lookup(idx) is Item && idx > after.new_items.len() {
        let item = loaded.lookup(idx)->item;
        let known = loaded.file->0.items;
        let at = known.len() - (idx - after.new_items.len());
        assert(known[at] == item);
        assert(known.contains(item));
        every_item_is_decoded(entries, item);
        let k = choose|k: int| 0 <= k < entries.len() && #[trigger] entries[k] == Some(item);
        assert(items[k] == item);
        a_rewritten_file_makes_nothing_up(saving, old_items, items, k);
        if item.contents == text {
            let i = choose|i: int|
                saving.first_unwritten <= i < saving.new_items.len() && #[trigger] saving.new_items[i]
                    == items[k];
            assert(saving.new_items[i].contents == text);
        }
    }
}

/// A history without a text is a valid one.
proof fn lemma_removing_keeps_wf(state: HistoryState, text: Seq<char>)
    requires
        state.wf(),
    ensures
        state.without(text).wf(),
{
    let after = state.without(text);
    removing_moves_no_mark(state, text);
    lemma_without_text_of_tail(state.new_items, text, state.first_unwritten);
    assert forall|i: int| 0 <= i < after.new_items.len() implies (
    #[trigger] after.new_items[i]).contents.len() > 0 by {
        dropping_a_text_drops_no_other(state.new_items, text, after.new_items[i].contents);
        assert(has_text(after.new_items, after.new_items[i].contents));
        let k = choose|k: int|
            0 <= k < state.new_items.len() && #[trigger] state.new_items[k].contents
                == after.new_items[i].contents;
        assert(state.new_items[k].contents.len() > 0);
    }
}

/// Removing a text deletes it for all sessions, and no other. What is known of the file, and of other
/// deletions, stays.
pub proof fn removing_deletes_one_text(state: HistoryState, text: Seq<char>, other: Seq<char>)
    requires
        other != text,
    ensures
        ({
            let after = state.without(text);
            &&& after.deleted.contains_key(text)
            &&& after.deleted[text] == DeletionScope::AllSessions
            &&& after.deleted.contains_key(other) == state.deleted.contains_key(other)
            &&& state.deleted.contains_key(other) ==> after.deleted[other] == state.deleted[other]
            &&& after == (HistoryState {
                new_items: after.new_items,
                first_unwritten: after.first_unwritten,
                deleted: after.deleted,
                ..state
            })
        }),
{
}

/// Clearing a history leaves it without new items and deletions, and with its file unread. Its name, its
/// directory, its boundary and its countdown stay.
pub proof fn clearing_leaves_nothing(state: HistoryState)
    ensures
        ({
            let after = state.emptied();
            &&& after.new_items.len() == 0
            &&& after.first_unwritten == 0
            &&& after.deleted.is_empty()
            &&& after.file is None
            &&& after == (HistoryState {
                new_items: after.new_items,
                first_unwritten: after.first_unwritten,
                deleted: after.deleted,
                file: after.file,
                ..state
            })
        }),
{
}

/// Clearing the session drops the new items, and deletes just their texts, for the session only. Other
/// deletions and what is known of the file stay.
pub proof fn clearing_the_session_deletes_its_texts(state: HistoryState, text: Seq<char>)
    ensures
        ({
            let after = state.session_cleared();
            let own = exists|i: int|
                0 <= i < state.new_items.len() && #[trigger] state.new_items[i].contents == text;
            &&& after.new_items.len() == 0
            &&& after.first_unwritten == 0
            &&& own ==> after.deleted.contains_key(text) && after.deleted[text]
                == DeletionScope::SessionOnly
            &&& !own ==> after.deleted.contains_key(text) == state.deleted.contains_key(text)
            &&& !own && state.deleted.contains_key(text) ==> after.deleted[text]
                == state.deleted[text]
            &&& after == (HistoryState {
                new_items: after.new_items,
                first_unwritten: after.first_unwritten,
                deleted: after.deleted,
                ..state
            })
        }),
{
}

/// Moving a history on to a later time, whether there is something to save or not, makes that time the
/// boundary, and has the file read anew; no text among the new items is lost.
pub proof fn moving_on_has_the_file_read_anew(
    state: HistoryState,
    now: Timestamp,
    text: Seq<char>,
    idx: int,
)
    ensures
        ({
            let after = state.moved_to(now).saving();
            &&& after.boundary == now
            &&& after.file is None
            &&& idx > after.new_items.len() ==> after.lookup(idx) is LoadFirst
            &&& has_text(after.new_items, text) <==> has_text(state.new_items, text)
            &&& state.name.len() > 0 ==> after.deleted == state.deleted
            &&& after == (HistoryState {
                new_items: after.new_items,
                first_unwritten: after.first_unwritten,
                deleted: after.deleted,
                file: after.file,
                boundary: now,
                ..state
            })
        }),
{
    dropping_duplicates_loses_no_text(state.new_items, text);
}

/// After external changes were incorporated and the file was read again, every entry of the file that could be
/// decoded has an index, and every index has such an entry, whatever the shell had known before.
pub proof fn what_other_shells_wrote_is_found(
    state: HistoryState,
    now: Timestamp,
    entries: Seq<Option<ItemView>>,
    item: ItemView,
    idx: int,
)
    ensures
        ({
            let after = HistoryState {
                new_items: Seq::empty(),
                first_unwritten: 0,
                ..state.moved_to(now).saving()
            };
            let loaded = HistoryState { file: Some(file_state(entries)), ..after };
            &&& idx > 0 ==> after.lookup(idx) is LoadFirst
            &&& (exists|k: int| 0 <= k < entries.len() && #[trigger] entries[k] == Some(item)) ==> exists|
                i: int,
            |
                i > 0 && #[trigger] loaded.lookup(i) == (ItemLookupView::Item { item })
            &&& loaded.lookup(idx) is Item ==> exists|k: int|
                0 <= k < entries.len() && #[trigger] entries[k] == Some(loaded.lookup(idx)->item)
        }),
{
    let after = HistoryState {
        new_items: Seq::empty(),
        first_unwritten: 0,
        ..state.moved_to(now).saving()
    };
    let loaded = HistoryState { file: Some(file_state(entries)), ..after };
    let known = loaded.file->0.items;
    every_item_is_decoded(entries, item);
    if known.contains(item) {
        let k = choose|k: int| 0 <= k < known.len() && known[k] == item;
        assert(loaded.lookup(known.len() - k) == (ItemLookupView::Item { item }));
    }
    if loaded.lookup(idx) is Item {
        let found = loaded.lookup(idx)->item;
        every_item_is_decoded(entries, found);
        assert(known[known.len() - idx] == found);
        assert(known.contains(found));
    }
}

/// A save that finds the countdown at zero vacuums and starts it over; any other counts down by one. Without a
/// countdown it is as if it had stood where one was picked.
pub proof fn a_save_counts_down(
    before: HistoryState,
    picked: usize,
    action: SaveActionView,
    after: HistoryState,
)
    requires
        before.wf(),
        picked < VACUUM_FREQUENCY,
        saved_as(before, picked, action, after),
    ensures
        ({
            let found = if before.countdown is Some {
                before.countdown->0
            } else {
                picked
            };
            &&& after.countdown is Some
            &&& found == 0 ==> after.countdown->0 == 24
            &&& found > 0 ==> after.countdown->0 == found - 1
            &&& action is ResolvePath ==> action->vacuum == (found == 0)
            &&& action is ResolvePath <==> before.name.len() > 0 && (before.first_unwritten
                < before.new_items.len() || !before.deleted.is_empty())
            &&& action is ResolvePath || action is Finished
        }),
{
}

/// The path of a history file begins with its directory, and names the history behind the last slash of it.
pub proof fn a_history_file_is_named_after_its_history(directory: Seq<char>, name: Seq<char>)
    ensures
        ({
            let path = file_in(directory, name);
            let at = directory.len() as int;
            let len = name.len() as int;
            &&& path.len() == at + len + 9
            &&& path.take(at) == directory
            &&& path[at] == '/'
            &&& path.subrange(at + 1, at + 1 + len) == name
            &&& path.skip(at + 1 + len) == "_history"@
        }),
{
    reveal_strlit("_history");
    let path = file_in(directory, name);
    let at = directory.len() as int;
    let len = name.len() as int;
    assert(path.take(at) =~= directory);
    assert(path.subrange(at + 1, at + 1 + len) =~= name);
    assert(path.skip(at + 1 + len) =~= "_history"@);
}

/// Saving, where there is something to save, leaves each text once among the new items: where it was last, and
/// in the order in which they were. Where there is nothing to save, it leaves them alone.
pub proof fn saving_keeps_the_last_of_each_text(state: HistoryState)
    ensures
        state.first_unwritten < state.new_items.len() || !state.deleted.is_empty() ==> exists|
            places: Seq<int>,
        | #[trigger]
            stand_at(state.saving().new_items, state.new_items, places) && are_the_last_places(
                state.new_items,
                places,
            ),
        state.first_unwritten >= state.new_items.len() && state.deleted.is_empty()
            ==> state.saving().new_items == state.new_items,
{
    dropping_duplicates_keeps_the_order(state.new_items);
    let places = choose|places: Seq<int>| #[trigger]
        stand_at(keep_last(state.new_items), state.new_items, places) && are_the_last_places(
            state.new_items,
            places,
        );
    if state.unsaved() {
        assert(stand_at(state.saving().new_items, state.new_items, places));
    }
}

/// Dropping a text is keeping the items that have another one.
proof fn lemma_without_text_is_filter(items: Seq<ItemView>, text: Seq<char>)
    ensures
        without_text(items, text) == items.filter(|item: ItemView| item.contents != text),
    decreases items.len(),
{
    reveal(Seq::filter);
    if items.len() > 0 {
        let less = items.drop_last();
        lemma_without_text_is_filter(less, text);
        dropping_a_text_goes_item_by_item(less, seq![items.last()], items.last(), text);
        assert(items =~= less + seq![items.last()]);
        assert(without_text(items, text) =~= items.filter(
            |item: ItemView| item.contents != text,
        ));
    }
}

/// Removing a text keeps just the new items with another one, in order; and those of them that were unwritten
/// still are, and no others.
pub proof fn removing_keeps_the_items_with_other_texts(state: HistoryState, text: Seq<char>)
    requires
        state.wf(),
    ensures
        state.without(text).new_items == state.new_items.filter(
            |item: ItemView| item.contents != text,
        ),
        state.without(text).new_items.skip(state.without(text).first_unwritten)
            == state.new_items.skip(state.first_unwritten).filter(
            |item: ItemView| item.contents != text,
        ),
{
    lemma_without_text_is_filter(state.new_items, text);
    lemma_without_text_is_filter(state.new_items.skip(state.first_unwritten), text);
    removing_moves_no_mark(state, text);
}

/// A file has as many entries as were found in it, decoded or not.
pub proof fn every_entry_of_a_file_counts(entries: Seq<Option<ItemView>>)
    ensures
        file_state(entries).entry_count == entries.len(),
        file_state(entries).items.len() <= entries.len(),
    decreases entries.len(),
{
    if entries.len() > 0 {
        every_entry_of_a_file_counts(entries.drop_last());
    }
}

/// A deletion is never left out of the file: as long as something is deleted, the file is rewritten, as it is for a
/// vacuum. Otherwise it is appended to. Without a file there is nothing to do.
pub proof fn deletions_have_the_file_rewritten(state: HistoryState, vacuum: bool, path: Seq<char>)
    ensures
        vacuum ==> state.file_action(vacuum, Some(path)) == (SaveActionView::Rewrite { path }),
        (exists|text: Seq<char>| #[trigger] state.deleted.contains_key(text))
            ==> state.file_action(vacuum, Some(path)) == (SaveActionView::Rewrite { path }),
        !vacuum && (forall|text: Seq<char>| !#[trigger] state.deleted.contains_key(text))
            ==> state.file_action(vacuum, Some(path)) == (SaveActionView::Append { path }),
        state.file_action(vacuum, None) == SaveActionView::Finished,
{
    if forall|text: Seq<char>| !#[trigger] state.deleted.contains_key(text) {
        assert(state.deleted =~= Map::empty());
    }
}

/// Appending to the file leaves all items in place, and everything written. What is known of the file stays known
/// just if nobody replaced it.
pub proof fn appending_keeps_every_item(
    state: HistoryState,
    locked: FileId,
    file_id: FileId,
    idx: int,
)
    ensures
        ({
            let after = state.with_file_locked(locked).appended(file_id);
            &&& after.new_items == state.new_items
            &&& after.first_unwritten == state.new_items.len()
            &&& after.deleted == state.deleted
            &&& after.file_id == file_id
            &&& locked == state.file_id ==> after.file == state.file && after.lookup(idx)
                == state.lookup(idx)
            &&& locked != state.file_id ==> after.file is None
            &&& after == (HistoryState {
                first_unwritten: after.first_unwritten,
                file: after.file,
                file_id: after.file_id,
                ..state
            })
        }),
{
}

/// Reading the file tells what is in it, and changes nothing else. Where it could not be read, there are no items
/// behind the new ones.
pub proof fn loading_tells_what_is_in_the_file(
    state: HistoryState,
    file_id: FileId,
    entries: Seq<Option<ItemView>>,
    idx: int,
)
    ensures
        ({
            let after = state.loaded(Some((file_id, file_state(entries))));
            &&& after.file == Some(file_state(entries))
            &&& after.file_id == file_id
            &&& after == (HistoryState { file: after.file, file_id, ..state })
        }),
        ({
            let after = state.loaded(None);
            &&& after == (HistoryState { file: after.file, ..state })
            &&& idx > state.new_items.len() ==> after.lookup(idx) is Nothing
            &&& state.new_items.len() == 0 ==> after.known_to_be_empty() == Some(true)
        }),
{
}

/// When external changes were incorporated, the new items are left to the file, and nothing else changes.
pub proof fn incorporated_items_are_left_to_the_file(state: HistoryState)
    ensures
        ({
            let after = state.incorporated();
            &&& after.new_items.len() == 0
            &&& after.first_unwritten == 0
            &&& after == (HistoryState {
                new_items: after.new_items,
                first_unwritten: after.first_unwritten,
                ..state
            })
        }),
{
}

/// A history is empty if it has no new items and its file has no entries, decoded or not; while nothing is known of
/// the file, that is open unless there are new items.
pub proof fn a_history_is_empty_without_entries(
    state: HistoryState,
    entries: Seq<Option<ItemView>>,
)
    ensures
        state.known_to_be_empty() is None <==> state.new_items.len() == 0 && state.file is None,
        state.new_items.len() > 0 ==> state.known_to_be_empty() == Some(false),
        state.new_items.len() == 0 && state.file == Some(file_state(entries))
            ==> state.known_to_be_empty() == Some(entries.len() == 0),
{
}

/// A command that was not written yet is found again once the file was rewritten and read back, as long as there
/// is room for all that is unwritten.
pub proof fn an_unwritten_command_is_found_again(
    state: HistoryState,
    old_items: Seq<Option<ItemView>>,
    items: Seq<ItemView>,
    file_id: FileId,
    i: int,
)
    requires
        state.wf(),
        state.name.len() > 0,
        rewritten(state.saving(), old_items, items),
        state.first_unwritten <= i < state.new_items.len(),
        state.new_items.len() - state.first_unwritten <= 262_144,
    ensures
        ({
            let entries = items.map_values(|item: ItemView| Some(item));
            let after = state.saving().all_saved().incorporated().loaded(
                Some((file_id, file_state(entries))),
            );
            exists|idx: int|
                idx > 0 && (#[trigger] after.lookup(idx)) is Item && after.lookup(idx)->item.contents
                    == state.new_items[i].contents
        }),
{
    let text = state.new_items[i].contents;
    let saving = state.saving();
    let entries = items.map_values(|item: ItemView| Some(item));
    let after = saving.all_saved().incorporated().loaded(Some((file_id, file_state(entries))));
    let unwritten = state.new_items.skip(state.first_unwritten);
    assert(unwritten[i - state.first_unwritten].contents == text);
    assert(has_text(unwritten, text));
    saving_writes_what_is_unwritten(state, text);
    compacting_moves_no_mark(state);
    lemma_keep_last_of_tail(unwritten, 0);
    let left = saving.new_items.skip(saving.first_unwritten);
    let j = choose|j: int| 0 <= j < left.len() && #[trigger] left[j].contents == text;
    let at = saving.first_unwritten + j;
    assert(saving.new_items[at].contents == text);
    everything_counts_if_there_is_room(saving, old_items, items);
    assert(counts_in(items, saving.new_items[at]));
    let k = choose|k: int|
        0 <= k < items.len() && (#[trigger] items[k]).contents == text
            && items[k].creation_timestamp.nanos
            >= saving.new_items[at].creation_timestamp.nanos;
    assert(entries[k] == Some(items[k]));
    every_item_is_decoded(entries, items[k]);
    let known = after.file->0.items;
    let p = choose|p: int| 0 <= p < known.len() && known[p] == items[k];
    assert(after.lookup(known.len() - p) == (ItemLookupView::Item { item: items[k] }));
}

} // verus!
