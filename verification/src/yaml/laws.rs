//! What holds of a history over several operations.
use super::cache::{has_key, holds, oldest_first, with_items};
use super::deletion_scope::DeletionScope;
use super::file::{decoded, file_state, FileId};
use super::item_list::{
    dropping_a_text_drops_no_other, dropping_duplicates_leaves_none,
    dropping_duplicates_loses_no_text, has_text, is_stable_sort, keep_last,
    lemma_keep_last_of_distinct, lemma_keep_last_of_tail, lemma_without_text_of_tail,
    sorted_by_time, sorting_has_one_result, sorting_keeps_the_items, texts_differ, without_text,
};
use super::recent::{
    kept_items_are_distinct, keys, latest, recent, recent_texts_are_all_texts,
    the_cache_keeps_the_latest_times, the_cache_keeps_the_most_recent_texts, top,
};
use super::state::{
    next_countdown, nudged, same_second, saved_as, HistoryState, ItemLookupView, SaveActionView, HISTORY_SAVE_MAX,
    VACUUM_FREQUENCY,
};
use crate::api::ItemView;
use crate::timestamp::Timestamp;
use vstd::prelude::*;

verus! {

/// A nudged time never falls into the second of the boundary, unless both lie before the epoch.
pub proof fn nudged_times_leave_the_boundary(time: Timestamp, boundary: Timestamp, out: Timestamp)
    requires
        out.nanos == nudged(time, boundary),
        time.nanos >= 0 || boundary.nanos >= 0,
    ensures
        !same_second(out, boundary),
        out.nanos >= time.nanos,
{
}

/// An item that was created since the history began has a time of a later second than the boundary: it is
/// not taken for an old one when it is read from the file.
pub proof fn own_items_are_newer_than_the_boundary(
    time: Timestamp,
    boundary: Timestamp,
    out: Timestamp,
)
    requires
        out.nanos == nudged(time, boundary),
        boundary.nanos >= 0,
        time.nanos >= boundary.nanos,
    ensures
        out.nanos > boundary.nanos,
        out.spec_epoch_secs()->0 > boundary.spec_epoch_secs()->0,
{
}

/// No new item at or after the epoch has a time of the second of the boundary.
pub open spec fn leaves_the_boundary(state: HistoryState) -> bool {
    forall|i: int|
        0 <= i < state.new_items.len() && (#[trigger] state.new_items[i]).creation_timestamp.nanos
            >= 0 ==> !same_second(state.new_items[i].creation_timestamp, state.boundary)
}

/// No item that is added comes to have a time of the second of the boundary, be it new or merged, unless it
/// is before the epoch.
pub proof fn adding_leaves_the_boundary(state: HistoryState, item: ItemView)
    requires
        leaves_the_boundary(state),
        item.contents.len() > 0 ==> state.joined_nanos(item) <= i128::MAX,
    ensures
        leaves_the_boundary(state.with_new_item(item)),
{
    let after = state.with_new_item(item);
    assert forall|i: int|
        0 <= i < after.new_items.len() && (#[trigger] after.new_items[i]).creation_timestamp.nanos
            >= 0 implies !same_second(after.new_items[i].creation_timestamp, after.boundary) by {
        if i < state.new_items.len() && after.new_items[i] == state.new_items[i] {
        } else {
            assert(after.new_items[i] == state.joined(item));
        }
    }
}

/// Adding an item once more, with no later time than it came to have, changes nothing.
pub proof fn adding_again_changes_nothing(state: HistoryState, item: ItemView, again: ItemView)
    requires
        item.contents.len() > 0,
        again.contents == item.contents,
        state.joined_nanos(item) <= i128::MAX,
        again.creation_timestamp.nanos <= state.joined_nanos(item),
    ensures
        state.with_new_item(item).with_new_item(again) == state.with_new_item(item),
{
    let once = state.with_new_item(item);
    let twice = once.with_new_item(again);
    assert(once.new_items.last() == state.joined(item));
    assert(twice.new_items =~= once.new_items);
}

/// The entries of a file that holds these items.
pub open spec fn as_entries(items: Seq<ItemView>) -> Seq<Option<ItemView>> {
    items.map_values(|item: ItemView| Some(item))
}

/// `items` is what a rewrite of a file with the entries `old_items` writes.
pub open spec fn rewritten(
    state: HistoryState,
    old_items: Seq<Option<ItemView>>,
    items: Seq<ItemView>,
) -> bool {
    is_stable_sort(items, state.retained(old_items))
}

/// Two lists with the same items have the same texts.
proof fn lemma_sorting_keeps_the_texts(
    sorted: Seq<ItemView>,
    items: Seq<ItemView>,
    text: Seq<char>,
)
    requires
        is_stable_sort(sorted, items),
    ensures
        has_text(sorted, text) == has_text(items, text),
{
    if has_text(sorted, text) {
        let i = choose|i: int| 0 <= i < sorted.len() && #[trigger] sorted[i].contents == text;
        sorting_keeps_the_items(sorted, items, sorted[i]);
        assert(sorted.contains(sorted[i]));
        let j = choose|j: int| 0 <= j < items.len() && items[j] == sorted[i];
        assert(items[j].contents == text);
    }
    if has_text(items, text) {
        let i = choose|i: int| 0 <= i < items.len() && #[trigger] items[i].contents == text;
        sorting_keeps_the_items(sorted, items, items[i]);
        assert(items.contains(items[i]));
        let j = choose|j: int| 0 <= j < sorted.len() && sorted[j] == items[i];
        assert(sorted[j].contents == text);
    }
}

/// A rewritten file is sorted by time, and no longer than it may be.
pub proof fn rewriting_sorts_and_limits(
    state: HistoryState,
    old_items: Seq<Option<ItemView>>,
    items: Seq<ItemView>,
)
    requires
        rewritten(state, old_items, items),
    ensures
        sorted_by_time(items),
        items.len() <= HISTORY_SAVE_MAX,
        items.len() <= 262_144,
{
    let kept = state.retained(old_items);
    kept_items_are_distinct(HISTORY_SAVE_MAX as nat, state.candidates(old_items));
    sorting_keeps_the_items(items, kept, kept[0]);
}

/// A rewritten file has no text twice.
pub proof fn rewriting_removes_duplicates(
    state: HistoryState,
    old_items: Seq<Option<ItemView>>,
    items: Seq<ItemView>,
)
    requires
        rewritten(state, old_items, items),
    ensures
        texts_differ(items),
{
    broadcast use vstd::seq_lib::group_to_multiset_ensures;

    let kept = state.retained(old_items);
    kept_items_are_distinct(HISTORY_SAVE_MAX as nat, state.candidates(old_items));
    assert forall|i: int, j: int| 0 <= i < j < items.len() implies (#[trigger] items[i]).contents != (
    #[trigger] items[j]).contents by {
        lemma_places_differ(items, kept, i, j);
    }
}

/// Sorting items that have different texts puts no text at two places.
proof fn lemma_places_differ(sorted: Seq<ItemView>, items: Seq<ItemView>, i: int, j: int)
    requires
        is_stable_sort(sorted, items),
        texts_differ(items),
        0 <= i < j < sorted.len(),
    ensures
        sorted[i].contents != sorted[j].contents,
{
    if sorted[i].contents == sorted[j].contents {
        let item = sorted[i];
        sorting_keeps_the_items(sorted, items, item);
        sorting_keeps_the_items(sorted, items, sorted[j]);
        assert(sorted.contains(item));
        assert(sorted.contains(sorted[j]));
        let a = choose|a: int| 0 <= a < items.len() && items[a] == item;
        let b = choose|b: int| 0 <= b < items.len() && items[b] == sorted[j];
        assert(a == b);
        // One item, twice in the sorted list, but only once in the other.
        lemma_count_twice(sorted, i, j);
        lemma_count_once(items, a);
        assert(sorted.to_multiset().count(item) == items.to_multiset().count(item));
    }
}

proof fn lemma_count_twice(items: Seq<ItemView>, i: int, j: int)
    requires
        0 <= i < j < items.len(),
        items[i] == items[j],
    ensures
        items.to_multiset().count(items[i]) >= 2,
{
    broadcast use vstd::seq_lib::group_to_multiset_ensures;

    let rest = items.remove(j);
    assert(rest[i] == items[i]);
    assert(rest.contains(items[i]));
    assert(items =~= rest.insert(j, items[j]));
    assert(rest.to_multiset().count(items[i]) > 0);
    assert(rest.to_multiset() == items.to_multiset().remove(items[j]));
    assert(items.contains(items[j]));
    assert(items.to_multiset().count(items[j]) > 0);
}

proof fn lemma_count_once(items: Seq<ItemView>, i: int)
    requires
        0 <= i < items.len(),
        texts_differ(items),
    ensures
        items.to_multiset().count(items[i]) <= 1,
{
    broadcast use vstd::seq_lib::group_to_multiset_ensures;

    let rest = items.remove(i);
    assert(rest.to_multiset() == items.to_multiset().remove(items[i]));
    if rest.contains(items[i]) {
        let k = choose|k: int| 0 <= k < rest.len() && rest[k] == items[i];
        if k < i {
            assert(items[k].contents == items[i].contents);
        } else {
            assert(items[k + 1].contents == items[i].contents);
        }
    }
    assert(rest.to_multiset().count(items[i]) == 0);
}

/// A rewritten file has the most recent texts of all that could be written, as many as it may have, and no
/// empty one.
pub proof fn rewriting_keeps_the_most_recent_texts(
    state: HistoryState,
    old_items: Seq<Option<ItemView>>,
    items: Seq<ItemView>,
    text: Seq<char>,
)
    requires
        rewritten(state, old_items, items),
    ensures
        has_text(items, text) <==> top(
            recent(state.candidates(old_items)),
            HISTORY_SAVE_MAX as nat,
        ).contains(text),
        has_text(items, text) ==> text.len() > 0,
{
    let all = state.candidates(old_items);
    let kept = state.retained(old_items);
    kept_items_are_distinct(HISTORY_SAVE_MAX as nat, all);
    lemma_sorting_keeps_the_texts(items, kept, text);
    recent_texts_are_all_texts(all);
    if has_text(items, text) {
        let k = choose|k: int|
            0 <= k < top(recent(all), HISTORY_SAVE_MAX as nat).len() && top(
                recent(all),
                HISTORY_SAVE_MAX as nat,
            )[k] == text;
        assert(recent(all)[k] == text);
        assert(recent(all).contains(text));
    }
}

/// As long as there are no more texts than a file may have, a rewrite loses none of those that stay or are
/// new, and each has its latest time.
pub proof fn rewriting_loses_nothing(
    state: HistoryState,
    old_items: Seq<Option<ItemView>>,
    items: Seq<ItemView>,
    text: Seq<char>,
)
    requires
        rewritten(state, old_items, items),
        recent(state.candidates(old_items)).len() <= HISTORY_SAVE_MAX,
        text.len() > 0,
        has_text(state.candidates(old_items), text),
    ensures
        items.contains(
            ItemView {
                contents: text,
                creation_timestamp: Timestamp {
                    nanos: latest(state.candidates(old_items), text),
                },
            },
        ),
{
    let cap = HISTORY_SAVE_MAX as nat;
    let all = state.candidates(old_items);
    let kept = state.retained(old_items);
    let entries = with_items(cap, all);
    recent_texts_are_all_texts(all);
    the_cache_keeps_the_most_recent_texts(cap, all);
    the_cache_keeps_the_latest_times(cap, all);
    assert(recent(all).contains(text));
    let k = choose|k: int| 0 <= k < recent(all).len() && recent(all)[k] == text;
    assert(keys(entries)[k] == text);
    assert(entries[k].0 == text);
    let item = ItemView {
        contents: text,
        creation_timestamp: Timestamp { nanos: latest(all, text) },
    };
    assert(kept[kept.len() - 1 - k] == item);
    sorting_keeps_the_items(items, kept, item);
}

/// Items with different texts go through the cache unchanged, if there is room for them.
proof fn lemma_distinct_items_stay(cap: nat, items: Seq<ItemView>)
    requires
        items.len() <= cap,
        texts_differ(items),
        forall|i: int| 0 <= i < items.len() ==> (#[trigger] items[i]).contents.len() > 0,
    ensures
        oldest_first(with_items(cap, items)) == items,
    decreases items.len(),
{
    if items.len() > 0 {
        let less = items.drop_last();
        assert forall|i: int| 0 <= i < less.len() implies (#[trigger] less[i]).contents.len() > 0 by {
            assert(items[i].contents.len() > 0);
        }
        assert forall|i: int, j: int| 0 <= i < j < less.len() implies (#[trigger] less[i]).contents != (
        #[trigger] less[j]).contents by {
            assert(items[i].contents != items[j].contents);
        }
        lemma_distinct_items_stay(cap, less);
        let entries = with_items(cap, less);
        let text = items.last().contents;
        assert(oldest_first(entries).len() == entries.len());
        if holds(entries, text) {
            let i = choose|i: int| has_key(entries, text, i);
            assert(oldest_first(entries)[entries.len() - 1 - i].contents == text);
            assert(items[entries.len() - 1 - i].contents != items[items.len() - 1].contents);
        }
        assert(items[items.len() - 1].contents.len() > 0);
        assert forall|i: int| 0 <= i < items.len() implies oldest_first(
            with_items(cap, items),
        )[i] == items[i] by {
            if i < less.len() {
                assert(oldest_first(entries)[i] == less[i]);
            }
        }
    }
    assert(oldest_first(with_items(cap, items)) =~= items);
}

/// If nothing is deleted, all items with a text stay.
proof fn lemma_all_items_survive(state: HistoryState, items: Seq<ItemView>)
    requires
        state.deleted.is_empty(),
        forall|i: int| 0 <= i < items.len() ==> (#[trigger] items[i]).contents.len() > 0,
    ensures
        state.survivors(as_entries(items)) == items,
    decreases items.len(),
{
    if items.len() > 0 {
        let less = items.drop_last();
        assert forall|i: int| 0 <= i < less.len() implies (#[trigger] less[i]).contents.len() > 0 by {
            assert(items[i].contents.len() > 0);
        }
        lemma_all_items_survive(state, less);
        assert(as_entries(items).drop_last() =~= as_entries(less));
        assert(items[items.len() - 1].contents.len() > 0);
        assert(!state.deleted.contains_key(items.last().contents));
        assert(less.push(items.last()) =~= items);
    } else {
        assert(state.survivors(as_entries(items)) =~= items);
    }
}

/// Vacuuming a file that was just vacuumed changes nothing.
pub proof fn vacuuming_twice_is_once(
    state: HistoryState,
    old_items: Seq<Option<ItemView>>,
    items: Seq<ItemView>,
    later: HistoryState,
    again: Seq<ItemView>,
)
    requires
        rewritten(state, old_items, items),
        !later.unsaved(),
        later.wf(),
        rewritten(later, as_entries(items), again),
    ensures
        again == items,
{
    let cap = HISTORY_SAVE_MAX as nat;
    rewriting_sorts_and_limits(state, old_items, items);
    rewriting_removes_duplicates(state, old_items, items);
    assert forall|i: int| 0 <= i < items.len() implies (#[trigger] items[i]).contents.len() > 0 by {
        rewriting_keeps_the_most_recent_texts(state, old_items, items, items[i].contents);
        assert(has_text(items, items[i].contents));
    }
    lemma_all_items_survive(later, items);
    assert(later.candidates(as_entries(items)) =~= items);
    lemma_distinct_items_stay(cap, items);
    assert(is_stable_sort(items, items));
    sorting_has_one_result(again, items, items);
}

/// What stays of an old file has no text that is deleted for all sessions.
proof fn lemma_survivors_survive(state: HistoryState, old_items: Seq<Option<ItemView>>)
    ensures
        forall|i: int|
            0 <= i < state.survivors(old_items).len() ==> state.survives(
                #[trigger] state.survivors(old_items)[i],
            ),
    decreases old_items.len(),
{
    if old_items.len() > 0 {
        lemma_survivors_survive(state, old_items.drop_last());
        let before = state.survivors(old_items.drop_last());
        let now = state.survivors(old_items);
        assert forall|i: int| 0 <= i < now.len() implies state.survives(#[trigger] now[i]) by {
            if i < before.len() {
                assert(now[i] == before[i]);
            }
        }
    }
}

/// A text that was removed is gone from the file once it is rewritten, unless it was added anew.
pub proof fn a_removed_text_is_gone(
    state: HistoryState,
    text: Seq<char>,
    old_items: Seq<Option<ItemView>>,
    items: Seq<ItemView>,
)
    requires
        state.wf(),
        rewritten(state.without(text), old_items, items),
    ensures
        !has_text(items, text),
{
    let after = state.without(text);
    let all = after.candidates(old_items);
    rewriting_keeps_the_most_recent_texts(after, old_items, items, text);
    recent_texts_are_all_texts(all);
    lemma_survivors_survive(after, old_items);
    dropping_a_text_drops_no_other(state.new_items, text, text);
    if has_text(items, text) {
        let kept = top(recent(all), HISTORY_SAVE_MAX as nat);
        let k = choose|k: int| 0 <= k < kept.len() && kept[k] == text;
        assert(recent(all)[k] == text);
        assert(recent(all).contains(text));
        let i = choose|i: int| 0 <= i < all.len() && #[trigger] all[i].contents == text;
        let old = after.survivors(old_items);
        if i < old.len() {
            assert(after.survives(old[i]));
        } else {
            lemma_without_text_of_tail(state.new_items, text, state.first_unwritten);
            let j = i - old.len() + after.first_unwritten;
            assert(after.new_items[j].contents == text);
            assert(has_text(after.new_items, text));
        }
    }
}

/// Removing a text leaves the other new items alone, in order, and the items of the file.
pub proof fn removing_keeps_the_others(state: HistoryState, text: Seq<char>, other: Seq<char>)
    requires
        other != text,
    ensures
        has_text(state.without(text).new_items, other) == has_text(state.new_items, other),
        !has_text(state.without(text).new_items, text),
        state.without(text).file == state.file,
{
    dropping_a_text_drops_no_other(state.new_items, text, other);
    dropping_a_text_drops_no_other(state.new_items, text, text);
}

/// Clearing the session deletes what the session wrote from the file, and keeps what is older.
pub proof fn clearing_the_session_keeps_older_items(state: HistoryState, item: ItemView)
    requires
        item.contents.len() > 0,
        has_text(state.new_items, item.contents),
    ensures
        state.session_cleared().survives(item) == (item.creation_timestamp.nanos
            <= state.boundary.nanos),
{
}

/// Clearing the session does not touch texts that the session does not have.
pub proof fn clearing_the_session_keeps_other_texts(state: HistoryState, item: ItemView)
    requires
        !has_text(state.new_items, item.contents),
    ensures
        state.session_cleared().survives(item) == state.survives(item),
{
}

/// A cleared history has no items but those that a file may still have, and nothing to save.
pub proof fn a_cleared_history_is_empty(state: HistoryState, idx: int)
    requires
        idx > 0,
    ensures
        state.emptied().lookup(idx) == ItemLookupView::LoadFirst,
        !state.emptied().unsaved(),
{
    assert(Map::<Seq<char>, DeletionScope>::empty().is_empty());
}

/// An item that was added is the most recent one.
pub proof fn an_added_item_comes_first(state: HistoryState, item: ItemView)
    requires
        item.contents.len() > 0,
    ensures
        state.with_new_item(item).lookup(1) is Item,
        state.with_new_item(item).lookup(1)->item == state.joined(item),
        state.joined(item).contents == item.contents,
{
}

/// A new item moves all others one further; one that is merged moves none.
pub proof fn an_added_item_moves_the_others(state: HistoryState, item: ItemView, idx: int)
    requires
        item.contents.len() > 0,
        idx >= 1,
    ensures
        state.takes(item) ==> state.with_new_item(item).lookup(idx + 1) == state.lookup(idx),
        !state.takes(item) && idx > 1 ==> state.with_new_item(item).lookup(idx) == state.lookup(idx),
{
}

/// There is an item at each index up to the size of the history, and none beyond it, nor at zero.
pub proof fn there_are_as_many_items_as_the_size_says(state: HistoryState, idx: int)
    requires
        state.file is Some,
    ensures
        state.lookup(idx) is Item <==> 1 <= idx <= state.new_items.len() + state.file->0.items.len(),
        !(state.lookup(idx) is LoadFirst),
{
}

/// Items behind the entries of a file are decoded behind them.
proof fn lemma_decoded_items_behind(entries: Seq<Option<ItemView>>, items: Seq<ItemView>)
    ensures
        decoded(entries + as_entries(items)) == decoded(entries) + items,
    decreases items.len(),
{
    if items.len() == 0 {
        assert(entries + as_entries(items) =~= entries);
        assert(decoded(entries) + items =~= decoded(entries));
    } else {
        let all = entries + as_entries(items);
        lemma_decoded_items_behind(entries, items.drop_last());
        assert(all.drop_last() =~= entries + as_entries(items.drop_last()));
        assert(all.last() == Some(items.last()));
        assert(decoded(entries) + items =~= (decoded(entries) + items.drop_last()).push(
            items.last(),
        ));
    }
}

/// The history when all its items were read from a file with the given entries.
pub open spec fn read_back(state: HistoryState, on_disk: Seq<Option<ItemView>>) -> HistoryState {
    HistoryState {
        new_items: Seq::empty(),
        first_unwritten: 0,
        file: Some(file_state(on_disk)),
        ..state
    }
}

/// Items that a save appends are found at the same place once they are read back from the file, as long as
/// no text is among them twice. What the shell has written before stands behind what it has loaded.
pub proof fn saved_items_are_read_back(
    state: HistoryState,
    entries: Seq<Option<ItemView>>,
    on_disk: Seq<Option<ItemView>>,
    idx: int,
)
    requires
        state.wf(),
        state.name.len() > 0,
        state.deleted.is_empty(),
        state.file == Some(file_state(entries)),
        texts_differ(state.new_items),
        on_disk == entries + as_entries(state.new_items.take(state.first_unwritten)),
    ensures
        read_back(state, on_disk + as_entries(state.saving().unwritten())).lookup(idx)
            == state.lookup(idx),
{
    lemma_keep_last_of_distinct(state.new_items);
    compacting_moves_no_mark(state);
    let unwritten = state.unwritten();
    assert(texts_differ(unwritten)) by {
        assert forall|i: int, j: int| 0 <= i < j < unwritten.len() implies (
        #[trigger] unwritten[i]).contents != (#[trigger] unwritten[j]).contents by {
            assert(state.new_items[i + state.first_unwritten].contents != state.new_items[j
                + state.first_unwritten].contents);
        }
    }
    lemma_keep_last_of_distinct(unwritten);
    assert(state.saving().unwritten() == unwritten);
    assert(on_disk + as_entries(unwritten) =~= entries + as_entries(state.new_items));
    lemma_decoded_items_behind(entries, state.new_items);
}

/// Once a save has appended what was unwritten, the file has every text of the new items, repeated or not, if
/// it had those of the written ones before.
pub proof fn saved_texts_are_in_the_file(
    state: HistoryState,
    on_disk: Seq<Option<ItemView>>,
    text: Seq<char>,
)
    requires
        state.wf(),
        state.name.len() > 0,
        state.deleted.is_empty(),
        forall|i: int|
            0 <= i < state.first_unwritten ==> has_text(
                decoded(on_disk),
                (#[trigger] state.new_items[i]).contents,
            ),
        has_text(state.new_items, text),
    ensures
        has_text(decoded(on_disk + as_entries(state.saving().unwritten())), text),
{
    let before = decoded(on_disk);
    let appended = state.saving().unwritten();
    let after = decoded(on_disk + as_entries(appended));
    lemma_decoded_items_behind(on_disk, appended);
    let i = choose|i: int|
        0 <= i < state.new_items.len() && #[trigger] state.new_items[i].contents == text;
    if i < state.first_unwritten {
        let k = choose|k: int| 0 <= k < before.len() && #[trigger] before[k].contents == text;
        assert(after[k].contents == text);
    } else {
        let unwritten = state.unwritten();
        assert(unwritten[i - state.first_unwritten].contents == text);
        assert(has_text(unwritten, text));
        compacting_moves_no_mark(state);
        dropping_duplicates_loses_no_text(unwritten, text);
        assert(has_text(appended, text));
        let k = choose|k: int| 0 <= k < appended.len() && #[trigger] appended[k].contents == text;
        assert(after[before.len() + k].contents == text);
    }
}

/// Compacting leaves the mark between written and unwritten items where it is: what is unwritten
/// afterwards is what was unwritten before, without duplicates.
pub proof fn compacting_moves_no_mark(state: HistoryState)
    requires
        state.wf(),
    ensures
        state.compacted().unwritten() == keep_last(state.unwritten()),
        state.compacted().wf(),
{
    lemma_keep_last_of_tail(state.new_items, state.first_unwritten);
    let kept = keep_last(state.new_items);
    assert forall|i: int| 0 <= i < kept.len() implies (#[trigger] kept[i]).contents.len() > 0 by {
        dropping_duplicates_loses_no_text(state.new_items, kept[i].contents);
        assert(has_text(kept, kept[i].contents));
    }
}

/// Removing a text leaves the mark between written and unwritten items where it is.
pub proof fn removing_moves_no_mark(state: HistoryState, text: Seq<char>)
    requires
        state.wf(),
    ensures
        state.without(text).unwritten() == without_text(state.unwritten(), text),
{
    lemma_without_text_of_tail(state.new_items, text, state.first_unwritten);
}

/// Compacting loses no text among the new items.
pub proof fn compacting_loses_no_text(state: HistoryState, text: Seq<char>)
    requires
        state.wf(),
    ensures
        has_text(state.compacted().new_items, text) == has_text(state.new_items, text),
        texts_differ(state.compacted().new_items),
{
    dropping_duplicates_loses_no_text(state.new_items, text);
    dropping_duplicates_leaves_none(state.new_items);
}

/// Once everything has been appended or rewritten, there is nothing to save: saving again does nothing.
pub proof fn saving_again_does_nothing(state: HistoryState, file_id: FileId, vacuum: bool)
    ensures
        ({
            let done = HistoryState { file_id, ..state.all_saved() };
            done.saving() == done && done.saving_action(vacuum) == SaveActionView::Finished
        }),
        state.deleted.is_empty() ==> ({
            let done = HistoryState {
                first_unwritten: state.new_items.len() as int,
                file_id,
                ..state
            };
            done.saving() == done && done.saving_action(vacuum) == SaveActionView::Finished
        }),
{
    assert(Map::<Seq<char>, DeletionScope>::empty().is_empty());
}

/// Without a name nothing is ever written, but the new items stay, as far as they have different texts.
pub proof fn a_private_history_is_not_written(state: HistoryState, vacuum: bool, text: Seq<char>)
    requires
        state.name.len() == 0,
    ensures
        state.saving_action(vacuum) == SaveActionView::Finished,
        has_text(state.saving().new_items, text) == has_text(state.new_items, text),
        !state.saving().unsaved(),
{
    dropping_duplicates_loses_no_text(state.new_items, text);
    assert(Map::<Seq<char>, DeletionScope>::empty().is_empty());
}

/// Incorporating external changes a second time, with the clock where it was or before, is cheap: there is
/// nothing to do.
pub proof fn incorporating_changes_once_is_enough(state: HistoryState, now: Timestamp, later: Timestamp)
    requires
        later.nanos <= now.nanos,
    ensures
        later.nanos <= state.moved_to(now).saving().boundary.nanos,
{
}

/// The countdown stands at its start just behind a save that vacuums.
pub proof fn a_vacuum_starts_the_countdown_over(
    before: HistoryState,
    picked: usize,
    action: SaveActionView,
    after: HistoryState,
)
    requires
        before.wf(),
        picked < VACUUM_FREQUENCY,
        saved_as(before, picked, action, after),
    ensures
        after.countdown == Some((VACUUM_FREQUENCY - 1) as usize) <==> before.countdown_from(picked)
            == 0,
{
}

/// The countdown after `saves` saves that start with it at `start`.
pub open spec fn countdown_after(start: usize, saves: nat) -> usize
    decreases saves,
{
    if saves == 0 {
        start
    } else {
        next_countdown(countdown_after(start, (saves - 1) as nat))
    }
}

/// The countdown goes down by one with each save, round and round.
pub proof fn the_countdown_goes_round(start: usize, saves: nat)
    requires
        start < VACUUM_FREQUENCY,
    ensures
        countdown_after(start, saves) == (start - saves) % VACUUM_FREQUENCY as int,
    decreases saves,
{
    if saves > 0 {
        the_countdown_goes_round(start, (saves - 1) as nat);
    }
}

/// Of two numbers that lie closer together than the countdown is long, at most one is a multiple of it.
proof fn lemma_one_multiple(a: int, b: int)
    requires
        0 < a - b < VACUUM_FREQUENCY,
    ensures
        !(a % VACUUM_FREQUENCY as int == 0 && b % VACUUM_FREQUENCY as int == 0),
{
}

/// What is left of a number without its remainder is a multiple.
proof fn lemma_rest_is_multiple(a: int)
    ensures
        (a - a % VACUUM_FREQUENCY as int) % VACUUM_FREQUENCY as int == 0,
{
}

/// Of as many saves in a row as the countdown is long, exactly one finds the countdown at zero, and vacuums.
pub proof fn every_so_often_a_save_vacuums(start: usize, saves: nat)
    requires
        start < VACUUM_FREQUENCY,
    ensures
        exists|k: nat|
            saves <= k < saves + VACUUM_FREQUENCY && #[trigger] countdown_after(start, k) == 0,
        forall|j: nat, k: nat|
            saves <= j < k < saves + VACUUM_FREQUENCY ==> !(#[trigger] countdown_after(start, j) == 0
                && #[trigger] countdown_after(start, k) == 0),
{
    the_countdown_goes_round(start, saves);
    let k = (saves + countdown_after(start, saves)) as nat;
    the_countdown_goes_round(start, k);
    lemma_rest_is_multiple(start - saves);
    assert(countdown_after(start, k) == 0);
    assert forall|j: nat, k: nat| saves <= j < k < saves + VACUUM_FREQUENCY implies !(
    #[trigger] countdown_after(start, j) == 0 && #[trigger] countdown_after(start, k) == 0) by {
        the_countdown_goes_round(start, j);
        the_countdown_goes_round(start, k);
        lemma_one_multiple(start - j, start - k);
    }
}

} // verus!
