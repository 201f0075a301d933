//! What holds of a history with a local and a shared part over several operations.
use crate::api::{self, reads_up_to, HistoryProvider};
use crate::history::{
    greatest, index_answered, indexes_answered, indexes_read, item_read, keep_first, local_added,
    local_without, merges_with_last, newest_first, shared_is_next, without_ephemeral_tail, History,
};
use crate::item::{HistoryItem, LocalHistoryItem, PersistenceMode};
use vstd::prelude::*;

verus! {

/// The list of the whole history has each text of the local and shared items, and each of them once.
pub proof fn the_whole_history_has_each_text_once(list: Seq<Seq<char>>)
    ensures
        keep_first(list).no_duplicates(),
        forall|text: Seq<char>| #[trigger] keep_first(list).contains(text) <==> list.contains(text),
    decreases list.len(),
{
    if list.len() > 0 {
        let less = list.drop_last();
        let last = list.last();
        the_whole_history_has_each_text_once(less);
        assert(list =~= less.push(last));
        assert forall|text: Seq<char>| list.contains(text) == (text == last || less.contains(text)) by {
            if less.contains(text) {
                let k = choose|k: int| 0 <= k < less.len() && less[k] == text;
                assert(list[k] == text);
            }
            if list.contains(text) && text != last {
                let k = choose|k: int| 0 <= k < list.len() && list[k] == text;
                assert(less[k] == text);
            }
            assert(list[list.len() - 1] == last);
        }
        let before = keep_first(less);
        let now = keep_first(list);
        assert(before.contains(last) == less.contains(last));
        assert forall|text: Seq<char>| #[trigger] now.contains(text) <==> text == last
            || before.contains(text) by {
            if !less.contains(last) {
                if before.contains(text) {
                    let k = choose|k: int| 0 <= k < before.len() && before[k] == text;
                    assert(now[k] == text);
                }
                if now.contains(text) && text != last {
                    let k = choose|k: int| 0 <= k < now.len() && now[k] == text;
                    assert(before[k] == text);
                }
                assert(now[before.len() as int] == last);
            }
        }
    }
}

/// Listing a history that has each text once changes nothing.
pub proof fn listing_distinct_texts_changes_nothing(list: Seq<Seq<char>>)
    requires
        list.no_duplicates(),
    ensures
        keep_first(list) == list,
    decreases list.len(),
{
    if list.len() > 0 {
        let less = list.drop_last();
        assert(less.no_duplicates());
        listing_distinct_texts_changes_nothing(less);
        if less.contains(list.last()) {
            let k = choose|k: int| 0 <= k < less.len() && less[k] == list.last();
            assert(list[k] == list[list.len() - 1]);
        }
        assert(less.push(list.last()) =~= list);
    } else {
        assert(keep_first(list) =~= list);
    }
}

/// Each index that is asked for has an answer, but for zero, and no other has; and where there is an item, the
/// answer is its text.
pub proof fn each_index_is_answered<P: HistoryProvider>(
    before: P,
    items: Seq<HistoryItem>,
    local: nat,
    indexes: Seq<usize>,
    out: Map<usize, Seq<char>>,
    after: P,
)
    requires
        indexes_answered(before, items, local, indexes, out, after),
    ensures
        forall|idx: usize| #[trigger] out.contains_key(idx) <==> idx != 0 && indexes.contains(idx),
        forall|idx: usize| #[trigger]
            out.contains_key(idx) && idx <= items.len() ==> out[idx] == items[idx - 1].text(),
    decreases indexes.len(),
{
    if indexes.len() > 0 {
        let less = indexes.drop_last();
        let last = indexes.last();
        let (known, mid) = choose|known: Map<usize, Seq<char>>, mid: P|
            indexes_answered(before, items, local, less, known, mid) && #[trigger] index_answered(
                mid,
                items,
                local,
                known,
                last,
                out,
                after,
            );
        each_index_is_answered(before, items, local, less, known, mid);
        assert forall|idx: usize| #[trigger] out.contains_key(idx) <==> idx != 0 && indexes.contains(
            idx,
        ) by {
            if less.contains(idx) {
                let k = choose|k: int| 0 <= k < less.len() && less[k] == idx;
                assert(indexes[k] == idx);
            }
            if indexes.contains(idx) && idx != last {
                let k = choose|k: int| 0 <= k < indexes.len() && indexes[k] == idx;
                assert(less[k] == idx);
            }
            assert(indexes[indexes.len() - 1] == last);
            assert(known.contains_key(idx) <==> idx != 0 && less.contains(idx));
        }
        assert forall|idx: usize| #[trigger]
            out.contains_key(idx) && idx <= items.len() implies out[idx] == items[idx - 1].text() by {
            if known.contains_key(idx) {
                assert(known[idx] == items[idx - 1].text());
            }
        }
    }
}

/// Index 1 is the most recent command: it is answered with the newest local or the newest shared item,
/// whichever has the later time.
pub proof fn the_first_index_is_the_most_recent<P: HistoryProvider>(
    before: History<P>,
    indexes: Seq<usize>,
    shared: Seq<api::HistoryItem>,
    out: Map<usize, Seq<char>>,
    after: History<P>,
)
    requires
        indexes.contains(1),
        before.local_items().len() > 0 || shared.len() > 0,
        indexes_read(before, indexes, shared, out, after),
    ensures
        out.contains_key(1),
        out[1] == if before.local_items().len() == 0 || (shared.len() > 0
            && shared[0]@.creation_timestamp.nanos
            > before.local_items().last()@.creation_timestamp.nanos) {
            shared[0]@.contents
        } else {
            before.local_items().last()@.contents
        },
{
    let local = before.local_items();
    let items = newest_first(local, shared);
    let mid = choose|mid: P|
        reads_up_to(&before.shared(), greatest(indexes) as nat, shared, &mid)
            && #[trigger] indexes_answered(mid, items, local.len(), indexes, out, after.shared());
    each_index_is_answered(mid, items, local.len(), indexes, out, after.shared());
    assert(out.contains_key(1));
    assert(items.len() >= 1);
}

/// No item is newer than one before it.
pub open spec fn is_newest_first(items: Seq<HistoryItem>) -> bool {
    forall|i: int, j: int|
        0 <= i < j < items.len() ==> (#[trigger] items[j]).time().nanos <= (
        #[trigger] items[i]).time().nanos
}

/// Every local and every shared item has an index, and no other one.
pub proof fn each_item_has_an_index(
    local: Seq<LocalHistoryItem>,
    shared: Seq<api::HistoryItem>,
    item: HistoryItem,
)
    ensures
        newest_first(local, shared).len() == local.len() + shared.len(),
        newest_first(local, shared).contains(item) <==> match item {
            HistoryItem::LocalHistoryItem(item) => local.contains(item),
            HistoryItem::SharedHistoryItem(item) => shared.contains(item),
        },
    decreases local.len() + shared.len(),
{
    let all = newest_first(local, shared);
    if local.len() > 0 || shared.len() > 0 {
        let next_shared = shared_is_next(local, shared);
        let less_local = if next_shared {
            local
        } else {
            local.drop_last()
        };
        let less_shared = if next_shared {
            shared.drop_first()
        } else {
            shared
        };
        let rest = newest_first(less_local, less_shared);
        each_item_has_an_index(less_local, less_shared, item);
        if rest.contains(item) {
            let k = choose|k: int| 0 <= k < rest.len() && rest[k] == item;
            assert(all[k + 1] == item);
        }
        if all.contains(item) && item != all[0] {
            let k = choose|k: int| 0 <= k < all.len() && all[k] == item;
            assert(rest[k - 1] == item);
        }
        assert(all[0] == all[0]);
        match item {
            HistoryItem::LocalHistoryItem(item) => {
                if less_local.contains(item) {
                    let k = choose|k: int| 0 <= k < less_local.len() && less_local[k] == item;
                    assert(local[k] == item);
                }
                if local.contains(item) && !next_shared && item != local.last() {
                    let k = choose|k: int| 0 <= k < local.len() && local[k] == item;
                    assert(less_local[k] == item);
                }
                if !next_shared {
                    assert(local[local.len() - 1] == local.last());
                }
            },
            HistoryItem::SharedHistoryItem(item) => {
                if less_shared.contains(item) {
                    let k = choose|k: int| 0 <= k < less_shared.len() && less_shared[k] == item;
                    if next_shared {
                        assert(shared[k + 1] == item);
                    }
                }
                if shared.contains(item) && next_shared && item != shared[0] {
                    let k = choose|k: int| 0 <= k < shared.len() && shared[k] == item;
                    assert(less_shared[k - 1] == item);
                }
            },
        }
    }
}

/// If the local and the shared items are in the order of their times, so are the indexes: a greater one is
/// never that of a newer item.
pub proof fn indexes_go_back_in_time(local: Seq<LocalHistoryItem>, shared: Seq<api::HistoryItem>)
    requires
        forall|i: int, j: int|
            0 <= i < j < local.len() ==> (#[trigger] local[i])@.creation_timestamp.nanos <= (
            #[trigger] local[j])@.creation_timestamp.nanos,
        forall|i: int, j: int|
            0 <= i < j < shared.len() ==> (#[trigger] shared[j])@.creation_timestamp.nanos <= (
            #[trigger] shared[i])@.creation_timestamp.nanos,
    ensures
        is_newest_first(newest_first(local, shared)),
    decreases local.len() + shared.len(),
{
    let all = newest_first(local, shared);
    if local.len() > 0 || shared.len() > 0 {
        let next_shared = shared_is_next(local, shared);
        let less_local = if next_shared {
            local
        } else {
            local.drop_last()
        };
        let less_shared = if next_shared {
            shared.drop_first()
        } else {
            shared
        };
        let rest = newest_first(less_local, less_shared);
        indexes_go_back_in_time(less_local, less_shared);
        assert forall|i: int, j: int| 0 <= i < j < all.len() implies (#[trigger] all[j]).time().nanos
            <= (#[trigger] all[i]).time().nanos by {
            assert(all[j] == rest[j - 1]);
            if i > 0 {
                assert(all[i] == rest[i - 1]);
            } else {
                let later = rest[j - 1];
                each_item_has_an_index(less_local, less_shared, later);
                assert(rest.contains(later));
                match later {
                    HistoryItem::LocalHistoryItem(item) => {
                        let k = choose|k: int| 0 <= k < less_local.len() && less_local[k] == item;
                        assert(local[k] == item);
                        if k < local.len() - 1 {
                            assert(local[k]@.creation_timestamp.nanos <= local[local.len()
                                - 1]@.creation_timestamp.nanos);
                        }
                    },
                    HistoryItem::SharedHistoryItem(item) => {
                        let k = choose|k: int| 0 <= k < less_shared.len() && less_shared[k] == item;
                        let at = if next_shared {
                            k + 1
                        } else {
                            k
                        };
                        assert(shared[at] == item);
                        if at > 0 {
                            assert(shared[at]@.creation_timestamp.nanos
                                <= shared[0]@.creation_timestamp.nanos);
                        }
                    },
                }
            }
        }
    }
}

/// To answer indexes up to `n`, so many shared items are enough.
pub proof fn so_many_shared_items_are_enough(
    local: Seq<LocalHistoryItem>,
    shared: Seq<api::HistoryItem>,
    n: nat,
    idx: int,
)
    requires
        n <= shared.len(),
        0 <= idx < n,
    ensures
        newest_first(local, shared.take(n as int))[idx] == newest_first(local, shared)[idx],
    decreases local.len() + shared.len(),
{
    let few = shared.take(n as int);
    assert(few[0] == shared[0]);
    each_item_has_an_index(local, few, HistoryItem::SharedHistoryItem(shared[0]));
    each_item_has_an_index(local, shared, HistoryItem::SharedHistoryItem(shared[0]));
    if shared_is_next(local, shared) {
        assert(few.drop_first() =~= shared.drop_first().take(n - 1));
        if idx > 0 {
            so_many_shared_items_are_enough(local, shared.drop_first(), (n - 1) as nat, idx - 1);
        }
    } else {
        if idx > 0 {
            so_many_shared_items_are_enough(local.drop_last(), shared, n, idx - 1);
        }
    }
}

/// A local item that was added is the most recent one, by its text.
pub proof fn an_added_local_item_comes_first<P: HistoryProvider>(
    before: Seq<LocalHistoryItem>,
    item: LocalHistoryItem,
    history: History<P>,
    out: Option<HistoryItem>,
    after: History<P>,
)
    requires
        item@.contents.len() > 0,
        local_added(before, item, history.local_items()),
        item_read(history, 1, out, after),
    ensures
        out is Some,
        out->0.text() == item@.contents,
{
}

/// The item is ephemeral.
pub open spec fn is_ephemeral(item: LocalHistoryItem) -> bool {
    item@.persist_mode == PersistenceMode::Ephemeral
}

/// No item is ephemeral but perhaps the last one.
pub open spec fn only_last_is_ephemeral(items: Seq<LocalHistoryItem>) -> bool {
    forall|i: int| 0 <= i < items.len() - 1 ==> !is_ephemeral(#[trigger] items[i])
}

/// No item is ephemeral.
pub open spec fn none_is_ephemeral(items: Seq<LocalHistoryItem>) -> bool {
    forall|i: int| 0 <= i < items.len() ==> !is_ephemeral(#[trigger] items[i])
}

/// Dropping the ephemeral items at the end leaves none, if there were none elsewhere, and drops no item
/// that is not ephemeral.
pub proof fn ephemeral_items_can_be_dropped(items: Seq<LocalHistoryItem>)
    requires
        only_last_is_ephemeral(items),
    ensures
        none_is_ephemeral(without_ephemeral_tail(items)),
        without_ephemeral_tail(items) == if items.len() > 0 && is_ephemeral(items.last()) {
            items.drop_last()
        } else {
            items
        },
{
    reveal_with_fuel(without_ephemeral_tail, 3);
    if items.len() > 1 {
        assert(items.drop_last().last() == items[items.len() - 2]);
    }
}

/// Adding a local item removes an ephemeral one, unless it is the same one again: in any case no item is
/// ephemeral but perhaps the last one.
pub proof fn adding_removes_ephemeral_items(
    before: Seq<LocalHistoryItem>,
    item: LocalHistoryItem,
    after: Seq<LocalHistoryItem>,
)
    requires
        only_last_is_ephemeral(before),
        local_added(before, item, after),
    ensures
        only_last_is_ephemeral(after),
        item@.contents.len() > 0 && !is_ephemeral(item) ==> none_is_ephemeral(after),
{
    ephemeral_items_can_be_dropped(before);
    if item@.contents.len() > 0 && merges_with_last(before, item) {
        assert forall|i: int| 0 <= i < after.len() - 1 implies !is_ephemeral(#[trigger] after[i]) by {
            assert(after[i] == after.drop_last()[i]);
            assert(before[i] == before.drop_last()[i]);
        }
        assert forall|i: int|
            0 <= i < after.len() && !is_ephemeral(item) implies !is_ephemeral(#[trigger] after[i]) by {
            if i == after.len() - 1 {
                assert(after[i] == after.last());
            }
        }
    }
}

/// A removed text is gone from the local items, and the others stay.
pub proof fn removing_drops_a_text_and_no_other(
    items: Seq<LocalHistoryItem>,
    text: Seq<char>,
    item: LocalHistoryItem,
)
    ensures
        local_without(items, text).contains(item) <==> items.contains(item) && item@.contents
            != text,
    decreases items.len(),
{
    if items.len() > 0 {
        let less = items.drop_last();
        let last = items.last();
        removing_drops_a_text_and_no_other(less, text, item);
        let before = local_without(less, text);
        let now = local_without(items, text);
        if less.contains(item) {
            let k = choose|k: int| 0 <= k < less.len() && less[k] == item;
            assert(items[k] == item);
        }
        if items.contains(item) && item != last {
            let k = choose|k: int| 0 <= k < items.len() && items[k] == item;
            assert(less[k] == item);
        }
        assert(items[items.len() - 1] == last);
        if last@.contents != text {
            if before.contains(item) {
                let k = choose|k: int| 0 <= k < before.len() && before[k] == item;
                assert(now[k] == item);
            }
            if now.contains(item) && item != last {
                let k = choose|k: int| 0 <= k < now.len() && now[k] == item;
                assert(before[k] == item);
            }
            assert(now[before.len() as int] == last);
        }
    }
}

/// Removing a text leaves no ephemeral item before the last one either.
pub proof fn removing_keeps_ephemeral_items_last(items: Seq<LocalHistoryItem>, text: Seq<char>)
    requires
        only_last_is_ephemeral(items),
    ensures
        only_last_is_ephemeral(local_without(items, text)),
        none_is_ephemeral(items) ==> none_is_ephemeral(local_without(items, text)),
    decreases items.len(),
{
    if items.len() > 0 {
        let less = items.drop_last();
        assert(none_is_ephemeral(less)) by {
            assert forall|i: int| 0 <= i < less.len() implies !is_ephemeral(#[trigger] less[i]) by {
                assert(!is_ephemeral(items[i]));
            }
        }
        removing_keeps_ephemeral_items_last(less, text);
        let before = local_without(less, text);
        let now = local_without(items, text);
        assert forall|i: int| 0 <= i < now.len() - 1 implies !is_ephemeral(#[trigger] now[i]) by {
            assert(now[i] == before[i]);
        }
        if none_is_ephemeral(items) {
            assert(!is_ephemeral(items[items.len() - 1]));
            assert forall|i: int| 0 <= i < now.len() implies !is_ephemeral(#[trigger] now[i]) by {
                if i < before.len() {
                    assert(now[i] == before[i]);
                }
            }
        }
    }
}

} // verus!
