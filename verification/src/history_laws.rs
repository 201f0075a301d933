//! What each operation on a history does, in terms of its local and its shared part.
use crate::api::{self, next_read, read_from_index, reads_up_to, HistoryProvider};
use crate::commands::{detection_is_stopped, potential_paths, NodeKind};
use crate::history::{
    detection_begun, detects_files_for, greatest, index_answered, indexes_answered, indexes_read,
    is_file_detection, item_read, keep_first, local_added, local_texts, local_without,
    newest_first, shared_is_next, shared_texts, size_read, without_ephemeral_tail, FileDetection,
    History,
};
use crate::item::{HistoryItem, LocalHistoryItem, PersistenceMode};
use crate::laws::{
    each_index_is_answered, each_item_has_an_index, so_many_shared_items_are_enough,
    the_whole_history_has_each_text_once,
};
use crate::search_laws::is_unchanging;
use crate::text::texts;
use vstd::prelude::*;

verus! {

/// Texts are listed in the order in which they come first: of two listed texts, the first comes in the list
/// before every occurrence of the second.
pub proof fn texts_are_listed_where_they_come_first(list: Seq<Seq<char>>, i: int, j: int, p: int)
    requires
        0 <= i < j < keep_first(list).len(),
        0 <= p < list.len(),
        list[p] == keep_first(list)[j],
    ensures
        exists|q: int| 0 <= q < p && #[trigger] list[q] == keep_first(list)[i],
    decreases list.len(),
{
    let less = list.drop_last();
    let last = list.last();
    let before = keep_first(less);
    the_whole_history_has_each_text_once(less);
    the_whole_history_has_each_text_once(list);
    if less.contains(last) {
        let at = if p < less.len() {
            p
        } else {
            choose|k: int| 0 <= k < less.len() && less[k] == last
        };
        assert(less[at] == before[j]);
        texts_are_listed_where_they_come_first(less, i, j, at);
        let q = choose|q: int| 0 <= q < at && #[trigger] less[q] == before[i];
        assert(list[q] == before[i]);
    } else if j < before.len() {
        assert(before.contains(before[j]));
        if p == less.len() {
            assert(less.contains(last));
        }
        assert(less[p] == before[j]);
        texts_are_listed_where_they_come_first(less, i, j, p);
        let q = choose|q: int| 0 <= q < p && #[trigger] less[q] == before[i];
        assert(list[q] == before[i]);
    } else {
        if p < less.len() {
            assert(less[p] == last);
            assert(less.contains(last));
        }
        assert(before.contains(before[i]));
        let q = choose|q: int| 0 <= q < less.len() && less[q] == before[i];
        assert(list[q] == before[i]);
    }
}

/// The first of the listed texts is the first of the list.
pub proof fn the_first_text_is_listed_first(list: Seq<Seq<char>>)
    requires
        list.len() > 0,
    ensures
        keep_first(list).len() > 0,
        keep_first(list)[0] == list[0],
    decreases list.len(),
{
    let less = list.drop_last();
    if less.len() > 0 {
        the_first_text_is_listed_first(less);
        assert(less[0] == list[0]);
    } else {
        assert(keep_first(less).len() == 0);
    }
}

/// The list of the whole history begins with the text of the last local item, or, without local items, with
/// that of the first shared one. The texts of local items come before those that only shared items have, and
/// are gone through from the last to the first; those of shared items are gone through from the first on.
pub proof fn the_whole_history_begins_with_the_last_local_item(
    local: Seq<LocalHistoryItem>,
    shared: Seq<api::HistoryItem>,
    i: int,
)
    ensures
        ({
            let all = local_texts(local) + shared_texts(shared);
            &&& all.len() == local.len() + shared.len()
            &&& 0 <= i < local.len() ==> all[i] == local[local.len() - 1 - i]@.contents
            &&& 0 <= i < shared.len() ==> all[local.len() + i] == shared[i]@.contents
            &&& local.len() > 0 ==> keep_first(all)[0] == local.last()@.contents
            &&& local.len() == 0 && shared.len() > 0 ==> keep_first(all)[0] == shared[0]@.contents
        }),
{
    let all = local_texts(local) + shared_texts(shared);
    if all.len() > 0 {
        the_first_text_is_listed_first(all);
    }
}

/// Local items have the first indexes, the last one index 1; behind them the provider is asked, whose first
/// item is behind the first local one. Reading does not touch the local items.
pub proof fn indexes_begin_with_the_last_local_item<P: HistoryProvider>(
    before: History<P>,
    idx: usize,
    out: Option<HistoryItem>,
    after: History<P>,
)
    requires
        item_read(before, idx as int, out, after),
    ensures
        ({
            let local = before.local_items();
            &&& after.local_items() == local
            &&& idx == 0 ==> out is None
            &&& 1 <= idx <= local.len() ==> out == Some(
                HistoryItem::LocalHistoryItem(local[local.len() - idx]),
            )
            &&& idx <= local.len() ==> after.shared() == before.shared()
            &&& idx > local.len() ==> exists|shared: Option<api::HistoryItem>| #[trigger]
                P::item_read(
                    &before.shared(),
                    (idx - local.len()) as usize,
                    shared,
                    &after.shared(),
                ) && match shared {
                    Some(item) => out == Some(HistoryItem::SharedHistoryItem(item)),
                    None => out is None,
                }
        }),
{
}

/// The size of a history is that of its two parts together.
pub proof fn the_size_counts_both_parts<P: HistoryProvider>(
    before: History<P>,
    out: Option<usize>,
    after: History<P>,
)
    requires
        size_read(before, out, after),
    ensures
        exists|shared: u64| #[trigger]
            P::size_read(&before.shared(), shared, &after.shared()) && (out is Some
                <==> before.local_items().len() + shared <= usize::MAX) && (out is Some ==> out->0
                == before.local_items().len() + shared),
{
    let shared = choose|shared: u64| #[trigger]
        P::size_read(&before.shared(), shared, &after.shared()) && {
            let size = before.local_items().len() + shared;
            out == if size <= usize::MAX {
                Some(size as usize)
            } else {
                None
            }
        };
    assert(P::size_read(&before.shared(), shared, &after.shared()));
}

/// The shared items of a list.
pub open spec fn shared_of(items: Seq<HistoryItem>) -> Seq<api::HistoryItem>
    decreases items.len(),
{
    if items.len() == 0 {
        Seq::empty()
    } else {
        match items[0] {
            HistoryItem::SharedHistoryItem(item) => seq![item] + shared_of(items.drop_first()),
            HistoryItem::LocalHistoryItem(_) => shared_of(items.drop_first()),
        }
    }
}

/// The local items of a list, the last one first.
pub open spec fn local_of(items: Seq<HistoryItem>) -> Seq<LocalHistoryItem>
    decreases items.len(),
{
    if items.len() == 0 {
        Seq::empty()
    } else {
        match items[0] {
            HistoryItem::LocalHistoryItem(item) => local_of(items.drop_first()).push(item),
            HistoryItem::SharedHistoryItem(_) => local_of(items.drop_first()),
        }
    }
}

/// Merging keeps the order of each part: without the other part, the shared items are as they were, and the
/// local ones are reversed.
pub proof fn merging_keeps_the_order_of_each_part(
    local: Seq<LocalHistoryItem>,
    shared: Seq<api::HistoryItem>,
)
    ensures
        shared_of(newest_first(local, shared)) == shared,
        local_of(newest_first(local, shared)) == local,
    decreases local.len() + shared.len(),
{
    let all = newest_first(local, shared);
    if shared_is_next(local, shared) {
        merging_keeps_the_order_of_each_part(local, shared.drop_first());
        assert(all.drop_first() =~= newest_first(local, shared.drop_first()));
        assert(seq![shared[0]] + shared.drop_first() =~= shared);
    } else if local.len() > 0 {
        merging_keeps_the_order_of_each_part(local.drop_last(), shared);
        assert(all.drop_first() =~= newest_first(local.drop_last(), shared));
        assert(local.drop_last().push(local.last()) =~= local);
    } else {
        assert(shared =~= Seq::empty());
        assert(local =~= Seq::empty());
    }
}

/// If the local items are in the order of their times, a shared item comes before a local one only if it is
/// later: at the same time the local one is first.
pub proof fn at_one_time_local_items_come_first(
    local: Seq<LocalHistoryItem>,
    shared: Seq<api::HistoryItem>,
    i: int,
    j: int,
)
    requires
        forall|i: int, j: int|
            0 <= i < j < local.len() ==> (#[trigger] local[i])@.creation_timestamp.nanos <= (
            #[trigger] local[j])@.creation_timestamp.nanos,
        0 <= i < j < newest_first(local, shared).len(),
        newest_first(local, shared)[i] is SharedHistoryItem,
        newest_first(local, shared)[j] is LocalHistoryItem,
    ensures
        newest_first(local, shared)[i].time().nanos > newest_first(local, shared)[j].time().nanos,
    decreases local.len() + shared.len(),
{
    let all = newest_first(local, shared);
    if shared_is_next(local, shared) {
        let rest = newest_first(local, shared.drop_first());
        assert(all[j] == rest[j - 1]);
        if i == 0 {
            let later = rest[j - 1];
            each_item_has_an_index(local, shared.drop_first(), later);
            assert(rest.contains(later));
            let item = later->LocalHistoryItem_0;
            let k = choose|k: int| 0 <= k < local.len() && local[k] == item;
            if k < local.len() - 1 {
                assert(local[k]@.creation_timestamp.nanos <= local[local.len()
                    - 1]@.creation_timestamp.nanos);
            }
        } else {
            assert(all[i] == rest[i - 1]);
            at_one_time_local_items_come_first(local, shared.drop_first(), i - 1, j - 1);
        }
    } else {
        let rest = newest_first(local.drop_last(), shared);
        assert(all[j] == rest[j - 1]);
        assert(all[i] == rest[i - 1]);
        at_one_time_local_items_come_first(local.drop_last(), shared, i - 1, j - 1);
    }
}

/// An index behind all items that were read is answered by the provider, which counts from behind the local
/// items; where it has none, the answer is empty.
pub proof fn further_indexes_are_answered_by_the_provider<P: HistoryProvider>(
    provider: P,
    given: spec_fn(usize) -> Option<api::HistoryItem>,
    size: u64,
    items: Seq<HistoryItem>,
    local: nat,
    indexes: Seq<usize>,
    out: Map<usize, Seq<char>>,
    after: P,
)
    requires
        is_unchanging(provider, given, size),
        indexes_answered(provider, items, local, indexes, out, after),
    ensures
        after == provider,
        forall|idx: usize| #[trigger]
            out.contains_key(idx) && idx > items.len() ==> match given((idx - local) as usize) {
                Some(item) => out[idx] == item@.contents,
                None => out[idx].len() == 0,
            },
    decreases indexes.len(),
{
    if indexes.len() > 0 {
        let less = indexes.drop_last();
        let last = indexes.last();
        let (known, mid) = choose|known: Map<usize, Seq<char>>, mid: P|
            indexes_answered(provider, items, local, less, known, mid) && #[trigger] index_answered(
                mid,
                items,
                local,
                known,
                last,
                out,
                after,
            );
        further_indexes_are_answered_by_the_provider(
            provider,
            given,
            size,
            items,
            local,
            less,
            known,
            mid,
        );
        assert forall|idx: usize| #[trigger]
            out.contains_key(idx) && idx > items.len() implies match given((idx - local) as usize) {
            Some(item) => out[idx] == item@.contents,
            None => out[idx].len() == 0,
        } by {
            if known.contains_key(idx) {
                assert(out[idx] == known[idx]);
            }
        }
    }
}

/// Reading the entries of an unchanging provider up to `n` gives each of them under its index, until there is
/// none.
pub proof fn the_first_entries_are_read_in_order<P: HistoryProvider>(
    provider: P,
    given: spec_fn(usize) -> Option<api::HistoryItem>,
    size: u64,
    n: nat,
    out: Seq<api::HistoryItem>,
    after: P,
)
    requires
        is_unchanging(provider, given, size),
        reads_up_to(&provider, n, out, &after),
        n <= usize::MAX,
    ensures
        after == provider,
        out.len() <= n,
        forall|i: int|
            0 <= i < out.len() ==> given((i + 1) as usize) == Some(#[trigger] out[i]),
        out.len() < n ==> given((out.len() + 1) as usize) is None,
    decreases n,
{
    if n > 0 {
        let (known, mid) = choose|known: Seq<api::HistoryItem>, mid: &P|
            reads_up_to(&provider, (n - 1) as nat, known, mid) && #[trigger] next_read(
                mid,
                n,
                known,
                out,
                &after,
            );
        the_first_entries_are_read_in_order(provider, given, size, (n - 1) as nat, known, *mid);
        assert forall|i: int| 0 <= i < out.len() implies given((i + 1) as usize) == Some(
            #[trigger] out[i],
        ) by {
            if i < known.len() {
                if out.len() > known.len() {
                    assert(out.drop_last()[i] == out[i]);
                }
                assert(known[i] == out[i]);
            }
        }
    }
}

/// Reading all entries of an unchanging provider one by one gives each of them under its index, and stops only
/// where there is none.
pub proof fn all_entries_are_read_in_order<P: HistoryProvider>(
    provider: P,
    given: spec_fn(usize) -> Option<api::HistoryItem>,
    size: u64,
    idx: int,
    out: Seq<api::HistoryItem>,
    after: P,
    i: int,
)
    requires
        is_unchanging(provider, given, size),
        0 <= idx,
        read_from_index(&provider, idx, out, &after),
    ensures
        after == provider,
        0 <= i < out.len() ==> idx + i <= usize::MAX && given((idx + i) as usize) == Some(out[i]),
        idx + out.len() <= usize::MAX ==> given((idx + out.len()) as usize) is None,
    decreases out.len(),
{
    if idx <= usize::MAX && out.len() > 0 {
        let rest = out.drop_first();
        let mid = choose|mid: &P| #[trigger]
            P::item_read(&provider, idx as usize, Some(out[0]), mid) && read_from_index(
                mid,
                idx + 1,
                rest,
                &after,
            );
        all_entries_are_read_in_order(*mid, given, size, idx + 1, rest, after, i - 1);
        assert(idx + out.len() == idx + 1 + rest.len());
        if 0 < i < out.len() {
            assert(rest[i - 1] == out[i]);
            assert(idx + i == idx + 1 + (i - 1));
        }
    }
}

/// The greatest index is one of the indexes, or zero if there are none, and none is greater.
pub proof fn the_greatest_index_is_one_of_them(indexes: Seq<usize>)
    ensures
        forall|i: int| 0 <= i < indexes.len() ==> #[trigger] indexes[i] <= greatest(indexes),
        indexes.len() > 0 ==> indexes.contains(greatest(indexes)),
        indexes.len() == 0 ==> greatest(indexes) == 0,
    decreases indexes.len(),
{
    if indexes.len() > 0 {
        let less = indexes.drop_last();
        the_greatest_index_is_one_of_them(less);
        assert forall|i: int| 0 <= i < indexes.len() implies #[trigger] indexes[i] <= greatest(
            indexes,
        ) by {
            if i < less.len() {
                assert(less[i] == indexes[i]);
            }
        }
        if indexes.last() > greatest(less) || less.len() == 0 {
            assert(indexes[indexes.len() - 1] == greatest(indexes));
        } else {
            let k = choose|k: int| 0 <= k < less.len() && less[k] == greatest(less);
            assert(indexes[k] == greatest(indexes));
        }
    }
}

/// Removing a text from two lists of local items, one behind the other, removes it from each of them; a single
/// item goes just if it has the text.
pub proof fn local_items_are_removed_one_by_one(
    a: Seq<LocalHistoryItem>,
    b: Seq<LocalHistoryItem>,
    item: LocalHistoryItem,
    text: Seq<char>,
)
    ensures
        local_without(a + b, text) == local_without(a, text) + local_without(b, text),
        item@.contents == text ==> local_without(seq![item], text).len() == 0,
        item@.contents != text ==> local_without(seq![item], text) == seq![item],
    decreases b.len(),
{
    reveal_with_fuel(local_without, 2);
    assert(seq![item].drop_last() =~= Seq::empty());
    assert(Seq::<LocalHistoryItem>::empty().push(item) =~= seq![item]);
    if b.len() == 0 {
        assert(a + b =~= a);
        assert(local_without(a, text) + local_without(b, text) =~= local_without(a, text));
    } else {
        local_items_are_removed_one_by_one(a, b.drop_last(), item, text);
        assert((a + b).drop_last() =~= a + b.drop_last());
        assert(local_without(a + b, text) =~= local_without(a, text) + local_without(b, text));
    }
}

/// Dropping the ephemeral items at the end drops no others: what is left is the beginning of the list, does not
/// end in an ephemeral item, and everything behind it was ephemeral.
pub proof fn only_ephemeral_items_are_dropped(items: Seq<LocalHistoryItem>)
    ensures
        ({
            let kept = without_ephemeral_tail(items);
            &&& kept.len() <= items.len()
            &&& kept == items.take(kept.len() as int)
            &&& kept.len() > 0 ==> kept.last()@.persist_mode != PersistenceMode::Ephemeral
            &&& forall|i: int|
                kept.len() <= i < items.len() ==> (#[trigger] items[i])@.persist_mode
                    == PersistenceMode::Ephemeral
        }),
    decreases items.len(),
{
    let kept = without_ephemeral_tail(items);
    if items.len() > 0 && items.last()@.persist_mode == PersistenceMode::Ephemeral {
        let less = items.drop_last();
        only_ephemeral_items_are_dropped(less);
        assert(less.take(kept.len() as int) =~= items.take(kept.len() as int));
        assert forall|i: int| kept.len() <= i < items.len() implies (#[trigger] items[i])@.persist_mode
            == PersistenceMode::Ephemeral by {
            if i < less.len() {
                assert(less[i] == items[i]);
            }
        }
    } else {
        assert(items.take(items.len() as int) =~= items);
    }
}

/// Adding a local item: one without text changes nothing; one with the text and the persistence of the last one
/// is merged with it, which then has the later of the two times, and no other item changes; any other one is
/// the last afterwards, behind items that were there before.
pub proof fn a_local_item_is_merged_or_comes_last(
    before: Seq<LocalHistoryItem>,
    item: LocalHistoryItem,
    after: Seq<LocalHistoryItem>,
)
    requires
        local_added(before, item, after),
    ensures
        item@.contents.len() == 0 ==> after == before,
        item@.contents.len() > 0 && before.len() > 0 && before.last()@.contents == item@.contents
            && before.last()@.persist_mode == item@.persist_mode ==> {
            let last = before.last()@;
            &&& after.len() == before.len()
            &&& after.drop_last() == before.drop_last()
            &&& after.last()@.contents == item@.contents
            &&& after.last()@.persist_mode == item@.persist_mode
            &&& after.last()@.creation_timestamp.nanos >= last.creation_timestamp.nanos
            &&& after.last()@.creation_timestamp.nanos >= item@.creation_timestamp.nanos
            &&& after.last()@.creation_timestamp == last.creation_timestamp
                || after.last()@.creation_timestamp == item@.creation_timestamp
        },
        item@.contents.len() > 0 && !(before.len() > 0 && before.last()@.contents == item@.contents
            && before.last()@.persist_mode == item@.persist_mode) ==> {
            &&& 0 < after.len() <= before.len() + 1
            &&& after.last() == item
            &&& after.drop_last() == before.take(after.len() - 1)
            &&& after.len() > 1 ==> after[after.len() - 2]@.persist_mode
                != PersistenceMode::Ephemeral
            &&& forall|i: int|
                after.len() - 1 <= i < before.len() ==> (#[trigger] before[i])@.persist_mode
                    == PersistenceMode::Ephemeral
        },
{
    only_ephemeral_items_are_dropped(before);
    if item@.contents.len() > 0 {
        assert(without_ephemeral_tail(before).push(item).drop_last() =~= without_ephemeral_tail(
            before,
        ));
    }
}

/// Paths are looked for just if the item is a new one with a text, and is to be kept.
pub proof fn paths_are_looked_for_in_new_items(
    local: Seq<LocalHistoryItem>,
    item: LocalHistoryItem,
)
    ensures
        detects_files_for(local, item) <==> item@.contents.len() > 0 && item@.persist_mode
            == PersistenceMode::Memory && (local.len() == 0 || local.last()@.contents
            != item@.contents || local.last()@.persist_mode != PersistenceMode::Memory),
{
}

/// There is something to detect just if nothing stops it and some argument could be a path: then all of these
/// arguments, for that command. The provider is saved just if something stops it.
pub proof fn files_are_detected_unless_the_shell_ends<P: HistoryProvider>(
    command: Seq<char>,
    nodes: Seq<NodeKind>,
    detection: Option<FileDetection>,
    before: P,
    after: P,
)
    requires
        is_file_detection(command, nodes, detection),
        detection_begun(before, nodes, after),
    ensures
        detection is Some <==> !detection_is_stopped(nodes) && potential_paths(nodes).len() > 0,
        detection is Some ==> detection->0.command@ == command && texts(
            detection->0.potential_paths@,
        ) == potential_paths(nodes),
        detection_is_stopped(nodes) ==> P::saved(&before, &after),
        !detection_is_stopped(nodes) ==> after == before,
{
}

/// Removing a text is keeping the local items that have another one, in order.
pub proof fn local_items_with_other_texts_stay(items: Seq<LocalHistoryItem>, text: Seq<char>)
    ensures
        local_without(items, text) == items.filter(|item: LocalHistoryItem| item@.contents != text),
    decreases items.len(),
{
    reveal(Seq::filter);
    if items.len() > 0 {
        local_items_with_other_texts_stay(items.drop_last(), text);
    }
    assert(local_without(items, text) =~= items.filter(
        |item: LocalHistoryItem| item@.contents != text,
    ));
}

/// Each index is answered with what stands there in the whole history, all local and all shared items merged, if
/// the provider does not change; behind its end the answer is empty.
pub proof fn indexes_are_those_of_the_whole_history<P: HistoryProvider>(
    given: spec_fn(usize) -> Option<api::HistoryItem>,
    size: u64,
    whole: Seq<api::HistoryItem>,
    before: History<P>,
    indexes: Seq<usize>,
    shared: Seq<api::HistoryItem>,
    out: Map<usize, Seq<char>>,
    after: History<P>,
    idx: usize,
)
    requires
        is_unchanging(before.shared(), given, size),
        forall|i: usize|
            #![trigger given(i)]
            0 < i ==> if i <= whole.len() {
                given(i) == Some(whole[i - 1])
            } else {
                given(i) is None
            },
        before.local_items().len() + whole.len() <= usize::MAX,
        indexes_read(before, indexes, shared, out, after),
        indexes.contains(idx),
        idx > 0,
    ensures
        out.contains_key(idx),
        idx <= before.local_items().len() + whole.len() ==> out[idx] == newest_first(
            before.local_items(),
            whole,
        )[idx - 1].text(),
        idx > before.local_items().len() + whole.len() ==> out[idx].len() == 0,
        after.local_items() == before.local_items(),
        after.shared() == before.shared(),
{
    let local = before.local_items();
    let provider = before.shared();
    let n = greatest(indexes) as nat;
    let items = newest_first(local, shared);
    let mid = choose|mid: P|
        reads_up_to(&provider, n, shared, &mid) && #[trigger] indexes_answered(
            mid,
            items,
            local.len(),
            indexes,
            out,
            after.shared(),
        );
    the_first_entries_are_read_in_order(provider, given, size, n, shared, mid);
    each_index_is_answered(mid, items, local.len(), indexes, out, after.shared());
    further_indexes_are_answered_by_the_provider(
        provider,
        given,
        size,
        items,
        local.len(),
        indexes,
        out,
        after.shared(),
    );
    the_greatest_index_is_one_of_them(indexes);
    let k = choose|k: int| 0 <= k < indexes.len() && indexes[k] == idx;
    assert(indexes[k] <= greatest(indexes));
    assert(out.contains_key(idx));
    assert(shared.len() <= whole.len()) by {
        if shared.len() > 0 {
            assert(given(((shared.len() - 1) + 1) as usize) == Some(shared[shared.len() - 1]));
        }
    }
    assert forall|i: int| 0 <= i < shared.len() implies shared[i] == whole[i] by {
        assert(given((i + 1) as usize) == Some(shared[i]));
    }
    if shared.len() < n && shared.len() < whole.len() {
        assert(given((shared.len() + 1) as usize) is None);
    }
    if whole.len() > 0 {
        each_item_has_an_index(local, whole, HistoryItem::SharedHistoryItem(whole[0]));
        each_item_has_an_index(local, shared, HistoryItem::SharedHistoryItem(whole[0]));
    }
    if shared.len() == whole.len() {
        assert(shared =~= whole);
        lemma_merged_len(local, whole);
        if idx > items.len() {
            assert(given((idx - local.len()) as usize) is None);
        }
    } else {
        assert(shared.len() == n);
        assert(shared =~= whole.take(n as int));
        so_many_shared_items_are_enough(local, whole, n, idx - 1);
    }
}

/// All items are in the merged list.
proof fn lemma_merged_len(local: Seq<LocalHistoryItem>, shared: Seq<api::HistoryItem>)
    ensures
        newest_first(local, shared).len() == local.len() + shared.len(),
    decreases local.len() + shared.len(),
{
    if shared_is_next(local, shared) {
        lemma_merged_len(local, shared.drop_first());
    } else if local.len() > 0 {
        lemma_merged_len(local.drop_last(), shared);
    }
}

} // verus!
