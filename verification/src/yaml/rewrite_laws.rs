//! What a rewritten history file holds, in terms of the old file and of the new items.
use super::cache::{has_key, holds, position, with_item, with_items};
use super::deletion_scope::DeletionScope;
use super::item_list::{
    at_time, has_text, lemma_last_of_its_time, sorting_keeps_the_items, texts_differ,
};
use super::laws::{rewriting_keeps_the_most_recent_texts, rewriting_removes_duplicates, rewritten};
use super::list_laws::recent_texts_are_in_the_order_of_use;
use super::recent::{
    kept_items_are_distinct, keys, recent, recent_texts_are_all_texts,
    the_cache_keeps_the_most_recent_texts, top,
};
use super::state::{HistoryState, HISTORY_SAVE_MAX};
use crate::api::ItemView;
use crate::timestamp::Timestamp;
use vstd::prelude::*;

verus! {

/// The recent texts of the last items are the first of the recent texts of all.
proof fn lemma_recent_of_tail(a: Seq<ItemView>, u: Seq<ItemView>)
    ensures
        recent(u).len() <= recent(a + u).len(),
        forall|p: int| 0 <= p < recent(u).len() ==> #[trigger] recent(u)[p] == recent(a + u)[p],
    decreases u.len(),
{
    if u.len() > 0 {
        let less = u.drop_last();
        let all = a + u;
        assert(all.drop_last() =~= a + less);
        assert(all.last() == u.last());
        lemma_recent_of_tail(a, less);
        recent_texts_are_all_texts(a + less);
        recent_texts_are_all_texts(less);
        let text = u.last().contents;
        let short = recent(less);
        let long = recent(a + less);
        if text.len() > 0 {
            if short.contains(text) {
                let q = short.index_of(text);
                assert(0 <= q < short.len() && short[q] == text);
                assert(long[q] == text);
                assert(long.contains(text));
                let r = long.index_of(text);
                assert(0 <= r < long.len() && long[r] == text);
                assert(q == r);
            } else if long.contains(text) {
                let r = long.index_of(text);
                assert(0 <= r < long.len() && long[r] == text);
                if r < short.len() {
                    assert(short[r] == text);
                }
            }
            assert forall|p: int| 0 <= p < recent(u).len() implies #[trigger] recent(u)[p] == recent(
                all,
            )[p] by {
                if p > 0 && p - 1 < short.len() {
                    assert(short[p - 1] == long[p - 1]);
                }
                if p < short.len() {
                    assert(short[p] == long[p]);
                }
            }
        }
    } else {
        assert(a + u =~= a);
    }
}

/// There are no more recent texts than there are texts.
proof fn lemma_recent_is_covered(items: Seq<ItemView>, texts: Seq<Seq<char>>)
    requires
        forall|i: int| 0 <= i < items.len() ==> texts.contains((#[trigger] items[i]).contents),
    ensures
        recent(items).len() <= texts.len(),
{
    recent_texts_are_all_texts(items);
    let r = recent(items);
    r.unique_seq_to_set();
    texts.lemma_cardinality_of_set();
    assert forall|t: Seq<char>| r.to_set().contains(t) implies texts.to_set().contains(t) by {
        assert(r.contains(t));
        let i = choose|i: int| 0 <= i < items.len() && #[trigger] items[i].contents == t;
        assert(texts.contains(items[i].contents));
    }
    vstd::seq_lib::seq_to_set_is_finite(texts);
    vstd::set_lib::lemma_len_subset(r.to_set(), texts.to_set());
}

/// Some entry has this text, and a time that is no earlier.
spec fn has_since(entries: Seq<(Seq<char>, i128)>, item: ItemView) -> bool {
    exists|e: int|
        0 <= e < entries.len() && (#[trigger] entries[e]).0 == item.contents && entries[e].1
            >= item.creation_timestamp.nanos
}

/// The last items count, if there is room for their texts.
proof fn lemma_last_items_count(cap: nat, a: Seq<ItemView>, u: Seq<ItemView>)
    requires
        cap > 0,
        recent(u).len() <= cap,
    ensures
        forall|i: int|
            0 <= i < u.len() && (#[trigger] u[i]).contents.len() > 0 ==> has_since(
                with_items(cap, a + u),
                u[i],
            ),
    decreases u.len(),
{
    if u.len() > 0 {
        let less = u.drop_last();
        let all = a + u;
        let item = u.last();
        assert(all.drop_last() =~= a + less);
        assert(all.last() == item);
        let old = with_items(cap, a + less);
        let now = with_items(cap, all);
        assert(now == with_item(old, cap, item));
        recent_texts_are_all_texts(less);
        recent_texts_are_all_texts(u);
        recent_texts_are_all_texts(a + less);
        assert(recent(less).len() <= recent(u).len()) by {
            let before = recent(less);
            if before.contains(item.contents) {
                let q = before.index_of(item.contents);
                assert(0 <= q < before.len() && before[q] == item.contents);
            }
        }
        lemma_last_items_count(cap, a, less);
        lemma_recent_of_tail(a, u);
        the_cache_keeps_the_most_recent_texts(cap, all);
        the_cache_keeps_the_most_recent_texts(cap, a + less);
        assert(keys(old).len() == old.len());
        assert(keys(now).len() == now.len());
        assert forall|i: int| 0 <= i < u.len() && (#[trigger] u[i]).contents.len() > 0 implies has_since(
            now,
            u[i],
        ) by {
            let text = u[i].contents;
            if item.contents.len() > 0 && text == item.contents {
                if holds(old, text) {
                    let p = position(old, text);
                    assert(has_key(old, text, p));
                    if i < less.len() {
                        assert(u[i] == less[i]);
                        let e = choose|e: int|
                            0 <= e < old.len() && (#[trigger] old[e]).0 == less[i].contents && old[e].1
                                >= less[i].creation_timestamp.nanos;
                        assert(keys(old)[e] == text && keys(old)[p] == text);
                        assert(e == p);
                    }
                } else if i < less.len() {
                    assert(u[i] == less[i]);
                    let e = choose|e: int|
                        0 <= e < old.len() && (#[trigger] old[e]).0 == less[i].contents && old[e].1
                            >= less[i].creation_timestamp.nanos;
                    assert(has_key(old, text, e));
                }
                assert(now[0].0 == text && now[0].1 >= u[i].creation_timestamp.nanos);
            } else {
                assert(i < less.len()) by {
                    if i == less.len() {
                        assert(u[i] == item);
                    }
                }
                assert(u[i] == less[i]);
                let e = choose|e: int|
                    0 <= e < old.len() && (#[trigger] old[e]).0 == less[i].contents && old[e].1
                        >= less[i].creation_timestamp.nanos;
                if item.contents.len() == 0 {
                    assert(now[e] == old[e]);
                } else {
                    assert(has_text(u, text)) by {
                        assert(u[i].contents == text);
                    }
                    assert(recent(u).contains(text));
                    let p = choose|p: int| 0 <= p < recent(u).len() && recent(u)[p] == text;
                    assert(recent(u)[p] == recent(all)[p]);
                    assert(keys(now)[p] == text);
                    assert(now[p].0 == text);
                    assert(p > 0) by {
                        assert(now[0].0 == item.contents);
                    }
                    if holds(old, item.contents) {
                        let q = position(old, item.contents);
                        assert(has_key(old, item.contents, q));
                        let from = if p - 1 < q {
                            p - 1
                        } else {
                            p
                        };
                        assert(now[p] == old[from]);
                        assert(keys(old)[from] == text && keys(old)[e] == text);
                        assert(from == e);
                    } else {
                        assert(now[p] == old[p - 1]);
                        assert(keys(old)[p - 1] == text && keys(old)[e] == text);
                        assert(p - 1 == e);
                    }
                }
            }
        }
    }
}

/// What the cache holds is made of items that went in.
proof fn lemma_entries_come_from_items(cap: nat, items: Seq<ItemView>, e: int)
    requires
        cap > 0,
        0 <= e < with_items(cap, items).len(),
    ensures
        exists|k: int|
            0 <= k < items.len() && (#[trigger] items[k]).contents == with_items(cap, items)[e].0
                && items[k].creation_timestamp.nanos == with_items(cap, items)[e].1
                && items[k].contents.len() > 0,
    decreases items.len(),
{
    if items.len() > 0 {
        let less = items.drop_last();
        let item = items.last();
        let old = with_items(cap, less);
        let now = with_items(cap, items);
        if item.contents.len() == 0 {
            lemma_entries_come_from_items(cap, less, e);
            let k = choose|k: int|
                0 <= k < less.len() && (#[trigger] less[k]).contents == old[e].0
                    && less[k].creation_timestamp.nanos == old[e].1 && less[k].contents.len() > 0;
            assert(items[k] == less[k]);
        } else {
            let held = holds(old, item.contents);
            let q = position(old, item.contents);
            if held {
                assert(has_key(old, item.contents, q));
            }
            let from = if e == 0 {
                q
            } else if held && e - 1 >= q {
                e
            } else {
                e - 1
            };
            if e == 0 && !(held && now[0].1 == old[q].1) {
                assert(items[items.len() - 1].contents == now[e].0);
            } else {
                lemma_entries_come_from_items(cap, less, from);
                let k = choose|k: int|
                    0 <= k < less.len() && (#[trigger] less[k]).contents == old[from].0
                        && less[k].creation_timestamp.nanos == old[from].1
                        && less[k].contents.len() > 0;
                assert(items[k] == less[k]);
                assert(now[e].1 == old[from].1 && now[e].0 == old[from].0);
            }
        }
    }
}

/// What stays of an old file is an entry of it that may stay.
proof fn lemma_survivor_comes_from_entry(
    state: HistoryState,
    old_items: Seq<Option<ItemView>>,
    k: int,
)
    requires
        0 <= k < state.survivors(old_items).len(),
    ensures
        state.survives(state.survivors(old_items)[k]),
        exists|i: int|
            0 <= i < old_items.len() && #[trigger] old_items[i] == Some(
                state.survivors(old_items)[k],
            ),
    decreases old_items.len(),
{
    if old_items.len() > 0 {
        let less = old_items.drop_last();
        let before = state.survivors(less);
        if k < before.len() {
            lemma_survivor_comes_from_entry(state, less, k);
            let i = choose|i: int| 0 <= i < less.len() && #[trigger] less[i] == Some(before[k]);
            assert(old_items[i] == Some(before[k]));
        } else {
            assert(old_items[old_items.len() - 1] == Some(state.survivors(old_items)[k]));
        }
    }
}

/// An entry that may stay does.
proof fn lemma_entry_survives(
    state: HistoryState,
    old_items: Seq<Option<ItemView>>,
    i: int,
    item: ItemView,
)
    requires
        0 <= i < old_items.len(),
        old_items[i] == Some(item),
        state.survives(item),
    ensures
        state.survivors(old_items).contains(item),
    decreases old_items.len(),
{
    let less = old_items.drop_last();
    let before = state.survivors(less);
    let now = state.survivors(old_items);
    if i < less.len() {
        lemma_entry_survives(state, less, i, item);
        let k = choose|k: int| 0 <= k < before.len() && before[k] == item;
        assert(now[k] == item);
    } else {
        assert(now[before.len() as int] == item);
    }
}

/// What the cache holds since an item went in is in the sorted list.
proof fn lemma_counts_in_file(
    state: HistoryState,
    old_items: Seq<Option<ItemView>>,
    items: Seq<ItemView>,
    item: ItemView,
)
    requires
        rewritten(state, old_items, items),
        has_since(with_items(HISTORY_SAVE_MAX as nat, state.candidates(old_items)), item),
    ensures
        exists|k: int|
            0 <= k < items.len() && (#[trigger] items[k]).contents == item.contents
                && items[k].creation_timestamp.nanos >= item.creation_timestamp.nanos,
{
    let entries = with_items(HISTORY_SAVE_MAX as nat, state.candidates(old_items));
    let kept = state.retained(old_items);
    let e = choose|e: int|
        0 <= e < entries.len() && (#[trigger] entries[e]).0 == item.contents && entries[e].1
            >= item.creation_timestamp.nanos;
    let found = kept[kept.len() - 1 - e];
    sorting_keeps_the_items(items, kept, found);
    assert(kept.contains(found));
    let k = choose|k: int| 0 <= k < items.len() && items[k] == found;
    assert(items[k].contents == item.contents);
}

/// Every unwritten new item counts in a rewrite, whatever the old file holds, as long as there is room for
/// the texts of the unwritten ones: the file has its text, with a time that is no earlier than its own.
pub proof fn every_unwritten_item_counts(
    state: HistoryState,
    old_items: Seq<Option<ItemView>>,
    items: Seq<ItemView>,
    texts: Seq<Seq<char>>,
    i: int,
)
    requires
        state.wf(),
        rewritten(state, old_items, items),
        texts.len() <= 262_144,
        forall|j: int|
            state.first_unwritten <= j < state.new_items.len() ==> texts.contains(
                (#[trigger] state.new_items[j]).contents,
            ),
        state.first_unwritten <= i < state.new_items.len(),
    ensures
        exists|k: int|
            0 <= k < items.len() && (#[trigger] items[k]).contents == state.new_items[i].contents
                && items[k].creation_timestamp.nanos
                >= state.new_items[i].creation_timestamp.nanos,
{
    let u = state.new_items.skip(state.first_unwritten);
    let a = state.survivors(old_items);
    assert(state.candidates(old_items) =~= a + u);
    assert forall|j: int| 0 <= j < u.len() implies texts.contains((#[trigger] u[j]).contents) by {
        assert(u[j] == state.new_items[j + state.first_unwritten]);
    }
    lemma_recent_is_covered(u, texts);
    lemma_last_items_count(HISTORY_SAVE_MAX as nat, a, u);
    assert(u[i - state.first_unwritten] == state.new_items[i]);
    assert(state.new_items[i].contents.len() > 0);
    lemma_counts_in_file(state, old_items, items, state.new_items[i]);
}

/// Every entry of the old file counts in a rewrite that has a text and was not deleted, as long as there is
/// room for all texts. A deletion that is only for the session does not touch an entry from before it.
pub proof fn every_old_item_counts(
    state: HistoryState,
    old_items: Seq<Option<ItemView>>,
    items: Seq<ItemView>,
    texts: Seq<Seq<char>>,
    i: int,
    item: ItemView,
)
    requires
        state.wf(),
        rewritten(state, old_items, items),
        texts.len() <= 262_144,
        forall|j: int|
            0 <= j < old_items.len() && #[trigger] old_items[j] is Some ==> texts.contains(
                old_items[j]->0.contents,
            ),
        forall|j: int|
            state.first_unwritten <= j < state.new_items.len() ==> texts.contains(
                (#[trigger] state.new_items[j]).contents,
            ),
        0 <= i < old_items.len(),
        old_items[i] == Some(item),
        item.contents.len() > 0,
        !state.deleted.contains_key(item.contents) || (state.deleted[item.contents]
            == DeletionScope::SessionOnly && item.creation_timestamp.nanos <= state.boundary.nanos),
    ensures
        exists|k: int|
            0 <= k < items.len() && (#[trigger] items[k]).contents == item.contents
                && items[k].creation_timestamp.nanos >= item.creation_timestamp.nanos,
{
    let u = state.new_items.skip(state.first_unwritten);
    let a = state.survivors(old_items);
    let all = a + u;
    assert(state.candidates(old_items) =~= all);
    assert forall|j: int| 0 <= j < all.len() implies texts.contains((#[trigger] all[j]).contents) by {
        if j < a.len() {
            lemma_survivor_comes_from_entry(state, old_items, j);
            let o = choose|o: int| 0 <= o < old_items.len() && #[trigger] old_items[o] == Some(a[j]);
            assert(texts.contains(old_items[o]->0.contents));
        } else {
            assert(all[j] == state.new_items[j - a.len() + state.first_unwritten]);
        }
    }
    lemma_recent_is_covered(all, texts);
    assert(Seq::<ItemView>::empty() + all =~= all);
    lemma_last_items_count(HISTORY_SAVE_MAX as nat, Seq::empty(), all);
    lemma_entry_survives(state, old_items, i, item);
    let k = choose|k: int| 0 <= k < a.len() && a[k] == item;
    assert(all[k] == item);
    lemma_counts_in_file(state, old_items, items, item);
}

/// Everything in a rewritten file comes, with its text and its time, from an unwritten new item, or from an
/// entry of the old file that has a text and was not deleted.
pub proof fn a_rewritten_file_makes_nothing_up(
    state: HistoryState,
    old_items: Seq<Option<ItemView>>,
    items: Seq<ItemView>,
    k: int,
)
    requires
        state.wf(),
        rewritten(state, old_items, items),
        0 <= k < items.len(),
    ensures
        ({
            ||| exists|i: int|
                state.first_unwritten <= i < state.new_items.len() && #[trigger] state.new_items[i]
                    == items[k]
            ||| exists|i: int|
                0 <= i < old_items.len() && #[trigger] old_items[i] == Some(items[k])
        }),
        items[k].contents.len() > 0,
        state.deleted.contains_key(items[k].contents) ==> ({
            ||| exists|i: int|
                state.first_unwritten <= i < state.new_items.len() && #[trigger] state.new_items[i]
                    == items[k]
            ||| state.deleted[items[k].contents] == DeletionScope::SessionOnly
                && items[k].creation_timestamp.nanos <= state.boundary.nanos
        }),
{
    let cap = HISTORY_SAVE_MAX as nat;
    let u = state.new_items.skip(state.first_unwritten);
    let a = state.survivors(old_items);
    let all = state.candidates(old_items);
    let kept = state.retained(old_items);
    let entries = with_items(cap, all);
    assert(all =~= a + u);
    sorting_keeps_the_items(items, kept, items[k]);
    assert(items.contains(items[k]));
    let m = choose|m: int| 0 <= m < kept.len() && kept[m] == items[k];
    lemma_entries_come_from_items(cap, all, kept.len() - 1 - m);
    let s = choose|s: int|
        0 <= s < all.len() && (#[trigger] all[s]).contents == items[k].contents
            && all[s].creation_timestamp.nanos == items[k].creation_timestamp.nanos
            && all[s].contents.len() > 0;
    assert(all[s] == items[k]);
    if s < a.len() {
        lemma_survivor_comes_from_entry(state, old_items, s);
    } else {
        assert(state.new_items[s - a.len() + state.first_unwritten] == items[k]);
    }
}

/// What stays of two files, one behind the other, is what stays of each of them; a single entry stays just if
/// it could be decoded, has a text and was not deleted.
pub proof fn entries_stay_one_by_one(
    state: HistoryState,
    a: Seq<Option<ItemView>>,
    b: Seq<Option<ItemView>>,
    item: ItemView,
)
    ensures
        state.survivors(a + b) == state.survivors(a) + state.survivors(b),
        state.survivors(seq![None::<ItemView>]).len() == 0,
        item.contents.len() == 0 ==> state.survivors(seq![Some(item)]).len() == 0,
        item.contents.len() > 0 && !state.deleted.contains_key(item.contents) ==> state.survivors(
            seq![Some(item)],
        ) == seq![item],
        item.contents.len() > 0 && state.deleted.contains_key(item.contents)
            && state.deleted[item.contents] == DeletionScope::AllSessions ==> state.survivors(
            seq![Some(item)],
        ).len() == 0,
        item.contents.len() > 0 && state.deleted.contains_key(item.contents)
            && state.deleted[item.contents] == DeletionScope::SessionOnly ==> state.survivors(
            seq![Some(item)],
        ) == if item.creation_timestamp.nanos > state.boundary.nanos {
            Seq::empty()
        } else {
            seq![item]
        },
    decreases b.len(),
{
    reveal_with_fuel(HistoryState::survivors, 2);
    assert(seq![Some(item)].drop_last() =~= Seq::empty());
    assert(seq![None::<ItemView>].drop_last() =~= Seq::empty());
    assert(Seq::<ItemView>::empty().push(item) =~= seq![item]);
    if b.len() == 0 {
        assert(a + b =~= a);
        assert(state.survivors(a) + state.survivors(b) =~= state.survivors(a));
    } else {
        entries_stay_one_by_one(state, a, b.drop_last(), item);
        assert((a + b).drop_last() =~= a + b.drop_last());
        assert(state.survivors(a + b) =~= state.survivors(a) + state.survivors(b));
    }
}

/// The items of one time are items of the list.
proof fn lemma_at_time_is_part(items: Seq<ItemView>, time: Timestamp, u: int)
    requires
        0 <= u < at_time(items, time).len(),
    ensures
        exists|i: int| 0 <= i < items.len() && #[trigger] items[i] == at_time(items, time)[u],
    decreases items.len(),
{
    reveal(Seq::filter);
    if items.len() > 0 {
        lemma_last_of_its_time(items, time);
        let less = items.drop_last();
        if u < at_time(less, time).len() {
            lemma_at_time_is_part(less, time, u);
            let i = choose|i: int| 0 <= i < less.len() && #[trigger] less[i] == at_time(less, time)[u];
            assert(items[i] == at_time(items, time)[u]);
        } else {
            assert(items[items.len() - 1] == at_time(items, time)[u]);
        }
    }
}

/// If texts differ, they differ among the items of one time.
proof fn lemma_at_time_differs(items: Seq<ItemView>, time: Timestamp)
    requires
        texts_differ(items),
    ensures
        texts_differ(at_time(items, time)),
    decreases items.len(),
{
    reveal(Seq::filter);
    if items.len() > 0 {
        let less = items.drop_last();
        lemma_last_of_its_time(items, time);
        assert forall|i: int, j: int| 0 <= i < j < less.len() implies (#[trigger] less[i]).contents != (
        #[trigger] less[j]).contents by {
            assert(items[i].contents != items[j].contents);
        }
        lemma_at_time_differs(less, time);
        let now = at_time(items, time);
        let before = at_time(less, time);
        assert forall|i: int, j: int| 0 <= i < j < now.len() implies (#[trigger] now[i]).contents != (
        #[trigger] now[j]).contents by {
            assert(now[i] == before[i]);
            if j < before.len() {
                assert(now[j] == before[j]);
            } else {
                lemma_at_time_is_part(less, time, i);
                let k = choose|k: int| 0 <= k < less.len() && #[trigger] less[k] == before[i];
                assert(items[k].contents != items[items.len() - 1].contents);
            }
        }
    }
}

/// An item is among those of its time.
proof fn lemma_item_at_its_time(items: Seq<ItemView>, i: int)
    requires
        0 <= i < items.len(),
    ensures
        exists|u: int|
            0 <= u < at_time(items, items[i].creation_timestamp).len() && #[trigger] at_time(
                items,
                items[i].creation_timestamp,
            )[u] == items[i],
    decreases items.len(),
{
    let time = items[i].creation_timestamp;
    let less = items.drop_last();
    lemma_last_of_its_time(items, time);
    if i < less.len() {
        assert(less[i] == items[i]);
        lemma_item_at_its_time(less, i);
        let u = choose|u: int|
            0 <= u < at_time(less, time).len() && #[trigger] at_time(less, time)[u] == items[i];
        assert(at_time(items, time)[u] == items[i]);
    } else {
        assert(at_time(items, time)[at_time(items, time).len() - 1] == items[i]);
    }
}

/// Two items of one time are in order among those of their time.
proof fn lemma_order_at_time(items: Seq<ItemView>, i: int, j: int)
    requires
        0 <= i < j < items.len(),
        items[i].creation_timestamp == items[j].creation_timestamp,
    ensures
        exists|u: int, v: int|
            0 <= u < v < at_time(items, items[i].creation_timestamp).len() && #[trigger] at_time(
                items,
                items[i].creation_timestamp,
            )[u] == items[i] && #[trigger] at_time(items, items[i].creation_timestamp)[v] == items[j],
    decreases items.len(),
{
    let time = items[i].creation_timestamp;
    let less = items.drop_last();
    let now = at_time(items, time);
    let before = at_time(less, time);
    lemma_last_of_its_time(items, time);
    assert(less[i] == items[i]);
    if j < less.len() {
        assert(less[j] == items[j]);
        lemma_order_at_time(less, i, j);
        let (u, v) = choose|u: int, v: int|
            0 <= u < v < before.len() && #[trigger] before[u] == items[i] && #[trigger] before[v]
                == items[j];
        assert(now[u] == items[i] && now[v] == items[j]);
    } else {
        lemma_item_at_its_time(less, i);
        let u = choose|u: int| 0 <= u < before.len() && #[trigger] before[u] == items[i];
        assert(now[u] == items[i] && now[now.len() - 1] == items[j]);
    }
}

/// Of two items of one time in a rewritten file, the second was used more recently: behind everything that
/// stays of the old file or is unwritten and has the text of the first, there is something with the text of
/// the second.
pub proof fn items_of_one_time_are_in_the_order_of_use(
    state: HistoryState,
    old_items: Seq<Option<ItemView>>,
    items: Seq<ItemView>,
    i: int,
    j: int,
    p: int,
)
    requires
        state.wf(),
        rewritten(state, old_items, items),
        0 <= i < j < items.len(),
        items[i].creation_timestamp == items[j].creation_timestamp,
        0 <= p < (state.survivors(old_items) + state.new_items.skip(state.first_unwritten)).len(),
        (state.survivors(old_items) + state.new_items.skip(state.first_unwritten))[p].contents
            == items[i].contents,
    ensures
        exists|q: int|
            p < q < (state.survivors(old_items) + state.new_items.skip(
                state.first_unwritten,
            )).len() && #[trigger] (state.survivors(old_items) + state.new_items.skip(
                state.first_unwritten,
            ))[q].contents == items[j].contents,
{
    let cap = HISTORY_SAVE_MAX as nat;
    let all = state.survivors(old_items) + state.new_items.skip(state.first_unwritten);
    let kept = state.retained(old_items);
    let entries = with_items(cap, all);
    let time = items[i].creation_timestamp;
    assert(state.candidates(old_items) =~= all);
    rewriting_removes_duplicates(state, old_items, items);
    kept_items_are_distinct(cap, all);
    sorting_keeps_the_items(items, kept, items[i]);
    sorting_keeps_the_items(items, kept, items[j]);
    assert(items.contains(items[i]) && items.contains(items[j]));
    let a = choose|a: int| 0 <= a < kept.len() && kept[a] == items[i];
    let b = choose|b: int| 0 <= b < kept.len() && kept[b] == items[j];
    assert(items[i].contents != items[j].contents);
    if b < a {
        lemma_order_at_time(kept, b, a);
        lemma_order_at_time(items, i, j);
        lemma_at_time_differs(items, time);
        let t = at_time(items, time);
        assert(at_time(kept, time) == t);
        let (u, v) = choose|u: int, v: int|
            0 <= u < v < t.len() && #[trigger] t[u] == items[i] && #[trigger] t[v] == items[j];
        let (x, y) = choose|x: int, y: int|
            0 <= x < y < t.len() && #[trigger] t[x] == items[j] && #[trigger] t[y] == items[i];
        assert(t[u].contents == t[y].contents && t[v].contents == t[x].contents);
        if u < y {
            assert(t[u].contents != t[y].contents);
        }
        if x < v {
            assert(t[x].contents != t[v].contents);
        }
    }
    the_cache_keeps_the_most_recent_texts(cap, all);
    assert(keys(entries).len() == entries.len());
    let ra = kept.len() - 1 - a;
    let rb = kept.len() - 1 - b;
    assert(keys(entries)[ra] == items[i].contents);
    assert(keys(entries)[rb] == items[j].contents);
    assert(recent(all)[ra] == items[i].contents);
    assert(recent(all)[rb] == items[j].contents);
    recent_texts_are_in_the_order_of_use(all, rb, ra, p);
}

/// Some item has this text, and a time that is no earlier.
pub open spec fn counts_in(items: Seq<ItemView>, item: ItemView) -> bool {
    exists|k: int|
        0 <= k < items.len() && (#[trigger] items[k]).contents == item.contents
            && items[k].creation_timestamp.nanos >= item.creation_timestamp.nanos
}

/// As long as there are no more unwritten new items than a file may have, each of them counts in a rewrite; and
/// as long as there are no more of them and of the entries of the old file together, so does each entry that
/// has a text and was not deleted.
pub proof fn everything_counts_if_there_is_room(
    state: HistoryState,
    old_items: Seq<Option<ItemView>>,
    items: Seq<ItemView>,
)
    requires
        state.wf(),
        rewritten(state, old_items, items),
    ensures
        state.new_items.len() - state.first_unwritten <= HISTORY_SAVE_MAX ==> forall|i: int|
            state.first_unwritten <= i < state.new_items.len() ==> counts_in(
                items,
                #[trigger] state.new_items[i],
            ),
        old_items.len() + state.new_items.len() - state.first_unwritten <= HISTORY_SAVE_MAX
            ==> forall|i: int|
            0 <= i < old_items.len() && (#[trigger] old_items[i]) is Some
                && old_items[i]->0.contents.len() > 0 && !state.deleted.contains_key(
                old_items[i]->0.contents,
            ) ==> counts_in(items, old_items[i]->0),
{
    let u = state.new_items.skip(state.first_unwritten);
    let mine = Seq::new(u.len(), |j: int| u[j].contents);
    assert forall|j: int| state.first_unwritten <= j < state.new_items.len() implies mine.contains(
        (#[trigger] state.new_items[j]).contents,
    ) by {
        assert(mine[j - state.first_unwritten] == state.new_items[j].contents);
    }
    if state.new_items.len() - state.first_unwritten <= HISTORY_SAVE_MAX {
        assert forall|i: int|
            state.first_unwritten <= i < state.new_items.len() implies counts_in(
            items,
            #[trigger] state.new_items[i],
        ) by {
            every_unwritten_item_counts(state, old_items, items, mine, i);
        }
    }
    if old_items.len() + state.new_items.len() - state.first_unwritten <= HISTORY_SAVE_MAX {
        let theirs = Seq::new(old_items.len(), |j: int| old_items[j]->0.contents);
        let texts = theirs + mine;
        assert forall|j: int|
            0 <= j < old_items.len() && #[trigger] old_items[j] is Some implies texts.contains(
            old_items[j]->0.contents,
        ) by {
            assert(texts[j] == old_items[j]->0.contents);
        }
        assert forall|j: int|
            state.first_unwritten <= j < state.new_items.len() implies texts.contains(
            (#[trigger] state.new_items[j]).contents,
        ) by {
            assert(texts[old_items.len() + j - state.first_unwritten] == state.new_items[j].contents);
        }
        assert forall|i: int|
            0 <= i < old_items.len() && (#[trigger] old_items[i]) is Some
                && old_items[i]->0.contents.len() > 0 && !state.deleted.contains_key(
                old_items[i]->0.contents,
            ) implies counts_in(items, old_items[i]->0) by {
            every_old_item_counts(state, old_items, items, texts, i, old_items[i]->0);
        }
    }
}

/// The most recently used texts stay: whatever stays of the old file or is unwritten counts in a rewrite, as long as
/// there is room for its text and for all texts that were used later.
pub proof fn the_most_recently_used_texts_stay(
    state: HistoryState,
    old_items: Seq<Option<ItemView>>,
    items: Seq<ItemView>,
    texts: Seq<Seq<char>>,
    p: int,
)
    requires
        state.wf(),
        rewritten(state, old_items, items),
        0 <= p < (state.survivors(old_items) + state.new_items.skip(state.first_unwritten)).len(),
        texts.len() <= 262_144,
        forall|q: int|
            p <= q < (state.survivors(old_items) + state.new_items.skip(
                state.first_unwritten,
            )).len() ==> texts.contains(
                (#[trigger] (state.survivors(old_items) + state.new_items.skip(
                    state.first_unwritten,
                ))[q]).contents,
            ),
    ensures
        counts_in(
            items,
            (state.survivors(old_items) + state.new_items.skip(state.first_unwritten))[p],
        ),
{
    let all = state.survivors(old_items) + state.new_items.skip(state.first_unwritten);
    let a = all.take(p);
    let u = all.skip(p);
    assert(state.candidates(old_items) =~= all);
    assert(a + u =~= all);
    assert forall|j: int| 0 <= j < u.len() implies texts.contains((#[trigger] u[j]).contents) by {
        assert(u[j] == all[p + j]);
    }
    lemma_recent_is_covered(u, texts);
    lemma_last_items_count(HISTORY_SAVE_MAX as nat, a, u);
    if p < state.survivors(old_items).len() {
        lemma_survivor_comes_from_entry(state, old_items, p);
    } else {
        assert(all[p] == state.new_items[p - state.survivors(old_items).len()
            + state.first_unwritten]);
    }
    assert(u[0] == all[p]);
    assert(all[p].contents.len() > 0);
    lemma_counts_in_file(state, old_items, items, all[p]);
}

/// A text that was used has a last use.
proof fn lemma_last_use(items: Seq<ItemView>, text: Seq<char>) -> (p: int)
    requires
        has_text(items, text),
    ensures
        0 <= p < items.len(),
        items[p].contents == text,
        forall|q: int| p < q < items.len() ==> (#[trigger] items[q]).contents != text,
    decreases items.len(),
{
    let less = items.drop_last();
    if items.last().contents == text {
        items.len() - 1
    } else {
        let k = choose|k: int| 0 <= k < items.len() && #[trigger] items[k].contents == text;
        assert(less[k].contents == text);
        let p = lemma_last_use(less, text);
        assert forall|q: int| p < q < items.len() implies (#[trigger] items[q]).contents != text by {
            if q < less.len() {
                assert(less[q] == items[q]);
            }
        }
        p
    }
}

/// The least recently used texts go: if as many other texts as a file may have were used after a text, it is not in
/// a rewritten file.
pub proof fn the_least_recently_used_texts_go(
    state: HistoryState,
    old_items: Seq<Option<ItemView>>,
    items: Seq<ItemView>,
    text: Seq<char>,
    later: Seq<Seq<char>>,
)
    requires
        state.wf(),
        rewritten(state, old_items, items),
        later.len() >= 262_144,
        later.no_duplicates(),
        forall|p: int, c: int|
            0 <= c < later.len() && 0 <= p < state.candidates(old_items).len() && (
            #[trigger] state.candidates(old_items)[p]).contents == text ==> was_used_after(
                state.candidates(old_items),
                p,
                #[trigger] later[c],
            ),
    ensures
        !has_text(items, text),
{
    let cap = HISTORY_SAVE_MAX as nat;
    let all = state.candidates(old_items);
    if has_text(items, text) {
        rewriting_keeps_the_most_recent_texts(state, old_items, items, text);
        let kept = top(recent(all), cap);
        let r = choose|r: int| 0 <= r < kept.len() && kept[r] == text;
        recent_texts_are_all_texts(all);
        assert(recent(all)[r] == text);
        assert(recent(all).contains(text));
        let last = lemma_last_use(all, text);
        let front = recent(all).take(r);
        assert forall|t: Seq<char>| later.to_set().contains(t) implies front.to_set().contains(t) by {
            assert(later.contains(t));
            let c = choose|c: int| 0 <= c < later.len() && later[c] == t;
            assert(was_used_after(all, last, later[c]));
            let q = choose|q: int| last < q < all.len() && #[trigger] all[q].contents == t;
            lemma_candidates_have_texts(state, old_items, q);
            assert(has_text(all, t));
            assert(recent(all).contains(t));
            let k = choose|k: int| 0 <= k < recent(all).len() && recent(all)[k] == t;
            if k > r {
                recent_texts_are_in_the_order_of_use(all, r, k, q);
                let s = choose|s: int| q < s < all.len() && #[trigger] all[s].contents == text;
                assert(all[s].contents != text);
            }
            assert(k != r);
            assert(front[k] == t);
        }
        later.unique_seq_to_set();
        front.lemma_cardinality_of_set();
        vstd::seq_lib::seq_to_set_is_finite(front);
        vstd::set_lib::lemma_len_subset(later.to_set(), front.to_set());
    }
}

/// What could be written has a text.
proof fn lemma_candidates_have_texts(
    state: HistoryState,
    old_items: Seq<Option<ItemView>>,
    p: int,
)
    requires
        state.wf(),
        0 <= p < state.candidates(old_items).len(),
    ensures
        state.candidates(old_items)[p].contents.len() > 0,
{
    let old = state.survivors(old_items);
    if p < old.len() {
        lemma_survivor_comes_from_entry(state, old_items, p);
    } else {
        assert(state.candidates(old_items)[p] == state.new_items[p - old.len()
            + state.first_unwritten]);
    }
}

/// Some item behind `p` has the text `text`, and the one at `p` has another.
pub open spec fn was_used_after(items: Seq<ItemView>, p: int, text: Seq<char>) -> bool {
    items[p].contents != text && exists|q: int|
        p < q < items.len() && #[trigger] items[q].contents == text
}

} // verus!
