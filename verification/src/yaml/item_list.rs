//! Lists of history items: dropping duplicates, dropping a text, and sorting by time.
use crate::api::{item_views, HistoryItem, ItemView};
use crate::timestamp::Timestamp;
use vstd::hash_set::StringHashSet;
use vstd::prelude::*;

verus! {

/// Some item has this text.
pub open spec fn has_text(items: Seq<ItemView>, text: Seq<char>) -> bool {
    exists|i: int| 0 <= i < items.len() && #[trigger] items[i].contents == text
}

/// No two items have one text.
pub open spec fn texts_differ(items: Seq<ItemView>) -> bool {
    forall|i: int, j: int|
        0 <= i < j < items.len() ==> (#[trigger] items[i]).contents != (#[trigger] items[j]).contents
}

/// The items without those whose text comes again later.
pub open spec fn keep_last(items: Seq<ItemView>) -> Seq<ItemView>
    decreases items.len(),
{
    if items.len() == 0 {
        Seq::empty()
    } else if has_text(items.drop_first(), items[0].contents) {
        keep_last(items.drop_first())
    } else {
        seq![items[0]] + keep_last(items.drop_first())
    }
}

/// The items without those that have the text `text`.
pub open spec fn without_text(items: Seq<ItemView>, text: Seq<char>) -> Seq<ItemView>
    decreases items.len(),
{
    if items.len() == 0 {
        Seq::empty()
    } else if items[0].contents == text {
        without_text(items.drop_first(), text)
    } else {
        seq![items[0]] + without_text(items.drop_first(), text)
    }
}

/// Dropping duplicates from a list drops them from its tail in the same way.
pub(crate) proof fn lemma_keep_last_of_tail(items: Seq<ItemView>, n: int)
    requires
        0 <= n <= items.len(),
    ensures
        keep_last(items.skip(n)).len() <= keep_last(items).len() <= items.len(),
        keep_last(items).skip(keep_last(items).len() - keep_last(items.skip(n)).len()) == keep_last(
            items.skip(n),
        ),
    decreases items.len(),
{
    if n == 0 {
        assert(items.skip(0) =~= items);
        if items.len() > 0 {
            lemma_keep_last_of_tail(items.drop_first(), 0);
        }
    } else {
        let rest = items.drop_first();
        lemma_keep_last_of_tail(rest, n - 1);
        assert(rest.skip(n - 1) =~= items.skip(n));
        let tail = keep_last(items.skip(n));
        assert(keep_last(items).skip(keep_last(items).len() - tail.len()) =~= tail) by {
            assert(keep_last(rest).skip(keep_last(rest).len() - tail.len()) == tail);
        }
    }
}

/// Dropping a text from a list drops it from its tail in the same way.
pub(crate) proof fn lemma_without_text_of_tail(items: Seq<ItemView>, text: Seq<char>, n: int)
    requires
        0 <= n <= items.len(),
    ensures
        without_text(items.skip(n), text).len() <= without_text(items, text).len() <= items.len(),
        without_text(items, text).skip(
            without_text(items, text).len() - without_text(items.skip(n), text).len(),
        ) == without_text(items.skip(n), text),
    decreases items.len(),
{
    if n == 0 {
        assert(items.skip(0) =~= items);
        if items.len() > 0 {
            lemma_without_text_of_tail(items.drop_first(), text, 0);
        }
    } else {
        let rest = items.drop_first();
        lemma_without_text_of_tail(rest, text, n - 1);
        assert(rest.skip(n - 1) =~= items.skip(n));
        let tail = without_text(items.skip(n), text);
        let shorter = without_text(rest, text);
        assert(without_text(items, text).skip(without_text(items, text).len() - tail.len()) =~= tail)
            by {
            assert(shorter.skip(shorter.len() - tail.len()) == tail);
        }
    }
}

/// Drops from a list all items whose text comes again later. `first` marks a place in the list; the
/// result is the place that marks the same tail afterwards.
pub fn drop_duplicates(items: &mut Vec<HistoryItem>, first: usize) -> (new_first: usize)
    requires
        first <= old(items)@.len(),
    ensures
        item_views(final(items)@) == keep_last(item_views(old(items)@)),
        new_first <= final(items)@.len(),
        item_views(final(items)@).skip(new_first as int) == keep_last(
            item_views(old(items)@).skip(first as int),
        ),
{
    let ghost all = item_views(items@);
    let ghost tail = keep_last(all.skip(first as int));
    let mut seen = StringHashSet::new();
    let mut new_first: usize = first;
    let mut idx: usize = items.len();
    assert(all.take(idx as int) + keep_last(all.skip(idx as int)) =~= item_views(items@));
    while idx > 0
        invariant
            idx <= all.len(),
            first <= all.len(),
            tail == keep_last(all.skip(first as int)),
            item_views(items@) == all.take(idx as int) + keep_last(all.skip(idx as int)),
            forall|text: Seq<char>| #[trigger]
                seen@.contains(text) <==> has_text(all.skip(idx as int), text),
            idx >= first ==> new_first == first,
            idx < first ==> new_first == items@.len() - tail.len(),
        decreases idx,
    {
        proof {
            lemma_keep_last_of_tail(all.skip(idx as int), if first > idx { first - idx } else { 0 });
            if first > idx {
                assert(all.skip(idx as int).skip(first - idx) =~= all.skip(first as int));
            }
        }
        let ghost before = item_views(items@);
        let ghost later = all.skip(idx as int);
        idx = idx - 1;
        let ghost here = all.skip(idx as int);
        proof {
            assert(here.drop_first() =~= later);
            assert(here[0] == all[idx as int]);
            assert(before.len() == items@.len());
            assert(before[idx as int] == all[idx as int]);
            assert(items@[idx as int]@ == all[idx as int]);
            lemma_keep_last_of_tail(here, if first > idx { first - idx } else { 0 });
            if first > idx {
                assert(here.skip(first - idx) =~= all.skip(first as int));
            }
        }
        let is_new = seen.insert(items[idx].str().to_owned());
        proof {
            assert forall|text: Seq<char>| #[trigger] seen@.contains(text) <==> has_text(here, text) by {
                if has_text(later, text) {
                    let i = choose|i: int| 0 <= i < later.len() && #[trigger] later[i].contents == text;
                    assert(here[i + 1].contents == text);
                }
                if has_text(here, text) && text != here[0].contents {
                    let i = choose|i: int| 0 <= i < here.len() && #[trigger] here[i].contents == text;
                    assert(later[i - 1].contents == text);
                }
            }
        }
        if !is_new {
            // This item was not inserted because it was already in the set, so delete the item at
            // this index.
            items.remove(idx);
            assert(item_views(items@) =~= before.remove(idx as int));
            assert(item_views(items@) =~= all.take(idx as int) + keep_last(here));
            if idx < new_first {
                // One item less stands before the mark.
                new_first = new_first - 1;
            }
        } else {
            assert(item_views(items@) =~= all.take(idx as int) + keep_last(here));
        }
    }
    proof {
        assert(all.skip(0) =~= all);
        assert(all.take(0) + keep_last(all) =~= keep_last(all));
        lemma_keep_last_of_tail(all, first as int);
    }
    new_first
}

/// Drops from a list all items with the text `text`. `first` marks a place in the list; the result is
/// the place that marks the same tail afterwards.
pub fn drop_text(items: &mut Vec<HistoryItem>, text: &str, first: usize) -> (new_first: usize)
    requires
        first <= old(items)@.len(),
    ensures
        item_views(final(items)@) == without_text(item_views(old(items)@), text@),
        new_first <= final(items)@.len(),
        item_views(final(items)@).skip(new_first as int) == without_text(
            item_views(old(items)@).skip(first as int),
            text@,
        ),
{
    let ghost all = item_views(items@);
    let ghost tail = without_text(all.skip(first as int), text@);
    let text_to_drop = text.to_owned();
    let mut new_first: usize = first;
    let mut idx: usize = items.len();
    assert(all.take(idx as int) + without_text(all.skip(idx as int), text@) =~= item_views(items@));
    while idx > 0
        invariant
            idx <= all.len(),
            first <= all.len(),
            text_to_drop@ == text@,
            tail == without_text(all.skip(first as int), text@),
            item_views(items@) == all.take(idx as int) + without_text(all.skip(idx as int), text@),
            idx >= first ==> new_first == first,
            idx < first ==> new_first == items@.len() - tail.len(),
        decreases idx,
    {
        proof {
            if first > idx {
                lemma_without_text_of_tail(all.skip(idx as int), text@, first - idx);
                assert(all.skip(idx as int).skip(first - idx) =~= all.skip(first as int));
            }
        }
        let ghost before = item_views(items@);
        let ghost later = all.skip(idx as int);
        idx = idx - 1;
        let ghost here = all.skip(idx as int);
        proof {
            assert(here.drop_first() =~= later);
            assert(here[0] == all[idx as int]);
            assert(before.len() == items@.len());
            assert(before[idx as int] == all[idx as int]);
            assert(items@[idx as int]@ == all[idx as int]);
            if first > idx {
                lemma_without_text_of_tail(here, text@, first - idx);
                assert(here.skip(first - idx) =~= all.skip(first as int));
            }
        }
        let matched = items[idx].str().to_owned() == text_to_drop;
        if matched {
            items.remove(idx);
            assert(item_views(items@) =~= before.remove(idx as int));
            assert(item_views(items@) =~= all.take(idx as int) + without_text(here, text@));
            // If this index is before the mark, then subtract one from it so it stays pointing at the
            // same item. If it is equal or larger, we don't have to adjust it.
            if idx < new_first {
                new_first = new_first - 1;
            }
        } else {
            assert(item_views(items@) =~= all.take(idx as int) + without_text(here, text@));
        }
    }
    proof {
        assert(all.skip(0) =~= all);
        assert(all.take(0) + without_text(all, text@) =~= without_text(all, text@));
        lemma_without_text_of_tail(all, text@, first as int);
    }
    new_first
}

/// The items of a given time, in order.
pub open spec fn at_time(items: Seq<ItemView>, time: Timestamp) -> Seq<ItemView> {
    items.filter(|item: ItemView| item.creation_timestamp == time)
}

/// No item is older than one before it.
pub open spec fn sorted_by_time(items: Seq<ItemView>) -> bool {
    forall|i: int, j: int|
        0 <= i < j < items.len() ==> (#[trigger] items[i]).creation_timestamp.nanos <= (
        #[trigger] items[j]).creation_timestamp.nanos
}

/// `sorted` holds the items of `items` in the order of their times; items of one time stay in the order
/// in which they were.
pub open spec fn is_stable_sort(sorted: Seq<ItemView>, items: Seq<ItemView>) -> bool {
    &&& sorted_by_time(sorted)
    &&& sorted.to_multiset() == items.to_multiset()
    &&& forall|time: Timestamp| #[trigger] at_time(sorted, time) == at_time(items, time)
}

/// Calls `sort_by_key` of slices: it sorts by the key, and does not reorder items with equal keys.
#[verifier::external_body]
pub(crate) fn sort_by_timestamp(items: &mut Vec<HistoryItem>)
    ensures
        is_stable_sort(item_views(final(items)@), item_views(old(items)@)),
{
    items.sort_by_key(|item| item.get_timestamp().nanos)
}

/// Once duplicates are dropped there are none.
pub proof fn dropping_duplicates_leaves_none(items: Seq<ItemView>)
    ensures
        texts_differ(keep_last(items)),
    decreases items.len(),
{
    if items.len() > 0 {
        let rest = items.drop_first();
        dropping_duplicates_leaves_none(rest);
        dropping_duplicates_loses_no_text(rest, items[0].contents);
        if !has_text(rest, items[0].contents) {
            let kept = keep_last(items);
            assert forall|i: int, j: int| 0 <= i < j < kept.len() implies (#[trigger] kept[i]).contents
                != (#[trigger] kept[j]).contents by {
                assert(kept[j] == keep_last(rest)[j - 1]);
                if i > 0 {
                    assert(kept[i] == keep_last(rest)[i - 1]);
                }
            }
        }
    }
}

/// Dropping duplicates loses no text, and brings none in.
pub proof fn dropping_duplicates_loses_no_text(items: Seq<ItemView>, text: Seq<char>)
    ensures
        has_text(keep_last(items), text) == has_text(items, text),
    decreases items.len(),
{
    if items.len() > 0 {
        let rest = items.drop_first();
        dropping_duplicates_loses_no_text(rest, text);
        let kept = keep_last(items);
        if has_text(items, text) {
            let i = choose|i: int| 0 <= i < items.len() && #[trigger] items[i].contents == text;
            if i > 0 {
                assert(rest[i - 1].contents == text);
            }
            if i > 0 || has_text(rest, items[0].contents) {
                let j = choose|j: int|
                    0 <= j < keep_last(rest).len() && #[trigger] keep_last(rest)[j].contents == text;
                if !has_text(rest, items[0].contents) {
                    assert(kept[j + 1].contents == text);
                }
            } else {
                assert(kept[0].contents == text);
            }
        }
        if has_text(kept, text) {
            let i = choose|i: int| 0 <= i < kept.len() && #[trigger] kept[i].contents == text;
            if has_text(rest, items[0].contents) {
                assert(has_text(rest, text));
            } else if i > 0 {
                assert(keep_last(rest)[i - 1].contents == text);
                assert(has_text(rest, text));
            } else {
                assert(items[0].contents == text);
            }
            if has_text(rest, text) {
                let j = choose|j: int| 0 <= j < rest.len() && #[trigger] rest[j].contents == text;
                assert(items[j + 1].contents == text);
            }
        }
    }
}

/// Of the items with one text, the last one is kept.
pub proof fn dropping_duplicates_keeps_the_last(items: Seq<ItemView>, i: int)
    requires
        0 <= i < items.len(),
        !has_text(items.skip(i + 1), items[i].contents),
    ensures
        keep_last(items).contains(items[i]),
    decreases items.len(),
{
    let rest = items.drop_first();
    if i == 0 {
        assert(items.skip(1) =~= rest);
        assert(keep_last(items)[0] == items[0]);
    } else {
        assert(rest.skip(i) =~= items.skip(i + 1));
        dropping_duplicates_keeps_the_last(rest, i - 1);
        let j = choose|j: int| 0 <= j < keep_last(rest).len() && keep_last(rest)[j] == items[i];
        if !has_text(rest, items[0].contents) {
            assert(keep_last(items)[j + 1] == items[i]);
        }
    }
}

/// Dropping duplicates again changes nothing.
pub proof fn dropping_duplicates_twice_is_once(items: Seq<ItemView>)
    ensures
        keep_last(keep_last(items)) == keep_last(items),
{
    dropping_duplicates_leaves_none(items);
    lemma_keep_last_of_distinct(keep_last(items));
}

pub(crate) proof fn lemma_keep_last_of_distinct(items: Seq<ItemView>)
    requires
        texts_differ(items),
    ensures
        keep_last(items) == items,
    decreases items.len(),
{
    if items.len() > 0 {
        let rest = items.drop_first();
        assert(texts_differ(rest)) by {
            assert forall|i: int, j: int| 0 <= i < j < rest.len() implies (#[trigger] rest[i]).contents
                != (#[trigger] rest[j]).contents by {
                assert(items[i + 1].contents != items[j + 1].contents);
            }
        }
        lemma_keep_last_of_distinct(rest);
        if has_text(rest, items[0].contents) {
            let j = choose|j: int|
                0 <= j < rest.len() && #[trigger] rest[j].contents == items[0].contents;
            assert(items[j + 1].contents == items[0].contents);
        }
        assert(keep_last(items) =~= items);
    }
}

/// A dropped text is gone, and no other text is.
pub proof fn dropping_a_text_drops_no_other(items: Seq<ItemView>, dropped: Seq<char>, text: Seq<char>)
    ensures
        has_text(without_text(items, dropped), text) == (text != dropped && has_text(items, text)),
    decreases items.len(),
{
    if items.len() > 0 {
        let rest = items.drop_first();
        dropping_a_text_drops_no_other(rest, dropped, text);
        let less = without_text(rest, dropped);
        let kept = without_text(items, dropped);
        if has_text(rest, text) {
            let j = choose|j: int| 0 <= j < rest.len() && #[trigger] rest[j].contents == text;
            assert(items[j + 1].contents == text);
        }
        if has_text(items, text) {
            let i = choose|i: int| 0 <= i < items.len() && #[trigger] items[i].contents == text;
            if i > 0 {
                assert(rest[i - 1].contents == text);
            }
        }
        if items[0].contents != dropped {
            if has_text(less, text) {
                let j = choose|j: int| 0 <= j < less.len() && #[trigger] less[j].contents == text;
                assert(kept[j + 1].contents == text);
            }
            if has_text(kept, text) {
                let i = choose|i: int| 0 <= i < kept.len() && #[trigger] kept[i].contents == text;
                if i > 0 {
                    assert(less[i - 1].contents == text);
                }
            }
            if items[0].contents == text {
                assert(kept[0].contents == text);
            }
        }
    }
}

/// Sorting brings no item in and loses none.
pub proof fn sorting_keeps_the_items(sorted: Seq<ItemView>, items: Seq<ItemView>, item: ItemView)
    requires
        is_stable_sort(sorted, items),
    ensures
        sorted.len() == items.len(),
        sorted.contains(item) == items.contains(item),
{
    broadcast use vstd::seq_lib::group_to_multiset_ensures;

    assert(sorted.to_multiset().len() == sorted.len());
    assert(items.to_multiset().len() == items.len());
    assert(sorted.to_multiset().count(item) > 0 <==> sorted.contains(item));
    assert(items.to_multiset().count(item) > 0 <==> items.contains(item));
}

/// Of a list that ends in an item of the given time, that item is the last of its time.
pub(crate) proof fn lemma_last_of_its_time(items: Seq<ItemView>, time: Timestamp)
    requires
        items.len() > 0,
    ensures
        at_time(items, time) == if items.last().creation_timestamp == time {
            at_time(items.drop_last(), time).push(items.last())
        } else {
            at_time(items.drop_last(), time)
        },
{
    reveal(Seq::filter);
}

/// Some item has the time `time`, if there are any of that time.
proof fn lemma_some_item_at(items: Seq<ItemView>, time: Timestamp)
    ensures
        at_time(items, time).len() > 0 ==> exists|i: int|
            0 <= i < items.len() && #[trigger] items[i].creation_timestamp == time,
    decreases items.len(),
{
    reveal(Seq::filter);
    if items.len() > 0 {
        lemma_last_of_its_time(items, time);
        lemma_some_item_at(items.drop_last(), time);
        if items.last().creation_timestamp == time {
            assert(items[items.len() - 1].creation_timestamp == time);
        } else if at_time(items, time).len() > 0 {
            let less = items.drop_last();
            let i = choose|i: int|
                0 <= i < less.len() && #[trigger] less[i].creation_timestamp == time;
            assert(items[i].creation_timestamp == time);
        }
    }
}

/// Two lists that are sorted by time are one if they agree on the items of each time.
proof fn lemma_sorted_lists_agree(a: Seq<ItemView>, b: Seq<ItemView>)
    requires
        sorted_by_time(a),
        sorted_by_time(b),
        forall|time: Timestamp| #[trigger] at_time(a, time) == at_time(b, time),
    ensures
        a == b,
    decreases a.len(),
{
    reveal(Seq::filter);
    if a.len() == 0 {
        if b.len() > 0 {
            let time = b.last().creation_timestamp;
            lemma_last_of_its_time(b, time);
            assert(at_time(a, time).len() == 0);
        }
        assert(a =~= b);
    } else {
        let time = a.last().creation_timestamp;
        lemma_last_of_its_time(a, time);
        assert(at_time(b, time).len() > 0);
        lemma_some_item_at(b, time);
        let i = choose|i: int| 0 <= i < b.len() && #[trigger] b[i].creation_timestamp == time;
        let other = b.last().creation_timestamp;
        lemma_last_of_its_time(b, other);
        assert(at_time(a, other).len() > 0);
        lemma_some_item_at(a, other);
        let j = choose|j: int| 0 <= j < a.len() && #[trigger] a[j].creation_timestamp == other;
        assert(time.nanos <= other.nanos) by {
            if i < b.len() - 1 {
                assert(b[i].creation_timestamp.nanos <= b[b.len() - 1].creation_timestamp.nanos);
            }
        }
        assert(other.nanos <= time.nanos) by {
            if j < a.len() - 1 {
                assert(a[j].creation_timestamp.nanos <= a[a.len() - 1].creation_timestamp.nanos);
            }
        }
        assert(time == other);
        assert(a.last() == at_time(a, time).last());
        assert(b.last() == at_time(b, time).last());
        assert forall|t: Timestamp| #[trigger]
            at_time(a.drop_last(), t) == at_time(b.drop_last(), t) by {
            lemma_last_of_its_time(a, t);
            lemma_last_of_its_time(b, t);
            assert(at_time(a, t) == at_time(b, t));
            if t == time {
                assert(at_time(a.drop_last(), t) =~= at_time(a, t).drop_last());
                assert(at_time(b.drop_last(), t) =~= at_time(b, t).drop_last());
            }
        }
        lemma_sorted_lists_agree(a.drop_last(), b.drop_last());
        assert(a =~= a.drop_last().push(a.last()));
        assert(b =~= b.drop_last().push(b.last()));
    }
}

/// There is only one way to sort the items by time without reordering those of one time.
pub proof fn sorting_has_one_result(a: Seq<ItemView>, b: Seq<ItemView>, items: Seq<ItemView>)
    requires
        is_stable_sort(a, items),
        is_stable_sort(b, items),
    ensures
        a == b,
{
    assert forall|time: Timestamp| #[trigger] at_time(a, time) == at_time(b, time) by {
        assert(at_time(a, time) == at_time(items, time));
    }
    lemma_sorted_lists_agree(a, b);
}

} // verus!
