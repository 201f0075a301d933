//! What becomes of the places of items when some are dropped from a list.
use super::file::decoded;
use super::item_list::{has_text, keep_last, without_text};
use super::recent::{latest, recent, recent_texts_are_all_texts};
use crate::api::ItemView;
use vstd::prelude::*;

verus! {

/// `kept` is made of the items at `places`, in order.
pub open spec fn stand_at(kept: Seq<ItemView>, items: Seq<ItemView>, places: Seq<int>) -> bool {
    &&& places.len() == kept.len()
    &&& forall|k: int|
        0 <= k < places.len() ==> 0 <= #[trigger] places[k] < items.len() && kept[k]
            == items[places[k]]
    &&& forall|j: int, k: int|
        0 <= j < k < places.len() ==> #[trigger] places[j] < #[trigger] places[k]
}

/// No later item has the text of the item at `i`.
pub open spec fn is_last_of_its_text(items: Seq<ItemView>, i: int) -> bool {
    &&& 0 <= i < items.len()
    &&& forall|j: int| i < j < items.len() ==> (#[trigger] items[j]).contents != items[i].contents
}

/// `places` are just those of the items whose text does not come again.
pub open spec fn are_the_last_places(items: Seq<ItemView>, places: Seq<int>) -> bool {
    forall|i: int| #[trigger] places.contains(i) <==> is_last_of_its_text(items, i)
}

/// Dropping duplicates keeps just the items whose text does not come again, in the order in which they were.
pub proof fn dropping_duplicates_keeps_the_order(items: Seq<ItemView>)
    ensures
        exists|places: Seq<int>| #[trigger]
            stand_at(keep_last(items), items, places) && are_the_last_places(items, places),
    decreases items.len(),
{
    if items.len() == 0 {
        assert(stand_at(keep_last(items), items, Seq::empty()));
    } else {
        let rest = items.drop_first();
        dropping_duplicates_keeps_the_order(rest);
        let before = choose|places: Seq<int>| #[trigger]
            stand_at(keep_last(rest), rest, places) && are_the_last_places(rest, places);
        let moved = Seq::new(before.len(), |k: int| before[k] + 1);
        let repeated = has_text(rest, items[0].contents);
        let places = if repeated {
            moved
        } else {
            seq![0int] + moved
        };
        if repeated {
            let j = choose|j: int|
                0 <= j < rest.len() && #[trigger] rest[j].contents == items[0].contents;
            assert(items[j + 1].contents == items[0].contents);
        } else {
            assert forall|j: int| 0 < j < items.len() implies (#[trigger] items[j]).contents
                != items[0].contents by {
                assert(rest[j - 1].contents == items[j].contents);
            }
        }
        assert(stand_at(keep_last(items), items, places)) by {
            let kept = keep_last(items);
            assert forall|k: int| 0 <= k < places.len() implies 0 <= #[trigger] places[k] < items.len()
                && kept[k] == items[places[k]] by {
                let b = if repeated {
                    k
                } else {
                    k - 1
                };
                if b >= 0 {
                    assert(keep_last(rest)[b] == rest[before[b]]);
                }
            }
            assert forall|j: int, k: int| 0 <= j < k < places.len() implies #[trigger] places[j]
                < #[trigger] places[k] by {
                let a = if repeated {
                    j
                } else {
                    j - 1
                };
                let b = if repeated {
                    k
                } else {
                    k - 1
                };
                assert(before[b] >= 0);
                if a >= 0 {
                    assert(before[a] < before[b]);
                }
            }
        }
        assert forall|i: int| #[trigger] places.contains(i) <==> is_last_of_its_text(items, i) by {
            if i > 0 {
                assert(before.contains(i - 1) <==> is_last_of_its_text(rest, i - 1));
                if places.contains(i) {
                    let k = choose|k: int| 0 <= k < places.len() && places[k] == i;
                    let b = if repeated {
                        k
                    } else {
                        k - 1
                    };
                    assert(before[b] == i - 1);
                    assert(before.contains(i - 1));
                    assert forall|j: int| i < j < items.len() implies (#[trigger] items[j]).contents
                        != items[i].contents by {
                        assert(rest[j - 1].contents == items[j].contents);
                    }
                }
                if is_last_of_its_text(items, i) {
                    assert forall|j: int| i - 1 < j < rest.len() implies (#[trigger] rest[j]).contents
                        != rest[i - 1].contents by {
                        assert(items[j + 1].contents != items[i].contents);
                    }
                    let b = choose|b: int| 0 <= b < before.len() && before[b] == i - 1;
                    let k = if repeated {
                        b
                    } else {
                        b + 1
                    };
                    assert(places[k] == i);
                }
            } else {
                if places.contains(i) {
                    let k = choose|k: int| 0 <= k < places.len() && places[k] == i;
                    if repeated || k > 0 {
                        let b = if repeated {
                            k
                        } else {
                            k - 1
                        };
                        assert(before[b] >= 0);
                    }
                }
                if !repeated {
                    assert(places[0] == 0);
                }
            }
        }
    }
}

/// Dropping a text from two lists, one behind the other, drops it from each of them; of a single item nothing
/// is left just if it has the text.
pub proof fn dropping_a_text_goes_item_by_item(
    a: Seq<ItemView>,
    b: Seq<ItemView>,
    item: ItemView,
    text: Seq<char>,
)
    ensures
        without_text(a + b, text) == without_text(a, text) + without_text(b, text),
        item.contents == text ==> without_text(seq![item], text).len() == 0,
        item.contents != text ==> without_text(seq![item], text) == seq![item],
    decreases a.len(),
{
    reveal_with_fuel(without_text, 2);
    assert(seq![item].drop_first() =~= Seq::empty());
    assert(seq![item] + Seq::<ItemView>::empty() =~= seq![item]);
    if a.len() == 0 {
        assert(a + b =~= b);
        assert(without_text(a, text) + without_text(b, text) =~= without_text(b, text));
    } else {
        dropping_a_text_goes_item_by_item(a.drop_first(), b, item, text);
        assert((a + b).drop_first() =~= a.drop_first() + b);
        assert(without_text(a + b, text) =~= without_text(a, text) + without_text(b, text));
    }
}

/// Decoding two files, one behind the other, decodes each of them; a single entry that could be decoded is its
/// item, and any other is nothing.
pub proof fn decoding_goes_entry_by_entry(
    a: Seq<Option<ItemView>>,
    b: Seq<Option<ItemView>>,
    item: ItemView,
)
    ensures
        decoded(a + b) == decoded(a) + decoded(b),
        decoded(seq![Some(item)]) == seq![item],
        decoded(seq![None::<ItemView>]).len() == 0,
    decreases b.len(),
{
    reveal_with_fuel(decoded, 2);
    assert(seq![Some(item)].drop_last() =~= Seq::empty());
    assert(seq![None::<ItemView>].drop_last() =~= Seq::empty());
    assert(decoded(seq![Some(item)]) =~= seq![item]);
    if b.len() == 0 {
        assert(a + b =~= a);
        assert(decoded(a) + decoded(b) =~= decoded(a));
    } else {
        decoding_goes_entry_by_entry(a, b.drop_last(), item);
        assert((a + b).drop_last() =~= a + b.drop_last());
        assert(decoded(a + b) =~= decoded(a) + decoded(b));
    }
}

/// Every item of an entry that could be decoded is decoded, and nothing else is.
pub proof fn every_item_is_decoded(entries: Seq<Option<ItemView>>, item: ItemView)
    ensures
        decoded(entries).contains(item) <==> exists|i: int|
            0 <= i < entries.len() && #[trigger] entries[i] == Some(item),
    decreases entries.len(),
{
    if entries.len() > 0 {
        let less = entries.drop_last();
        let before = decoded(less);
        let now = decoded(entries);
        every_item_is_decoded(less, item);
        if now.contains(item) {
            let k = choose|k: int| 0 <= k < now.len() && now[k] == item;
            if k < before.len() {
                assert(before[k] == item);
                assert(before.contains(item));
                let i = choose|i: int| 0 <= i < less.len() && #[trigger] less[i] == Some(item);
                assert(entries[i] == Some(item));
            } else {
                assert(entries[entries.len() - 1] == Some(item));
            }
        }
        if exists|i: int| 0 <= i < entries.len() && #[trigger] entries[i] == Some(item) {
            let i = choose|i: int| 0 <= i < entries.len() && #[trigger] entries[i] == Some(item);
            if i < less.len() {
                assert(less[i] == Some(item));
                let k = choose|k: int| 0 <= k < before.len() && before[k] == item;
                assert(now[k] == item);
            } else {
                assert(now[before.len() as int] == item);
            }
        }
    }
}

/// A recent text comes before the less recent ones: behind every item with the text of the latter comes one
/// with the text of the former.
pub proof fn recent_texts_are_in_the_order_of_use(items: Seq<ItemView>, i: int, j: int, p: int)
    requires
        0 <= i < j < recent(items).len(),
        0 <= p < items.len(),
        items[p].contents == recent(items)[j],
    ensures
        exists|q: int| p < q < items.len() && #[trigger] items[q].contents == recent(items)[i],
    decreases items.len(),
{
    let less = items.drop_last();
    let before = recent(less);
    let text = items.last().contents;
    let now = recent(items);
    recent_texts_are_all_texts(items);
    recent_texts_are_all_texts(less);
    if text.len() > 0 && i == 0 {
        assert(items[items.len() - 1].contents == now[i]);
    } else {
        let at = if before.contains(text) {
            before.index_of(text)
        } else {
            before.len() as int
        };
        if before.contains(text) {
            assert(0 <= at < before.len() && before[at] == text);
        }
        let a = if text.len() == 0 || i - 1 >= at {
            i
        } else {
            i - 1
        };
        let b = if text.len() == 0 || j - 1 >= at {
            j
        } else {
            j - 1
        };
        assert(now[i] == before[a] && now[j] == before[b]);
        assert(p < less.len());
        assert(less[p] == items[p]);
        recent_texts_are_in_the_order_of_use(less, a, b, p);
        let q = choose|q: int| p < q < less.len() && #[trigger] less[q].contents == before[a];
        assert(items[q].contents == now[i]);
    }
}

/// The latest time of a text is the time of an item that has it, and no such item is later.
pub proof fn the_latest_time_is_the_greatest(items: Seq<ItemView>, text: Seq<char>)
    requires
        has_text(items, text),
    ensures
        forall|i: int|
            0 <= i < items.len() && (#[trigger] items[i]).contents == text
                ==> items[i].creation_timestamp.nanos <= latest(items, text),
        exists|i: int|
            0 <= i < items.len() && (#[trigger] items[i]).contents == text
                && items[i].creation_timestamp.nanos == latest(items, text),
    decreases items.len(),
{
    let less = items.drop_last();
    let last = items.last();
    assert(last == items[items.len() - 1]);
    if has_text(less, text) {
        the_latest_time_is_the_greatest(less, text);
        let k = choose|i: int|
            0 <= i < less.len() && (#[trigger] less[i]).contents == text
                && less[i].creation_timestamp.nanos == latest(less, text);
        assert(items[k] == less[k]);
        assert forall|i: int|
            0 <= i < items.len() && (#[trigger] items[i]).contents == text implies items[i].creation_timestamp.nanos
            <= latest(items, text) by {
            if i < less.len() {
                assert(less[i] == items[i]);
            }
        }
    } else {
        let k = choose|k: int| 0 <= k < items.len() && #[trigger] items[k].contents == text;
        if k < less.len() {
            assert(less[k].contents == text);
        }
        assert forall|i: int|
            0 <= i < items.len() && (#[trigger] items[i]).contents == text implies items[i].creation_timestamp.nanos
            <= latest(items, text) by {
            if i < less.len() {
                assert(less[i].contents == text);
            }
        }
    }
}

} // verus!
