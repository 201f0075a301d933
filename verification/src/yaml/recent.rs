//! Which items the cache keeps: the most recent texts, each once, with its latest time.
use super::cache::{has_key, holds, oldest_first, position, with_items};
use super::item_list::{has_text, texts_differ};
use crate::api::ItemView;
use vstd::prelude::*;

verus! {

/// The texts of the items, the most recent first, each where it is most recent. Empty ones do not count.
pub open spec fn recent(items: Seq<ItemView>) -> Seq<Seq<char>>
    decreases items.len(),
{
    if items.len() == 0 {
        Seq::empty()
    } else {
        let before = recent(items.drop_last());
        let text = items.last().contents;
        if text.len() == 0 {
            before
        } else if before.contains(text) {
            seq![text] + before.remove(before.index_of(text))
        } else {
            seq![text] + before
        }
    }
}

/// The first `n` of a list, or all of it if it is shorter.
pub open spec fn top(list: Seq<Seq<char>>, n: nat) -> Seq<Seq<char>> {
    if list.len() <= n {
        list
    } else {
        list.take(n as int)
    }
}

/// The keys of the entries.
pub open spec fn keys(entries: Seq<(Seq<char>, i128)>) -> Seq<Seq<char>> {
    entries.map_values(|entry: (Seq<char>, i128)| entry.0)
}

/// The latest time of the items with the text `text`.
pub open spec fn latest(items: Seq<ItemView>, text: Seq<char>) -> i128
    decreases items.len(),
{
    if items.len() == 0 {
        0
    } else {
        let earlier = latest(items.drop_last(), text);
        let nanos = items.last().creation_timestamp.nanos;
        if items.last().contents != text {
            earlier
        } else if has_text(items.drop_last(), text) && nanos <= earlier {
            earlier
        } else {
            nanos
        }
    }
}

/// The recent texts are those of the items, each once and none of them empty.
pub proof fn recent_texts_are_all_texts(items: Seq<ItemView>)
    ensures
        recent(items).no_duplicates(),
        forall|text: Seq<char>| #[trigger]
            recent(items).contains(text) <==> text.len() > 0 && has_text(items, text),
    decreases items.len(),
{
    if items.len() > 0 {
        let less = items.drop_last();
        let before = recent(less);
        let text = items.last().contents;
        let now = recent(items);
        recent_texts_are_all_texts(less);
        assert forall|t: Seq<char>| has_text(items, t) == (t == text || has_text(less, t)) by {
            if has_text(less, t) {
                let k = choose|k: int| 0 <= k < less.len() && #[trigger] less[k].contents == t;
                assert(items[k].contents == t);
            }
            if has_text(items, t) && t != text {
                let k = choose|k: int| 0 <= k < items.len() && #[trigger] items[k].contents == t;
                assert(less[k].contents == t);
            }
            assert(items[items.len() - 1].contents == text);
        }
        if text.len() > 0 {
            if before.contains(text) {
                let q = before.index_of(text);
                assert(0 <= q < before.len() && before[q] == text);
                let rest = before.remove(q);
                assert forall|t: Seq<char>| #[trigger] now.contains(t) <==> t == text
                    || before.contains(t) by {
                    if before.contains(t) && t != text {
                        let k = choose|k: int| 0 <= k < before.len() && before[k] == t;
                        if k < q {
                            assert(now[k + 1] == t);
                        } else {
                            assert(now[k] == t);
                        }
                    }
                    if now.contains(t) && t != text {
                        let k = choose|k: int| 0 <= k < now.len() && now[k] == t;
                        if k - 1 < q {
                            assert(before[k - 1] == t);
                        } else {
                            assert(before[k] == t);
                        }
                    }
                    assert(now[0] == text);
                }
            } else {
                assert forall|t: Seq<char>| #[trigger] now.contains(t) <==> t == text
                    || before.contains(t) by {
                    if before.contains(t) {
                        let k = choose|k: int| 0 <= k < before.len() && before[k] == t;
                        assert(now[k + 1] == t);
                    }
                    if now.contains(t) && t != text {
                        let k = choose|k: int| 0 <= k < now.len() && now[k] == t;
                        assert(before[k - 1] == t);
                    }
                    assert(now[0] == text);
                }
            }
        }
    }
}

/// The cache keeps the most recent texts, as many as it has room for, in the order of their use.
pub proof fn the_cache_keeps_the_most_recent_texts(cap: nat, items: Seq<ItemView>)
    requires
        cap > 0,
    ensures
        keys(with_items(cap, items)) == top(recent(items), cap),
    decreases items.len(),
{
    if items.len() == 0 {
        assert(keys(with_items(cap, items)) =~= top(recent(items), cap));
    } else {
        let less = items.drop_last();
        let before = recent(less);
        let text = items.last().contents;
        let entries = with_items(cap, less);
        let now = with_items(cap, items);
        the_cache_keeps_the_most_recent_texts(cap, less);
        recent_texts_are_all_texts(less);
        assert(keys(entries).len() == entries.len());
        if text.len() > 0 {
            if holds(entries, text) {
                let p = position(entries, text);
                assert(has_key(entries, text, p));
                assert(keys(entries)[p] == text);
                assert(before[p] == text);
                assert(before.contains(text));
                let q = before.index_of(text);
                assert(0 <= q < before.len() && before[q] == text);
                assert(p == q);
                assert(keys(now) =~= seq![text] + keys(entries).remove(p));
                assert(recent(items) == seq![text] + before.remove(p));
                assert(keys(now) =~= top(recent(items), cap));
            } else {
                if before.contains(text) {
                    let q = before.index_of(text);
                    assert(0 <= q < before.len() && before[q] == text);
                    if q < entries.len() {
                        assert(keys(entries)[q] == text);
                        assert(has_key(entries, text, q));
                    }
                }
                if entries.len() == cap {
                    assert(keys(now) =~= seq![text] + keys(entries).drop_last());
                } else {
                    assert(keys(now) =~= seq![text] + keys(entries));
                }
                assert(keys(now) =~= top(recent(items), cap));
            }
        }
    }
}

/// With more items there are no fewer recent texts.
proof fn lemma_recent_grows(items: Seq<ItemView>)
    requires
        items.len() > 0,
    ensures
        recent(items.drop_last()).len() <= recent(items).len(),
{
    let before = recent(items.drop_last());
    let text = items.last().contents;
    if before.contains(text) {
        let q = before.index_of(text);
        assert(0 <= q < before.len() && before[q] == text);
    }
}

/// As long as there is room for all texts, each has its latest time.
pub proof fn the_cache_keeps_the_latest_times(cap: nat, items: Seq<ItemView>)
    requires
        cap > 0,
        recent(items).len() <= cap,
    ensures
        forall|i: int|
            0 <= i < with_items(cap, items).len() ==> (#[trigger] with_items(cap, items)[i]).1
                == latest(items, with_items(cap, items)[i].0),
    decreases items.len(),
{
    if items.len() > 0 {
        let less = items.drop_last();
        let text = items.last().contents;
        let entries = with_items(cap, less);
        let now = with_items(cap, items);
        lemma_recent_grows(items);
        the_cache_keeps_the_latest_times(cap, less);
        the_cache_keeps_the_most_recent_texts(cap, less);
        the_cache_keeps_the_most_recent_texts(cap, items);
        recent_texts_are_all_texts(less);
        recent_texts_are_all_texts(items);
        assert(keys(entries) == recent(less));
        assert(keys(now) == recent(items));
        assert(keys(now).len() == now.len());
        assert(keys(entries).len() == entries.len());
        assert forall|i: int| 0 <= i < now.len() implies (#[trigger] now[i]).1 == latest(
            items,
            now[i].0,
        ) by {
            assert(keys(now)[i] == now[i].0);
            assert(recent(items).contains(now[i].0));
            if text.len() > 0 {
                if holds(entries, text) {
                    let p = position(entries, text);
                    assert(has_key(entries, text, p));
                    assert(keys(entries)[p] == text);
                    assert(recent(less).contains(text));
                    if i > 0 {
                        assert(keys(now)[0] == text);
                        assert(now[i].0 != text);
                    }
                } else {
                    if has_text(less, text) {
                        assert(recent(less).contains(text));
                        let k = choose|k: int| 0 <= k < recent(less).len() && recent(less)[k] == text;
                        assert(keys(entries)[k] == text);
                        assert(has_key(entries, text, k));
                    }
                    if i > 0 {
                        assert(keys(now)[0] == text);
                        assert(now[i].0 != text);
                        if entries.len() == cap {
                            assert(recent(items).len() == recent(less).len() + 1);
                        }
                        assert(now[i] == entries[i - 1]);
                    }
                }
            }
        }
    }
}

/// What the cache holds has no text twice, no empty text, and no more items than there is room for.
pub proof fn kept_items_are_distinct(cap: nat, items: Seq<ItemView>)
    requires
        cap > 0,
    ensures
        texts_differ(oldest_first(with_items(cap, items))),
        oldest_first(with_items(cap, items)).len() <= cap,
        forall|text: Seq<char>| #[trigger]
            has_text(oldest_first(with_items(cap, items)), text) <==> top(
                recent(items),
                cap,
            ).contains(text),
{
    let entries = with_items(cap, items);
    let list = oldest_first(entries);
    let kept = top(recent(items), cap);
    the_cache_keeps_the_most_recent_texts(cap, items);
    recent_texts_are_all_texts(items);
    assert(keys(entries).len() == entries.len());
    assert forall|i: int| 0 <= i < list.len() implies (#[trigger] list[i]).contents == kept[list.len()
        - 1 - i] by {
        assert(keys(entries)[list.len() - 1 - i] == list[i].contents);
    }
    assert forall|text: Seq<char>| #[trigger] has_text(list, text) <==> kept.contains(text) by {
        if has_text(list, text) {
            let i = choose|i: int| 0 <= i < list.len() && #[trigger] list[i].contents == text;
            assert(kept[list.len() - 1 - i] == text);
        }
        if kept.contains(text) {
            let i = choose|i: int| 0 <= i < kept.len() && kept[i] == text;
            assert(list[list.len() - 1 - i].contents == text);
        }
    }
}

} // verus!
