//! The cache through which history items pass when the history file is rewritten: it keeps the most
//! recently used items, each text once.
use crate::api::{item_views, HistoryItem, ItemView};
use crate::timestamp::Timestamp;
use lru::LruCache;
use std::num::NonZeroUsize;
use vstd::prelude::*;

verus! {

/// `lru::LruCache`: a map that keeps its entries in the order of their use, up to a capacity.
#[verifier::external_type_specification]
#[verifier::external_body]
#[verifier::reject_recursive_types(K)]
#[verifier::reject_recursive_types(V)]
#[verifier::reject_recursive_types(S)]
pub struct ExLruCache<K, V, S>(lru::LruCache<K, V, S>);

/// `lru::DefaultHasher`: what an `LruCache` hashes its keys with. The order of use does not depend on
/// it.
#[verifier::external_type_specification]
#[verifier::external_body]
pub struct ExDefaultHasher(lru::DefaultHasher);

/// The entries of a cache from texts to times in nanoseconds, the most recently used first.
pub uninterp spec fn lru_entries(cache: LruCache<String, i128>) -> Seq<(Seq<char>, i128)>;

/// How many entries a cache holds at most.
pub uninterp spec fn lru_cap(cache: LruCache<String, i128>) -> nat;

/// The entry at `i` has the key `key`.
pub open spec fn has_key(entries: Seq<(Seq<char>, i128)>, key: Seq<char>, i: int) -> bool {
    0 <= i < entries.len() && entries[i].0 == key
}

/// Some entry has the key `key`.
pub open spec fn holds(entries: Seq<(Seq<char>, i128)>, key: Seq<char>) -> bool {
    exists|i: int| has_key(entries, key, i)
}

/// Where the entry with the key `key` stands.
pub open spec fn position(entries: Seq<(Seq<char>, i128)>, key: Seq<char>) -> int {
    choose|i: int| has_key(entries, key, i)
}

/// The entry with the key `key` has moved to the front, and has the value `value`.
pub open spec fn promoted(
    entries: Seq<(Seq<char>, i128)>,
    key: Seq<char>,
    value: i128,
) -> Seq<(Seq<char>, i128)> {
    seq![(key, value)] + entries.remove(position(entries, key))
}

/// A new entry stands at the front; if there was no room, the least recently used one has gone.
pub open spec fn put_new(
    entries: Seq<(Seq<char>, i128)>,
    cap: nat,
    key: Seq<char>,
    value: i128,
) -> Seq<(Seq<char>, i128)> {
    if entries.len() == cap {
        seq![(key, value)] + entries.drop_last()
    } else {
        seq![(key, value)] + entries
    }
}

/// Calls `LruCache::new`: the cache is empty and has the given capacity. The capacity is not zero,
/// and small enough for the map inside to be allocated at once.
#[verifier::external_body]
pub(crate) fn lru_new(cap: usize) -> (cache: LruCache<String, i128>)
    requires
        0 < cap <= 0x10_0000,
    ensures
        lru_entries(cache) == Seq::<(Seq<char>, i128)>::empty(),
        lru_cap(cache) == cap,
{
    LruCache::new(NonZeroUsize::new(cap).unwrap())
}

/// Calls `LruCache::get_mut`: where there is an entry with that key, it moves to the front and its
/// value can be changed through the result; otherwise nothing happens.
#[verifier::external_body]
fn lru_get_mut<'a>(cache: &'a mut LruCache<String, i128>, key: &str) -> (out: Option<&'a mut i128>)
    ensures
        lru_cap(*final(cache)) == lru_cap(*old(cache)),
        out is Some == holds(lru_entries(*old(cache)), key@),
        match out {
            Some(value) => {
                &&& *value == lru_entries(*old(cache))[position(lru_entries(*old(cache)), key@)].1
                &&& lru_entries(*final(cache)) == promoted(
                    lru_entries(*old(cache)),
                    key@,
                    *final(value),
                )
            },
            None => lru_entries(*final(cache)) == lru_entries(*old(cache)),
        },
{
    cache.get_mut(key)
}

/// Calls `LruCache::put`: an entry with that key moves to the front with the new value; without one, a
/// new entry goes to the front, and in a full cache the least recently used one goes. The old value
/// of the key is handed back.
#[verifier::external_body]
fn lru_put(cache: &mut LruCache<String, i128>, key: String, value: i128) -> (out: Option<i128>)
    ensures
        lru_cap(*final(cache)) == lru_cap(*old(cache)),
        out is Some == holds(lru_entries(*old(cache)), key@),
        out is Some ==> out->0 == lru_entries(*old(cache))[position(
            lru_entries(*old(cache)),
            key@,
        )].1,
        lru_entries(*final(cache)) == if holds(lru_entries(*old(cache)), key@) {
            promoted(lru_entries(*old(cache)), key@, value)
        } else {
            put_new(lru_entries(*old(cache)), lru_cap(*old(cache)), key@, value)
        },
{
    cache.put(key, value)
}

/// Calls `LruCache::into_iter` and collects what it yields: all entries, the least recently used
/// first.
#[verifier::external_body]
fn lru_into_entries(cache: LruCache<String, i128>) -> (out: Vec<(String, i128)>)
    ensures
        out@.len() == lru_entries(cache).len(),
        forall|i: int|
            #![trigger out@[i]]
            0 <= i < out@.len() ==> (out@[i].0@, out@[i].1) == lru_entries(cache)[out@.len() - 1
                - i],
{
    cache.into_iter().collect()
}

/// What becomes of the entries of a cache when an item is added. An item without text is skipped. A
/// text that is there already is promoted, and has the later of the two times.
pub open spec fn with_item(
    entries: Seq<(Seq<char>, i128)>,
    cap: nat,
    item: ItemView,
) -> Seq<(Seq<char>, i128)> {
    let nanos = item.creation_timestamp.nanos;
    if item.contents.len() == 0 {
        entries
    } else if holds(entries, item.contents) {
        let had = entries[position(entries, item.contents)].1;
        promoted(
            entries,
            item.contents,
            if had < nanos {
                nanos
            } else {
                had
            },
        )
    } else {
        put_new(entries, cap, item.contents, nanos)
    }
}

/// What a cache of the given capacity holds once all of `items` were added, one after the other.
pub open spec fn with_items(cap: nat, items: Seq<ItemView>) -> Seq<(Seq<char>, i128)>
    decreases items.len(),
{
    if items.len() == 0 {
        Seq::empty()
    } else {
        with_item(with_items(cap, items.drop_last()), cap, items.last())
    }
}

pub trait LruCacheExt {
    /// Function to add a history item.
    fn add_item(&mut self, item: HistoryItem);
}

impl LruCacheExt for LruCache<String, i128> {
    fn add_item(&mut self, item: HistoryItem)
        ensures
            lru_cap(*final(self)) == lru_cap(*old(self)),
            lru_entries(*final(self)) == with_item(
                lru_entries(*old(self)),
                lru_cap(*old(self)),
                item@,
            ),
    {
        // Skip empty items.
        if item.is_empty() {
            return;
        }

        // See if it's in the cache. If it is, update the timestamp. If not, we create a new node
        // and add it. Note that looking it up promotes the node to the front.
        let nanos = item.get_timestamp().nanos;
        if let Some(value) = lru_get_mut(self, item.str()) {
            if *value < nanos {
                *value = nanos;
            }
            return;
        }
        lru_put(self, item.into_str(), nanos);
    }
}

/// The items that the entries stand for, the least recently used first.
pub open spec fn oldest_first(entries: Seq<(Seq<char>, i128)>) -> Seq<ItemView> {
    Seq::new(
        entries.len(),
        |i: int|
            ItemView {
                contents: entries[entries.len() - 1 - i].0,
                creation_timestamp: Timestamp { nanos: entries[entries.len() - 1 - i].1 },
            },
    )
}

/// Takes the items out of a cache, the least recently used first.
pub fn into_items(cache: LruCache<String, i128>) -> (items: Vec<HistoryItem>)
    ensures
        item_views(items@) == oldest_first(lru_entries(cache)),
{
    let entries = lru_into_entries(cache);
    let mut items: Vec<HistoryItem> = Vec::new();
    for entry in it: entries
        invariant
            it.seq() == entries@,
            items@.len() == it.index(),
            forall|i: int|
                #![trigger items@[i]]
                0 <= i < items@.len() ==> items@[i]@ == (ItemView {
                    contents: entries@[i].0@,
                    creation_timestamp: Timestamp { nanos: entries@[i].1 },
                }),
    {
        let (text, nanos) = entry;
        items.push(HistoryItem::new(text, Timestamp { nanos }));
    }
    assert(item_views(items@) =~= oldest_first(lru_entries(cache))) by {
        assert forall|i: int| 0 <= i < items@.len() implies item_views(items@)[i] == oldest_first(
            lru_entries(cache),
        )[i] by {
            let _ = items@[i];
            let _ = entries@[i];
        }
    }
    items
}

} // verus!
