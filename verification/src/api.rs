//! The interface between the shell's history and whatever keeps the shared part of it.
use crate::timestamp::Timestamp;
use vstd::prelude::*;

verus! {

/// A command line history entry plus metadata.
#[derive(Debug, PartialEq, Eq)]
pub struct HistoryItem {
    /// The actual contents of the entry.
    contents: String,
    /// Original creation time for the entry.
    creation_timestamp: Timestamp,
}

/// What an entry says: its text, and when it was created.
#[verifier::ext_equal]
pub struct ItemView {
    pub contents: Seq<char>,
    pub creation_timestamp: Timestamp,
}

impl View for HistoryItem {
    type V = ItemView;

    closed spec fn view(&self) -> ItemView {
        ItemView { contents: self.contents@, creation_timestamp: self.creation_timestamp }
    }
}

/// What each entry of a list says.
pub open spec fn item_views(items: Seq<HistoryItem>) -> Seq<ItemView> {
    items.map_values(|item: HistoryItem| item@)
}

impl Clone for HistoryItem {
    fn clone(&self) -> (copy: Self)
        ensures
            copy == *self,
    {
        HistoryItem { contents: self.contents.clone(), creation_timestamp: self.creation_timestamp }
    }
}

impl HistoryItem {
    pub fn new(s: String, when: Timestamp) -> (item: Self)
        ensures
            item@ == (ItemView { contents: s@, creation_timestamp: when }),
    {
        HistoryItem { contents: s, creation_timestamp: when }
    }

    /// Returns the text as a string.
    pub fn str(&self) -> (s: &str)
        ensures
            s@ == self@.contents,
    {
        self.contents.as_str()
    }

    pub fn into_str(self) -> (s: String)
        ensures
            s@ == self@.contents,
    {
        self.contents
    }

    /// Returns whether the text is empty.
    pub fn is_empty(&self) -> (empty: bool)
        ensures
            empty == (self@.contents.len() == 0),
    {
        self.contents.as_str().is_empty()
    }

    /// Returns the timestamp for creating this history item.
    pub fn get_timestamp(&self) -> (time: Timestamp)
        ensures
            time == self@.creation_timestamp,
    {
        self.creation_timestamp
    }

    pub fn set_timestamp(&mut self, timestamp: Timestamp)
        ensures
            final(self)@ == (ItemView { creation_timestamp: timestamp, ..old(self)@ }),
    {
        self.creation_timestamp = timestamp;
    }

    /// We can merge two items if they are the same command simply by taking the maximum of their
    /// timestamps. Returns false if the items were not merged.
    pub fn merge(&mut self, item: &HistoryItem) -> (merged: bool)
        ensures
            merged == (old(self)@.contents == item@.contents),
            !merged ==> *final(self) == *old(self),
            merged ==> final(self)@ == merged_view(old(self)@, item@),
    {
        if self.contents != item.contents {
            false
        } else {
            self.creation_timestamp = self.creation_timestamp.later(item.creation_timestamp);
            true
        }
    }
}

/// The entry that two entries with one text become: the text, with the later of the two times.
pub open spec fn merged_view(a: ItemView, b: ItemView) -> ItemView {
    ItemView {
        contents: a.contents,
        creation_timestamp: a.creation_timestamp.spec_later(b.creation_timestamp),
    }
}

/// Which of two entries with one text takes the other in makes no difference.
pub proof fn merging_is_symmetric(a: ItemView, b: ItemView)
    requires
        a.contents == b.contents,
    ensures
        merged_view(a, b) == merged_view(b, a),
{
}

/// An entry that has taken another one in is not changed by taking it in again.
pub proof fn merging_again_changes_nothing(a: ItemView, b: ItemView)
    ensures
        merged_view(merged_view(a, b), b) == merged_view(a, b),
{
}

/// A history provider: it keeps the history that shells share.
///
/// A provider is free in what it answers and in what becomes of it. Each operation has a relation
/// between the provider before, what went in and came out, and the provider after; contracts of
/// callers say by these relations which operations ran, on what, and in which order. A provider that
/// is shared between shells does its own locking.
pub trait HistoryProvider: Send + Sync {
    /// The name of the history.
    open spec fn spec_name(&self) -> Seq<char> {
        arbitrary()
    }

    /// `item_at_index` gave `out`.
    open spec fn item_read(
        before: &Self,
        idx: usize,
        out: Option<HistoryItem>,
        after: &Self,
    ) -> bool {
        true
    }

    /// `get_history` gave `out`.
    open spec fn history_read(before: &Self, out: Seq<HistoryItem>, after: &Self) -> bool {
        true
    }

    /// `add` took `item`.
    open spec fn item_added(before: &Self, item: HistoryItem, after: &Self) -> bool {
        true
    }

    /// `remove` was asked to forget `text`.
    open spec fn text_removed(before: &Self, text: Seq<char>, after: &Self) -> bool {
        true
    }

    /// `clear` ran.
    open spec fn cleared(before: &Self, after: &Self) -> bool {
        true
    }

    /// `size` gave `out`.
    open spec fn size_read(before: &Self, out: u64, after: &Self) -> bool {
        true
    }

    /// `is_empty` gave `out`.
    open spec fn emptiness_read(before: &Self, out: bool, after: &Self) -> bool {
        true
    }

    /// `save` ran.
    open spec fn saved(before: &Self, after: &Self) -> bool {
        true
    }

    fn name(&self) -> (s: &str)
        ensures
            s@ == self.spec_name(),
    ;

    /// Returns the entry at the given index; the most recent one is at index 1.
    fn item_at_index(&mut self, idx: usize) -> (out: Option<HistoryItem>)
        ensures
            Self::item_read(old(self), idx, out, final(self)),
    ;

    /// Returns all entries, the most recent first. Where nothing better is at hand,
    /// [`get_history_by_index`] does it.
    fn get_history(&mut self) -> (out: Vec<HistoryItem>)
        ensures
            Self::history_read(old(self), out@, final(self)),
    ;

    fn add(&mut self, item: HistoryItem)
        ensures
            Self::item_added(old(self), item, final(self)),
    ;

    fn remove(&mut self, s: &str)
        ensures
            Self::text_removed(old(self), s@, final(self)),
    ;

    fn clear(&mut self)
        ensures
            Self::cleared(old(self), final(self)),
    ;

    /// Returns the number of entries that `item_at_index` can give.
    fn size(&mut self) -> (out: u64)
        ensures
            Self::size_read(old(self), out, final(self)),
    ;

    /// Returns whether there is no history at all, which may differ from a size of zero. Where it does
    /// not, [`is_empty_by_size`] does it.
    fn is_empty(&mut self) -> (out: bool)
        ensures
            Self::emptiness_read(old(self), out, final(self)),
    ;

    fn save(&mut self)
        ensures
            Self::saved(old(self), final(self)),
    ;
}

/// Asking the provider for index `idx`, then for the next, and so on until it has nothing, gave `out`.
pub open spec fn read_from_index<P: HistoryProvider>(
    before: &P,
    idx: int,
    out: Seq<HistoryItem>,
    after: &P,
) -> bool
    decreases out.len(),
{
    if idx > usize::MAX {
        out.len() == 0 && *after == *before
    } else if out.len() == 0 {
        P::item_read(before, idx as usize, None, after)
    } else {
        exists|mid: &P| #[trigger]
            P::item_read(before, idx as usize, Some(out[0]), mid) && read_from_index(
                mid,
                idx + 1,
                out.drop_first(),
                after,
            )
    }
}

/// Reads all entries of a provider one by one, starting at index 1, until there are no more.
pub fn get_history_by_index<P: HistoryProvider>(provider: &mut P) -> (out: Vec<HistoryItem>)
    ensures
        read_from_index(old(provider), 1, out@, final(provider)),
{
    let mut result: Vec<HistoryItem> = Vec::new();
    let mut idx: usize = 1;
    let ghost start = *provider;
    assert forall|rest: Seq<HistoryItem>, after: &P| #[trigger]
        read_from_index(provider, 1, rest, after) implies read_from_index(
        &start,
        1,
        result@ + rest,
        after,
    ) by {
        assert(result@ + rest =~= rest);
    }
    loop
        invariant
            start == *old(provider),
            1 <= idx,
            forall|rest: Seq<HistoryItem>, after: &P| #[trigger]
                read_from_index(provider, idx as int, rest, after) ==> read_from_index(
                    &start,
                    1,
                    result@ + rest,
                    after,
                ),
        decreases usize::MAX - idx,
    {
        let ghost before = *provider;
        let ghost so_far = result@;
        match provider.item_at_index(idx) {
            None => {
                assert(read_from_index(&before, idx as int, Seq::empty(), provider));
                assert(result@ + Seq::<HistoryItem>::empty() =~= result@);
                return result;
            },
            Some(item) => {
                result.push(item);
                assert forall|rest: Seq<HistoryItem>, after: &P| #[trigger]
                    read_from_index(provider, idx + 1, rest, after) implies read_from_index(
                    &start,
                    1,
                    result@ + rest,
                    after,
                ) by {
                    let all = seq![item] + rest;
                    assert(all.drop_first() =~= rest);
                    assert(P::item_read(&before, (idx as int) as usize, Some(all[0]), provider));
                    assert(read_from_index(provider, idx + 1, all.drop_first(), after));
                    assert(read_from_index(&before, idx as int, all, after));
                    assert(so_far + all =~= result@ + rest);
                }
                if idx == usize::MAX {
                    assert(read_from_index(provider, idx + 1, Seq::empty(), provider));
                    assert(result@ + Seq::<HistoryItem>::empty() =~= result@);
                    return result;
                }
                idx = idx + 1;
            },
        }
    }
}

/// Reading the entry at `idx` took what was read from `known` to `out`. Once there was no entry, nothing more
/// is read.
pub open spec fn next_read<P: HistoryProvider>(
    before: &P,
    idx: nat,
    known: Seq<HistoryItem>,
    out: Seq<HistoryItem>,
    after: &P,
) -> bool {
    if known.len() + 1 < idx {
        out == known && *after == *before
    } else {
        ||| P::item_read(before, idx as usize, None, after) && out == known
        ||| out.len() == known.len() + 1 && out.drop_last() == known && P::item_read(
            before,
            idx as usize,
            Some(out.last()),
            after,
        )
    }
}

/// Asking the provider for index 1, then for the next, and so on up to `n` or until it has nothing, gave
/// `out`.
pub open spec fn reads_up_to<P: HistoryProvider>(
    before: &P,
    n: nat,
    out: Seq<HistoryItem>,
    after: &P,
) -> bool
    decreases n,
{
    if n == 0 {
        out.len() == 0 && *after == *before
    } else {
        exists|known: Seq<HistoryItem>, mid: &P|
            reads_up_to(before, (n - 1) as nat, known, mid) && #[trigger] next_read(
                mid,
                n,
                known,
                out,
                after,
            )
    }
}

/// When there was no entry, reading further changes nothing.
proof fn lemma_reads_ended<P: HistoryProvider>(
    before: &P,
    k: nat,
    n: nat,
    out: Seq<HistoryItem>,
    after: &P,
)
    requires
        reads_up_to(before, k, out, after),
        out.len() < k <= n,
    ensures
        reads_up_to(before, n, out, after),
    decreases n,
{
    if k < n {
        lemma_reads_ended(before, k, (n - 1) as nat, out, after);
        assert(next_read(after, n, out, out, after));
    }
}

/// Reads the first `n` entries of a provider, or all if there are fewer, one by one.
pub fn get_history_up_to<P: HistoryProvider>(provider: &mut P, n: usize) -> (out: Vec<HistoryItem>)
    ensures
        reads_up_to(old(provider), n as nat, out@, final(provider)),
{
    let mut result: Vec<HistoryItem> = Vec::new();
    let ghost start = *provider;
    assert(reads_up_to(&start, 0, result@, provider));
    let mut idx: usize = 0;
    while idx < n
        invariant
            start == *old(provider),
            idx <= n,
            result@.len() == idx,
            reads_up_to(&start, idx as nat, result@, provider),
        decreases n - idx,
    {
        let ghost mid = *provider;
        let ghost known = result@;
        idx = idx + 1;
        match provider.item_at_index(idx) {
            None => {
                assert(next_read(&mid, idx as nat, known, known, provider));
                assert(reads_up_to(&start, idx as nat, known, provider));
                proof {
                    lemma_reads_ended(&start, idx as nat, n as nat, known, provider);
                }
                return result;
            },
            Some(item) => {
                result.push(item);
                assert(result@.drop_last() =~= known);
                assert(next_read(&mid, idx as nat, known, result@, provider));
            },
        }
    }
    result
}

/// Takes a provider for empty when its size is zero.
pub fn is_empty_by_size<P: HistoryProvider>(provider: &mut P) -> (out: bool)
    ensures
        exists|n: u64| #[trigger] P::size_read(old(provider), n, final(provider)) && out == (n == 0),
{
    provider.size() == 0
}

/// Two merged entries have the text of the first, and one of their times, which is no earlier than the other.
pub proof fn a_merged_entry_has_the_later_time(a: ItemView, b: ItemView)
    ensures
        merged_view(a, b).contents == a.contents,
        merged_view(a, b).creation_timestamp.nanos >= a.creation_timestamp.nanos,
        merged_view(a, b).creation_timestamp.nanos >= b.creation_timestamp.nanos,
        merged_view(a, b).creation_timestamp == a.creation_timestamp || merged_view(
            a,
            b,
        ).creation_timestamp == b.creation_timestamp,
{
}

} // verus!
