//! A history with a local and a shared part.
use crate::api::{self, get_history_up_to, reads_up_to, HistoryProvider, ItemView};
use crate::commands::{detection_is_stopped, find_potential_paths, potential_paths, NodeKind};
use crate::history_laws::the_first_text_is_listed_first;
use crate::item::{
    local_mergeable, merged_local_view, HistoryItem, LocalHistoryItem, PersistenceMode,
};
use crate::path_utils::DetectedPaths;
use crate::required_paths_cache::{self, RequiredPathsCache};
use crate::session::DFLT_FISH_HISTORY_SESSION_ID;
use crate::text::texts;
use crate::timestamp::Timestamp;
use std::collections::HashMap;
use vstd::hash_set::StringHashSet;
use vstd::prelude::*;
use vstd::string::*;

verus! {

/// A history containing local and shared history items.
/// The shared history is provided by a [`HistoryProvider`].
pub struct History<P: HistoryProvider> {
    /// Local list of history items, each with its persistence mode.
    local: Vec<LocalHistoryItem>,
    /// The shared history provider.
    provider: P,
}

/// An entry of the shared part, if there is one.
pub open spec fn shared_item(item: Option<api::HistoryItem>) -> Option<HistoryItem> {
    match item {
        Some(item) => Some(HistoryItem::SharedHistoryItem(item)),
        None => None,
    }
}

/// `item_at_index` gave `out`: nothing at index 0, then the local items from the last to the first, and
/// behind them what the provider gave.
pub open spec fn item_read<P: HistoryProvider>(
    before: History<P>,
    idx: int,
    out: Option<HistoryItem>,
    after: History<P>,
) -> bool {
    let local = before.local_items();
    if idx <= 0 {
        out is None && after == before
    } else if idx <= local.len() {
        out == Some(HistoryItem::LocalHistoryItem(local[local.len() - idx])) && after == before
    } else {
        &&& after.local_items() == local
        &&& exists|shared: Option<api::HistoryItem>| #[trigger]
            P::item_read(
                &before.shared(),
                (idx - local.len()) as usize,
                shared,
                &after.shared(),
            ) && out == shared_item(shared)
    }
}

/// `size` gave `out`: the local items and as many as the provider said, where that is a number.
pub open spec fn size_read<P: HistoryProvider>(
    before: History<P>,
    out: Option<usize>,
    after: History<P>,
) -> bool {
    &&& after.local_items() == before.local_items()
    &&& exists|shared: u64| #[trigger]
        P::size_read(&before.shared(), shared, &after.shared()) && {
            let size = before.local_items().len() + shared;
            out == if size <= usize::MAX {
                Some(size as usize)
            } else {
                None
            }
        }
}

/// The texts in order, each where it comes first.
pub open spec fn keep_first(list: Seq<Seq<char>>) -> Seq<Seq<char>>
    decreases list.len(),
{
    if list.len() == 0 {
        Seq::empty()
    } else if list.drop_last().contains(list.last()) {
        keep_first(list.drop_last())
    } else {
        keep_first(list.drop_last()).push(list.last())
    }
}

/// The texts of local items, the last one first.
pub open spec fn local_texts(local: Seq<LocalHistoryItem>) -> Seq<Seq<char>> {
    Seq::new(local.len(), |i: int| local[local.len() - 1 - i]@.contents)
}

/// The texts of shared items.
pub open spec fn shared_texts(shared: Seq<api::HistoryItem>) -> Seq<Seq<char>> {
    shared.map_values(|item: api::HistoryItem| item@.contents)
}

/// Of the newest local and the newest shared item, the shared one is next: its time is later, or it is the
/// only one.
pub open spec fn shared_is_next(
    local: Seq<LocalHistoryItem>,
    shared: Seq<api::HistoryItem>,
) -> bool {
    shared.len() > 0 && (local.len() == 0 || shared[0]@.creation_timestamp.nanos
        > local.last()@.creation_timestamp.nanos)
}

/// Local items, of which the last is the newest, and shared items, of which the first is the newest, in one
/// list, the newest first.
pub open spec fn newest_first(
    local: Seq<LocalHistoryItem>,
    shared: Seq<api::HistoryItem>,
) -> Seq<HistoryItem>
    decreases local.len() + shared.len(),
{
    if shared_is_next(local, shared) {
        seq![HistoryItem::SharedHistoryItem(shared[0])] + newest_first(local, shared.drop_first())
    } else if local.len() > 0 {
        seq![HistoryItem::LocalHistoryItem(local.last())] + newest_first(local.drop_last(), shared)
    } else {
        Seq::empty()
    }
}

/// The text of an entry of the shared part, empty if there is none.
pub open spec fn shared_text(item: Option<api::HistoryItem>) -> Seq<char> {
    match item {
        Some(item) => item@.contents,
        None => Seq::empty(),
    }
}

/// The texts in a map of strings.
pub open spec fn text_values(map: Map<usize, String>) -> Map<usize, Seq<char>> {
    map.map_values(|text: String| text@)
}

/// Answering the index `idx` took the answers from `known` to `out`. Zero is skipped, and so is what was
/// answered before. Behind `items`, the provider is asked: all `local` local items come before that.
pub open spec fn index_answered<P: HistoryProvider>(
    before: P,
    items: Seq<HistoryItem>,
    local: nat,
    known: Map<usize, Seq<char>>,
    idx: usize,
    out: Map<usize, Seq<char>>,
    after: P,
) -> bool {
    if idx == 0 || known.contains_key(idx) {
        out == known && after == before
    } else if idx <= items.len() {
        out == known.insert(idx, items[idx - 1].text()) && after == before
    } else {
        exists|item: Option<api::HistoryItem>| #[trigger]
            P::item_read(&before, (idx - local) as usize, item, &after) && out == known.insert(
                idx,
                shared_text(item),
            )
    }
}

/// Answering the indexes, one after the other, gave `out`.
pub open spec fn indexes_answered<P: HistoryProvider>(
    before: P,
    items: Seq<HistoryItem>,
    local: nat,
    indexes: Seq<usize>,
    out: Map<usize, Seq<char>>,
    after: P,
) -> bool
    decreases indexes.len(),
{
    if indexes.len() == 0 {
        out == Map::<usize, Seq<char>>::empty() && after == before
    } else {
        exists|known: Map<usize, Seq<char>>, mid: P|
            indexes_answered(before, items, local, indexes.drop_last(), known, mid)
                && #[trigger] index_answered(
                mid,
                items,
                local,
                known,
                indexes.last(),
                out,
                after,
            )
    }
}

/// Items at one-based indexes are asked for: the provider reads its items `shared`, and with them and the
/// local ones the indexes are answered.
pub open spec fn indexes_read<P: HistoryProvider>(
    before: History<P>,
    indexes: Seq<usize>,
    shared: Seq<api::HistoryItem>,
    out: Map<usize, Seq<char>>,
    after: History<P>,
) -> bool {
    &&& after.local_items() == before.local_items()
    &&& exists|mid: P|
        reads_up_to(&before.shared(), greatest(indexes) as nat, shared, &mid)
            && #[trigger] indexes_answered(
            mid,
            newest_first(before.local_items(), shared),
            before.local_items().len(),
            indexes,
            out,
            after.shared(),
        )
}

/// The greatest of the indexes, or zero.
pub open spec fn greatest(indexes: Seq<usize>) -> usize
    decreases indexes.len(),
{
    if indexes.len() == 0 {
        0
    } else {
        let before = greatest(indexes.drop_last());
        if indexes.last() > before {
            indexes.last()
        } else {
            before
        }
    }
}

/// The local items without those that have the text `text`, in order.
pub open spec fn local_without(items: Seq<LocalHistoryItem>, text: Seq<char>) -> Seq<
    LocalHistoryItem,
>
    decreases items.len(),
{
    if items.len() == 0 {
        Seq::empty()
    } else if items.last()@.contents == text {
        local_without(items.drop_last(), text)
    } else {
        local_without(items.drop_last(), text).push(items.last())
    }
}

/// The local items without the ephemeral ones at the end.
pub open spec fn without_ephemeral_tail(items: Seq<LocalHistoryItem>) -> Seq<LocalHistoryItem>
    decreases items.len(),
{
    if items.len() > 0 && items.last()@.persist_mode == PersistenceMode::Ephemeral {
        without_ephemeral_tail(items.drop_last())
    } else {
        items
    }
}

/// A list of paths.
pub type PathList = Vec<String>;

/// A command whose arguments may be paths of files.
#[derive(Debug, PartialEq, Eq)]
pub struct FileDetection {
    pub command: String,
    pub potential_paths: PathList,
}

/// File detection for `command` is `detection`: there is none if it is stopped, nor without arguments that
/// could be paths.
pub open spec fn is_file_detection(
    command: Seq<char>,
    nodes: Seq<NodeKind>,
    detection: Option<FileDetection>,
) -> bool {
    if detection_is_stopped(nodes) || potential_paths(nodes).len() == 0 {
        detection is None
    } else {
        &&& detection is Some
        &&& detection->0.command@ == command
        &&& texts(detection->0.potential_paths@) == potential_paths(nodes)
    }
}

/// What beginning file detection did to the provider: it was saved if file detection is stopped.
pub open spec fn detection_begun<P: HistoryProvider>(
    before: P,
    nodes: Seq<NodeKind>,
    after: P,
) -> bool {
    if detection_is_stopped(nodes) {
        P::saved(&before, &after)
    } else {
        after == before
    }
}

/// The provider was asked to add an item with the given text and time.
pub open spec fn shared_added<P: HistoryProvider>(before: P, item: ItemView, after: P) -> bool {
    exists|added: api::HistoryItem| added@ == item && #[trigger] P::item_added(&before, added, &after)
}

/// A local item is merged with the last one.
pub open spec fn merges_with_last(
    local: Seq<LocalHistoryItem>,
    item: LocalHistoryItem,
) -> bool {
    local.len() > 0 && local_mergeable(local.last()@, item@)
}

/// Adding `item` made `after` of the local items `before`. An empty one is not added, one like the last is
/// merged with it, and any other takes the place of the ephemeral items at the end.
pub open spec fn local_added(
    before: Seq<LocalHistoryItem>,
    item: LocalHistoryItem,
    after: Seq<LocalHistoryItem>,
) -> bool {
    if item@.contents.len() == 0 {
        after == before
    } else if merges_with_last(before, item) {
        &&& after.len() == before.len()
        &&& after.drop_last() == before.drop_last()
        &&& after.last()@ == merged_local_view(before.last()@, item@)
    } else {
        after == without_ephemeral_tail(before).push(item)
    }
}

/// File detection is begun for a local item: for one that is new and not ephemeral.
pub open spec fn detects_files_for(local: Seq<LocalHistoryItem>, item: LocalHistoryItem) -> bool {
    item@.contents.len() > 0 && !merges_with_last(local, item) && item@.persist_mode
        != PersistenceMode::Ephemeral
}

impl<P: HistoryProvider> History<P> {
    /// The local items, in the order in which they were added.
    pub closed spec fn local_items(self) -> Seq<LocalHistoryItem> {
        self.local@
    }

    /// The provider of the shared history.
    pub closed spec fn shared(self) -> P {
        self.provider
    }

    pub fn new(provider: P) -> (history: Self)
        ensures
            history.local_items() == Seq::<LocalHistoryItem>::empty(),
            history.shared() == provider,
    {
        History { local: Vec::new(), provider }
    }

    pub fn name(&self) -> (s: &str)
        ensures
            s@ == self.shared().spec_name(),
    {
        self.provider.name()
    }

    /// Returns the entry at the given index. The local entries come first, from the last to the first, and
    /// behind them the shared ones; there is none at index 0.
    pub fn item_at_index(&mut self, idx: usize) -> (out: Option<HistoryItem>)
        ensures
            item_read(*old(self), idx as int, out, *final(self)),
    {
        if idx == 0 {
            return None;
        }
        let len: usize = self.local.len();
        if idx <= len {
            // Comes from the local history
            Some(HistoryItem::LocalHistoryItem(self.local[len - idx].clone()))
        } else {
            // Comes from the shared history provider
            let shared = self.provider.item_at_index(idx - len);
            assert(P::item_read(
                &old(self).shared(),
                (idx as int - old(self).local_items().len()) as usize,
                shared,
                &self.shared(),
            ));
            match shared {
                Some(item) => Some(HistoryItem::SharedHistoryItem(item)),
                None => None,
            }
        }
    }

    /// Returns whether this is using the default name.
    pub fn is_default(&self) -> (yes: bool)
        ensures
            yes == (self.shared().spec_name() == DFLT_FISH_HISTORY_SESSION_ID@),
    {
        self.name().to_owned() == DFLT_FISH_HISTORY_SESSION_ID.to_owned()
    }

    /// Is the provider empty. This is only used by bash history import.
    /// We don't want to import bash history even if the provider reports size == 0.
    pub fn is_empty(&mut self) -> (empty: bool)
        ensures
            P::emptiness_read(&old(self).shared(), empty, &final(self).shared()),
            final(self).local_items() == old(self).local_items(),
    {
        self.provider.is_empty()
    }

    /// Removes trailing ephemeral items.
    /// Ephemeral items have leading spaces, and can only be retrieved immediately; adding any item
    /// removes them.
    pub fn remove_ephemeral_items(&mut self)
        ensures
            final(self).local_items() == without_ephemeral_tail(old(self).local_items()),
            final(self).shared() == old(self).shared(),
    {
        while self.local.len() > 0 && self.local[self.local.len() - 1].is_ephemeral()
            invariant
                without_ephemeral_tail(self.local@) == without_ephemeral_tail(
                    old(self).local_items(),
                ),
                self.provider == old(self).shared(),
            decreases self.local@.len(),
        {
            let ghost before = self.local@;
            self.local.pop();
            assert(self.local@ =~= before.drop_last());
        }
    }

    /// Gets all the history into a list. This is intended for the $history environment variable.
    /// This may be long!
    pub fn get_history(&mut self) -> (out: Vec<String>)
        ensures
            exists|shared: Seq<api::HistoryItem>| #[trigger]
                P::history_read(&old(self).shared(), shared, &final(self).shared()) && texts(out@)
                    == keep_first(local_texts(old(self).local_items()) + shared_texts(shared)),
            final(self).local_items() == old(self).local_items(),
    {
        let shared = self.provider.get_history();
        assert(P::history_read(&old(self).shared(), shared@, &self.shared()));
        merge_texts(&self.local, &shared)
    }

    /// Let indexes be a list of one-based indexes into the history, matching the interpretation of
    /// `$history`. That is, `$history[1]` is the most recently executed command. Values less than one
    /// are skipped. Return a mapping from index to history item text.
    pub fn items_at_indexes(&mut self, indexes: Vec<usize>) -> (out: HashMap<usize, String>)
        ensures
            exists|shared: Seq<api::HistoryItem>| #[trigger]
                indexes_read(
                    *old(self),
                    indexes@,
                    shared,
                    text_values(out@),
                    *final(self),
                ),
    {
        let last: usize = greatest_index(&indexes);
        let shared = get_history_up_to(&mut self.provider, last);
        let ghost mid = self.provider;
        assert(reads_up_to(&old(self).shared(), greatest(indexes@) as nat, shared@, &mid));
        let items = merge_newest_first(&self.local, &shared);
        proof {
            lemma_newest_first_len(self.local@, shared@);
        }
        let local: usize = self.local.len();
        let out = answer_indexes(&mut self.provider, &indexes, &items, local);
        assert(indexes_answered(
            mid,
            newest_first(old(self).local_items(), shared@),
            old(self).local_items().len(),
            indexes@,
            text_values(out@),
            self.shared(),
        ));
        assert(indexes_read(
            *old(self),
            indexes@,
            shared@,
            text_values(out@),
            *self,
        ));
        out
    }

    /// The number of entries, if it is one that a `usize` can hold.
    pub fn size(&mut self) -> (size: Option<usize>)
        ensures
            size_read(*old(self), size, *final(self)),
    {
        let local: usize = self.local.len();
        let shared: u64 = self.provider.size();
        assert(P::size_read(&old(self).shared(), shared, &self.shared()));
        total_size(local, shared)
    }

    /// Saves history.
    pub fn save(&mut self)
        ensures
            P::saved(&old(self).shared(), &final(self).shared()),
            final(self).local_items() == old(self).local_items(),
    {
        self.provider.save();
    }

    /// Removes all occurrences of s from local and shared history
    pub fn remove(&mut self, s: &str)
        ensures
            final(self).local_items() == local_without(old(self).local_items(), s@),
            P::text_removed(&old(self).shared(), s@, &final(self).shared()),
    {
        let text = s.to_owned();
        let mut kept: Vec<LocalHistoryItem> = Vec::new();
        let mut i: usize = 0;
        while i < self.local.len()
            invariant
                i <= self.local@.len(),
                text@ == s@,
                *self == *old(self),
                kept@ == local_without(self.local@.take(i as int), s@),
            decreases self.local@.len() - i,
        {
            assert(self.local@.take(i + 1).drop_last() =~= self.local@.take(i as int));
            if self.local[i].str().to_owned() != text {
                kept.push(self.local[i].clone());
            }
            i = i + 1;
        }
        assert(self.local@.take(i as int) =~= self.local@);
        self.local = kept;
        self.provider.remove(s);
    }

    pub fn clear(&mut self)
        ensures
            final(self).local_items() == Seq::<LocalHistoryItem>::empty(),
            P::cleared(&old(self).shared(), &final(self).shared()),
    {
        self.local.clear();
        self.provider.clear();
    }

    /// Add a new shared history item. The item is sent to the history provider to store. As with any item
    /// that is added, ephemeral ones at the end go.
    ///
    /// The result says for which arguments to find out whether they are paths, in the background; continue
    /// with [`file_detection_finished`].
    pub fn add_shared(&mut self, s: String, time: Timestamp, nodes: &Vec<NodeKind>) -> (detection:
        Option<FileDetection>)
        ensures
            final(self).local_items() == without_ephemeral_tail(old(self).local_items()),
            exists|mid: P|
                detection_begun(old(self).shared(), nodes@, mid) && #[trigger] shared_added(
                    mid,
                    (ItemView { contents: s@, creation_timestamp: time }),
                    final(self).shared(),
                ),
            is_file_detection(s@, nodes@, detection),
    {
        self.remove_ephemeral_items();
        let detection = self.spawn_file_detection(s.as_str(), nodes);
        self.add_to_provider(s, time);
        detection
    }

    /// Add a new local history item. The item is not sent to the history provider. Unless it is merged with
    /// the last one, ephemeral items at the end go.
    ///
    /// The result is that of [`History::add_shared`].
    pub fn add_local(&mut self, item: LocalHistoryItem, nodes: &Vec<NodeKind>) -> (detection:
        Option<FileDetection>)
        ensures
            local_added(old(self).local_items(), item, final(self).local_items()),
            if detects_files_for(old(self).local_items(), item) {
                &&& detection_begun(old(self).shared(), nodes@, final(self).shared())
                &&& is_file_detection(item@.contents, nodes@, detection)
            } else {
                final(self).shared() == old(self).shared() && detection is None
            },
    {
        // We use empty items as sentinels to indicate the end of history.
        // Do not allow them to be added (#6032).
        if item.is_empty() {
            return None;
        }

        // Try merging with the last item.
        let len: usize = self.local.len();
        if len > 0 {
            let last = &mut self.local[len - 1];
            if last.merge(&item) {
                // We merged, so we don't have to do file detection.
                assert(self.local@.drop_last() =~= old(self).local_items().drop_last());
                return None;
            }
        }
        assert(self.local@ =~= old(self).local_items());
        self.remove_ephemeral_items();
        // Don't bother doing file detection for ephemeral items
        let detection = if !item.is_ephemeral() {
            self.spawn_file_detection(item.str(), nodes)
        } else {
            None
        };
        self.local.push(item);
        detection
    }

    /// Begin file detection on the items to determine which arguments are paths.
    fn spawn_file_detection(&mut self, s: &str, nodes: &Vec<NodeKind>) -> (detection: Option<
        FileDetection,
    >)
        ensures
            final(self).local_items() == old(self).local_items(),
            detection_begun(old(self).shared(), nodes@, final(self).shared()),
            is_file_detection(s@, nodes@, detection),
    {
        match find_potential_paths(nodes) {
            // If we got a path, we'll perform file detection for autosuggestion hinting.
            Some(potential_paths) => {
                assert(texts(potential_paths@).len() == potential_paths@.len());
                if potential_paths.is_empty() {
                    return None;
                }
                Some(FileDetection { command: s.to_owned(), potential_paths })
            },
            None => {
                // We're about to exit, save immediately, regardless of any disabling. This may
                // cause us to lose file hinting for some commands, but it beats losing history items.
                self.provider.save();
                None
            },
        }
    }

    /// Add a shared item through the commandline where file detection is unnecessary. Ephemeral items at
    /// the end go.
    pub fn add_shared_no_file_detection(&mut self, s: String, time: Timestamp)
        ensures
            final(self).local_items() == without_ephemeral_tail(old(self).local_items()),
            shared_added(
                old(self).shared(),
                (ItemView { contents: s@, creation_timestamp: time }),
                final(self).shared(),
            ),
    {
        self.remove_ephemeral_items();
        self.add_to_provider(s, time);
    }

    /// Has the provider add an item.
    pub(crate) fn add_to_provider(&mut self, s: String, time: Timestamp)
        ensures
            final(self).local_items() == old(self).local_items(),
            shared_added(
                old(self).shared(),
                (ItemView { contents: s@, creation_timestamp: time }),
                final(self).shared(),
            ),
    {
        let item = api::HistoryItem::new(s, time);
        let ghost added = item;
        self.provider.add(item);
        assert(P::item_added(&old(self).shared(), added, &self.shared()));
    }
}

/// The valid paths among the arguments of `command` are known: their absolute forms are kept for
/// autosuggestion hinting, if there are any.
pub fn file_detection_finished(
    cache: &mut RequiredPathsCache,
    command: String,
    valid_file_paths: DetectedPaths,
)
    ensures
        final(cache)@ == if valid_file_paths.absolute@.len() > 0 && !old(cache)@.contains_key(
            command@,
        ) {
            old(cache)@.insert(command@, texts(valid_file_paths.absolute@))
        } else {
            old(cache)@
        },
        valid_file_paths.absolute@.len() > 0 ==> final(cache)@ == required_paths_cache::noted(
            old(cache)@,
            command@,
            texts(valid_file_paths.absolute@),
        ),
{
    if !valid_file_paths.absolute.is_empty() {
        required_paths_cache::insert(cache, command, valid_file_paths.absolute);
    }
}

/// The greatest of the indexes, or zero.
fn greatest_index(indexes: &Vec<usize>) -> (last: usize)
    ensures
        last == greatest(indexes@),
{
    let mut last: usize = 0;
    let mut i: usize = 0;
    while i < indexes.len()
        invariant
            i <= indexes@.len(),
            last == greatest(indexes@.take(i as int)),
        decreases indexes@.len() - i,
    {
        assert(indexes@.take(i + 1).drop_last() =~= indexes@.take(i as int));
        if indexes[i] > last {
            last = indexes[i];
        }
        i = i + 1;
    }
    assert(indexes@.take(i as int) =~= indexes@);
    last
}

/// Local items, of which the last is the newest, and shared items, of which the first is the newest, in one
/// list, the newest first.
pub fn merge_newest_first(local: &Vec<LocalHistoryItem>, shared: &Vec<api::HistoryItem>) -> (items:
    Vec<HistoryItem>)
    ensures
        items@ == newest_first(local@, shared@),
{
    let mut items: Vec<HistoryItem> = Vec::new();
    let mut left: usize = local.len();
    let mut j: usize = 0;
    assert(local@.take(left as int) =~= local@);
    assert(shared@.skip(0) =~= shared@);
    assert(items@ + newest_first(local@, shared@) =~= newest_first(local@, shared@));
    while left > 0 || j < shared.len()
        invariant
            left <= local@.len(),
            j <= shared@.len(),
            items@ + newest_first(local@.take(left as int), shared@.skip(j as int)) == newest_first(
                local@,
                shared@,
            ),
        decreases left + (shared@.len() - j),
    {
        let ghost before = items@;
        let ghost some = local@.take(left as int);
        let ghost rest = shared@.skip(j as int);
        let take_shared = j < shared.len() && (left == 0 || shared[j].get_timestamp().nanos
            > local[left - 1].timestamp().nanos);
        if take_shared {
            items.push(HistoryItem::SharedHistoryItem(shared[j].clone()));
            assert(rest.drop_first() =~= shared@.skip(j + 1));
            j = j + 1;
        } else {
            items.push(HistoryItem::LocalHistoryItem(local[left - 1].clone()));
            assert(some.drop_last() =~= local@.take(left - 1));
            left = left - 1;
        }
        assert(items@ + newest_first(local@.take(left as int), shared@.skip(j as int)) =~= before
            + newest_first(some, rest));
    }
    assert(items@ + Seq::<HistoryItem>::empty() =~= items@);
    items
}

/// All items are in the list.
proof fn lemma_newest_first_len(local: Seq<LocalHistoryItem>, shared: Seq<api::HistoryItem>)
    ensures
        newest_first(local, shared).len() == local.len() + shared.len(),
    decreases local.len() + shared.len(),
{
    if shared_is_next(local, shared) {
        lemma_newest_first_len(local, shared.drop_first());
    } else if local.len() > 0 {
        lemma_newest_first_len(local.drop_last(), shared);
    }
}

/// The texts at the given one-based indexes. Zero is skipped. Behind `items`, among which are all `local`
/// local ones, the provider is asked, and there is an empty text where it has none.
pub fn answer_indexes<P: HistoryProvider>(
    provider: &mut P,
    indexes: &Vec<usize>,
    items: &Vec<HistoryItem>,
    local: usize,
) -> (out: HashMap<usize, String>)
    requires
        local <= items@.len(),
    ensures
        indexes_answered(
            *old(provider),
            items@,
            local as nat,
            indexes@,
            text_values(out@),
            *final(provider),
        ),
{
    broadcast use vstd::std_specs::hash::group_hash_axioms;

    let mut result: HashMap<usize, String> = HashMap::new();
    let mut i: usize = 0;
    assert(text_values(result@) =~= Map::empty());
    while i < indexes.len()
        invariant
            local <= items@.len(),
            i <= indexes@.len(),
            indexes_answered(
                *old(provider),
                items@,
                local as nat,
                indexes@.take(i as int),
                text_values(result@),
                *provider,
            ),
        decreases indexes@.len() - i,
    {
        broadcast use vstd::std_specs::hash::group_hash_axioms;

        let idx: usize = indexes[i];
        let ghost known = text_values(result@);
        let ghost mid = *provider;
        let ghost upto = indexes@.take(i + 1);
        assert(upto.drop_last() =~= indexes@.take(i as int));
        // If this is the first time the index is encountered, we have to go fetch the item.
        if idx != 0 && !result.contains_key(&idx) {
            // New key.
            let contents = if idx <= items.len() {
                items[idx - 1].str().to_owned()
            } else {
                let item = provider.item_at_index(idx - local);
                assert(P::item_read(&mid, (idx as int - local as nat) as usize, item, provider));
                let ghost text = shared_text(item);
                let contents = match item {
                    Some(item) => item.into_str(),
                    None => String::new(),
                };
                assert(contents@ =~= text);
                contents
            };
            let ghost text = contents@;
            result.insert(idx, contents);
            assert(text_values(result@) =~= known.insert(idx, text));
        }
        assert(index_answered(
            mid,
            items@,
            local as nat,
            known,
            upto.last(),
            text_values(result@),
            *provider,
        ));
        i = i + 1;
    }
    assert(indexes@.take(i as int) =~= indexes@);
    result
}

/// The number of `local` and `shared` entries together, if a `usize` can hold it.
pub fn total_size(local: usize, shared: u64) -> (size: Option<usize>)
    ensures
        size == if local + shared <= usize::MAX {
            Some((local + shared) as usize)
        } else {
            None
        },
{
    if shared <= usize::MAX as u64 {
        local.checked_add(shared as usize)
    } else {
        None
    }
}

/// The texts of the local items from the last to the first, then those of the shared ones, each text
/// once.
pub fn merge_texts(local: &Vec<LocalHistoryItem>, shared: &Vec<api::HistoryItem>) -> (out: Vec<
    String,
>)
    ensures
        texts(out@) == keep_first(local_texts(local@) + shared_texts(shared@)),
        local@.len() > 0 ==> out@.len() > 0 && out@[0]@ == local@.last()@.contents,
        local@.len() == 0 && shared@.len() > 0 ==> out@.len() > 0 && out@[0]@
            == shared@[0]@.contents,
{
    let ghost first = local_texts(local@);
    let ghost all = first + shared_texts(shared@);
    let mut seen = StringHashSet::new();
    let mut result: Vec<String> = Vec::new();
    let mut i: usize = 0;
    assert(texts(result@) =~= keep_first(all.take(0)));
    while i < local.len()
        invariant
            i <= local@.len(),
            first == local_texts(local@),
            all == first + shared_texts(shared@),
            texts(result@) == keep_first(all.take(i as int)),
            forall|text: Seq<char>| #[trigger]
                seen@.contains(text) <==> all.take(i as int).contains(text),
        decreases local@.len() - i,
    {
        let item = &local[local.len() - 1 - i];
        assert(all[i as int] == item@.contents);
        push_if_new(&mut seen, &mut result, item.str(), Ghost(all), Ghost(i as int));
        i = i + 1;
    }
    let mut j: usize = 0;
    while j < shared.len()
        invariant
            i == local@.len(),
            j <= shared@.len(),
            first == local_texts(local@),
            all == first + shared_texts(shared@),
            texts(result@) == keep_first(all.take(i + j)),
            forall|text: Seq<char>| #[trigger]
                seen@.contains(text) <==> all.take(i + j).contains(text),
        decreases shared@.len() - j,
    {
        let item = &shared[j];
        assert(all[i + j] == item@.contents);
        push_if_new(&mut seen, &mut result, item.str(), Ghost(all), Ghost(i + j));
        j = j + 1;
    }
    proof {
        assert(all.take(i + j) =~= all);
        assert(texts(result@).len() == result@.len());
        if all.len() > 0 {
            the_first_text_is_listed_first(all);
            assert(texts(result@)[0] == result@[0]@);
        }
    }
    result
}

/// Adds the text at `i` of `all` to the result, unless it was seen.
fn push_if_new(
    seen: &mut StringHashSet,
    result: &mut Vec<String>,
    text: &str,
    all: Ghost<Seq<Seq<char>>>,
    i: Ghost<int>,
)
    requires
        0 <= i@ < all@.len(),
        all@[i@] == text@,
        texts(old(result)@) == keep_first(all@.take(i@)),
        forall|t: Seq<char>| #[trigger] old(seen)@.contains(t) <==> all@.take(i@).contains(t),
    ensures
        texts(final(result)@) == keep_first(all@.take(i@ + 1)),
        forall|t: Seq<char>| #[trigger]
            final(seen)@.contains(t) <==> all@.take(i@ + 1).contains(t),
{
    let ghost less = all@.take(i@);
    let ghost upto = all@.take(i@ + 1);
    let ghost before = result@;
    assert(upto.drop_last() =~= less);
    if seen.insert(text.to_owned()) {
        result.push(text.to_owned());
        assert(texts(result@) =~= texts(before).push(text@));
    }
    assert forall|t: Seq<char>| #[trigger] seen@.contains(t) <==> upto.contains(t) by {
        assert(upto =~= less.push(text@));
        if less.contains(t) {
            let k = choose|k: int| 0 <= k < less.len() && less[k] == t;
            assert(upto[k] == t);
        }
        if t == text@ {
            assert(upto[i@] == t);
        }
        if upto.contains(t) && t != text@ {
            let k = choose|k: int| 0 <= k < upto.len() && upto[k] == t;
            assert(less[k] == t);
        }
    }
}

} // verus!
