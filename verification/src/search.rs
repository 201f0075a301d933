//! Searching a history.
use crate::api::HistoryProvider;
use crate::history::{item_read, size_read, History};
use crate::item::HistoryItem;
use crate::text::{
    any_line_starts_with, from_chars, is_subsequence, lowercase, occurs, some_line_starts_with,
    starts_with, subsequence_in_string, subslice_position, to_chars, to_lowercase,
};
use vstd::hash_set::StringHashSet;
use vstd::prelude::*;

verus! {

#[derive(Clone, Copy, Debug, PartialEq, Eq, Structural)]
pub enum SearchDirection {
    Forward,
    Backward,
}

#[derive(Clone, Copy, Debug, PartialEq, Eq, Structural)]
pub enum SearchType {
    /// Search for commands exactly matching the given string.
    Exact,
    /// Search for commands containing the given string.
    Contains,
    /// Search for commands starting with the given string.
    Prefix,
    /// Search for commands where any line matches the given string.
    LinePrefix,
    /// Search for commands containing the given glob pattern.
    ContainsGlob,
    /// Search for commands starting with the given glob pattern.
    PrefixGlob,
    /// Search for commands containing the given string as a subsequence
    ContainsSubsequence,
}

/// Flags for history searching.
#[derive(Clone, Copy, Debug, PartialEq, Eq, Structural)]
pub struct SearchFlags {
    /// If set, ignore case.
    pub ignore_case: bool,
    /// If set, do not deduplicate, which can help performance.
    pub no_dedup: bool,
}

impl SearchFlags {
    /// No flag is set.
    pub fn empty() -> (flags: Self)
        ensures
            !flags.ignore_case,
            !flags.no_dedup,
    {
        SearchFlags { ignore_case: false, no_dedup: false }
    }
}

/// How glob patterns work in the shell.
pub struct Wildcards<U, W> {
    /// The character that stands for any string in a pattern.
    pub any_string: char,
    /// Makes a pattern from what the user typed.
    pub unescape: U,
    /// Whether a text (first) matches a pattern (second).
    pub wildcard_match: W,
}

impl<U: Fn(&str) -> String, W: Fn(&str, &str) -> bool> Wildcards<U, W> {
    /// The functions can be called on all texts.
    pub open spec fn ready(self) -> bool {
        &&& forall|term: &str| call_requires(self.unescape, (term,))
        &&& forall|text: &str, pattern: &str| call_requires(self.wildcard_match, (text, pattern))
    }

    /// `unescape` may make `pattern` from `term`.
    pub open spec fn unescapes(self, term: Seq<char>, pattern: Seq<char>) -> bool {
        exists|t: &str, p: String|
            t@ == term && p@ == pattern && #[trigger] call_ensures(self.unescape, (t,), p)
    }

    /// `wildcard_match` may answer `yes` for `text` and `pattern`.
    pub open spec fn answers(self, text: Seq<char>, pattern: Seq<char>, yes: bool) -> bool {
        exists|t: &str, p: &str|
            t@ == text && p@ == pattern && #[trigger] call_ensures(
                self.wildcard_match,
                (t, p),
                yes,
            )
    }
}

/// The pattern with `any` before and behind it, where it has none there.
pub open spec fn contains_pattern(pattern: Seq<char>, any: char) -> Seq<char> {
    prefix_pattern(
        if pattern.len() > 0 && pattern[0] == any {
            pattern
        } else {
            seq![any] + pattern
        },
        any,
    )
}

/// The pattern with `any` behind it, where it has none there.
pub open spec fn prefix_pattern(pattern: Seq<char>, any: char) -> Seq<char> {
    if pattern.len() > 0 && pattern.last() == any {
        pattern
    } else {
        pattern.push(any)
    }
}

/// The text that a search looks at.
pub open spec fn searched_text(text: Seq<char>, case_sensitive: bool) -> Seq<char> {
    if case_sensitive {
        text
    } else {
        lowercase(text)
    }
}

/// A search for `term` in `text` may come to the answer `yes`. For all but the glob searches there is
/// one answer; these go by what `wildcards` says of the pattern.
pub open spec fn may_match<U: Fn(&str) -> String, W: Fn(&str, &str) -> bool>(
    text: Seq<char>,
    term: Seq<char>,
    typ: SearchType,
    wildcards: Wildcards<U, W>,
    yes: bool,
) -> bool {
    match typ {
        SearchType::Exact => yes == (term == text),
        SearchType::Contains => yes == occurs(text, term),
        SearchType::Prefix => yes == term.is_prefix_of(text),
        SearchType::LinePrefix => yes == some_line_starts_with(text, term),
        SearchType::ContainsGlob => exists|pattern: Seq<char>| #[trigger]
            wildcards.unescapes(term, pattern) && wildcards.answers(
                text,
                contains_pattern(pattern, wildcards.any_string),
                yes,
            ),
        SearchType::PrefixGlob => exists|pattern: Seq<char>| #[trigger]
            wildcards.unescapes(term, pattern) && wildcards.answers(
                text,
                prefix_pattern(pattern, wildcards.any_string),
                yes,
            ),
        SearchType::ContainsSubsequence => yes == is_subsequence(text, term),
    }
}

/// Puts `any` behind a pattern, and before it if `front`, where it has none there.
fn enclose_pattern(pattern: &str, any: char, front: bool) -> (out: String)
    ensures
        out@ == if front {
            contains_pattern(pattern@, any)
        } else {
            prefix_pattern(pattern@, any)
        },
{
    let mut chars = to_chars(pattern);
    if front && !(chars.len() > 0 && chars[0] == any) {
        let ghost before = chars@;
        chars.insert(0, any);
        assert(chars@ =~= seq![any] + before);
    }
    let len: usize = chars.len();
    if !(len > 0 && chars[len - 1] == any) {
        chars.push(any);
    }
    from_chars(chars.as_slice())
}

impl HistoryItem {
    /// Returns whether our contents matches a search term.
    ///
    /// Note that 'term' has already been lowercased when constructing the
    /// search object if we're doing a case insensitive search.
    pub fn matches_search<U: Fn(&str) -> String, W: Fn(&str, &str) -> bool>(
        &self,
        term: &str,
        typ: SearchType,
        case_sensitive: bool,
        wildcards: &Wildcards<U, W>,
    ) -> (yes: bool)
        requires
            wildcards.ready(),
        ensures
            may_match(
                searched_text(self.text(), case_sensitive),
                term@,
                typ,
                *wildcards,
                yes,
            ),
    {
        let content_to_match = if case_sensitive {
            self.str().to_owned()
        } else {
            to_lowercase(self.str())
        };
        let content = to_chars(content_to_match.as_str());
        let chars = to_chars(term);
        match typ {
            SearchType::Exact => term.to_owned() == content_to_match,
            SearchType::Contains => subslice_position(content.as_slice(), chars.as_slice()).is_some(),
            SearchType::Prefix => starts_with(content.as_slice(), chars.as_slice()),
            SearchType::LinePrefix => any_line_starts_with(content.as_slice(), chars.as_slice()),
            SearchType::ContainsGlob => {
                let unescaped = (wildcards.unescape)(term);
                assert(wildcards.unescapes(term@, unescaped@));
                let pat = enclose_pattern(unescaped.as_str(), wildcards.any_string, true);
                let yes = (wildcards.wildcard_match)(content_to_match.as_str(), pat.as_str());
                assert(wildcards.answers(content_to_match@, pat@, yes));
                yes
            },
            SearchType::PrefixGlob => {
                let unescaped = (wildcards.unescape)(term);
                assert(wildcards.unescapes(term@, unescaped@));
                let pat = enclose_pattern(unescaped.as_str(), wildcards.any_string, false);
                let yes = (wildcards.wildcard_match)(content_to_match.as_str(), pat.as_str());
                assert(wildcards.answers(content_to_match@, pat@, yes));
                yes
            },
            SearchType::ContainsSubsequence => subsequence_in_string(
                chars.as_slice(),
                content.as_slice(),
            ),
        }
    }
}

/// Support for searching a history.
pub struct HistorySearch {
    /// The original search term.
    orig_term: String,
    /// The (possibly lowercased) search term.
    canon_term: String,
    /// Our search type.
    search_type: SearchType,
    /// Our flags.
    flags: SearchFlags,
    /// The current history item.
    current_item: Option<HistoryItem>,
    /// Index of the current history item.
    current_index: usize,
    /// If deduping, the items we've seen.
    deduper: StringHashSet,
}

/// How far a search has come.
#[verifier::ext_equal]
pub struct SearchState {
    pub orig_term: Seq<char>,
    pub canon_term: Seq<char>,
    pub search_type: SearchType,
    pub flags: SearchFlags,
    pub current_item: Option<HistoryItem>,
    pub current_index: usize,
    pub seen: Set<Seq<char>>,
}

impl View for HistorySearch {
    type V = SearchState;

    closed spec fn view(&self) -> SearchState {
        SearchState {
            orig_term: self.orig_term@,
            canon_term: self.canon_term@,
            search_type: self.search_type,
            flags: self.flags,
            current_item: self.current_item,
            current_index: self.current_index,
            seen: self.deduper@,
        }
    }
}

impl SearchState {
    /// A search that is about to start at `starting_index`. Without regard to case it looks for the
    /// lowercase term.
    pub open spec fn fresh(
        term: Seq<char>,
        search_type: SearchType,
        flags: SearchFlags,
        starting_index: usize,
    ) -> SearchState {
        SearchState {
            orig_term: term,
            canon_term: searched_text(term, !flags.ignore_case),
            search_type,
            flags,
            current_item: None,
            current_index: starting_index,
            seen: Set::empty(),
        }
    }

    /// The search may find that `item` is (`yes`) or is not what it looks for.
    pub open spec fn judges<U: Fn(&str) -> String, W: Fn(&str, &str) -> bool>(
        self,
        item: HistoryItem,
        wildcards: Wildcards<U, W>,
        yes: bool,
    ) -> bool {
        may_match(
            searched_text(item.text(), !self.flags.ignore_case),
            self.canon_term,
            self.search_type,
            wildcards,
            yes,
        )
    }

    /// The search skips a matching `item`, because it has seen the text.
    pub open spec fn skips(self, item: HistoryItem) -> bool {
        !self.flags.no_dedup && self.seen.contains(item.text())
    }

    /// The search at `item`, which it found at `index`.
    pub open spec fn at(self, item: HistoryItem, index: usize) -> SearchState {
        SearchState {
            current_item: Some(item),
            current_index: index,
            seen: if self.flags.no_dedup {
                self.seen
            } else {
                self.seen.insert(item.text())
            },
            ..self
        }
    }

    /// The search when it ran out of items, with its index at `index`.
    pub open spec fn ended(self, index: usize) -> SearchState {
        SearchState { current_item: None, current_index: index, ..self }
    }
}

/// The index from which no search can go on in the given direction.
pub open spec fn last_index(direction: SearchDirection) -> usize {
    match direction {
        SearchDirection::Backward => usize::MAX,
        SearchDirection::Forward => 0,
    }
}

/// The index behind `index`. Backwards means increasing our index.
pub open spec fn next_index(direction: SearchDirection, index: usize) -> int {
    match direction {
        SearchDirection::Backward => index + 1,
        SearchDirection::Forward => index - 1,
    }
}

/// The index one above a size, or the greatest one there is.
pub open spec fn index_above(size: Option<usize>) -> usize {
    match size {
        Some(size) => if size < usize::MAX {
            (size + 1) as usize
        } else {
            usize::MAX
        },
        None => usize::MAX,
    }
}

/// A search that ran out of items went from `search` to `out`, and the history it asked for its size from
/// `before` to `after`.
pub open spec fn ran_out<P: HistoryProvider>(
    search: SearchState,
    before: History<P>,
    direction: SearchDirection,
    out: SearchState,
    after: History<P>,
) -> bool {
    match direction {
        SearchDirection::Forward => out == search.ended(0) && after == before,
        SearchDirection::Backward => exists|size: Option<usize>| #[trigger]
            size_read(before, size, after) && out == search.ended(index_above(size)),
    }
}

/// A search that has looked at `index` goes on from there: it reads one item after the other, and stops at
/// the first that matches and that it does not skip (`found`), or when there are no more items.
pub open spec fn scans<P: HistoryProvider, U: Fn(&str) -> String, W: Fn(&str, &str) -> bool>(
    search: SearchState,
    before: History<P>,
    index: usize,
    direction: SearchDirection,
    wildcards: Wildcards<U, W>,
    found: bool,
    out: SearchState,
    after: History<P>,
) -> bool
    decreases
            match direction {
                SearchDirection::Backward => usize::MAX - index,
                SearchDirection::Forward => index as int,
            },
{
    if index == last_index(direction) {
        !found && ran_out(search, before, direction, out, after)
    } else {
        let next = next_index(direction, index);
        exists|item: Option<HistoryItem>, mid: History<P>| #[trigger]
            item_read(before, next, item, mid) && match item {
                None => !found && ran_out(search, mid, direction, out, after),
                Some(item) => {
                    ||| {
                        &&& search.judges(item, wildcards, true)
                        &&& !search.skips(item)
                        &&& found
                        &&& out == search.at(item, next as usize)
                        &&& after == mid
                    }
                    ||| {
                        &&& search.judges(item, wildcards, false) || (search.judges(
                            item,
                            wildcards,
                            true,
                        ) && search.skips(item))
                        &&& scans(
                            search,
                            mid,
                            next as usize,
                            direction,
                            wildcards,
                            found,
                            out,
                            after,
                        )
                    }
                },
            }
    }
}

/// A search is asked for its next match: it goes on behind its index, unless that is the last one there is.
pub open spec fn goes_on<P: HistoryProvider, U: Fn(&str) -> String, W: Fn(&str, &str) -> bool>(
    search: SearchState,
    before: History<P>,
    direction: SearchDirection,
    wildcards: Wildcards<U, W>,
    found: bool,
    out: SearchState,
    after: History<P>,
) -> bool {
    if search.current_index == last_index(direction) {
        !found && out == search && after == before
    } else {
        scans(
            search,
            before,
            search.current_index,
            direction,
            wildcards,
            found,
            out,
            after,
        )
    }
}

/// The search, having forgotten what it has seen.
pub open spec fn forgets(search: SearchState) -> SearchState {
    SearchState { seen: Set::empty(), ..search }
}

/// A search that has passed `count` matches goes forward from match to match, until it has passed `value`
/// matches and stands at the next, or there are no more matches; then it forgets what it has seen.
pub open spec fn goes_forward<P: HistoryProvider, U: Fn(&str) -> String, W: Fn(&str, &str) -> bool>(
    search: SearchState,
    before: History<P>,
    wildcards: Wildcards<U, W>,
    count: int,
    value: int,
    out: SearchState,
    after: History<P>,
) -> bool
    decreases search.current_index,
{
    exists|found: bool, next: SearchState, mid: History<P>| #[trigger]
        goes_on(
            search,
            before,
            SearchDirection::Forward,
            wildcards,
            found,
            next,
            mid,
        ) && if found && count < value {
            next.current_index < search.current_index && goes_forward(
                next,
                mid,
                wildcards,
                count + 1,
                value,
                out,
                after,
            )
        } else {
            out == forgets(next) && after == mid
        }
}

/// A search only stops at an item that it may take for a match, that it read at its new index, further on
/// in its direction, and with a text that it has not seen (if it deduplicates), but has from then on.
pub proof fn a_match_lies_further_on<
    P: HistoryProvider,
    U: Fn(&str) -> String,
    W: Fn(&str, &str) -> bool,
>(
    search: SearchState,
    before: History<P>,
    direction: SearchDirection,
    wildcards: Wildcards<U, W>,
    out: SearchState,
    after: History<P>,
)
    requires
        goes_on(search, before, direction, wildcards, true, out, after),
    ensures
        direction == SearchDirection::Backward ==> out.current_index > search.current_index,
        direction == SearchDirection::Forward ==> out.current_index < search.current_index,
        out.current_item is Some,
        search.judges(out.current_item->0, wildcards, true),
        !search.skips(out.current_item->0),
        out == search.at(out.current_item->0, out.current_index),
        exists|earlier: History<P>| #[trigger]
            item_read(earlier, out.current_index as int, out.current_item, after),
{
    lemma_match_lies_further_on(
        search,
        before,
        search.current_index,
        direction,
        wildcards,
        out,
        after,
    );
}

proof fn lemma_match_lies_further_on<
    P: HistoryProvider,
    U: Fn(&str) -> String,
    W: Fn(&str, &str) -> bool,
>(
    search: SearchState,
    before: History<P>,
    index: usize,
    direction: SearchDirection,
    wildcards: Wildcards<U, W>,
    out: SearchState,
    after: History<P>,
)
    requires
        scans(search, before, index, direction, wildcards, true, out, after),
    ensures
        direction == SearchDirection::Backward ==> out.current_index > index,
        direction == SearchDirection::Forward ==> out.current_index < index,
        out.current_item is Some,
        search.judges(out.current_item->0, wildcards, true),
        !search.skips(out.current_item->0),
        out == search.at(out.current_item->0, out.current_index),
        exists|earlier: History<P>| #[trigger]
            item_read(earlier, out.current_index as int, out.current_item, after),
    decreases
            match direction {
                SearchDirection::Backward => usize::MAX - index,
                SearchDirection::Forward => index as int,
            },
{
    let next = next_index(direction, index);
    let (item, mid) = choose|item: Option<HistoryItem>, mid: History<P>| #[trigger]
        item_read(before, next, item, mid) && match item {
            None => false,
            Some(item) => {
                ||| {
                    &&& search.judges(item, wildcards, true)
                    &&& !search.skips(item)
                    &&& out == search.at(item, next as usize)
                    &&& after == mid
                }
                ||| scans(search, mid, next as usize, direction, wildcards, true, out, after)
            },
        };
    if scans(search, mid, next as usize, direction, wildcards, true, out, after) {
        lemma_match_lies_further_on(search, mid, next as usize, direction, wildcards, out, after);
    } else {
        assert(item_read(before, out.current_index as int, out.current_item, after));
    }
}

/// A search that finds nothing has no current item, unless it stood at the last index and could not move at
/// all, and forgets nothing; a forward search is at the start of the history.
pub proof fn a_search_may_find_nothing<
    P: HistoryProvider,
    U: Fn(&str) -> String,
    W: Fn(&str, &str) -> bool,
>(
    search: SearchState,
    before: History<P>,
    direction: SearchDirection,
    wildcards: Wildcards<U, W>,
    out: SearchState,
    after: History<P>,
)
    requires
        goes_on(search, before, direction, wildcards, false, out, after),
    ensures
        search.current_index == last_index(direction) ==> out == search,
        search.current_index != last_index(direction) ==> out == search.ended(out.current_index),
        direction == SearchDirection::Forward ==> out.current_index == 0,
{
    if search.current_index != last_index(direction) {
        lemma_nothing_found(
            search,
            before,
            search.current_index,
            direction,
            wildcards,
            out,
            after,
        );
    }
}

proof fn lemma_nothing_found<P: HistoryProvider, U: Fn(&str) -> String, W: Fn(&str, &str) -> bool>(
    search: SearchState,
    before: History<P>,
    index: usize,
    direction: SearchDirection,
    wildcards: Wildcards<U, W>,
    out: SearchState,
    after: History<P>,
)
    requires
        scans(search, before, index, direction, wildcards, false, out, after),
    ensures
        out == search.ended(out.current_index),
        direction == SearchDirection::Forward ==> out.current_index == 0,
    decreases
            match direction {
                SearchDirection::Backward => usize::MAX - index,
                SearchDirection::Forward => index as int,
            },
{
    if index != last_index(direction) {
        let next = next_index(direction, index);
        let (item, mid) = choose|item: Option<HistoryItem>, mid: History<P>| #[trigger]
            item_read(before, next, item, mid) && match item {
                None => ran_out(search, mid, direction, out, after),
                Some(item) => scans(
                    search,
                    mid,
                    next as usize,
                    direction,
                    wildcards,
                    false,
                    out,
                    after,
                ),
            };
        if item is Some {
            lemma_nothing_found(search, mid, next as usize, direction, wildcards, out, after);
        }
    }
}

/// There is a current item just when the last thing that happened to the search was a match: then it is the
/// item that was found. A fresh search has none, nor one that went on and found nothing, nor one whose item
/// was deleted.
pub proof fn the_current_item_is_the_last_match<
    P: HistoryProvider,
    U: Fn(&str) -> String,
    W: Fn(&str, &str) -> bool,
>(
    term: Seq<char>,
    search_type: SearchType,
    flags: SearchFlags,
    starting_index: usize,
    search: SearchState,
    before: History<P>,
    direction: SearchDirection,
    wildcards: Wildcards<U, W>,
    found: bool,
    out: SearchState,
    after: History<P>,
)
    requires
        goes_on(search, before, direction, wildcards, found, out, after),
        search.current_index != last_index(direction),
    ensures
        SearchState::fresh(term, search_type, flags, starting_index).current_item is None,
        search.ended((search.current_index - 1) as usize).current_item is None,
        out.current_item is Some <==> found,
        found ==> exists|earlier: History<P>| #[trigger]
            item_read(earlier, out.current_index as int, out.current_item, after),
{
    if found {
        a_match_lies_further_on(search, before, direction, wildcards, out, after);
    } else {
        a_search_may_find_nothing(search, before, direction, wildcards, out, after);
    }
}

/// `idx` lies between the indexes `from` and `to`, where `to` is further on in the given direction.
pub open spec fn is_between(direction: SearchDirection, from: int, idx: int, to: int) -> bool {
    match direction {
        SearchDirection::Backward => from < idx < to,
        SearchDirection::Forward => to < idx < from,
    }
}

/// `to` is further on than `from` in the given direction.
pub open spec fn is_further(direction: SearchDirection, from: int, to: int) -> bool {
    match direction {
        SearchDirection::Backward => from < to,
        SearchDirection::Forward => to < from,
    }
}

/// A search read an item at `idx`, and went by it: it may not match, or its text was seen.
pub open spec fn is_passed_over<P: HistoryProvider, U: Fn(&str) -> String, W: Fn(&str, &str) -> bool>(
    search: SearchState,
    wildcards: Wildcards<U, W>,
    idx: int,
) -> bool {
    exists|before: History<P>, item: HistoryItem, after: History<P>| #[trigger]
        item_read(before, idx, Some(item), after) && (search.judges(item, wildcards, false) || (
        search.judges(item, wildcards, true) && search.skips(item)))
}

/// Nothing was read at `stop`, or it lies behind the last index there is.
pub open spec fn is_end<P: HistoryProvider>(direction: SearchDirection, stop: int) -> bool {
    ||| direction == SearchDirection::Backward && stop == usize::MAX + 1
    ||| exists|before: History<P>, after: History<P>| #[trigger]
        item_read(before, stop, None, after)
}

/// A search passes over everything between its index and the match that it finds; and if it finds none,
/// everything up to where there is nothing more.
pub proof fn what_lies_between_is_passed_over<
    P: HistoryProvider,
    U: Fn(&str) -> String,
    W: Fn(&str, &str) -> bool,
>(
    search: SearchState,
    before: History<P>,
    direction: SearchDirection,
    wildcards: Wildcards<U, W>,
    found: bool,
    out: SearchState,
    after: History<P>,
)
    requires
        goes_on(search, before, direction, wildcards, found, out, after),
        search.current_index != last_index(direction),
    ensures
        exists|stop: int|
            (if found {
                stop == out.current_index
            } else {
                is_end::<P>(direction, stop)
            }) && is_further(direction, search.current_index as int, stop)
                && #[trigger] all_passed_over::<P, U, W>(
                search,
                direction,
                wildcards,
                search.current_index as int,
                stop,
            ),
{
    lemma_passed_over(
        search,
        before,
        search.current_index,
        direction,
        wildcards,
        found,
        out,
        after,
    );
}

/// Everything between `from` and `to` is passed over.
pub open spec fn all_passed_over<
    P: HistoryProvider,
    U: Fn(&str) -> String,
    W: Fn(&str, &str) -> bool,
>(
    search: SearchState,
    direction: SearchDirection,
    wildcards: Wildcards<U, W>,
    from: int,
    to: int,
) -> bool {
    forall|idx: int|
        is_between(direction, from, idx, to) ==> #[trigger] is_passed_over::<P, U, W>(
            search,
            wildcards,
            idx,
        )
}

proof fn lemma_passed_over<P: HistoryProvider, U: Fn(&str) -> String, W: Fn(&str, &str) -> bool>(
    search: SearchState,
    before: History<P>,
    index: usize,
    direction: SearchDirection,
    wildcards: Wildcards<U, W>,
    found: bool,
    out: SearchState,
    after: History<P>,
)
    requires
        scans(search, before, index, direction, wildcards, found, out, after),
        direction == SearchDirection::Forward ==> index > 0,
    ensures
        exists|stop: int|
            (if found {
                stop == out.current_index
            } else {
                is_end::<P>(direction, stop)
            }) && is_further(direction, index as int, stop) && #[trigger] all_passed_over::<P, U, W>(
                search,
                direction,
                wildcards,
                index as int,
                stop,
            ),
    decreases
            match direction {
                SearchDirection::Backward => usize::MAX - index,
                SearchDirection::Forward => index as int,
            },
{
    if index == last_index(direction) {
        assert(all_passed_over::<P, U, W>(
            search,
            direction,
            wildcards,
            index as int,
            usize::MAX + 1,
        ));
    } else {
        let next = next_index(direction, index);
        let (item, mid) = choose|item: Option<HistoryItem>, mid: History<P>| #[trigger]
            item_read(before, next, item, mid) && match item {
                None => !found,
                Some(item) => {
                    ||| found && out == search.at(item, next as usize)
                    ||| {
                        &&& search.judges(item, wildcards, false) || (search.judges(
                            item,
                            wildcards,
                            true,
                        ) && search.skips(item))
                        &&& scans(
                            search,
                            mid,
                            next as usize,
                            direction,
                            wildcards,
                            found,
                            out,
                            after,
                        )
                    }
                },
            };
        if item is None || (found && out == search.at(item->0, next as usize)) {
            assert(all_passed_over::<P, U, W>(search, direction, wildcards, index as int, next));
        } else {
            lemma_passed_over(
                search,
                mid,
                next as usize,
                direction,
                wildcards,
                found,
                out,
                after,
            );
            let stop = choose|stop: int|
                (if found {
                    stop == out.current_index
                } else {
                    is_end::<P>(direction, stop)
                }) && is_further(direction, next, stop) && #[trigger] all_passed_over::<P, U, W>(search, direction, wildcards, next, stop);
            assert(is_passed_over::<P, U, W>(search, wildcards, next)) by {
                assert(item_read(before, next, Some(item->0), mid));
            }
            assert(all_passed_over::<P, U, W>(search, direction, wildcards, index as int, stop));
        }
    }
}

/// A search found `n` matches in a row, going forward, and stands at the last of them.
pub open spec fn finds_in_a_row<P: HistoryProvider, U: Fn(&str) -> String, W: Fn(&str, &str) -> bool>(
    search: SearchState,
    before: History<P>,
    wildcards: Wildcards<U, W>,
    n: nat,
    last: SearchState,
    after: History<P>,
) -> bool
    decreases n,
{
    if n == 0 {
        last == search && after == before
    } else {
        exists|next: SearchState, mid: History<P>| #[trigger]
            goes_on(
                search,
                before,
                SearchDirection::Forward,
                wildcards,
                true,
                next,
                mid,
            ) && finds_in_a_row(next, mid, wildcards, (n - 1) as nat, last, after)
    }
}

/// A forward search comes to the start of the history, or stops at a match with exactly `value` matches
/// between it and where the search began.
pub proof fn a_forward_search_passes_so_many_matches<
    P: HistoryProvider,
    U: Fn(&str) -> String,
    W: Fn(&str, &str) -> bool,
>(
    search: SearchState,
    before: History<P>,
    wildcards: Wildcards<U, W>,
    value: usize,
    out: SearchState,
    after: History<P>,
)
    requires
        goes_forward(search, before, wildcards, 0, value as int, out, after),
    ensures
        out.current_index <= search.current_index,
        out.seen == Set::<Seq<char>>::empty(),
        out.current_index == 0 || exists|last: SearchState|
            out == forgets(last) && #[trigger] finds_in_a_row(
                search,
                before,
                wildcards,
                (value + 1) as nat,
                last,
                after,
            ),
{
    lemma_goes_forward(search, before, wildcards, 0, value as int, out, after);
}

proof fn lemma_goes_forward<P: HistoryProvider, U: Fn(&str) -> String, W: Fn(&str, &str) -> bool>(
    search: SearchState,
    before: History<P>,
    wildcards: Wildcards<U, W>,
    count: int,
    value: int,
    out: SearchState,
    after: History<P>,
)
    requires
        goes_forward(search, before, wildcards, count, value, out, after),
        count <= value,
    ensures
        out.current_index <= search.current_index,
        out.seen == Set::<Seq<char>>::empty(),
        out.current_index == 0 || exists|last: SearchState|
            out == forgets(last) && #[trigger] finds_in_a_row(
                search,
                before,
                wildcards,
                (value - count + 1) as nat,
                last,
                after,
            ),
    decreases search.current_index,
{
    let (found, next, mid) = choose|found: bool, next: SearchState, mid: History<P>| #[trigger]
        goes_on(
            search,
            before,
            SearchDirection::Forward,
            wildcards,
            found,
            next,
            mid,
        ) && if found && count < value {
            next.current_index < search.current_index && goes_forward(
                next,
                mid,
                wildcards,
                count + 1,
                value,
                out,
                after,
            )
        } else {
            out == forgets(next) && after == mid
        };
    if found {
        a_match_lies_further_on(
            search,
            before,
            SearchDirection::Forward,
            wildcards,
            next,
            mid,
        );
        let n = (value - count + 1) as nat;
        if count < value {
            lemma_goes_forward(next, mid, wildcards, count + 1, value, out, after);
            if out.current_index != 0 {
                let last = choose|last: SearchState|
                    out == forgets(last) && #[trigger] finds_in_a_row(
                        next,
                        mid,
                        wildcards,
                        (n - 1) as nat,
                        last,
                        after,
                    );
                assert(finds_in_a_row(search, before, wildcards, n, last, after));
            }
        } else {
            assert(finds_in_a_row(next, mid, wildcards, 0, next, after));
            assert(finds_in_a_row(search, before, wildcards, n, next, after));
        }
    } else {
        a_search_may_find_nothing(
            search,
            before,
            SearchDirection::Forward,
            wildcards,
            next,
            mid,
        );
    }
}

/// A search that deduplicates does not stop at one text twice in a row, nor later, as long as it does not
/// forget what it has seen.
pub proof fn matches_do_not_repeat<
    P: HistoryProvider,
    U: Fn(&str) -> String,
    W: Fn(&str, &str) -> bool,
>(
    first: SearchState,
    before: History<P>,
    direction: SearchDirection,
    wildcards: Wildcards<U, W>,
    second: SearchState,
    after: History<P>,
)
    requires
        !first.flags.no_dedup,
        first.current_item is Some,
        first.seen.contains(first.current_item->0.text()),
        goes_on(first, before, direction, wildcards, true, second, after),
    ensures
        second.current_item is Some,
        second.current_item->0.text() != first.current_item->0.text(),
        second.seen.contains(first.current_item->0.text()),
        second.seen.contains(second.current_item->0.text()),
{
    a_match_lies_further_on(
        first,
        before,
        direction,
        wildcards,
        second,
        after,
    );
}

/// Begins a search of a history for `search_string`, from the most recent item on.
pub fn start_1_history_search(
    search_type: SearchType,
    search_string: String,
    case_sensitive: bool,
) -> (searcher: HistorySearch)
    ensures
        searcher@ == started_search(search_type, search_string@, case_sensitive),
        searcher@.search_type == search_type,
        searcher@.orig_term == search_string@,
        searcher@.flags.ignore_case == !case_sensitive,
        !searcher@.flags.no_dedup,
        searcher@.current_index == 0,
{
    let mut flags = SearchFlags::empty();
    flags.ignore_case = !case_sensitive;
    HistorySearch::new_with(search_string, search_type, flags, 0)
}

/// A search for `term` that is about to start at the most recent item.
pub open spec fn started_search(
    search_type: SearchType,
    term: Seq<char>,
    case_sensitive: bool,
) -> SearchState {
    SearchState::fresh(
        term,
        search_type,
        (SearchFlags { ignore_case: !case_sensitive, no_dedup: false }),
        0,
    )
}

/// One turn of a search of a history: gives the next match, unless the search was cancelled. The caller
/// does with the match what it is for, and takes the next turn as long as it wants more.
pub fn do_1_history_search<P: HistoryProvider, U: Fn(&str) -> String, W: Fn(&str, &str) -> bool>(
    searcher: &mut HistorySearch,
    history: &mut History<P>,
    wildcards: &Wildcards<U, W>,
    cancelled: bool,
) -> (item: Option<HistoryItem>)
    requires
        wildcards.ready(),
    ensures
        if cancelled {
            item is None && *final(searcher) == *old(searcher) && *final(history) == *old(history)
        } else {
            &&& goes_on(
                old(searcher)@,
                *old(history),
                SearchDirection::Backward,
                *wildcards,
                item is Some,
                final(searcher)@,
                *final(history),
            )
            &&& item is Some ==> item == final(searcher)@.current_item
        },
{
    if cancelled || !searcher.go_to_next_match(history, wildcards, SearchDirection::Backward) {
        return None;
    }
    proof {
        a_match_lies_further_on(
            old(searcher)@,
            *old(history),
            SearchDirection::Backward,
            *wildcards,
            searcher@,
            *history,
        );
    }
    Some(searcher.current_item().clone())
}

impl HistorySearch {
    /// Constructs a new history search.
    pub fn new_with(
        s: String,
        search_type: SearchType,
        flags: SearchFlags,
        starting_index: usize,
    ) -> (search: Self)
        ensures
            search@ == SearchState::fresh(s@, search_type, flags, starting_index),
            search@.search_type == search_type,
            search@.orig_term == s@,
            search@.flags == flags,
            search@.current_index == starting_index,
    {
        let canon_term = if flags.ignore_case {
            to_lowercase(s.as_str())
        } else {
            s.clone()
        };
        HistorySearch {
            orig_term: s,
            canon_term,
            search_type,
            flags,
            current_item: None,
            current_index: starting_index,
            deduper: StringHashSet::new(),
        }
    }

    /// Returns the original search term.
    pub fn original_term(&self) -> (s: &str)
        ensures
            s@ == self@.orig_term,
    {
        self.orig_term.as_str()
    }

    /// Moves the search before its current item, which was deleted.
    pub fn prepare_to_search_after_deletion(&mut self)
        requires
            old(self)@.current_index != 0,
        ensures
            final(self)@ == old(self)@.ended((old(self)@.current_index - 1) as usize),
            final(self)@.current_index == old(self)@.current_index - 1,
            final(self)@.current_item is None,
            final(self)@.seen == old(self)@.seen,
    {
        self.current_index = self.current_index - 1;
        self.current_item = None;
    }

    /// Finds the next search result. Returns `true` if one was found.
    pub fn go_to_next_match<P: HistoryProvider, U: Fn(&str) -> String, W: Fn(&str, &str) -> bool>(
        &mut self,
        history: &mut History<P>,
        wildcards: &Wildcards<U, W>,
        direction: SearchDirection,
    ) -> (found: bool)
        requires
            wildcards.ready(),
        ensures
            goes_on(
                old(self)@,
                *old(history),
                direction,
                *wildcards,
                found,
                final(self)@,
                *final(history),
            ),
    {
        let invalid_index: usize = match direction {
            SearchDirection::Backward => usize::MAX,
            SearchDirection::Forward => 0,
        };
        if self.current_index == invalid_index {
            return false;
        }
        let mut index: usize = self.current_index;
        while index != invalid_index
            invariant
                wildcards.ready(),
                invalid_index == last_index(direction),
                old(self)@.current_index != invalid_index,
                self@ == old(self)@,
                forall|found: bool, out: SearchState, after: History<P>| #[trigger]
                    scans(
                        self@,
                        *history,
                        index,
                        direction,
                        *wildcards,
                        found,
                        out,
                        after,
                    ) ==> scans(
                        old(self)@,
                        *old(history),
                        old(self)@.current_index,
                        direction,
                        *wildcards,
                        found,
                        out,
                        after,
                    ),
            decreases
                    match direction {
                        SearchDirection::Backward => usize::MAX - index,
                        SearchDirection::Forward => index as int,
                    },
        {
            let ghost start = self@;
            let ghost before = *history;
            let ghost last = index;
            // Backwards means increasing our index.
            index = match direction {
                SearchDirection::Backward => index + 1,
                SearchDirection::Forward => index - 1,
            };
            let read = history.item_at_index(index);
            assert(item_read(before, next_index(direction, last), read, *history));
            let ghost mid = *history;
            let item = match read {
                Some(item) => item,
                // We're done if it's empty.
                None => {
                    self.run_out(history, direction);
                    assert(scans(
                        start,
                        before,
                        last,
                        direction,
                        *wildcards,
                        false,
                        self@,
                        *history,
                    ));
                    return false;
                },
            };
            // Look for an item that matches and (if deduping) that we haven't seen before.
            let matched = item.matches_search(
                self.canon_term.as_str(),
                self.search_type,
                !self.ignores_case(),
                wildcards,
            );
            assert(start.judges(item, *wildcards, matched));
            if matched {
                let new = !self.dedup() || self.deduper.insert(item.str().to_owned());
                if new {
                    // This is our new item.
                    self.current_item = Some(item);
                    self.current_index = index;
                    assert(self@ == start.at(item, index));
                    assert(scans(
                        start,
                        before,
                        last,
                        direction,
                        *wildcards,
                        true,
                        self@,
                        *history,
                    ));
                    return true;
                }
                assert(self@.seen =~= start.seen);
            }
            assert(self@ == start);
            assert forall|found: bool, out: SearchState, after: History<P>| #[trigger]
                scans(
                    start,
                    *history,
                    index,
                    direction,
                    *wildcards,
                    found,
                    out,
                    after,
                ) implies scans(
                start,
                before,
                last,
                direction,
                *wildcards,
                found,
                out,
                after,
            ) by {
                assert(item_read(before, next_index(direction, last), Some(item), mid));
            }
        }
        let ghost start = self@;
        let ghost before = *history;
        self.run_out(history, direction);
        assert(scans(start, before, index, direction, *wildcards, false, self@, *history));
        false
    }

    /// There are no more items.
    fn run_out<P: HistoryProvider>(&mut self, history: &mut History<P>, direction: SearchDirection)
        ensures
            ran_out(old(self)@, *old(history), direction, final(self)@, *final(history)),
    {
        self.current_item = None;
        match direction {
            SearchDirection::Forward => {
                self.current_index = 0;
            },
            SearchDirection::Backward => {
                let size = history.size();
                self.current_index = match size {
                    Some(size) => if size < usize::MAX {
                        size + 1
                    } else {
                        usize::MAX
                    },
                    None => usize::MAX,
                };
                assert(size_read(*old(history), size, *history));
            },
        }
    }


    /// Move current index so there is `value` matches in between new and old indexes
    pub fn search_forward<P: HistoryProvider, U: Fn(&str) -> String, W: Fn(&str, &str) -> bool>(
        &mut self,
        history: &mut History<P>,
        wildcards: &Wildcards<U, W>,
        value: usize,
    )
        requires
            wildcards.ready(),
        ensures
            goes_forward(
                old(self)@,
                *old(history),
                *wildcards,
                0,
                value as int,
                final(self)@,
                *final(history),
            ),
    {
        let mut count: usize = 0;
        let mut going = true;
        while going
            invariant
                wildcards.ready(),
                count <= value,
                going ==> forall|out: SearchState, after: History<P>| #[trigger]
                    goes_forward(
                        self@,
                        *history,
                        *wildcards,
                        count as int,
                        value as int,
                        out,
                        after,
                    ) ==> goes_forward(
                        old(self)@,
                        *old(history),
                        *wildcards,
                        0,
                        value as int,
                        out,
                        after,
                    ),
                !going ==> goes_forward(
                    old(self)@,
                    *old(history),
                    *wildcards,
                    0,
                    value as int,
                    forgets(self@),
                    *history,
                ),
            decreases
                    if going {
                        self@.current_index + 1
                    } else {
                        0
                    },
        {
            let ghost before = self@;
            let ghost start = *history;
            let found = self.go_to_next_match(history, wildcards, SearchDirection::Forward);
            proof {
                if found {
                    a_match_lies_further_on(
                        before,
                        start,
                        SearchDirection::Forward,
                        *wildcards,
                        self@,
                        *history,
                    );
                }
            }
            let ghost mid = self@;
            assert(goes_on(
                before,
                start,
                SearchDirection::Forward,
                *wildcards,
                found,
                mid,
                *history,
            ));
            going = found && count < value;
            proof {
                if going {
                    assert forall|out: SearchState, after: History<P>| #[trigger]
                        goes_forward(
                            mid,
                            *history,
                            *wildcards,
                            count + 1,
                            value as int,
                            out,
                            after,
                        ) implies goes_forward(
                        before,
                        start,
                        *wildcards,
                        count as int,
                        value as int,
                        out,
                        after,
                    ) by {}
                } else {
                    assert(goes_forward(
                        before,
                        start,
                        *wildcards,
                        count as int,
                        value as int,
                        forgets(mid),
                        *history,
                    ));
                }
            }
            if going {
                count = count + 1;
            }
        }
        self.deduper.clear();
        assert(self@.seen =~= Set::empty());
    }

    /// Returns the current search result item.
    pub fn current_item(&self) -> (item: &HistoryItem)
        requires
            self@.current_item is Some,
        ensures
            *item == self@.current_item->0,
    {
        self.current_item.as_ref().unwrap()
    }

    pub fn canon_term(&self) -> (s: &str)
        ensures
            s@ == self@.canon_term,
    {
        self.canon_term.as_str()
    }

    /// Returns the current search result item contents.
    pub fn current_string(&self) -> (s: &str)
        requires
            self@.current_item is Some,
        ensures
            s@ == self@.current_item->0.text(),
    {
        self.current_item().str()
    }

    /// Returns the index of the current history item.
    pub fn current_index(&self) -> (index: usize)
        ensures
            index == self@.current_index,
    {
        self.current_index
    }

    /// Returns whether we are case insensitive.
    pub fn ignores_case(&self) -> (yes: bool)
        ensures
            yes == self@.flags.ignore_case,
    {
        self.flags.ignore_case
    }

    /// Returns whether we deduplicate items.
    fn dedup(&self) -> (yes: bool)
        ensures
            yes == !self@.flags.no_dedup,
    {
        !self.flags.no_dedup
    }
}

} // verus!
