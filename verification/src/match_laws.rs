//! What searches match, and where they stop.
use crate::api::{self, HistoryProvider};
use crate::history::{item_read, History};
use crate::item::{HistoryItem, LocalHistoryItem};
use crate::search::{
    a_match_lies_further_on, a_search_may_find_nothing, contains_pattern, goes_on, last_index,
    may_match, next_index, prefix_pattern, scans, started_search, SearchDirection, SearchFlags,
    SearchState, SearchType, Wildcards,
};
use crate::search_laws::{
    is_consistent, is_made_of, is_unchanging, item_at, lemma_item_read, lemma_ran_out, turn,
};
use crate::text::{
    is_subsequence, lines_begin_behind_newlines, lowercase, occurs, occurs_at, spells,
    what_occurs_has_something_on_both_sides,
};
use vstd::prelude::*;

verus! {

/// A new search looks for the term and in the way that were asked for, in lowercase if it ignores case. It
/// stands at the given index, at no item, and has seen nothing.
pub proof fn a_new_search_looks_for_what_was_asked(
    term: Seq<char>,
    search_type: SearchType,
    flags: SearchFlags,
    starting_index: usize,
)
    ensures
        ({
            let search = SearchState::fresh(term, search_type, flags, starting_index);
            &&& search.search_type == search_type
            &&& search.orig_term == term
            &&& !flags.ignore_case ==> search.canon_term == term
            &&& flags.ignore_case ==> search.canon_term == lowercase(term)
            &&& search.flags == flags
            &&& search.current_item is None
            &&& search.current_index == starting_index
            &&& forall|text: Seq<char>| !search.seen.contains(text)
        }),
{
}

/// A search that is started for the user looks for the term and in the way that were asked for, minding case or
/// not, from the most recent item on, and shows no text twice.
pub proof fn a_started_search_looks_for_what_was_asked(
    search_type: SearchType,
    term: Seq<char>,
    case_sensitive: bool,
)
    ensures
        ({
            let search = started_search(search_type, term, case_sensitive);
            &&& search.search_type == search_type
            &&& search.orig_term == term
            &&& case_sensitive ==> search.canon_term == term
            &&& !case_sensitive ==> search.canon_term == lowercase(term)
            &&& search.flags.ignore_case == !case_sensitive
            &&& !search.flags.no_dedup
            &&& search.current_item is None
            &&& search.current_index == 0
            &&& forall|text: Seq<char>| !search.seen.contains(text)
        }),
{
}

/// A started search may take an item for a match, or not, just when the text of the item may match the term in
/// the way that was asked for, both in lowercase if case does not matter.
pub proof fn a_started_search_judges_by_what_was_asked<
    U: Fn(&str) -> String,
    W: Fn(&str, &str) -> bool,
>(
    search_type: SearchType,
    term: Seq<char>,
    case_sensitive: bool,
    item: HistoryItem,
    wildcards: Wildcards<U, W>,
    yes: bool,
)
    ensures
        started_search(search_type, term, true).judges(item, wildcards, yes) <==> may_match(
            item.text(),
            term,
            search_type,
            wildcards,
            yes,
        ),
        started_search(search_type, term, false).judges(item, wildcards, yes) <==> may_match(
            lowercase(item.text()),
            lowercase(term),
            search_type,
            wildcards,
            yes,
        ),
{
}

/// A text matches a term exactly if it is the term, and as a prefix if it goes on behind the term.
pub proof fn a_prefix_search_looks_at_the_beginning<
    U: Fn(&str) -> String,
    W: Fn(&str, &str) -> bool,
>(text: Seq<char>, term: Seq<char>, wildcards: Wildcards<U, W>, yes: bool)
    ensures
        may_match(text, term, SearchType::Exact, wildcards, yes) <==> yes == (text == term),
        may_match(text, term, SearchType::Prefix, wildcards, yes) <==> yes == (exists|b: Seq<char>|
            text == #[trigger] (term + b)),
{
    if term.is_prefix_of(text) {
        assert(text =~= term + text.skip(term.len() as int));
    }
    if exists|b: Seq<char>| text == #[trigger] (term + b) {
        let b = choose|b: Seq<char>| text == #[trigger] (term + b);
        assert(text.subrange(0, term.len() as int) =~= term);
    }
}

/// A text contains a term if something before it and something behind it make the text.
pub proof fn a_contains_search_looks_anywhere<U: Fn(&str) -> String, W: Fn(&str, &str) -> bool>(
    text: Seq<char>,
    term: Seq<char>,
    wildcards: Wildcards<U, W>,
    yes: bool,
)
    ensures
        may_match(text, term, SearchType::Contains, wildcards, yes) <==> yes == (exists|
            a: Seq<char>,
            b: Seq<char>,
        |
            text == #[trigger] (a + term + b)),
{
    what_occurs_has_something_on_both_sides(text, term, Seq::empty(), Seq::empty());
    if exists|a: Seq<char>, b: Seq<char>| text == #[trigger] (a + term + b) {
        let (a, b) = choose|a: Seq<char>, b: Seq<char>| text == #[trigger] (a + term + b);
        what_occurs_has_something_on_both_sides(text, term, a, b);
    }
}

/// A line of a text begins with the term if the whole text does, or if the term stands behind a newline; a term with
/// a newline begins no line. A text has the term as a subsequence if it spells it.
pub proof fn other_searches_look_at_parts_of_texts<
    U: Fn(&str) -> String,
    W: Fn(&str, &str) -> bool,
>(text: Seq<char>, term: Seq<char>, wildcards: Wildcards<U, W>, yes: bool)
    ensures
        may_match(text, term, SearchType::LinePrefix, wildcards, yes) <==> yes == (!term.contains(
            '\n',
        ) && (term.is_prefix_of(text) || occurs(text, seq!['\n'] + term))),
        may_match(text, term, SearchType::ContainsSubsequence, wildcards, yes) <==> yes
            == is_subsequence(text, term),
{
    lines_begin_behind_newlines(text, term);
}

/// What matches exactly has the term as a prefix, what has it as a prefix contains it, and what contains it has
/// it as a subsequence. A line that begins with the term contains it; and if the term has no newline, a text
/// that begins with it has such a line.
pub proof fn stricter_searches_match_less<U: Fn(&str) -> String, W: Fn(&str, &str) -> bool>(
    text: Seq<char>,
    term: Seq<char>,
    wildcards: Wildcards<U, W>,
)
    ensures
        may_match(text, term, SearchType::Exact, wildcards, true) ==> may_match(
            text,
            term,
            SearchType::Prefix,
            wildcards,
            true,
        ),
        may_match(text, term, SearchType::Prefix, wildcards, true) ==> may_match(
            text,
            term,
            SearchType::Contains,
            wildcards,
            true,
        ),
        may_match(text, term, SearchType::Contains, wildcards, true) ==> may_match(
            text,
            term,
            SearchType::ContainsSubsequence,
            wildcards,
            true,
        ),
        may_match(text, term, SearchType::LinePrefix, wildcards, true) ==> may_match(
            text,
            term,
            SearchType::Contains,
            wildcards,
            true,
        ),
        may_match(text, term, SearchType::Prefix, wildcards, true) && !term.contains('\n')
            ==> may_match(text, term, SearchType::LinePrefix, wildcards, true),
{
    lines_begin_behind_newlines(text, term);
    if term.is_prefix_of(text) {
        assert(text.subrange(0, term.len() as int) =~= term);
        assert(occurs_at(text, term, 0));
    }
    let wanted = seq!['\n'] + term;
    if occurs(text, wanted) {
        let at = choose|at: int| occurs_at(text, wanted, at);
        let part = text.subrange(at, at + wanted.len());
        assert(part.skip(1) =~= term);
        assert(text.subrange(at + 1, at + 1 + term.len()) =~= part.skip(1));
        assert(occurs_at(text, term, at + 1));
    }
    if occurs(text, term) {
        let at = choose|at: int| occurs_at(text, term, at);
        let places = Seq::new(term.len(), |k: int| at + k);
        assert forall|k: int| 0 <= k < places.len() implies 0 <= #[trigger] places[k] < text.len()
            && text[places[k]] == term[k] by {
            assert(text.subrange(at, at + term.len())[k] == term[k]);
        }
        assert(spells(text, term, places));
    }
}

/// A pattern that is to occur anywhere is handed over with the character for any string at both ends, and one
/// that is to begin a text with it at the end; where it stands there already, it is not put there again.
pub proof fn patterns_are_closed_by_any_string(pattern: Seq<char>, any: char)
    ensures
        contains_pattern(Seq::empty(), any) == seq![any],
        prefix_pattern(Seq::empty(), any) == seq![any],
        pattern.len() > 0 ==> contains_pattern(pattern, any) == (if pattern[0] == any {
            Seq::empty()
        } else {
            seq![any]
        }) + pattern + (if pattern.last() == any {
            Seq::empty()
        } else {
            seq![any]
        }),
        pattern.len() > 0 ==> prefix_pattern(pattern, any) == pattern + (if pattern.last() == any {
            Seq::empty()
        } else {
            seq![any]
        }),
        contains_pattern(pattern, any)[0] == any,
        contains_pattern(pattern, any).last() == any,
        prefix_pattern(pattern, any).last() == any,
{
    let none = Seq::<char>::empty();
    assert(seq![any] + none =~= seq![any]);
    assert(none.push(any) =~= seq![any]);
    if pattern.len() > 0 {
        let front = if pattern[0] == any {
            none
        } else {
            seq![any]
        };
        let back = if pattern.last() == any {
            none
        } else {
            seq![any]
        };
        assert(contains_pattern(pattern, any) =~= front + pattern + back);
        assert(prefix_pattern(pattern, any) =~= pattern + back);
    }
}

/// A glob search asks for a match of the text with the pattern that the term stands for, closed at both ends or
/// only at the last, and goes by the answer.
pub proof fn glob_searches_go_by_the_answer<U: Fn(&str) -> String, W: Fn(&str, &str) -> bool>(
    text: Seq<char>,
    term: Seq<char>,
    wildcards: Wildcards<U, W>,
    yes: bool,
)
    ensures
        may_match(text, term, SearchType::ContainsGlob, wildcards, yes) ==> exists|
            t: &str,
            u: String,
            m: &str,
            p: &str,
        |
            t@ == term && #[trigger] call_ensures(wildcards.unescape, (t,), u) && m@ == text && p@
                == contains_pattern(u@, wildcards.any_string) && #[trigger] call_ensures(
                wildcards.wildcard_match,
                (m, p),
                yes,
            ),
        may_match(text, term, SearchType::PrefixGlob, wildcards, yes) ==> exists|
            t: &str,
            u: String,
            m: &str,
            p: &str,
        |
            t@ == term && #[trigger] call_ensures(wildcards.unescape, (t,), u) && m@ == text && p@
                == prefix_pattern(u@, wildcards.any_string) && #[trigger] call_ensures(
                wildcards.wildcard_match,
                (m, p),
                yes,
            ),
{
}

/// Going on does not change what a search looks for. At a match, only its text is seen in addition, and only by
/// a search that deduplicates; without one, nothing is.
pub proof fn a_search_keeps_looking_for_the_same<
    P: HistoryProvider,
    U: Fn(&str) -> String,
    W: Fn(&str, &str) -> bool,
>(
    search: SearchState,
    before: History<P>,
    direction: SearchDirection,
    wildcards: Wildcards<U, W>,
    found: bool,
    out: SearchState,
    after: History<P>,
    text: Seq<char>,
)
    requires
        goes_on(search, before, direction, wildcards, found, out, after),
    ensures
        out.search_type == search.search_type,
        out.orig_term == search.orig_term,
        out.canon_term == search.canon_term,
        out.flags == search.flags,
        found ==> out.current_item is Some,
        found && !search.flags.no_dedup ==> (out.seen.contains(text) <==> search.seen.contains(text)
            || text == out.current_item->0.text()),
        !found || search.flags.no_dedup ==> (out.seen.contains(text) <==> search.seen.contains(
            text,
        )),
{
    if found {
        a_match_lies_further_on(search, before, direction, wildcards, out, after);
    } else {
        a_search_may_find_nothing(search, before, direction, wildcards, out, after);
    }
}

/// The item is one that the search looks for, and that it may show: its text may match, and was not seen, unless
/// the search does not deduplicate.
pub open spec fn is_wanted<U: Fn(&str) -> String, W: Fn(&str, &str) -> bool>(
    search: SearchState,
    wildcards: Wildcards<U, W>,
    item: HistoryItem,
) -> bool {
    &&& may_match(
        if search.flags.ignore_case {
            lowercase(item.text())
        } else {
            item.text()
        },
        search.canon_term,
        search.search_type,
        wildcards,
        true,
    )
    &&& search.flags.no_dedup || !search.seen.contains(item.text())
}

/// There is an item at `idx`, but the search does not want it.
pub open spec fn is_unwanted_at<U: Fn(&str) -> String, W: Fn(&str, &str) -> bool>(
    search: SearchState,
    wildcards: Wildcards<U, W>,
    local: Seq<LocalHistoryItem>,
    items: spec_fn(usize) -> Option<api::HistoryItem>,
    idx: int,
) -> bool {
    item_at(local, items, idx) is Some && !is_wanted(
        search,
        wildcards,
        item_at(local, items, idx)->0,
    )
}

/// In a history that does not change, a search stops at the nearest item in its direction that it wants, if
/// there is one before the items end.
pub proof fn a_search_stops_at_the_nearest_match<
    P: HistoryProvider,
    U: Fn(&str) -> String,
    W: Fn(&str, &str) -> bool,
>(
    local: Seq<LocalHistoryItem>,
    provider: P,
    items: spec_fn(usize) -> Option<api::HistoryItem>,
    size: u64,
    wildcards: Wildcards<U, W>,
    search: SearchState,
    before: History<P>,
    direction: SearchDirection,
    found: bool,
    out: SearchState,
    after: History<P>,
)
    requires
        is_unchanging(provider, items, size),
        is_consistent(wildcards),
        is_made_of(before, local, provider),
        direction == SearchDirection::Backward ==> search.current_index < usize::MAX,
        direction == SearchDirection::Forward ==> search.current_index > 0,
        goes_on(search, before, direction, wildcards, found, out, after),
    ensures
        found && direction == SearchDirection::Backward ==> {
            &&& out.current_index > search.current_index
            &&& forall|idx: int|
                search.current_index < idx < out.current_index ==> #[trigger] is_unwanted_at(
                    search,
                    wildcards,
                    local,
                    items,
                    idx,
                )
        },
        found && direction == SearchDirection::Forward ==> {
            &&& out.current_index < search.current_index
            &&& forall|idx: int|
                out.current_index < idx < search.current_index ==> #[trigger] is_unwanted_at(
                    search,
                    wildcards,
                    local,
                    items,
                    idx,
                )
        },
        found ==> out.current_item is Some && item_at(local, items, out.current_index as int)
            == out.current_item && is_wanted(search, wildcards, out.current_item->0),
        !found && direction == SearchDirection::Backward ==> exists|stop: int|
            search.current_index < stop <= usize::MAX + 1 && (stop <= usize::MAX ==> item_at(
                local,
                items,
                stop,
            ) is None) && #[trigger] none_is_wanted(
                search,
                wildcards,
                local,
                items,
                search.current_index as int,
                stop,
            ),
        !found && direction == SearchDirection::Forward ==> exists|stop: int|
            0 <= stop < search.current_index && item_at(local, items, stop) is None
                && #[trigger] none_is_wanted(
                search,
                wildcards,
                local,
                items,
                stop,
                search.current_index as int,
            ),
        !found ==> out.current_item is None,
        !found && direction == SearchDirection::Backward && local.len() + size < usize::MAX
            ==> out.current_index == local.len() + size + 1,
        !found && direction == SearchDirection::Forward ==> out.current_index == 0,
{
    lemma_nearest(
        local,
        provider,
        items,
        size,
        wildcards,
        search,
        search.current_index,
        before,
        direction,
        found,
        out,
        after,
    );
}

/// No item between `low` and `high` is wanted, but there is one at each index.
pub open spec fn none_is_wanted<U: Fn(&str) -> String, W: Fn(&str, &str) -> bool>(
    search: SearchState,
    wildcards: Wildcards<U, W>,
    local: Seq<LocalHistoryItem>,
    items: spec_fn(usize) -> Option<api::HistoryItem>,
    low: int,
    high: int,
) -> bool {
    forall|idx: int|
        low < idx < high ==> #[trigger] is_unwanted_at(search, wildcards, local, items, idx)
}

proof fn lemma_nearest<P: HistoryProvider, U: Fn(&str) -> String, W: Fn(&str, &str) -> bool>(
    local: Seq<LocalHistoryItem>,
    provider: P,
    items: spec_fn(usize) -> Option<api::HistoryItem>,
    size: u64,
    wildcards: Wildcards<U, W>,
    search: SearchState,
    index: usize,
    before: History<P>,
    direction: SearchDirection,
    found: bool,
    out: SearchState,
    after: History<P>,
)
    requires
        is_unchanging(provider, items, size),
        is_consistent(wildcards),
        is_made_of(before, local, provider),
        direction == SearchDirection::Forward ==> index > 0,
        scans(search, before, index, direction, wildcards, found, out, after),
    ensures
        found && direction == SearchDirection::Backward ==> out.current_index > index
            && none_is_wanted(
            search,
            wildcards,
            local,
            items,
            index as int,
            out.current_index as int,
        ),
        found && direction == SearchDirection::Forward ==> out.current_index < index
            && none_is_wanted(
            search,
            wildcards,
            local,
            items,
            out.current_index as int,
            index as int,
        ),
        found ==> out.current_item is Some && item_at(local, items, out.current_index as int)
            == out.current_item && is_wanted(search, wildcards, out.current_item->0),
        !found && direction == SearchDirection::Backward ==> exists|stop: int|
            index < stop <= usize::MAX + 1 && (stop <= usize::MAX ==> item_at(
                local,
                items,
                stop,
            ) is None) && #[trigger] none_is_wanted(
                search,
                wildcards,
                local,
                items,
                index as int,
                stop,
            ),
        !found && direction == SearchDirection::Forward ==> exists|stop: int|
            0 <= stop < index && item_at(local, items, stop) is None && #[trigger] none_is_wanted(
                search,
                wildcards,
                local,
                items,
                stop,
                index as int,
            ),
        !found ==> out.current_item is None,
        !found && direction == SearchDirection::Backward && local.len() + size < usize::MAX
            ==> out.current_index == local.len() + size + 1,
        !found && direction == SearchDirection::Forward ==> out.current_index == 0,
    decreases
            match direction {
                SearchDirection::Backward => usize::MAX - index,
                SearchDirection::Forward => index as int,
            },
{
    if index == last_index(direction) {
        lemma_ran_out(local, provider, items, size, search, before, direction, out, after);
        assert(none_is_wanted(search, wildcards, local, items, index as int, usize::MAX + 1));
    } else {
        let next = next_index(direction, index);
        let (item, mid) = choose|item: Option<HistoryItem>, mid: History<P>| #[trigger]
            item_read(before, next, item, mid) && turn(
                search,
                item,
                mid,
                next as usize,
                direction,
                wildcards,
                found,
                out,
                after,
            );
        lemma_item_read(local, provider, items, size, before, next, item, mid);
        if item is None {
            lemma_ran_out(local, provider, items, size, search, mid, direction, out, after);
            match direction {
                SearchDirection::Backward => {
                    assert(none_is_wanted(search, wildcards, local, items, index as int, next));
                },
                SearchDirection::Forward => {
                    assert(none_is_wanted(search, wildcards, local, items, next, index as int));
                },
            }
        } else {
            let item = item->0;
            assert(!(search.judges(item, wildcards, true) && search.judges(
                item,
                wildcards,
                false,
            )));
            assert(is_wanted(search, wildcards, item) <==> search.judges(item, wildcards, true)
                && !search.skips(item));
            if !is_wanted(search, wildcards, item) {
                assert(is_unwanted_at(search, wildcards, local, items, next));
                assert(next > 0);
                lemma_nearest(
                    local,
                    provider,
                    items,
                    size,
                    wildcards,
                    search,
                    next as usize,
                    mid,
                    direction,
                    found,
                    out,
                    after,
                );
                match direction {
                    SearchDirection::Backward => {
                        let stop = if found {
                            out.current_index as int
                        } else {
                            choose|stop: int|
                                next < stop <= usize::MAX + 1 && (stop <= usize::MAX ==> item_at(
                                    local,
                                    items,
                                    stop,
                                ) is None) && #[trigger] none_is_wanted(
                                    search,
                                    wildcards,
                                    local,
                                    items,
                                    next,
                                    stop,
                                )
                        };
                        assert(none_is_wanted(
                            search,
                            wildcards,
                            local,
                            items,
                            index as int,
                            stop,
                        ));
                    },
                    SearchDirection::Forward => {
                        let stop = if found {
                            out.current_index as int
                        } else {
                            choose|stop: int|
                                0 <= stop < next && item_at(local, items, stop) is None
                                    && #[trigger] none_is_wanted(
                                    search,
                                    wildcards,
                                    local,
                                    items,
                                    stop,
                                    next,
                                )
                        };
                        assert(none_is_wanted(
                            search,
                            wildcards,
                            local,
                            items,
                            stop,
                            index as int,
                        ));
                    },
                }
            }
        }
    }
}

} // verus!
