//! What a search for several terms shows.
use crate::api::{self, HistoryProvider};
use crate::history::{item_read, History};
use crate::item::{HistoryItem, LocalHistoryItem};
use crate::search::{
    may_match, next_index, scans, SearchDirection, SearchState, SearchType, Wildcards,
};
use crate::search_laws::{
    completes, is_consistent, is_made_of, is_unchanging, item_at, lemma_item_read, lemma_ran_out,
    turn, turn_taken,
};
use crate::search_run::{RunState, SearchPhase, SearchStepView};
use crate::text::lowercase;
use vstd::prelude::*;

verus! {

/// The items behind `index`, up to where there is nothing more, whose texts match, each text once, and none of
/// those in `seen`. The term is in lowercase already if case does not matter.
pub open spec fn matches_behind<U: Fn(&str) -> String, W: Fn(&str, &str) -> bool>(
    local: Seq<LocalHistoryItem>,
    items: spec_fn(usize) -> Option<api::HistoryItem>,
    wildcards: Wildcards<U, W>,
    search_type: SearchType,
    term: Seq<char>,
    case_sensitive: bool,
    index: usize,
    seen: Set<Seq<char>>,
) -> Seq<HistoryItem>
    decreases usize::MAX - index,
{
    if index == usize::MAX {
        Seq::empty()
    } else {
        match item_at(local, items, index + 1) {
            None => Seq::empty(),
            Some(item) => {
                let text = if case_sensitive {
                    item.text()
                } else {
                    lowercase(item.text())
                };
                let next = (index + 1) as usize;
                if may_match(text, term, search_type, wildcards, true) && !seen.contains(
                    item.text(),
                ) {
                    seq![item] + matches_behind(
                        local,
                        items,
                        wildcards,
                        search_type,
                        term,
                        case_sensitive,
                        next,
                        seen.insert(item.text()),
                    )
                } else {
                    matches_behind(
                        local,
                        items,
                        wildcards,
                        search_type,
                        term,
                        case_sensitive,
                        next,
                        seen,
                    )
                }
            },
        }
    }
}

/// The matches of each of the terms from `k` on, one term after the other.
pub open spec fn matches_of<U: Fn(&str) -> String, W: Fn(&str, &str) -> bool>(
    local: Seq<LocalHistoryItem>,
    items: spec_fn(usize) -> Option<api::HistoryItem>,
    wildcards: Wildcards<U, W>,
    search_type: SearchType,
    terms: Seq<Seq<char>>,
    case_sensitive: bool,
    k: int,
) -> Seq<HistoryItem>
    decreases terms.len() - k,
{
    if k >= terms.len() || k < 0 {
        Seq::empty()
    } else {
        matches_behind(
            local,
            items,
            wildcards,
            search_type,
            if case_sensitive {
                terms[k]
            } else {
                lowercase(terms[k])
            },
            case_sensitive,
            0,
            Set::empty(),
        ) + matches_of(local, items, wildcards, search_type, terms, case_sensitive, k + 1)
    }
}

/// The first `n` of a list, or all of it if it is shorter.
pub open spec fn first_of(list: Seq<HistoryItem>, n: int) -> Seq<HistoryItem> {
    if list.len() <= n {
        list
    } else {
        list.take(n)
    }
}

/// The records of the items.
pub open spec fn rendered(
    list: Seq<HistoryItem>,
    render: spec_fn(HistoryItem) -> Seq<char>,
) -> Seq<Seq<char>> {
    list.map_values(|item: HistoryItem| render(item))
}

/// The matches that a search is yet to find.
spec fn still_ahead<U: Fn(&str) -> String, W: Fn(&str, &str) -> bool>(
    local: Seq<LocalHistoryItem>,
    items: spec_fn(usize) -> Option<api::HistoryItem>,
    wildcards: Wildcards<U, W>,
    search: SearchState,
    index: usize,
) -> Seq<HistoryItem> {
    matches_behind(
        local,
        items,
        wildcards,
        search.search_type,
        search.canon_term,
        !search.flags.ignore_case,
        index,
        search.seen,
    )
}

/// A turn finds the first of the matches ahead, or there are none.
proof fn lemma_turn_finds_the_first<
    P: HistoryProvider,
    U: Fn(&str) -> String,
    W: Fn(&str, &str) -> bool,
>(
    local: Seq<LocalHistoryItem>,
    provider: P,
    items: spec_fn(usize) -> Option<api::HistoryItem>,
    size: u64,
    wildcards: Wildcards<U, W>,
    search: SearchState,
    index: usize,
    before: History<P>,
    found: bool,
    out: SearchState,
    after: History<P>,
)
    requires
        is_unchanging(provider, items, size),
        is_consistent(wildcards),
        is_made_of(before, local, provider),
        !search.flags.no_dedup,
        scans(
            search,
            before,
            index,
            SearchDirection::Backward,
            wildcards,
            found,
            out,
            after,
        ),
    ensures
        is_made_of(after, local, provider),
        !out.flags.no_dedup,
        found ==> out.current_item is Some && still_ahead(local, items, wildcards, search, index)
            == seq![out.current_item->0] + still_ahead(
            local,
            items,
            wildcards,
            out,
            out.current_index,
        ),
        !found ==> still_ahead(local, items, wildcards, search, index).len() == 0,
    decreases usize::MAX - index,
{
    if index == usize::MAX {
        lemma_ran_out(
            local,
            provider,
            items,
            size,
            search,
            before,
            SearchDirection::Backward,
            out,
            after,
        );
    } else {
        let next = next_index(SearchDirection::Backward, index);
        let (item, mid) = choose|item: Option<HistoryItem>, mid: History<P>| #[trigger]
            item_read(before, next, item, mid) && turn(
                search,
                item,
                mid,
                next as usize,
                SearchDirection::Backward,
                wildcards,
                found,
                out,
                after,
            );
        lemma_item_read(local, provider, items, size, before, next, item, mid);
        if item is None {
            lemma_ran_out(
                local,
                provider,
                items,
                size,
                search,
                mid,
                SearchDirection::Backward,
                out,
                after,
            );
        } else {
            let item = item->0;
            assert(!(search.judges(item, wildcards, true) && search.judges(
                item,
                wildcards,
                false,
            )));
            if !(search.judges(item, wildcards, true) && !search.skips(item)) {
                lemma_turn_finds_the_first(
                    local,
                    provider,
                    items,
                    size,
                    wildcards,
                    search,
                    next as usize,
                    mid,
                    found,
                    out,
                    after,
                );
            }
        }
    }
}

/// The matches that are yet to be shown from a step on.
spec fn yet_to_show<U: Fn(&str) -> String, W: Fn(&str, &str) -> bool>(
    local: Seq<LocalHistoryItem>,
    items: spec_fn(usize) -> Option<api::HistoryItem>,
    wildcards: Wildcards<U, W>,
    step: SearchStepView,
) -> Seq<HistoryItem> {
    let run = step.run();
    let ahead = still_ahead(local, items, wildcards, run.search, run.search.current_index)
        + matches_of(
        local,
        items,
        wildcards,
        run.search_type,
        run.terms,
        run.case_sensitive,
        run.next_term,
    );
    match step {
        SearchStepView::CheckCancel { .. } => first_of(ahead, run.remaining),
        SearchStepView::Render { item, .. } => seq![item] + first_of(ahead, run.remaining),
        SearchStepView::Output { .. } => if run.phase == SearchPhase::Draining {
            Seq::empty()
        } else {
            first_of(ahead, run.remaining)
        },
        _ => Seq::empty(),
    }
}

/// The search is one whose matches are known: it deduplicates, and its numbers are in range.
spec fn is_known(run: RunState) -> bool {
    &&& !run.search.flags.no_dedup
    &&& 0 <= run.next_term <= run.terms.len()
    &&& 0 <= run.remaining
}

/// When the search for a term is over, what is yet to be shown are the matches of the next terms.
proof fn lemma_next_terms_are_ahead<U: Fn(&str) -> String, W: Fn(&str, &str) -> bool>(
    local: Seq<LocalHistoryItem>,
    items: spec_fn(usize) -> Option<api::HistoryItem>,
    wildcards: Wildcards<U, W>,
    run: RunState,
)
    requires
        0 <= run.next_term <= run.terms.len(),
        0 <= run.remaining,
        !run.search.flags.no_dedup,
        !(run.next_search() is Failed),
    ensures
        is_known(run.next_search().run()),
        run.next_search().run().formatted == run.formatted,
        yet_to_show(local, items, wildcards, run.next_search()) == first_of(
            matches_of(
                local,
                items,
                wildcards,
                run.search_type,
                run.terms,
                run.case_sensitive,
                run.next_term,
            ),
            run.remaining,
        ),
{
}

/// A turn of the search for the term at hand takes the first of the matches that are yet to be shown, or ends
/// that search.
proof fn lemma_turn_shows_the_first<
    P: HistoryProvider,
    U: Fn(&str) -> String,
    W: Fn(&str, &str) -> bool,
>(
    local: Seq<LocalHistoryItem>,
    provider: P,
    items: spec_fn(usize) -> Option<api::HistoryItem>,
    size: u64,
    wildcards: Wildcards<U, W>,
    run: RunState,
    before: History<P>,
    search: SearchState,
    item: Option<HistoryItem>,
    after: History<P>,
)
    requires
        is_unchanging(provider, items, size),
        is_consistent(wildcards),
        is_made_of(before, local, provider),
        is_known(run),
        turn_taken(run, before, wildcards, search, item, after),
        !(run.turn_taken(search, item) is Failed),
    ensures
        is_made_of(after, local, provider),
        is_known(run.turn_taken(search, item).run()),
        run.turn_taken(search, item).run().formatted == run.formatted,
        yet_to_show(local, items, wildcards, (SearchStepView::CheckCancel { run })) == yet_to_show(
            local,
            items,
            wildcards,
            run.turn_taken(search, item),
        ),
{
    let index = run.search.current_index;
    let here = still_ahead(local, items, wildcards, run.search, index);
    let later = matches_of(
        local,
        items,
        wildcards,
        run.search_type,
        run.terms,
        run.case_sensitive,
        run.next_term,
    );
    if index < usize::MAX {
        lemma_turn_finds_the_first(
            local,
            provider,
            items,
            size,
            wildcards,
            run.search,
            index,
            before,
            item is Some,
            search,
            after,
        );
    }
    let next = run.with_search(search);
    if item is None || run.remaining == 0 {
        lemma_next_terms_are_ahead(local, items, wildcards, next);
        if item is None {
            assert(here + later =~= later);
        }
        assert(first_of(here + later, run.remaining) =~= first_of(later, run.remaining));
    } else {
        let rest = still_ahead(local, items, wildcards, search, search.current_index);
        assert(here + later =~= seq![item->0] + (rest + later));
        assert(first_of(here + later, run.remaining) =~= seq![item->0] + first_of(
            rest + later,
            run.remaining - 1,
        ));
    }
}

#[verifier::rlimit(30)]
proof fn lemma_matches_are_shown<
    P: HistoryProvider,
    U: Fn(&str) -> String,
    W: Fn(&str, &str) -> bool,
>(
    local: Seq<LocalHistoryItem>,
    provider: P,
    items: spec_fn(usize) -> Option<api::HistoryItem>,
    size: u64,
    wildcards: Wildcards<U, W>,
    render: spec_fn(HistoryItem) -> Seq<char>,
    step: SearchStepView,
    before: History<P>,
    n: nat,
    end: RunState,
)
    requires
        is_unchanging(provider, items, size),
        is_consistent(wildcards),
        is_made_of(before, local, provider),
        is_known(step.run()),
        completes(step, before, wildcards, render, n, end),
    ensures
        end.formatted == step.run().formatted + rendered(
            yet_to_show(local, items, wildcards, step),
            render,
        ),
    decreases n,
{
    let run = step.run();
    let made = rendered(yet_to_show(local, items, wildcards, step), render);
    match step {
        SearchStepView::CheckCancel { .. } => {
            let (search, item, after) = choose|
                search: SearchState,
                item: Option<HistoryItem>,
                after: History<P>,
            | #[trigger]
                turn_taken(run, before, wildcards, search, item, after) && completes(
                    run.turn_taken(search, item),
                    after,
                    wildcards,
                    render,
                    (n - 1) as nat,
                    end,
                );
            lemma_turn_shows_the_first(
                local,
                provider,
                items,
                size,
                wildcards,
                run,
                before,
                search,
                item,
                after,
            );
            lemma_matches_are_shown(
                local,
                provider,
                items,
                size,
                wildcards,
                render,
                run.turn_taken(search, item),
                after,
                (n - 1) as nat,
                end,
            );
        },
        SearchStepView::Render { item, .. } => {
            let next = run.with_record(render(item));
            lemma_matches_are_shown(
                local,
                provider,
                items,
                size,
                wildcards,
                render,
                next,
                before,
                (n - 1) as nat,
                end,
            );
            let rest = yet_to_show(local, items, wildcards, next);
            assert(yet_to_show(local, items, wildcards, step) == seq![item] + rest);
            assert(run.formatted + made =~= next.run().formatted + rendered(rest, render));
        },
        SearchStepView::Output { .. } => {
            let next = run.written(true);
            lemma_matches_are_shown(
                local,
                provider,
                items,
                size,
                wildcards,
                render,
                next,
                before,
                (n - 1) as nat,
                end,
            );
            assert(yet_to_show(local, items, wildcards, next) == yet_to_show(
                local,
                items,
                wildcards,
                step,
            ));
        },
        _ => {
            assert(run.formatted + made =~= run.formatted);
        },
    }
}

/// A search of an unchanging history that comes to its end, when the user does not cancel and every record can be
/// written, shows the matches of its terms, one term after the other, each time from the most recent on and each
/// text once, until it has shown as many as it may. Without terms it shows every text.
pub proof fn a_search_shows_its_matches_in_order<
    P: HistoryProvider,
    U: Fn(&str) -> String,
    W: Fn(&str, &str) -> bool,
>(
    local: Seq<LocalHistoryItem>,
    provider: P,
    items: spec_fn(usize) -> Option<api::HistoryItem>,
    size: u64,
    wildcards: Wildcards<U, W>,
    render: spec_fn(HistoryItem) -> Seq<char>,
    search_type: SearchType,
    terms: Seq<Seq<char>>,
    max_items: int,
    case_sensitive: bool,
    null_terminate: bool,
    reverse: bool,
    before: History<P>,
    n: nat,
    end: RunState,
)
    requires
        is_unchanging(provider, items, size),
        is_consistent(wildcards),
        is_made_of(before, local, provider),
        0 <= max_items,
        completes(
            RunState::fresh(
                search_type,
                terms,
                max_items,
                case_sensitive,
                null_terminate,
                reverse,
            ).begin(),
            before,
            wildcards,
            render,
            n,
            end,
        ),
    ensures
        terms.len() > 0 ==> end.formatted == rendered(
            first_of(
                matches_of(local, items, wildcards, search_type, terms, case_sensitive, 0),
                max_items,
            ),
            render,
        ),
        terms.len() == 0 ==> end.formatted == rendered(
            first_of(
                matches_behind(
                    local,
                    items,
                    wildcards,
                    SearchType::Contains,
                    Seq::empty(),
                    true,
                    0,
                    Set::empty(),
                ),
                max_items,
            ),
            render,
        ),
{
    let run = RunState::fresh(
        search_type,
        terms,
        max_items,
        case_sensitive,
        null_terminate,
        reverse,
    );
    let step = run.begin();
    if terms.len() > 0 {
        lemma_next_terms_are_ahead(local, items, wildcards, run);
    }
    lemma_matches_are_shown(
        local,
        provider,
        items,
        size,
        wildcards,
        render,
        step,
        before,
        n,
        end,
    );
    let shown = yet_to_show(local, items, wildcards, step);
    assert(end.formatted =~= rendered(shown, render));
    if terms.len() == 0 {
        let all = matches_behind(
            local,
            items,
            wildcards,
            SearchType::Contains,
            Seq::empty(),
            true,
            0,
            Set::empty(),
        );
        assert(all + Seq::<HistoryItem>::empty() =~= all);
        assert(shown == first_of(all, max_items));
    }
}

/// Everything behind an index that matches, and whose text was not seen, is listed by its text, as long as there
/// is an item at each index up to it.
pub proof fn every_match_is_listed<U: Fn(&str) -> String, W: Fn(&str, &str) -> bool>(
    local: Seq<LocalHistoryItem>,
    items: spec_fn(usize) -> Option<api::HistoryItem>,
    wildcards: Wildcards<U, W>,
    search_type: SearchType,
    term: Seq<char>,
    case_sensitive: bool,
    index: usize,
    seen: Set<Seq<char>>,
    idx: int,
)
    requires
        index < idx <= usize::MAX,
        forall|i: int| index < i <= idx ==> (#[trigger] item_at(local, items, i)) is Some,
        may_match(
            if case_sensitive {
                item_at(local, items, idx)->0.text()
            } else {
                lowercase(item_at(local, items, idx)->0.text())
            },
            term,
            search_type,
            wildcards,
            true,
        ),
        !seen.contains(item_at(local, items, idx)->0.text()),
    ensures
        exists|k: int|
            0 <= k < matches_behind(
                local,
                items,
                wildcards,
                search_type,
                term,
                case_sensitive,
                index,
                seen,
            ).len() && (#[trigger] matches_behind(
                local,
                items,
                wildcards,
                search_type,
                term,
                case_sensitive,
                index,
                seen,
            )[k]).text() == item_at(local, items, idx)->0.text(),
    decreases usize::MAX - index,
{
    let list = matches_behind(
        local,
        items,
        wildcards,
        search_type,
        term,
        case_sensitive,
        index,
        seen,
    );
    let wanted = item_at(local, items, idx)->0.text();
    let item = item_at(local, items, index + 1)->0;
    assert(item_at(local, items, index + 1) is Some);
    let text = if case_sensitive {
        item.text()
    } else {
        lowercase(item.text())
    };
    let takes = may_match(text, term, search_type, wildcards, true) && !seen.contains(item.text());
    if takes && item.text() == wanted {
        assert(list[0] == item);
    } else {
        let more = if takes {
            seen.insert(item.text())
        } else {
            seen
        };
        let next = (index + 1) as usize;
        assert(idx > next);
        every_match_is_listed(
            local,
            items,
            wildcards,
            search_type,
            term,
            case_sensitive,
            next,
            more,
            idx,
        );
        let rest = matches_behind(
            local,
            items,
            wildcards,
            search_type,
            term,
            case_sensitive,
            next,
            more,
        );
        let k = choose|k: int| 0 <= k < rest.len() && (#[trigger] rest[k]).text() == wanted;
        if takes {
            assert(list[k + 1] == rest[k]);
        }
    }
}

/// What is listed stands behind the index, matches, and has a text that was not seen.
pub proof fn only_matches_are_listed<U: Fn(&str) -> String, W: Fn(&str, &str) -> bool>(
    local: Seq<LocalHistoryItem>,
    items: spec_fn(usize) -> Option<api::HistoryItem>,
    wildcards: Wildcards<U, W>,
    search_type: SearchType,
    term: Seq<char>,
    case_sensitive: bool,
    index: usize,
    seen: Set<Seq<char>>,
    k: int,
)
    requires
        0 <= k < matches_behind(
            local,
            items,
            wildcards,
            search_type,
            term,
            case_sensitive,
            index,
            seen,
        ).len(),
    ensures
        ({
            let item = matches_behind(
                local,
                items,
                wildcards,
                search_type,
                term,
                case_sensitive,
                index,
                seen,
            )[k];
            &&& !seen.contains(item.text())
            &&& may_match(
                if case_sensitive {
                    item.text()
                } else {
                    lowercase(item.text())
                },
                term,
                search_type,
                wildcards,
                true,
            )
            &&& exists|idx: int| idx > index && #[trigger] item_at(local, items, idx) == Some(item)
        }),
    decreases usize::MAX - index,
{
    let list = matches_behind(
        local,
        items,
        wildcards,
        search_type,
        term,
        case_sensitive,
        index,
        seen,
    );
    let item = item_at(local, items, index + 1)->0;
    let text = if case_sensitive {
        item.text()
    } else {
        lowercase(item.text())
    };
    let takes = may_match(text, term, search_type, wildcards, true) && !seen.contains(item.text());
    if takes && k == 0 {
        assert(item_at(local, items, index + 1) == Some(list[0]));
    } else {
        let more = if takes {
            seen.insert(item.text())
        } else {
            seen
        };
        only_matches_are_listed(
            local,
            items,
            wildcards,
            search_type,
            term,
            case_sensitive,
            (index + 1) as usize,
            more,
            if takes {
                k - 1
            } else {
                k
            },
        );
    }
}

/// A search that comes to its end had no empty term.
pub proof fn an_empty_term_fails<P: HistoryProvider, U: Fn(&str) -> String, W: Fn(&str, &str) -> bool>(
    wildcards: Wildcards<U, W>,
    render: spec_fn(HistoryItem) -> Seq<char>,
    step: SearchStepView,
    before: History<P>,
    n: nat,
    end: RunState,
    k: int,
)
    requires
        completes(step, before, wildcards, render, n, end),
        step is CheckCancel || step is Render || (step is Output && step.run().phase
            == SearchPhase::Writing),
        0 <= step.run().next_term <= k < step.run().terms.len(),
    ensures
        step.run().terms[k].len() > 0,
    decreases n,
{
    let run = step.run();
    match step {
        SearchStepView::CheckCancel { .. } => {
            let (search, item, after) = choose|
                search: SearchState,
                item: Option<HistoryItem>,
                after: History<P>,
            | #[trigger]
                turn_taken(run, before, wildcards, search, item, after) && completes(
                    run.turn_taken(search, item),
                    after,
                    wildcards,
                    render,
                    (n - 1) as nat,
                    end,
                );
            let next = run.turn_taken(search, item);
            if next.run().next_term <= k {
                an_empty_term_fails(wildcards, render, next, after, (n - 1) as nat, end, k);
            }
        },
        SearchStepView::Render { item, .. } => {
            an_empty_term_fails(
                wildcards,
                render,
                run.with_record(render(item)),
                before,
                (n - 1) as nat,
                end,
                k,
            );
        },
        _ => {
            an_empty_term_fails(
                wildcards,
                render,
                run.written(true),
                before,
                (n - 1) as nat,
                end,
                k,
            );
        },
    }
}

/// The search for a term that is begun next is one for that term, of the type and with the regard to case that
/// were asked for. An empty term fails, with a message; behind the last term nothing more is searched for.
pub proof fn terms_are_searched_for_in_order(run: RunState)
    requires
        0 <= run.next_term <= run.terms.len(),
    ensures
        ({
            let step = run.next_search();
            let k = run.next_term;
            &&& k < run.terms.len() && run.terms[k].len() == 0 ==> step is Failed && step->message
                == "Searching for the empty string isn't allowed"@
            &&& k < run.terms.len() && run.terms[k].len() > 0 ==> {
                &&& step is CheckCancel
                &&& step.run().next_term == k + 1
                &&& step.run().phase == SearchPhase::Searching
                &&& step.run().search.search_type == run.search_type
                &&& step.run().search.orig_term == run.terms[k]
                &&& step.run().search.flags.ignore_case == !run.case_sensitive
                &&& !step.run().search.flags.no_dedup
                &&& step.run().search.current_index == 0
                &&& step.run().remaining == run.remaining
                &&& step.run().collected == run.collected
                &&& step.run().offered == run.offered
            }
            &&& k == run.terms.len() ==> step is Finished || step is Output
            &&& step.run().formatted == run.formatted
            &&& step.run().terms == run.terms
            &&& step.run().search_type == run.search_type
            &&& step.run().case_sensitive == run.case_sensitive
        }),
{
}

/// A match is rendered as long as more may be shown, and one fewer may be from then on. Otherwise the search for
/// the term is over.
pub proof fn a_match_is_rendered_while_more_may_be_shown(
    run: RunState,
    search: SearchState,
    item: HistoryItem,
)
    ensures
        run.remaining != 0 ==> {
            let step = run.turn_taken(search, Some(item));
            &&& step is Render
            &&& step->item == item
            &&& step.run().remaining == run.remaining - 1
            &&& step.run().search == search
            &&& step.run().formatted == run.formatted
            &&& step.run().offered == run.offered
        },
        run.remaining == 0 ==> !(run.turn_taken(search, Some(item)) is Render),
        !(run.turn_taken(search, None) is Render),
{
}

/// A record is offered at once, or, where the order is to be reversed, kept for later; it is the last of the
/// records so far.
pub proof fn a_record_is_offered_or_collected(run: RunState, record: Seq<char>)
    ensures
        ({
            let step = run.with_record(record);
            &&& step.run().formatted == run.formatted.push(record)
            &&& step.run().search == run.search
            &&& step.run().remaining == run.remaining
            &&& run.reverse ==> step is CheckCancel && step.run().collected == run.collected.push(
                record,
            ) && step.run().offered == run.offered
            &&& !run.reverse ==> step is Output && step->record == record && step.run().offered
                == run.offered.push(record) && step.run().collected == run.collected
        }),
{
}

/// After a record that could not be written, nothing that was collected is offered; a search that was writing out
/// what it collected is finished, and any other goes on with its next term, if it has one. After a record that was
/// written the search goes on.
pub proof fn a_failed_write_is_the_last(run: RunState)
    ensures
        run.phase == SearchPhase::Draining ==> run.written(false) is Finished && run.written(
            false,
        ).run().offered == run.offered,
        run.phase == SearchPhase::Writing ==> run.written(false).run().output_error && run.written(
            false,
        ).run().offered == run.offered && !(run.written(false) is Output),
        run.phase == SearchPhase::Writing && 0 <= run.next_term < run.terms.len()
            && run.terms[run.next_term].len() > 0 ==> run.written(false) is CheckCancel
            && run.written(false).run().next_term == run.next_term + 1 && run.written(
            false,
        ).run().search.orig_term == run.terms[run.next_term],
        run.phase == SearchPhase::Writing && 0 <= run.next_term < run.terms.len()
            && run.terms[run.next_term].len() == 0 ==> run.written(false) is Failed,
        run.phase == SearchPhase::Writing && run.next_term == run.terms.len() ==> run.written(
            false,
        ) is Finished,
        run.phase == SearchPhase::Writing ==> run.written(true) is CheckCancel && run.written(
            true,
        ).run().search == run.search && run.written(true).run().output_error == run.output_error,
        run.phase == SearchPhase::Draining && !run.output_error && run.collected.len() > 0
            ==> run.written(true) is Output && run.written(true)->record == run.collected.last()
            && run.written(true).run().collected == run.collected.drop_last(),
{
}

} // verus!
