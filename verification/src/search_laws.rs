//! What holds of searches in a history that does not change.
use crate::api::{self, HistoryProvider};
use crate::history::{item_read, shared_item, size_read, History};
use crate::item::{HistoryItem, LocalHistoryItem};
use crate::search::{
    goes_on, index_above, last_index, may_match, next_index, ran_out, scans, started_search,
    SearchDirection, SearchState, SearchType, Wildcards,
};
use crate::search_run::{RunState, SearchPhase, SearchStepView};
use vstd::prelude::*;

verus! {

/// Reading does not change the provider: it always gives `items`, and the size `size`.
pub open spec fn is_unchanging<P: HistoryProvider>(
    provider: P,
    items: spec_fn(usize) -> Option<api::HistoryItem>,
    size: u64,
) -> bool {
    &&& forall|idx: usize, out: Option<api::HistoryItem>, after: &P| #[trigger]
        P::item_read(&provider, idx, out, after) ==> *after == provider && out == items(idx)
    &&& forall|out: u64, after: &P| #[trigger]
        P::size_read(&provider, out, after) ==> *after == provider && out == size
}

/// A text that may match does not also fail to.
pub open spec fn is_consistent<U: Fn(&str) -> String, W: Fn(&str, &str) -> bool>(
    wildcards: Wildcards<U, W>,
) -> bool {
    forall|text: Seq<char>, term: Seq<char>, typ: SearchType|
        !(#[trigger] may_match(text, term, typ, wildcards, true) && #[trigger] may_match(
            text,
            term,
            typ,
            wildcards,
            false,
        ))
}

/// What stands at an index of a history with the given local items over an unchanging provider.
pub open spec fn item_at(
    local: Seq<LocalHistoryItem>,
    items: spec_fn(usize) -> Option<api::HistoryItem>,
    idx: int,
) -> Option<HistoryItem> {
    if idx <= 0 {
        None
    } else if idx <= local.len() {
        Some(HistoryItem::LocalHistoryItem(local[local.len() - idx]))
    } else {
        shared_item(items((idx - local.len()) as usize))
    }
}

/// The history has these two parts.
pub open spec fn is_made_of<P: HistoryProvider>(
    history: History<P>,
    local: Seq<LocalHistoryItem>,
    provider: P,
) -> bool {
    history.local_items() == local && history.shared() == provider
}

/// Two searches that start alike in a history that does not change come to the same result.
pub proof fn a_search_has_one_result<
    P: HistoryProvider,
    U: Fn(&str) -> String,
    W: Fn(&str, &str) -> bool,
>(
    local: Seq<LocalHistoryItem>,
    provider: P,
    items: spec_fn(usize) -> Option<api::HistoryItem>,
    size: u64,
    wildcards: Wildcards<U, W>,
    search: SearchState,
    direction: SearchDirection,
    before_a: History<P>,
    found_a: bool,
    out_a: SearchState,
    after_a: History<P>,
    before_b: History<P>,
    found_b: bool,
    out_b: SearchState,
    after_b: History<P>,
)
    requires
        is_unchanging(provider, items, size),
        is_consistent(wildcards),
        is_made_of(before_a, local, provider),
        is_made_of(before_b, local, provider),
        goes_on(search, before_a, direction, wildcards, found_a, out_a, after_a),
        goes_on(search, before_b, direction, wildcards, found_b, out_b, after_b),
    ensures
        found_a == found_b,
        out_a == out_b,
        is_made_of(after_a, local, provider),
        is_made_of(after_b, local, provider),
{
    if search.current_index != last_index(direction) {
        lemma_one_result(
            local,
            provider,
            items,
            size,
            wildcards,
            search,
            search.current_index,
            direction,
            before_a,
            found_a,
            out_a,
            after_a,
            before_b,
            found_b,
            out_b,
            after_b,
        );
    }
}

proof fn lemma_one_result<
    P: HistoryProvider,
    U: Fn(&str) -> String,
    W: Fn(&str, &str) -> bool,
>(
    local: Seq<LocalHistoryItem>,
    provider: P,
    items: spec_fn(usize) -> Option<api::HistoryItem>,
    size: u64,
    wildcards: Wildcards<U, W>,
    search: SearchState,
    index: usize,
    direction: SearchDirection,
    before_a: History<P>,
    found_a: bool,
    out_a: SearchState,
    after_a: History<P>,
    before_b: History<P>,
    found_b: bool,
    out_b: SearchState,
    after_b: History<P>,
)
    requires
        is_unchanging(provider, items, size),
        is_consistent(wildcards),
        is_made_of(before_a, local, provider),
        is_made_of(before_b, local, provider),
        scans(search, before_a, index, direction, wildcards, found_a, out_a, after_a),
        scans(search, before_b, index, direction, wildcards, found_b, out_b, after_b),
    ensures
        found_a == found_b,
        out_a == out_b,
        is_made_of(after_a, local, provider),
        is_made_of(after_b, local, provider),
    decreases
            match direction {
                SearchDirection::Backward => usize::MAX - index,
                SearchDirection::Forward => index as int,
            },
{
    if index == last_index(direction) {
        lemma_ran_out(local, provider, items, size, search, before_a, direction, out_a, after_a);
        lemma_ran_out(local, provider, items, size, search, before_b, direction, out_b, after_b);
    } else {
        let next = next_index(direction, index);
        let (item_a, mid_a) = choose|item: Option<HistoryItem>, mid: History<P>| #[trigger]
            item_read(before_a, next, item, mid) && turn(
                search,
                item,
                mid,
                next as usize,
                direction,
                wildcards,
                found_a,
                out_a,
                after_a,
            );
        let (item_b, mid_b) = choose|item: Option<HistoryItem>, mid: History<P>| #[trigger]
            item_read(before_b, next, item, mid) && turn(
                search,
                item,
                mid,
                next as usize,
                direction,
                wildcards,
                found_b,
                out_b,
                after_b,
            );
        lemma_item_read(local, provider, items, size, before_a, next, item_a, mid_a);
        lemma_item_read(local, provider, items, size, before_b, next, item_b, mid_b);
        match item_a {
            None => {
                lemma_ran_out(local, provider, items, size, search, mid_a, direction, out_a, after_a);
                lemma_ran_out(local, provider, items, size, search, mid_b, direction, out_b, after_b);
            },
            Some(item) => {
                assert(!(search.judges(item, wildcards, true) && search.judges(
                    item,
                    wildcards,
                    false,
                )));
                if scans(search, mid_a, next as usize, direction, wildcards, found_a, out_a, after_a)
                    && scans(
                    search,
                    mid_b,
                    next as usize,
                    direction,
                    wildcards,
                    found_b,
                    out_b,
                    after_b,
                ) {
                    lemma_one_result(
                        local,
                        provider,
                        items,
                        size,
                        wildcards,
                        search,
                        next as usize,
                        direction,
                        mid_a,
                        found_a,
                        out_a,
                        after_a,
                        mid_b,
                        found_b,
                        out_b,
                        after_b,
                    );
                }
            },
        }
    }
}

/// What a search does with what it read at `index`.
pub(crate) open spec fn turn<P: HistoryProvider, U: Fn(&str) -> String, W: Fn(&str, &str) -> bool>(
    search: SearchState,
    item: Option<HistoryItem>,
    mid: History<P>,
    index: usize,
    direction: SearchDirection,
    wildcards: Wildcards<U, W>,
    found: bool,
    out: SearchState,
    after: History<P>,
) -> bool {
    match item {
        None => !found && ran_out(search, mid, direction, out, after),
        Some(item) => {
            ||| {
                &&& search.judges(item, wildcards, true)
                &&& !search.skips(item)
                &&& found
                &&& out == search.at(item, index)
                &&& after == mid
            }
            ||| {
                &&& search.judges(item, wildcards, false) || (search.judges(item, wildcards, true)
                    && search.skips(item))
                &&& scans(search, mid, index, direction, wildcards, found, out, after)
            }
        },
    }
}

/// Reading an unchanging history gives what stands there.
pub(crate) proof fn lemma_item_read<P: HistoryProvider>(
    local: Seq<LocalHistoryItem>,
    provider: P,
    items: spec_fn(usize) -> Option<api::HistoryItem>,
    size: u64,
    before: History<P>,
    idx: int,
    out: Option<HistoryItem>,
    after: History<P>,
)
    requires
        is_unchanging(provider, items, size),
        is_made_of(before, local, provider),
        item_read(before, idx, out, after),
    ensures
        out == item_at(local, items, idx),
        is_made_of(after, local, provider),
{
    if idx > local.len() {
        let shared = choose|shared: Option<api::HistoryItem>| #[trigger]
            P::item_read(
                &before.shared(),
                (idx - local.len()) as usize,
                shared,
                &after.shared(),
            ) && out == shared_item(shared);
        assert(P::item_read(&provider, (idx - local.len()) as usize, shared, &after.shared()));
    }
}

/// The size of a history with so many local and so many shared entries, if a `usize` can hold it.
pub open spec fn whole_size(local: nat, shared: u64) -> Option<usize> {
    if local + shared <= usize::MAX {
        Some((local + shared) as usize)
    } else {
        None
    }
}

/// A search that ran out of items in an unchanging history stands behind its last item, or at its start.
pub(crate) proof fn lemma_ran_out<P: HistoryProvider>(
    local: Seq<LocalHistoryItem>,
    provider: P,
    items: spec_fn(usize) -> Option<api::HistoryItem>,
    size: u64,
    search: SearchState,
    before: History<P>,
    direction: SearchDirection,
    out: SearchState,
    after: History<P>,
)
    requires
        is_unchanging(provider, items, size),
        is_made_of(before, local, provider),
        ran_out(search, before, direction, out, after),
    ensures
        out == search.ended(
            match direction {
                SearchDirection::Backward => index_above(whole_size(local.len(), size)),
                SearchDirection::Forward => 0,
            },
        ),
        is_made_of(after, local, provider),
{
    if direction == SearchDirection::Backward {
        let n = choose|n: Option<usize>| #[trigger]
            size_read(before, n, after) && out == search.ended(index_above(n));
        let shared = choose|shared: u64| #[trigger]
            P::size_read(&before.shared(), shared, &after.shared()) && n == whole_size(
                local.len(),
                shared,
            );
        assert(P::size_read(&provider, shared, &after.shared()));
    }
}

/// Where a search stands that found nothing: a backward one stands one above the size of the history, and a
/// forward one at zero.
pub open spec fn end_index(direction: SearchDirection, local: nat, shared: u64) -> usize {
    match direction {
        SearchDirection::Backward => index_above(whole_size(local, shared)),
        SearchDirection::Forward => 0,
    }
}

/// In a history that does not change, a search that goes on and finds nothing has no current item, and
/// stands behind the end. As long as the history stays as it is, it finds nothing again. Only a provider
/// that has an item beyond its size could give one to a backward search.
pub proof fn a_search_that_found_nothing_finds_nothing<
    P: HistoryProvider,
    U: Fn(&str) -> String,
    W: Fn(&str, &str) -> bool,
>(
    local: Seq<LocalHistoryItem>,
    provider: P,
    items: spec_fn(usize) -> Option<api::HistoryItem>,
    size: u64,
    wildcards: Wildcards<U, W>,
    direction: SearchDirection,
    search: SearchState,
    before: History<P>,
    out: SearchState,
    after: History<P>,
    found: bool,
    again: SearchState,
    at_last: History<P>,
)
    requires
        is_unchanging(provider, items, size),
        is_made_of(before, local, provider),
        search.current_index != last_index(direction),
        goes_on(search, before, direction, wildcards, false, out, after),
        goes_on(out, after, direction, wildcards, found, again, at_last),
    ensures
        out == search.ended(end_index(direction, local.len(), size)),
        found ==> direction == SearchDirection::Backward && item_at(
            local,
            items,
            local.len() + size + 2,
        ) is Some,
{
    lemma_nothing_is_left(
        local,
        provider,
        items,
        size,
        wildcards,
        direction,
        search,
        search.current_index,
        before,
        out,
        after,
    );
    if out.current_index != last_index(direction) {
        let next = next_index(direction, out.current_index);
        let (item, mid) = choose|item: Option<HistoryItem>, mid: History<P>| #[trigger]
            item_read(after, next, item, mid) && turn(
                out,
                item,
                mid,
                next as usize,
                direction,
                wildcards,
                found,
                again,
                at_last,
            );
        lemma_item_read(local, provider, items, size, after, next, item, mid);
    }
}

proof fn lemma_nothing_is_left<
    P: HistoryProvider,
    U: Fn(&str) -> String,
    W: Fn(&str, &str) -> bool,
>(
    local: Seq<LocalHistoryItem>,
    provider: P,
    items: spec_fn(usize) -> Option<api::HistoryItem>,
    size: u64,
    wildcards: Wildcards<U, W>,
    direction: SearchDirection,
    search: SearchState,
    index: usize,
    before: History<P>,
    out: SearchState,
    after: History<P>,
)
    requires
        is_unchanging(provider, items, size),
        is_made_of(before, local, provider),
        scans(search, before, index, direction, wildcards, false, out, after),
    ensures
        out == search.ended(end_index(direction, local.len(), size)),
        is_made_of(after, local, provider),
    decreases
            match direction {
                SearchDirection::Backward => usize::MAX - index,
                SearchDirection::Forward => index as int,
            },
{
    if index == last_index(direction) {
        lemma_ran_out(local, provider, items, size, search, before, direction, out, after);
    } else {
        let next = next_index(direction, index);
        let (item, mid) = choose|item: Option<HistoryItem>, mid: History<P>| #[trigger]
            item_read(before, next, item, mid) && turn(
                search,
                item,
                mid,
                next as usize,
                direction,
                wildcards,
                false,
                out,
                after,
            );
        lemma_item_read(local, provider, items, size, before, next, item, mid);
        if item is None {
            lemma_ran_out(local, provider, items, size, search, mid, direction, out, after);
        } else {
            lemma_nothing_is_left(
                local,
                provider,
                items,
                size,
                wildcards,
                direction,
                search,
                next as usize,
                mid,
                out,
                after,
            );
        }
    }
}

/// A search for several terms that stands at `step` comes to its end within `n` steps, when the user does not
/// cancel and every record can be written. `render` makes the record of a match.
pub open spec fn completes<P: HistoryProvider, U: Fn(&str) -> String, W: Fn(&str, &str) -> bool>(
    step: SearchStepView,
    before: History<P>,
    wildcards: Wildcards<U, W>,
    render: spec_fn(HistoryItem) -> Seq<char>,
    n: nat,
    end: RunState,
) -> bool
    decreases n,
{
    match step {
        SearchStepView::Finished { run } => end == run,
        SearchStepView::Failed { .. } => false,
        SearchStepView::CheckCancel { run } => n > 0 && exists|
            search: SearchState,
            item: Option<HistoryItem>,
            after: History<P>,
        | #[trigger]
            turn_taken(run, before, wildcards, search, item, after) && completes(
                run.turn_taken(search, item),
                after,
                wildcards,
                render,
                (n - 1) as nat,
                end,
            ),
        SearchStepView::Render { run, item } => n > 0 && completes(
            run.with_record(render(item)),
            before,
            wildcards,
            render,
            (n - 1) as nat,
            end,
        ),
        SearchStepView::Output { run, .. } => n > 0 && completes(
            run.written(true),
            before,
            wildcards,
            render,
            (n - 1) as nat,
            end,
        ),
    }
}

/// A turn of the search for the term at hand came to `search` and `item`.
pub open spec fn turn_taken<P: HistoryProvider, U: Fn(&str) -> String, W: Fn(&str, &str) -> bool>(
    run: RunState,
    before: History<P>,
    wildcards: Wildcards<U, W>,
    search: SearchState,
    item: Option<HistoryItem>,
    after: History<P>,
) -> bool {
    &&& goes_on(
        run.search,
        before,
        SearchDirection::Backward,
        wildcards,
        item is Some,
        search,
        after,
    )
    &&& item is Some ==> item == search.current_item
}

/// Two searches are equally far, the first of which collects its records, and the second of which has
/// written them out.
spec fn are_equally_far(reversed: RunState, direct: RunState) -> bool {
    &&& reversed.reverse
    &&& !direct.reverse
    &&& !reversed.output_error
    &&& !direct.output_error
    &&& reversed.phase == SearchPhase::Searching
    &&& direct.phase == SearchPhase::Searching
    &&& reversed.search_type == direct.search_type
    &&& reversed.terms == direct.terms
    &&& reversed.case_sensitive == direct.case_sensitive
    &&& reversed.next_term == direct.next_term
    &&& reversed.search == direct.search
    &&& reversed.remaining == direct.remaining
    &&& reversed.formatted == direct.formatted
    &&& reversed.collected == reversed.formatted
    &&& reversed.offered.len() == 0
    &&& direct.collected.len() == 0
    &&& direct.offered == direct.formatted
}

/// Writing out what was collected offers it in reverse.
proof fn lemma_collected_is_offered<
    P: HistoryProvider,
    U: Fn(&str) -> String,
    W: Fn(&str, &str) -> bool,
>(
    run: RunState,
    before: History<P>,
    wildcards: Wildcards<U, W>,
    render: spec_fn(HistoryItem) -> Seq<char>,
    n: nat,
    end: RunState,
)
    requires
        !run.output_error,
        completes(run.drain(), before, wildcards, render, n, end),
    ensures
        end.formatted == run.formatted,
        end.offered == run.offered + run.collected.reverse(),
    decreases run.collected.len(),
{
    if run.collected.len() > 0 {
        let rest = RunState {
            collected: run.collected.drop_last(),
            phase: SearchPhase::Draining,
            offered: run.offered.push(run.collected.last()),
            ..run
        };
        assert(rest.written(true) == rest.drain());
        lemma_collected_is_offered(rest, before, wildcards, render, (n - 1) as nat, end);
    }
    assert(run.offered + run.collected.reverse() =~= if run.collected.len() > 0 {
        run.offered.push(run.collected.last()) + run.collected.drop_last().reverse()
    } else {
        run.offered
    });
}

proof fn lemma_records_are_reversed<
    P: HistoryProvider,
    U: Fn(&str) -> String,
    W: Fn(&str, &str) -> bool,
>(
    local: Seq<LocalHistoryItem>,
    provider: P,
    items: spec_fn(usize) -> Option<api::HistoryItem>,
    size: u64,
    wildcards: Wildcards<U, W>,
    render: spec_fn(HistoryItem) -> Seq<char>,
    reversed: RunState,
    before_a: History<P>,
    n: nat,
    end_a: RunState,
    direct: RunState,
    before_b: History<P>,
    m: nat,
    end_b: RunState,
)
    requires
        is_unchanging(provider, items, size),
        is_consistent(wildcards),
        is_made_of(before_a, local, provider),
        is_made_of(before_b, local, provider),
        are_equally_far(reversed, direct),
        completes(
            (SearchStepView::CheckCancel { run: reversed }),
            before_a,
            wildcards,
            render,
            n,
            end_a,
        ),
        completes(
            (SearchStepView::CheckCancel { run: direct }),
            before_b,
            wildcards,
            render,
            m,
            end_b,
        ),
    ensures
        end_a.formatted == end_b.formatted,
        end_a.offered == end_b.offered.reverse(),
    decreases n, 0int,
{
    let (search_a, item_a, after_a) = choose|
        search: SearchState,
        item: Option<HistoryItem>,
        after: History<P>,
    | #[trigger]
        turn_taken(reversed, before_a, wildcards, search, item, after) && completes(
            reversed.turn_taken(search, item),
            after,
            wildcards,
            render,
            (n - 1) as nat,
            end_a,
        );
    let (search_b, item_b, after_b) = choose|
        search: SearchState,
        item: Option<HistoryItem>,
        after: History<P>,
    | #[trigger]
        turn_taken(direct, before_b, wildcards, search, item, after) && completes(
            direct.turn_taken(search, item),
            after,
            wildcards,
            render,
            (m - 1) as nat,
            end_b,
        );
    a_search_has_one_result(
        local,
        provider,
        items,
        size,
        wildcards,
        reversed.search,
        SearchDirection::Backward,
        before_a,
        item_a is Some,
        search_a,
        after_a,
        before_b,
        item_b is Some,
        search_b,
        after_b,
    );
    assert(item_a == item_b);
    let a = reversed.with_search(search_a);
    let b = direct.with_search(search_a);
    if item_a is Some && reversed.remaining != 0 {
        let record = render(item_a->0);
        let rendering_a = RunState {
            remaining: a.remaining - 1,
            phase: SearchPhase::Formatting,
            ..a
        };
        let rendering_b = RunState {
            remaining: b.remaining - 1,
            phase: SearchPhase::Formatting,
            ..b
        };
        let next_a = RunState {
            collected: a.collected.push(record),
            phase: SearchPhase::Searching,
            formatted: a.formatted.push(record),
            ..rendering_a
        };
        let writing_b = RunState {
            phase: SearchPhase::Writing,
            formatted: b.formatted.push(record),
            offered: b.offered.push(record),
            ..rendering_b
        };
        let next_b = RunState { phase: SearchPhase::Searching, ..writing_b };
        assert(reversed.turn_taken(search_a, item_a) == (SearchStepView::Render {
            run: rendering_a,
            item: item_a->0,
        }));
        assert(rendering_a.with_record(record) == (SearchStepView::CheckCancel { run: next_a }));
        assert(direct.turn_taken(search_a, item_a) == (SearchStepView::Render {
            run: rendering_b,
            item: item_a->0,
        }));
        assert(rendering_b.with_record(record) == (SearchStepView::Output {
            run: writing_b,
            record,
        }));
        assert(writing_b.written(true) == (SearchStepView::CheckCancel { run: next_b }));
        assert(completes(
            (SearchStepView::CheckCancel { run: next_a }),
            after_a,
            wildcards,
            render,
            (n - 2) as nat,
            end_a,
        ));
        assert(completes(
            (SearchStepView::Output { run: writing_b, record }),
            after_b,
            wildcards,
            render,
            (m - 2) as nat,
            end_b,
        ));
        assert(completes(
            (SearchStepView::CheckCancel { run: next_b }),
            after_b,
            wildcards,
            render,
            (m - 3) as nat,
            end_b,
        ));
        lemma_records_are_reversed(
            local,
            provider,
            items,
            size,
            wildcards,
            render,
            next_a,
            after_a,
            (n - 2) as nat,
            end_a,
            next_b,
            after_b,
            (m - 3) as nat,
            end_b,
        );
    } else {
        lemma_next_terms(
            local,
            provider,
            items,
            size,
            wildcards,
            render,
            a,
            after_a,
            (n - 1) as nat,
            end_a,
            b,
            after_b,
            (m - 1) as nat,
            end_b,
        );
    }
}

proof fn lemma_next_terms<P: HistoryProvider, U: Fn(&str) -> String, W: Fn(&str, &str) -> bool>(
    local: Seq<LocalHistoryItem>,
    provider: P,
    items: spec_fn(usize) -> Option<api::HistoryItem>,
    size: u64,
    wildcards: Wildcards<U, W>,
    render: spec_fn(HistoryItem) -> Seq<char>,
    reversed: RunState,
    before_a: History<P>,
    n: nat,
    end_a: RunState,
    direct: RunState,
    before_b: History<P>,
    m: nat,
    end_b: RunState,
)
    requires
        is_unchanging(provider, items, size),
        is_consistent(wildcards),
        is_made_of(before_a, local, provider),
        is_made_of(before_b, local, provider),
        are_equally_far(reversed, direct),
        completes(reversed.next_search(), before_a, wildcards, render, n, end_a),
        completes(direct.next_search(), before_b, wildcards, render, m, end_b),
    ensures
        end_a.formatted == end_b.formatted,
        end_a.offered == end_b.offered.reverse(),
    decreases n, 1int,
{
    if reversed.next_term >= reversed.terms.len() {
        lemma_collected_is_offered(reversed, before_a, wildcards, render, n, end_a);
        lemma_collected_is_offered(direct, before_b, wildcards, render, m, end_b);
        assert(end_a.offered =~= reversed.formatted.reverse());
        assert(end_b.offered =~= direct.formatted);
    } else {
        lemma_records_are_reversed(
            local,
            provider,
            items,
            size,
            wildcards,
            render,
            reversed.next_search().run(),
            before_a,
            n,
            end_a,
            direct.next_search().run(),
            before_b,
            m,
            end_b,
        );
    }
}

/// Two searches of one unchanging history that differ only in that the first is to show its matches in
/// reverse make the same records, and offer them in opposite orders, when the user does not cancel either
/// of them and every record can be written.
pub proof fn reversing_a_search_reverses_its_records<
    P: HistoryProvider,
    U: Fn(&str) -> String,
    W: Fn(&str, &str) -> bool,
>(
    local: Seq<LocalHistoryItem>,
    provider: P,
    items: spec_fn(usize) -> Option<api::HistoryItem>,
    size: u64,
    wildcards: Wildcards<U, W>,
    render: spec_fn(HistoryItem) -> Seq<char>,
    search_type: SearchType,
    terms: Seq<Seq<char>>,
    max_items: int,
    case_sensitive: bool,
    null_terminate: bool,
    before_a: History<P>,
    n: nat,
    end_a: RunState,
    before_b: History<P>,
    m: nat,
    end_b: RunState,
)
    requires
        is_unchanging(provider, items, size),
        is_consistent(wildcards),
        is_made_of(before_a, local, provider),
        is_made_of(before_b, local, provider),
        completes(
            RunState::fresh(
                search_type,
                terms,
                max_items,
                case_sensitive,
                null_terminate,
                true,
            ).begin(),
            before_a,
            wildcards,
            render,
            n,
            end_a,
        ),
        completes(
            RunState::fresh(
                search_type,
                terms,
                max_items,
                case_sensitive,
                null_terminate,
                false,
            ).begin(),
            before_b,
            wildcards,
            render,
            m,
            end_b,
        ),
    ensures
        end_a.formatted == end_b.formatted,
        end_a.offered == end_b.offered.reverse(),
{
    let reversed = RunState::fresh(
        search_type,
        terms,
        max_items,
        case_sensitive,
        null_terminate,
        true,
    );
    let direct = RunState::fresh(
        search_type,
        terms,
        max_items,
        case_sensitive,
        null_terminate,
        false,
    );
    if terms.len() == 0 {
        lemma_records_are_reversed(
            local,
            provider,
            items,
            size,
            wildcards,
            render,
            reversed,
            before_a,
            n,
            end_a,
            direct,
            before_b,
            m,
            end_b,
        );
    } else {
        lemma_next_terms(
            local,
            provider,
            items,
            size,
            wildcards,
            render,
            reversed,
            before_a,
            n,
            end_a,
            direct,
            before_b,
            m,
            end_b,
        );
    }
}

/// The texts that a search matches behind `index`, up to where there is nothing more.
pub open spec fn matching_texts<U: Fn(&str) -> String, W: Fn(&str, &str) -> bool>(
    local: Seq<LocalHistoryItem>,
    items: spec_fn(usize) -> Option<api::HistoryItem>,
    wildcards: Wildcards<U, W>,
    search: SearchState,
    index: usize,
) -> Set<Seq<char>>
    decreases usize::MAX - index,
{
    if index == usize::MAX {
        Set::empty()
    } else {
        match item_at(local, items, index + 1) {
            None => Set::empty(),
            Some(item) => {
                let rest = matching_texts(local, items, wildcards, search, (index + 1) as usize);
                if search.judges(item, wildcards, true) {
                    rest.insert(item.text())
                } else {
                    rest
                }
            },
        }
    }
}

/// How many texts a search is yet to find.
pub open spec fn matches_left<U: Fn(&str) -> String, W: Fn(&str, &str) -> bool>(
    local: Seq<LocalHistoryItem>,
    items: spec_fn(usize) -> Option<api::HistoryItem>,
    wildcards: Wildcards<U, W>,
    search: SearchState,
) -> nat {
    matching_texts(local, items, wildcards, search, search.current_index).difference(
        search.seen,
    ).len()
}

/// How many texts each of the terms from `k` on matches, all together.
pub open spec fn matches_of_terms<U: Fn(&str) -> String, W: Fn(&str, &str) -> bool>(
    local: Seq<LocalHistoryItem>,
    items: spec_fn(usize) -> Option<api::HistoryItem>,
    wildcards: Wildcards<U, W>,
    run: RunState,
    k: int,
) -> nat
    decreases run.terms.len() - k,
{
    if k >= run.terms.len() || k < 0 {
        0
    } else {
        matches_left(
            local,
            items,
            wildcards,
            started_search(run.search_type, run.terms[k], run.case_sensitive),
        ) + matches_of_terms(local, items, wildcards, run, k + 1)
    }
}

/// The smaller of two numbers.
pub open spec fn smaller(a: int, b: int) -> int {
    if a < b {
        a
    } else {
        b
    }
}

/// What a search matches depends on what it looks for, not on how far it has come.
proof fn lemma_same_matches<U: Fn(&str) -> String, W: Fn(&str, &str) -> bool>(
    local: Seq<LocalHistoryItem>,
    items: spec_fn(usize) -> Option<api::HistoryItem>,
    wildcards: Wildcards<U, W>,
    a: SearchState,
    b: SearchState,
    index: usize,
)
    requires
        a.canon_term == b.canon_term,
        a.search_type == b.search_type,
        a.flags == b.flags,
    ensures
        matching_texts(local, items, wildcards, a, index) == matching_texts(
            local,
            items,
            wildcards,
            b,
            index,
        ),
        matching_texts(local, items, wildcards, a, index).finite(),
    decreases usize::MAX - index,
{
    if index < usize::MAX && item_at(local, items, index + 1) is Some {
        lemma_same_matches(local, items, wildcards, a, b, (index + 1) as usize);
    }
}

/// A turn finds one of the texts that are yet to be found, or there are none.
proof fn lemma_turn_counts<P: HistoryProvider, U: Fn(&str) -> String, W: Fn(&str, &str) -> bool>(
    local: Seq<LocalHistoryItem>,
    provider: P,
    items: spec_fn(usize) -> Option<api::HistoryItem>,
    size: u64,
    wildcards: Wildcards<U, W>,
    search: SearchState,
    index: usize,
    before: History<P>,
    found: bool,
    out: SearchState,
    after: History<P>,
)
    requires
        is_unchanging(provider, items, size),
        is_consistent(wildcards),
        is_made_of(before, local, provider),
        !search.flags.no_dedup,
        scans(
            search,
            before,
            index,
            SearchDirection::Backward,
            wildcards,
            found,
            out,
            after,
        ),
    ensures
        is_made_of(after, local, provider),
        !out.flags.no_dedup,
        found ==> matching_texts(local, items, wildcards, search, index).difference(
            search.seen,
        ).len() == matches_left(local, items, wildcards, out) + 1,
        !found ==> matching_texts(local, items, wildcards, search, index).difference(
            search.seen,
        ).len() == 0,
    decreases usize::MAX - index,
{
    let all = matching_texts(local, items, wildcards, search, index);
    if index == usize::MAX {
        lemma_ran_out(
            local,
            provider,
            items,
            size,
            search,
            before,
            SearchDirection::Backward,
            out,
            after,
        );
        assert(all.difference(search.seen) =~= Set::empty());
    } else {
        let next = next_index(SearchDirection::Backward, index);
        let (item, mid) = choose|item: Option<HistoryItem>, mid: History<P>| #[trigger]
            item_read(before, next, item, mid) && turn(
                search,
                item,
                mid,
                next as usize,
                SearchDirection::Backward,
                wildcards,
                found,
                out,
                after,
            );
        lemma_item_read(local, provider, items, size, before, next, item, mid);
        if item is None {
            lemma_ran_out(
                local,
                provider,
                items,
                size,
                search,
                mid,
                SearchDirection::Backward,
                out,
                after,
            );
            assert(all.difference(search.seen) =~= Set::empty());
        } else {
            let item = item->0;
            let rest = matching_texts(local, items, wildcards, search, next as usize);
            assert(!(search.judges(item, wildcards, true) && search.judges(
                item,
                wildcards,
                false,
            )));
            if search.judges(item, wildcards, true) && !search.skips(item) {
                lemma_same_matches(local, items, wildcards, search, out, next as usize);
                let left = rest.difference(out.seen);
                assert(all.difference(search.seen) =~= left.insert(item.text()));
                assert(!left.contains(item.text()));
            } else {
                lemma_turn_counts(
                    local,
                    provider,
                    items,
                    size,
                    wildcards,
                    search,
                    next as usize,
                    mid,
                    found,
                    out,
                    after,
                );
                assert(all.difference(search.seen) =~= rest.difference(search.seen));
            }
        }
    }
}

/// How many records a search for several terms makes from a step on.
spec fn records_left<U: Fn(&str) -> String, W: Fn(&str, &str) -> bool>(
    local: Seq<LocalHistoryItem>,
    items: spec_fn(usize) -> Option<api::HistoryItem>,
    wildcards: Wildcards<U, W>,
    step: SearchStepView,
) -> int {
    let run = step.run();
    let left = matches_left(local, items, wildcards, run.search) + matches_of_terms(
        local,
        items,
        wildcards,
        run,
        run.next_term,
    );
    match step {
        SearchStepView::CheckCancel { .. } => smaller(run.remaining, left as int),
        SearchStepView::Render { .. } => 1 + smaller(run.remaining, left as int),
        SearchStepView::Output { .. } => if run.phase == SearchPhase::Draining {
            0
        } else {
            smaller(run.remaining, left as int)
        },
        _ => 0,
    }
}

/// Two searches with the same terms have the same matches for them.
proof fn lemma_same_terms<U: Fn(&str) -> String, W: Fn(&str, &str) -> bool>(
    local: Seq<LocalHistoryItem>,
    items: spec_fn(usize) -> Option<api::HistoryItem>,
    wildcards: Wildcards<U, W>,
    a: RunState,
    b: RunState,
    k: int,
)
    requires
        a.terms == b.terms,
        a.search_type == b.search_type,
        a.case_sensitive == b.case_sensitive,
    ensures
        matches_of_terms(local, items, wildcards, a, k) == matches_of_terms(
            local,
            items,
            wildcards,
            b,
            k,
        ),
    decreases a.terms.len() - k,
{
    if 0 <= k < a.terms.len() {
        lemma_same_terms(local, items, wildcards, a, b, k + 1);
    }
}

/// The search for the next term counts with those behind it.
proof fn lemma_next_search_counts<U: Fn(&str) -> String, W: Fn(&str, &str) -> bool>(
    local: Seq<LocalHistoryItem>,
    items: spec_fn(usize) -> Option<api::HistoryItem>,
    wildcards: Wildcards<U, W>,
    run: RunState,
)
    requires
        0 <= run.next_term <= run.terms.len(),
        0 <= run.remaining,
    ensures
        !(run.next_search() is Failed) ==> records_left(
            local,
            items,
            wildcards,
            run.next_search(),
        ) == smaller(
            run.remaining,
            matches_of_terms(local, items, wildcards, run, run.next_term) as int,
        ),
        run.next_search().run().formatted == run.formatted,
{
    let next = run.next_search();
    if run.next_term < run.terms.len() && next is CheckCancel {
        lemma_same_terms(local, items, wildcards, run, next.run(), run.next_term + 1);
    }
}

/// A turn of the search for the term at hand takes one of the records that are left, or ends that search.
#[verifier::rlimit(30)]
proof fn lemma_turn_keeps_the_count<
    P: HistoryProvider,
    U: Fn(&str) -> String,
    W: Fn(&str, &str) -> bool,
>(
    local: Seq<LocalHistoryItem>,
    provider: P,
    items: spec_fn(usize) -> Option<api::HistoryItem>,
    size: u64,
    wildcards: Wildcards<U, W>,
    run: RunState,
    before: History<P>,
    search: SearchState,
    item: Option<HistoryItem>,
    after: History<P>,
)
    requires
        is_unchanging(provider, items, size),
        is_consistent(wildcards),
        is_made_of(before, local, provider),
        is_countable(run),
        turn_taken(run, before, wildcards, search, item, after),
    ensures
        is_made_of(after, local, provider),
        !(run.turn_taken(search, item) is Failed) ==> is_countable(run.turn_taken(search, item).run())
            && run.formatted == run.turn_taken(search, item).run().formatted && records_left(
            local,
            items,
            wildcards,
            (SearchStepView::CheckCancel { run }),
        ) == records_left(local, items, wildcards, run.turn_taken(search, item)),
{
    let index = run.search.current_index;
    if index == usize::MAX {
        assert(matching_texts(local, items, wildcards, run.search, index).difference(
            run.search.seen,
        ) =~= Set::empty());
    } else {
        lemma_turn_counts(
            local,
            provider,
            items,
            size,
            wildcards,
            run.search,
            index,
            before,
            item is Some,
            search,
            after,
        );
    }
    let next = run.with_search(search);
    lemma_same_terms(local, items, wildcards, run, next, run.next_term);
    if item is None || run.remaining == 0 {
        lemma_next_search_counts(local, items, wildcards, next);
    } else {
        lemma_same_terms(
            local,
            items,
            wildcards,
            run,
            run.turn_taken(search, item).run(),
            run.next_term,
        );
    }
}

/// The search is one whose records can be counted: it deduplicates, and its numbers are in range.
spec fn is_countable(run: RunState) -> bool {
    &&& !run.search.flags.no_dedup
    &&& 0 <= run.next_term <= run.terms.len()
    &&& 0 <= run.remaining
}

#[verifier::rlimit(30)]
proof fn lemma_records_are_counted<
    P: HistoryProvider,
    U: Fn(&str) -> String,
    W: Fn(&str, &str) -> bool,
>(
    local: Seq<LocalHistoryItem>,
    provider: P,
    items: spec_fn(usize) -> Option<api::HistoryItem>,
    size: u64,
    wildcards: Wildcards<U, W>,
    render: spec_fn(HistoryItem) -> Seq<char>,
    step: SearchStepView,
    before: History<P>,
    n: nat,
    end: RunState,
)
    requires
        is_unchanging(provider, items, size),
        is_consistent(wildcards),
        is_made_of(before, local, provider),
        is_countable(step.run()),
        completes(step, before, wildcards, render, n, end),
    ensures
        end.formatted.len() == step.run().formatted.len() + records_left(
            local,
            items,
            wildcards,
            step,
        ),
    decreases n,
{
    let run = step.run();
    match step {
        SearchStepView::CheckCancel { .. } => {
            let (search, item, after) = choose|
                search: SearchState,
                item: Option<HistoryItem>,
                after: History<P>,
            | #[trigger]
                turn_taken(run, before, wildcards, search, item, after) && completes(
                    run.turn_taken(search, item),
                    after,
                    wildcards,
                    render,
                    (n - 1) as nat,
                    end,
                );
            lemma_turn_keeps_the_count(
                local,
                provider,
                items,
                size,
                wildcards,
                run,
                before,
                search,
                item,
                after,
            );
            lemma_records_are_counted(
                local,
                provider,
                items,
                size,
                wildcards,
                render,
                run.turn_taken(search, item),
                after,
                (n - 1) as nat,
                end,
            );
        },
        SearchStepView::Render { item, .. } => {
            let next = run.with_record(render(item));
            lemma_same_terms(local, items, wildcards, run, next.run(), run.next_term);
            lemma_records_are_counted(
                local,
                provider,
                items,
                size,
                wildcards,
                render,
                next,
                before,
                (n - 1) as nat,
                end,
            );
        },
        SearchStepView::Output { .. } => {
            let next = run.written(true);
            lemma_same_terms(local, items, wildcards, run, next.run(), run.next_term);
            lemma_records_are_counted(
                local,
                provider,
                items,
                size,
                wildcards,
                render,
                next,
                before,
                (n - 1) as nat,
                end,
            );
        },
        _ => {},
    }
}

/// A search of an unchanging history that comes to its end, when the user does not cancel and every record
/// can be written, makes a record for each text that each of its terms matches, or as many as it may.
/// Without terms, everything matches.
pub proof fn a_search_makes_a_record_for_each_match<
    P: HistoryProvider,
    U: Fn(&str) -> String,
    W: Fn(&str, &str) -> bool,
>(
    local: Seq<LocalHistoryItem>,
    provider: P,
    items: spec_fn(usize) -> Option<api::HistoryItem>,
    size: u64,
    wildcards: Wildcards<U, W>,
    render: spec_fn(HistoryItem) -> Seq<char>,
    run: RunState,
    before: History<P>,
    n: nat,
    end: RunState,
)
    requires
        is_unchanging(provider, items, size),
        is_consistent(wildcards),
        is_made_of(before, local, provider),
        run == RunState::fresh(
            run.search_type,
            run.terms,
            run.max_items,
            run.case_sensitive,
            run.null_terminate,
            run.reverse,
        ),
        0 <= run.max_items,
        completes(run.begin(), before, wildcards, render, n, end),
    ensures
        end.formatted.len() == smaller(
            run.max_items,
            if run.terms.len() == 0 {
                matches_left(
                    local,
                    items,
                    wildcards,
                    started_search(SearchType::Contains, Seq::empty(), true),
                ) as int
            } else {
                matches_of_terms(local, items, wildcards, run, 0) as int
            },
        ),
{
    lemma_next_search_counts(local, items, wildcards, run);
    lemma_records_are_counted(
        local,
        provider,
        items,
        size,
        wildcards,
        render,
        run.begin(),
        before,
        n,
        end,
    );
}

} // verus!
