//! Searching a history for several terms, and writing out what was found.
//!
//! Asking whether the user cancelled, making the texts that go into a record, and writing are the caller's
//! part: each function here says what to do next, and is told how it went.
use crate::api::HistoryProvider;
use crate::format::{format_history_record, record_text};
use crate::history::History;
use crate::item::HistoryItem;
use crate::search::{
    do_1_history_search, goes_on, start_1_history_search, started_search, HistorySearch,
    SearchDirection, SearchState, SearchType, Wildcards,
};
use crate::text::{opt_text, texts};
use vstd::prelude::*;

verus! {

/// What is said of an empty search term.
pub const EMPTY_TERM: &'static str = "Searching for the empty string isn't allowed";

/// A search for several terms that is under way.
pub struct SearchRun {
    search_type: SearchType,
    terms: Vec<String>,
    case_sensitive: bool,
    null_terminate: bool,
    reverse: bool,
    max_items: usize,
    next_term: usize,
    searcher: HistorySearch,
    remaining: usize,
    collected: Vec<String>,
    output_error: bool,
    phase: SearchPhase,
    formatted: Ghost<Seq<Seq<char>>>,
    offered: Ghost<Seq<Seq<char>>>,
}

/// What a search for several terms waits for.
#[derive(Clone, Copy, Debug, PartialEq, Eq, Structural)]
pub enum SearchPhase {
    /// To hear whether the user cancelled.
    Searching,
    /// For the texts that go into the record of a match.
    Formatting,
    /// To hear whether the record of a match was written.
    Writing,
    /// To hear whether a collected record was written.
    Draining,
    /// For nothing.
    Over,
}

/// How far a search for several terms has come.
#[verifier::ext_equal]
pub struct RunState {
    pub search_type: SearchType,
    pub terms: Seq<Seq<char>>,
    pub case_sensitive: bool,
    pub null_terminate: bool,
    pub reverse: bool,
    /// How many matches may be shown.
    pub max_items: int,
    /// How many of the terms were begun.
    pub next_term: int,
    /// The search for the last of them.
    pub search: SearchState,
    /// How many matches may still be shown.
    pub remaining: int,
    /// The records that are yet to be written out in reverse.
    pub collected: Seq<Seq<char>>,
    pub output_error: bool,
    pub phase: SearchPhase,
    /// All records so far, in the order of the matches.
    pub formatted: Seq<Seq<char>>,
    /// All records that the caller was asked to write.
    pub offered: Seq<Seq<char>>,
}

impl View for SearchRun {
    type V = RunState;

    closed spec fn view(&self) -> RunState {
        RunState {
            search_type: self.search_type,
            terms: texts(self.terms@),
            case_sensitive: self.case_sensitive,
            null_terminate: self.null_terminate,
            reverse: self.reverse,
            max_items: self.max_items as int,
            next_term: self.next_term as int,
            search: self.searcher@,
            remaining: self.remaining as int,
            collected: texts(self.collected@),
            output_error: self.output_error,
            phase: self.phase,
            formatted: self.formatted@,
            offered: self.offered@,
        }
    }
}

/// What is to be done next in a search for several terms.
pub enum SearchStep {
    /// See whether the user cancelled, and continue with [`SearchRun::cancel_checked`].
    CheckCancel { run: SearchRun },
    /// Make the texts that go into the record of `item`: its time, where it is to be shown, and its
    /// command with colors, where they are wanted. Continue with [`SearchRun::item_rendered`].
    Render { run: SearchRun, item: HistoryItem },
    /// Write `record` out, and continue with [`SearchRun::record_written`].
    Output { run: SearchRun, record: String },
    /// Report `message`. The search failed.
    Failed { run: SearchRun, message: String },
    /// The search succeeded.
    Finished { run: SearchRun },
}

/// What a [`SearchStep`] says.
pub enum SearchStepView {
    CheckCancel { run: RunState },
    Render { run: RunState, item: HistoryItem },
    Output { run: RunState, record: Seq<char> },
    Failed { run: RunState, message: Seq<char> },
    Finished { run: RunState },
}

impl View for SearchStep {
    type V = SearchStepView;

    open spec fn view(&self) -> SearchStepView {
        match *self {
            SearchStep::CheckCancel { run } => SearchStepView::CheckCancel { run: run@ },
            SearchStep::Render { run, item } => SearchStepView::Render { run: run@, item },
            SearchStep::Output { run, record } => SearchStepView::Output {
                run: run@,
                record: record@,
            },
            SearchStep::Failed { run, message } => SearchStepView::Failed {
                run: run@,
                message: message@,
            },
            SearchStep::Finished { run } => SearchStepView::Finished { run: run@ },
        }
    }
}

impl SearchStepView {
    /// The search as it is at this step.
    pub open spec fn run(self) -> RunState {
        match self {
            SearchStepView::CheckCancel { run } => run,
            SearchStepView::Render { run, .. } => run,
            SearchStepView::Output { run, .. } => run,
            SearchStepView::Failed { run, .. } => run,
            SearchStepView::Finished { run } => run,
        }
    }
}

impl RunState {
    /// A search that is about to start.
    pub open spec fn fresh(
        search_type: SearchType,
        terms: Seq<Seq<char>>,
        max_items: int,
        case_sensitive: bool,
        null_terminate: bool,
        reverse: bool,
    ) -> RunState {
        RunState {
            search_type,
            terms,
            case_sensitive,
            null_terminate,
            reverse,
            max_items,
            next_term: 0,
            search: started_search(SearchType::Contains, Seq::empty(), true),
            remaining: max_items,
            collected: Seq::empty(),
            output_error: false,
            phase: SearchPhase::Searching,
            formatted: Seq::empty(),
            offered: Seq::empty(),
        }
    }

    /// What is next in a fresh search. If the user had no search terms, everything matches.
    pub open spec fn begin(self) -> SearchStepView {
        if self.terms.len() == 0 {
            SearchStepView::CheckCancel { run: self }
        } else {
            self.next_search()
        }
    }

    /// What is next when the search for a term is over: the search for the next term, which must not be
    /// empty, or writing out what was collected.
    pub open spec fn next_search(self) -> SearchStepView {
        if self.next_term >= self.terms.len() {
            self.drain()
        } else if self.terms[self.next_term].len() == 0 {
            SearchStepView::Failed {
                run: RunState { phase: SearchPhase::Over, ..self },
                message: EMPTY_TERM@,
            }
        } else {
            SearchStepView::CheckCancel {
                run: RunState {
                    search: started_search(
                        self.search_type,
                        self.terms[self.next_term],
                        self.case_sensitive,
                    ),
                    next_term: self.next_term + 1,
                    phase: SearchPhase::Searching,
                    ..self
                },
            }
        }
    }

    /// What is next when all terms were searched for: the last of the collected records is written out,
    /// unless writing failed before.
    pub open spec fn drain(self) -> SearchStepView {
        if self.output_error || self.collected.len() == 0 {
            SearchStepView::Finished { run: RunState { phase: SearchPhase::Over, ..self } }
        } else {
            SearchStepView::Output {
                run: RunState {
                    collected: self.collected.drop_last(),
                    phase: SearchPhase::Draining,
                    offered: self.offered.push(self.collected.last()),
                    ..self
                },
                record: self.collected.last(),
            }
        }
    }

    /// The search with `search` as the search for the term at hand.
    pub open spec fn with_search(self, search: SearchState) -> RunState {
        RunState { search, ..self }
    }

    /// What is next when a turn of the search for the term at hand came to `search` and `item`.
    pub open spec fn turn_taken(
        self,
        search: SearchState,
        item: Option<HistoryItem>,
    ) -> SearchStepView {
        match item {
            Some(item) => if self.remaining == 0 {
                self.with_search(search).next_search()
            } else {
                SearchStepView::Render {
                    run: RunState {
                        remaining: self.remaining - 1,
                        phase: SearchPhase::Formatting,
                        ..self.with_search(search)
                    },
                    item,
                }
            },
            None => self.with_search(search).next_search(),
        }
    }

    /// What is next when the record of a match is `record`: it is collected, or written out immediately.
    pub open spec fn with_record(self, record: Seq<char>) -> SearchStepView {
        if self.reverse {
            SearchStepView::CheckCancel {
                run: RunState {
                    collected: self.collected.push(record),
                    phase: SearchPhase::Searching,
                    formatted: self.formatted.push(record),
                    ..self
                },
            }
        } else {
            SearchStepView::Output {
                run: RunState {
                    phase: SearchPhase::Writing,
                    formatted: self.formatted.push(record),
                    offered: self.offered.push(record),
                    ..self
                },
                record,
            }
        }
    }

    /// What is next when a record was written out, or could not be. The latter ends the search for the
    /// term at hand, and the writing of what was collected.
    pub open spec fn written(self, ok: bool) -> SearchStepView {
        if self.phase == SearchPhase::Draining {
            RunState { output_error: self.output_error || !ok, ..self }.drain()
        } else if ok {
            SearchStepView::CheckCancel { run: RunState { phase: SearchPhase::Searching, ..self } }
        } else {
            RunState { output_error: true, ..self }.next_search()
        }
    }

    /// What holds of every search: each match that was shown counts, and the records are offered in
    /// order, or collected to be offered in reverse.
    pub open spec fn wf(self) -> bool {
        let pending = if self.phase == SearchPhase::Formatting {
            1int
        } else {
            0
        };
        &&& 0 <= self.remaining
        &&& 0 <= self.next_term <= self.terms.len()
        &&& self.formatted.len() + pending + self.remaining == self.max_items
        &&& if self.reverse {
            self.offered + self.collected.reverse() == self.formatted.reverse()
                && self.phase != SearchPhase::Writing && (self.phase == SearchPhase::Searching
                || self.phase == SearchPhase::Formatting ==> self.offered.len() == 0)
        } else {
            self.offered == self.formatted && self.collected.len() == 0 && self.phase
                != SearchPhase::Draining
        }
    }
}

/// When a search is finished, no more matches were shown than asked for, and their records were offered in
/// the order in which they were found, or all in reverse, unless writing failed.
pub proof fn a_finished_search_offered_its_records(run: RunState)
    requires
        run.wf(),
        run.drain() is Finished,
    ensures
        run.formatted.len() <= run.max_items,
        !run.reverse ==> run.offered == run.formatted,
        run.reverse && !run.output_error ==> run.offered == run.formatted.reverse(),
{
    if run.reverse && !run.output_error {
        assert(run.offered + run.collected.reverse() =~= run.offered);
    }
}

impl<P: HistoryProvider> History<P> {
    /// Searches history.
    pub fn search(
        &self,
        search_type: SearchType,
        search_args: Vec<String>,
        max_items: usize,
        case_sensitive: bool,
        null_terminate: bool,
        reverse: bool,
    ) -> (step: SearchStep)
        ensures
            step@ == RunState::fresh(
                search_type,
                texts(search_args@),
                max_items as int,
                case_sensitive,
                null_terminate,
                reverse,
            ).begin(),
            step@.run().wf(),
    {
        let searcher = start_1_history_search(SearchType::Contains, String::new(), true);
        let run = SearchRun {
            search_type,
            terms: search_args,
            case_sensitive,
            null_terminate,
            reverse,
            max_items,
            next_term: 0,
            searcher,
            remaining: max_items,
            collected: Vec::new(),
            output_error: false,
            phase: SearchPhase::Searching,
            formatted: Ghost(Seq::empty()),
            offered: Ghost(Seq::empty()),
        };
        proof {
            assert(run@.collected =~= Seq::empty());
            assert(run@.offered + run@.collected.reverse() =~= run@.formatted.reverse());
            reveal_strlit("");
            assert(""@ =~= Seq::empty());
        }
        if run.terms.len() == 0 {
            // The user had no search terms; just append everything.
            SearchStep::CheckCancel { run }
        } else {
            run.next_search()
        }
    }
}

impl SearchRun {
    /// The search for a term is over.
    fn next_search(self) -> (step: SearchStep)
        requires
            self@.wf(),
            self@.phase == SearchPhase::Searching || self@.phase == SearchPhase::Writing,
        ensures
            step@ == self@.next_search(),
            step@.run().wf(),
    {
        let mut run = self;
        if run.next_term >= run.terms.len() {
            return run.drain();
        }
        assert(run@.terms[run.next_term as int] == run.terms@[run.next_term as int]@);
        if run.terms[run.next_term].as_str().is_empty() {
            run.phase = SearchPhase::Over;
            return SearchStep::Failed { run, message: EMPTY_TERM.to_owned() };
        }
        run.searcher = start_1_history_search(
            run.search_type,
            run.terms[run.next_term].clone(),
            run.case_sensitive,
        );
        run.next_term = run.next_term + 1;
        run.phase = SearchPhase::Searching;
        SearchStep::CheckCancel { run }
    }

    /// All terms were searched for: output any items we collected (which only happens in reverse).
    fn drain(self) -> (step: SearchStep)
        requires
            self@.wf(),
            self@.phase != SearchPhase::Formatting,
        ensures
            step@ == self@.drain(),
            step@.run().wf(),
    {
        let mut run = self;
        let ghost before = run.collected@;
        assert(run@.collected.len() == before.len());
        if run.output_error {
            run.phase = SearchPhase::Over;
            return SearchStep::Finished { run };
        }
        match run.collected.pop() {
            None => {
                run.phase = SearchPhase::Over;
                SearchStep::Finished { run }
            },
            Some(record) => {
                proof {
                    assert(texts(run.collected@) =~= texts(before).drop_last());
                    assert(record@ == texts(before).last());
                    assert(run.offered@.push(record@) + texts(run.collected@).reverse()
                        =~= run.offered@ + texts(before).reverse());
                }
                run.phase = SearchPhase::Draining;
                run.offered = Ghost(run.offered@.push(record@));
                SearchStep::Output { run, record }
            },
        }
    }

    /// The user cancelled, or did not: in that case the search for the term at hand goes on.
    pub fn cancel_checked<P: HistoryProvider, U: Fn(&str) -> String, W: Fn(&str, &str) -> bool>(
        self,
        cancelled: bool,
        history: &mut History<P>,
        wildcards: &Wildcards<U, W>,
    ) -> (step: SearchStep)
        requires
            wildcards.ready(),
            self@.wf(),
            self@.phase == SearchPhase::Searching,
        ensures
            if cancelled {
                step@ == self@.next_search() && *final(history) == *old(history)
            } else {
                exists|search: SearchState, item: Option<HistoryItem>|
                    #![trigger self@.turn_taken(search, item)]
                    goes_on(
                        self@.search,
                        *old(history),
                        SearchDirection::Backward,
                        *wildcards,
                        item is Some,
                        search,
                        *final(history),
                    ) && (item is Some ==> item == search.current_item) && step@
                        == self@.turn_taken(search, item)
            },
            step@.run().wf(),
    {
        let mut run = self;
        let item = do_1_history_search(&mut run.searcher, history, wildcards, cancelled);
        let ghost search = run.searcher@;
        assert(run@ == self@.with_search(search));
        let step = match item {
            Some(item) => {
                if run.remaining == 0 {
                    run.next_search()
                } else {
                    run.remaining = run.remaining - 1;
                    run.phase = SearchPhase::Formatting;
                    SearchStep::Render { run, item }
                }
            },
            None => run.next_search(),
        };
        assert(cancelled ==> self@.with_search(search) == self@);
        assert(!cancelled ==> step@ == self@.turn_taken(search, item));
        step
    }

    /// The texts that go into the record of `item`, which is the one that was asked for, were made.
    pub fn item_rendered(
        self,
        item: &HistoryItem,
        timestamp: Option<String>,
        highlighted: Option<String>,
    ) -> (step: SearchStep)
        requires
            self@.wf(),
            self@.phase == SearchPhase::Formatting,
            self@.search.current_item == Some(*item),
        ensures
            step@ == self@.with_record(
                record_text(
                    item.text(),
                    opt_text(timestamp),
                    opt_text(highlighted),
                    self@.null_terminate,
                ),
            ),
            step@.run().wf(),
    {
        let record = format_history_record(item, timestamp, highlighted, self.null_terminate);
        let mut run = self;
        let ghost made = run.formatted@.push(record@);
        if run.reverse {
            // We need to collect this for later.
            let ghost before = run.collected@;
            proof {
                assert(run.offered@ =~= Seq::empty());
                assert(texts(before).reverse() =~= run.formatted@.reverse());
                assert(texts(before) =~= texts(before).reverse().reverse());
                assert(run.formatted@ =~= run.formatted@.reverse().reverse());
                assert(texts(before.push(record)) =~= texts(before).push(record@));
                assert(run.offered@ + made.reverse() =~= made.reverse());
            }
            run.collected.push(record);
            run.phase = SearchPhase::Searching;
            run.formatted = Ghost(made);
            SearchStep::CheckCancel { run }
        } else {
            // We can output this immediately.
            run.phase = SearchPhase::Writing;
            run.formatted = Ghost(made);
            run.offered = Ghost(run.offered@.push(record@));
            SearchStep::Output { run, record }
        }
    }

    /// The record was written out, or could not be.
    pub fn record_written(self, ok: bool) -> (step: SearchStep)
        requires
            self@.wf(),
            self@.phase == SearchPhase::Writing || self@.phase == SearchPhase::Draining,
        ensures
            step@ == self@.written(ok),
            step@.run().wf(),
    {
        let mut run = self;
        if run.phase == SearchPhase::Draining {
            // Don't force an error if output was aborted (typically via Ctrl-C/SIGINT); just don't
            // try writing any more.
            run.output_error = run.output_error || !ok;
            run.drain()
        } else if ok {
            run.phase = SearchPhase::Searching;
            SearchStep::CheckCancel { run }
        } else {
            // This can happen if the user hit Ctrl-C to abort (maybe after the first page?).
            run.output_error = true;
            run.next_search()
        }
    }
}

} // verus!
