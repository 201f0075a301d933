use fish_history::api::{self, get_history_by_index, HistoryProvider};
use fish_history::history::History;
use fish_history::item::{HistoryItem, LocalHistoryItem, PersistenceMode};
use fish_history::search::{
    do_1_history_search, start_1_history_search, HistorySearch, SearchDirection, SearchFlags,
    SearchType, Wildcards,
};
use fish_history::search_run::{SearchStep, EMPTY_TERM};
use fish_history::timestamp::Timestamp;

struct Mock {
    items: Vec<api::HistoryItem>,
}

impl HistoryProvider for Mock {
    fn name(&self) -> &str {
        "fish"
    }
    fn item_at_index(&mut self, idx: usize) -> Option<api::HistoryItem> {
        if idx == 0 || idx > self.items.len() {
            None
        } else {
            Some(self.items[self.items.len() - idx].clone())
        }
    }
    fn get_history(&mut self) -> Vec<api::HistoryItem> {
        get_history_by_index(self)
    }
    fn add(&mut self, item: api::HistoryItem) {
        self.items.push(item);
    }
    fn remove(&mut self, _s: &str) {}
    fn clear(&mut self) {}
    fn size(&mut self) -> u64 {
        self.items.len() as u64
    }
    fn is_empty(&mut self) -> bool {
        self.items.is_empty()
    }
    fn save(&mut self) {}
}

/// Oldest first.
fn history_of(texts: &[&str]) -> History<Mock> {
    let mut history = History::new(Mock { items: vec![] });
    for (i, text) in texts.iter().enumerate() {
        history.add_shared_no_file_detection(text.to_string(), Timestamp::from_secs(i as i64));
    }
    history
}

fn matches_pattern(text: &[char], pattern: &[char]) -> bool {
    match pattern.first() {
        None => text.is_empty(),
        Some('%') => (0..=text.len()).any(|i| matches_pattern(&text[i..], &pattern[1..])),
        Some(c) => text.first() == Some(c) && matches_pattern(&text[1..], &pattern[1..]),
    }
}

fn wildcard_match(text: &str, pattern: &str) -> bool {
    let text: Vec<char> = text.chars().collect();
    let pattern: Vec<char> = pattern.chars().collect();
    matches_pattern(&text, &pattern)
}

fn unescape(term: &str) -> String {
    term.replace('*', "%")
}

fn wildcards() -> Wildcards<fn(&str) -> String, fn(&str, &str) -> bool> {
    Wildcards { any_string: '%', unescape, wildcard_match }
}

fn item(text: &str) -> HistoryItem {
    HistoryItem::from(LocalHistoryItem::new(
        text.to_string(),
        Timestamp { nanos: 0 },
        PersistenceMode::Memory,
    ))
}

fn matched(text: &str, term: &str, typ: SearchType) -> bool {
    item(text).matches_search(term, typ, true, &wildcards())
}

fn found_texts(history: &mut History<Mock>, mut search: HistorySearch) -> Vec<String> {
    let mut out = vec![];
    while search.go_to_next_match(history, &wildcards(), SearchDirection::Backward) {
        out.push(search.current_string().to_string());
    }
    out
}

#[test]
fn each_search_type_matches_its_own_way() {
    assert!(matched("foo", "foo", SearchType::Exact));
    assert!(!matched("foo bar", "foo", SearchType::Exact));
    assert!(matched("foo bar", "o b", SearchType::Contains));
    assert!(matched("foo bar", "", SearchType::Contains));
    assert!(!matched("foo bar", "ob", SearchType::Contains));
    assert!(matched("foo bar", "foo", SearchType::Prefix));
    assert!(!matched("foo bar", "bar", SearchType::Prefix));
    assert!(matched("foo\nbar", "bar", SearchType::LinePrefix));
    assert!(matched("foo\nbar", "fo", SearchType::LinePrefix));
    assert!(!matched("foo\nbar", "ar", SearchType::LinePrefix));
    assert!(!matched("foo\nbar", "foo\nb", SearchType::LinePrefix));
    assert!(matched("foo bar", "fbr", SearchType::ContainsSubsequence));
    assert!(!matched("foo bar", "bf", SearchType::ContainsSubsequence));
    assert!(matched("foo bar", "o*a", SearchType::ContainsGlob));
    assert!(!matched("foo bar", "a*o", SearchType::ContainsGlob));
    assert!(matched("foo bar", "f*b", SearchType::PrefixGlob));
    assert!(!matched("foo bar", "o*b", SearchType::PrefixGlob));
    assert!(matched("foo", "*", SearchType::ContainsGlob));
    assert!(matched("", "", SearchType::ContainsGlob));
}

#[test]
fn case_is_ignored_on_demand() {
    let wildcards = wildcards();
    assert!(item("FOO Bar").matches_search("foo b", SearchType::Prefix, false, &wildcards));
    assert!(!item("FOO Bar").matches_search("foo b", SearchType::Prefix, true, &wildcards));
    assert!(!item("FOO Bar").matches_search("FOO", SearchType::Prefix, false, &wildcards));
    assert!(item("ÀÉ").matches_search("àé", SearchType::Exact, false, &wildcards));
    // A character may have a lowercase mapping of several characters.
    assert!(item("İ").matches_search("i\u{307}", SearchType::Exact, false, &wildcards));
    let flags = SearchFlags { ignore_case: true, no_dedup: false };
    let search = HistorySearch::new_with("FoO".to_string(), SearchType::Contains, flags, 0);
    assert_eq!(search.original_term(), "FoO");
    assert_eq!(search.canon_term(), "foo");
    assert!(search.ignores_case());
    let search =
        HistorySearch::new_with("FoO".to_string(), SearchType::Contains, SearchFlags::empty(), 0);
    assert_eq!(search.canon_term(), "FoO");
    assert!(!search.ignores_case());
}

#[test]
fn backward_search_finds_the_most_recent_first() {
    let mut history = history_of(&["foo 1", "bar", "foo 2", "foo 1"]);
    let search =
        HistorySearch::new_with("foo".to_string(), SearchType::Contains, SearchFlags::empty(), 0);
    assert_eq!(found_texts(&mut history, search), ["foo 1", "foo 2"]);
    let flags = SearchFlags { ignore_case: false, no_dedup: true };
    let search = HistorySearch::new_with("foo".to_string(), SearchType::Contains, flags, 0);
    assert_eq!(found_texts(&mut history, search), ["foo 1", "foo 2", "foo 1"]);
}

#[test]
fn searches_move_by_index() {
    let mut history = history_of(&["foo 1", "bar", "foo 2"]);
    let wildcards = wildcards();
    let mut search =
        HistorySearch::new_with("foo".to_string(), SearchType::Contains, SearchFlags::empty(), 0);
    assert!(!search.go_to_next_match(&mut history, &wildcards, SearchDirection::Forward));
    assert_eq!(search.current_index(), 0);
    assert!(search.go_to_next_match(&mut history, &wildcards, SearchDirection::Backward));
    assert_eq!(search.current_index(), 1);
    assert_eq!(search.current_item().str(), "foo 2");
    assert!(search.go_to_next_match(&mut history, &wildcards, SearchDirection::Backward));
    assert_eq!(search.current_index(), 3);
    assert_eq!(search.current_string(), "foo 1");
    assert!(!search.go_to_next_match(&mut history, &wildcards, SearchDirection::Backward));
    assert_eq!(search.current_index(), 4);
    // Both texts were seen, so the way back finds neither.
    assert!(!search.go_to_next_match(&mut history, &wildcards, SearchDirection::Forward));
    assert_eq!(search.current_index(), 0);
    let mut last =
        HistorySearch::new_with("foo".to_string(), SearchType::Contains, SearchFlags::empty(), usize::MAX);
    assert!(!last.go_to_next_match(&mut history, &wildcards, SearchDirection::Backward));
    assert_eq!(last.current_index(), usize::MAX);
}

#[test]
fn searching_goes_on_after_a_deletion() {
    let mut history = history_of(&["foo 1", "foo 2"]);
    let wildcards = wildcards();
    let mut search =
        HistorySearch::new_with("foo".to_string(), SearchType::Contains, SearchFlags::empty(), 0);
    assert!(search.go_to_next_match(&mut history, &wildcards, SearchDirection::Backward));
    search.prepare_to_search_after_deletion();
    assert_eq!(search.current_index(), 0);
}

#[test]
fn forward_search_leaves_so_many_matches_between() {
    let mut history = history_of(&["a1", "a2", "b", "a3", "a4", "a5"]);
    let wildcards = wildcards();
    let mut search =
        HistorySearch::new_with("a".to_string(), SearchType::Contains, SearchFlags::empty(), 6);
    search.search_forward(&mut history, &wildcards, 1);
    assert_eq!(search.current_index(), 3);
    assert_eq!(search.current_string(), "a3");
    // What was seen is forgotten.
    search.search_forward(&mut history, &wildcards, 0);
    assert_eq!(search.current_index(), 2);
    search.search_forward(&mut history, &wildcards, 9);
    assert_eq!(search.current_index(), 0);
}

#[test]
fn forward_search_counts_matches_without_deduplication() {
    let mut history = history_of(&["x1", "x2", "x3", "x4", "x5"]);
    let wildcards = wildcards();
    for no_dedup in [false, true] {
        let flags = SearchFlags { ignore_case: false, no_dedup };
        let mut search = HistorySearch::new_with("x".to_string(), SearchType::Contains, flags, 5);
        search.search_forward(&mut history, &wildcards, 2);
        assert_eq!(search.current_index(), 2);
        assert_eq!(search.current_string(), "x4");
    }
    let mut same = history_of(&["x", "x", "x", "x"]);
    let flags = SearchFlags { ignore_case: false, no_dedup: true };
    let mut search = HistorySearch::new_with("x".to_string(), SearchType::Exact, flags, 4);
    search.search_forward(&mut same, &wildcards, 1);
    assert_eq!(search.current_index(), 2);
}

#[test]
fn a_search_that_found_nothing_stays_behind_the_end() {
    let mut history = history_of(&["a", "b"]);
    let wildcards = wildcards();
    let mut search =
        HistorySearch::new_with("x".to_string(), SearchType::Contains, SearchFlags::empty(), 0);
    for _ in 0..2 {
        assert!(!search.go_to_next_match(&mut history, &wildcards, SearchDirection::Backward));
        assert_eq!(search.current_index(), 3);
    }
    for _ in 0..2 {
        assert!(!search.go_to_next_match(&mut history, &wildcards, SearchDirection::Forward));
        assert_eq!(search.current_index(), 0);
    }
}

#[test]
fn a_search_has_an_item_just_after_a_match() {
    let mut history = history_of(&["a", "x", "b"]);
    let wildcards = wildcards();
    let mut search =
        HistorySearch::new_with("x".to_string(), SearchType::Exact, SearchFlags::empty(), 0);
    // The item at index 1 is passed over.
    assert!(search.go_to_next_match(&mut history, &wildcards, SearchDirection::Backward));
    assert_eq!((search.current_index(), search.current_string()), (2, "x"));
    assert!(!search.go_to_next_match(&mut history, &wildcards, SearchDirection::Backward));
    assert_eq!(search.current_index(), 4);
}

#[test]
fn a_search_makes_a_record_for_each_distinct_match() {
    let mut history = history_of(&["ab", "b", "a", "ab", "a"]);
    for max_items in 0..8 {
        // "a" matches two texts, and so does "b".
        let (written, _) = run(&mut history, SearchType::Contains, &["a", "b"], max_items, false, 9);
        assert_eq!(written.len(), max_items.min(4));
        let (written, _) = run(&mut history, SearchType::Exact, &[], max_items, true, 9);
        assert_eq!(written.len(), max_items.min(3));
    }
}

#[test]
fn a_reversed_search_writes_the_same_records_backwards() {
    let mut history = history_of(&["a1", "b1", "a2", "c", "b2", "a3"]);
    for max_items in 0..6 {
        let (mut forth, _) = run(&mut history, SearchType::Prefix, &["a", "b"], max_items, false, 9);
        let (back, _) = run(&mut history, SearchType::Prefix, &["a", "b"], max_items, true, 9);
        forth.reverse();
        assert_eq!(back, forth);
    }
}

#[test]
fn a_turn_gives_the_next_match_unless_cancelled() {
    let mut history = history_of(&["Foo", "bar", "foo"]);
    let wildcards = wildcards();
    let mut search = start_1_history_search(SearchType::Exact, "FOO".to_string(), false);
    assert!(do_1_history_search(&mut search, &mut history, &wildcards, true).is_none());
    let first = do_1_history_search(&mut search, &mut history, &wildcards, false);
    assert_eq!(first.unwrap().str(), "foo");
    let second = do_1_history_search(&mut search, &mut history, &wildcards, false);
    assert_eq!(second.unwrap().str(), "Foo");
    assert!(do_1_history_search(&mut search, &mut history, &wildcards, false).is_none());
}

/// Runs a search; writing fails from the given number of writes on. The result is what was written, and
/// the error, if any.
fn run(
    history: &mut History<Mock>,
    typ: SearchType,
    terms: &[&str],
    max_items: usize,
    reverse: bool,
    writes: usize,
) -> (Vec<String>, Option<String>) {
    let wildcards = wildcards();
    let terms = terms.iter().map(|term| term.to_string()).collect();
    let mut written = vec![];
    let mut step = history.search(typ, terms, max_items, true, false, reverse);
    loop {
        step = match step {
            SearchStep::CheckCancel { run } => run.cancel_checked(false, history, &wildcards),
            SearchStep::Render { run, item } => run.item_rendered(&item, None, None),
            SearchStep::Output { run, record } => {
                let ok = written.len() < writes;
                if ok {
                    written.push(record);
                }
                run.record_written(ok)
            }
            SearchStep::Failed { message, .. } => return (written, Some(message)),
            SearchStep::Finished { .. } => return (written, None),
        }
    }
}

#[test]
fn a_search_without_terms_shows_everything() {
    let mut history = history_of(&["a", "b", "a"]);
    let (written, error) = run(&mut history, SearchType::Exact, &[], 10, false, 10);
    assert_eq!(written, ["a\n", "b\n"]);
    assert!(error.is_none());
    let (written, _) = run(&mut history, SearchType::Exact, &[], 10, true, 10);
    assert_eq!(written, ["b\n", "a\n"]);
}

#[test]
fn a_search_shows_no_more_than_asked_for() {
    let mut history = history_of(&["a1", "a2", "a3", "b1"]);
    let (written, _) = run(&mut history, SearchType::Prefix, &["a"], 2, false, 10);
    assert_eq!(written, ["a3\n", "a2\n"]);
    let (written, _) = run(&mut history, SearchType::Prefix, &["a"], 2, true, 10);
    assert_eq!(written, ["a2\n", "a3\n"]);
    let (written, _) = run(&mut history, SearchType::Prefix, &["a", "b"], 4, false, 10);
    assert_eq!(written, ["a3\n", "a2\n", "a1\n", "b1\n"]);
    let (written, _) = run(&mut history, SearchType::Prefix, &["a"], 0, false, 10);
    assert!(written.is_empty());
}

#[test]
fn an_empty_term_fails_the_search() {
    let mut history = history_of(&["a1", "b1"]);
    let (written, error) = run(&mut history, SearchType::Prefix, &["a", ""], 5, false, 10);
    assert_eq!(written, ["a1\n"]);
    assert_eq!(error.unwrap(), EMPTY_TERM);
    assert_eq!(EMPTY_TERM, "Searching for the empty string isn't allowed");
    let (written, error) = run(&mut history, SearchType::Prefix, &["a", ""], 5, true, 10);
    assert!(written.is_empty());
    assert!(error.is_some());
}

#[test]
fn a_failed_write_ends_the_term_but_not_the_search() {
    let mut history = history_of(&["a1", "a2", "b1"]);
    let (written, error) = run(&mut history, SearchType::Prefix, &["a", "b"], 5, false, 1);
    assert_eq!(written, ["a2\n"]);
    assert!(error.is_none());
    let (written, error) = run(&mut history, SearchType::Prefix, &["a"], 5, true, 1);
    assert_eq!(written, ["a1\n"]);
    assert!(error.is_none());
}

#[test]
fn a_cancelled_search_goes_on_with_the_next_term() {
    let mut history = history_of(&["a1", "b1"]);
    let wildcards = wildcards();
    let terms = vec!["a".to_string(), "b".to_string()];
    let step = history.search(SearchType::Prefix, terms, 5, true, true, false);
    let step = match step {
        SearchStep::CheckCancel { run } => run.cancel_checked(true, &mut history, &wildcards),
        _ => panic!("expected a question"),
    };
    let step = match step {
        SearchStep::CheckCancel { run } => run.cancel_checked(false, &mut history, &wildcards),
        _ => panic!("expected a question"),
    };
    let step = match step {
        SearchStep::Render { run, item } => {
            assert_eq!(item.str(), "b1");
            run.item_rendered(&item, Some("now ".to_string()), Some("<b1>".to_string()))
        }
        _ => panic!("expected a match"),
    };
    let step = match step {
        SearchStep::Output { run, record } => {
            assert_eq!(record, "now <b1>\0");
            run.record_written(true)
        }
        _ => panic!("expected a record"),
    };
    match step {
        SearchStep::CheckCancel { run } => {
            assert!(matches!(
                run.cancel_checked(true, &mut history, &wildcards),
                SearchStep::Finished { .. }
            ));
        }
        _ => panic!("expected a question"),
    }
}
