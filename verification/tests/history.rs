use fish_history::api::{
    self, get_history_by_index, get_history_up_to, is_empty_by_size, HistoryProvider,
};
use fish_history::commands::{find_potential_paths, NodeKind, StatementDecoration};
use fish_history::history::{
    answer_indexes, file_detection_finished, merge_newest_first, merge_texts, total_size,
    FileDetection, History,
};
use fish_history::item::{HistoryItem, LocalHistoryItem, PersistenceMode};
use fish_history::path_utils::DetectedPaths;
use fish_history::registry::{save_all, with_name, Histories};
use fish_history::required_paths_cache::{get, insert, RequiredPathsCache};
use fish_history::timestamp::Timestamp;
use std::sync::atomic::{AtomicUsize, Ordering};
use std::sync::Arc;

struct Mock {
    name: String,
    items: Vec<api::HistoryItem>,
    saves: Arc<AtomicUsize>,
}

impl Mock {
    fn new(name: &str) -> (Self, Arc<AtomicUsize>) {
        let saves = Arc::new(AtomicUsize::new(0));
        (Mock { name: name.to_string(), items: vec![], saves: saves.clone() }, saves)
    }
}

impl HistoryProvider for Mock {
    fn name(&self) -> &str {
        &self.name
    }
    fn item_at_index(&mut self, idx: usize) -> Option<api::HistoryItem> {
        if idx == 0 || idx > self.items.len() {
            None
        } else {
            Some(self.items[self.items.len() - idx].clone())
        }
    }
    fn get_history(&mut self) -> Vec<api::HistoryItem> {
        get_history_by_index(self)
    }
    fn add(&mut self, item: api::HistoryItem) {
        self.items.push(item);
    }
    fn remove(&mut self, s: &str) {
        self.items.retain(|item| item.str() != s);
    }
    fn clear(&mut self) {
        self.items.clear();
    }
    fn size(&mut self) -> u64 {
        self.items.len() as u64
    }
    fn is_empty(&mut self) -> bool {
        is_empty_by_size(self)
    }
    fn save(&mut self) {
        self.saves.fetch_add(1, Ordering::SeqCst);
    }
}

fn at(secs: i64) -> Timestamp {
    Timestamp::from_secs(secs)
}

fn memory(text: &str, secs: i64) -> LocalHistoryItem {
    LocalHistoryItem::new(text.to_string(), at(secs), PersistenceMode::Memory)
}

fn ephemeral(text: &str, secs: i64) -> LocalHistoryItem {
    LocalHistoryItem::new(text.to_string(), at(secs), PersistenceMode::Ephemeral)
}

fn history_of(shared: &[&str], local: &[&str]) -> History<Mock> {
    let (provider, _) = Mock::new("fish");
    let mut history = History::new(provider);
    for (i, text) in shared.iter().enumerate() {
        history.add_shared_no_file_detection(text.to_string(), at(i as i64));
    }
    for (i, text) in local.iter().enumerate() {
        history.add_local(memory(text, 100 + i as i64), &vec![]);
    }
    history
}

fn texts(history: &mut History<Mock>) -> Vec<String> {
    let mut out = vec![];
    let mut idx = 1;
    while let Some(item) = history.item_at_index(idx) {
        out.push(item.into_str());
        idx += 1;
    }
    out
}

fn argument(source: &str) -> NodeKind {
    NodeKind::Argument { source: source.to_string() }
}

fn statement(decoration: StatementDecoration, command: &str, unescaped: Option<&str>) -> NodeKind {
    NodeKind::DecoratedStatement {
        decoration,
        command: command.to_string(),
        unescaped: unescaped.map(|text| text.to_string()),
    }
}

#[test]
fn provider_defaults_go_through_the_items() {
    let (mut provider, _) = Mock::new("fish");
    assert!(provider.is_empty());
    assert_eq!(get_history_by_index(&mut provider).len(), 0);
    provider.add(api::HistoryItem::new("a".to_string(), at(1)));
    provider.add(api::HistoryItem::new("b".to_string(), at(2)));
    let all = provider.get_history();
    assert_eq!(all.len(), 2);
    assert_eq!(all[0].str(), "b");
    assert_eq!(all[1].str(), "a");
    assert!(!provider.is_empty());
}

#[test]
fn local_items_stand_before_shared_ones() {
    let mut history = history_of(&["s1", "s2"], &["l1", "l2"]);
    assert_eq!(texts(&mut history), ["l2", "l1", "s2", "s1"]);
    assert!(history.item_at_index(0).is_none());
    assert!(history.item_at_index(5).is_none());
    assert!(history.item_at_index(usize::MAX).is_none());
    assert!(matches!(history.item_at_index(2), Some(HistoryItem::LocalHistoryItem(_))));
    assert!(matches!(history.item_at_index(3), Some(HistoryItem::SharedHistoryItem(_))));
    assert_eq!(history.size(), Some(4));
}

#[test]
fn the_whole_history_lists_each_text_once() {
    let mut history = history_of(&["a", "b", "a"], &["b", "c"]);
    assert_eq!(history.get_history(), ["c", "b", "a"]);
    let distinct = history_of(&["a", "b"], &["c"]).get_history();
    assert_eq!(distinct, ["c", "b", "a"]);
    assert_eq!(merge_texts(&vec![], &vec![]), Vec::<String>::new());
}

#[test]
fn indexes_are_answered_but_zero() {
    let mut history = history_of(&["s"], &["l"]);
    let out = history.items_at_indexes(vec![2, 0, 1, 9, 2]);
    assert_eq!(out.len(), 3);
    assert_eq!(out[&1], "l");
    assert_eq!(out[&2], "s");
    assert_eq!(out[&9], "");
    assert!(!out.contains_key(&0));
    assert!(history.items_at_indexes(vec![]).is_empty());
    assert!(history.items_at_indexes(vec![0]).is_empty());
}

#[test]
fn index_one_is_the_most_recent_command() {
    let (provider, _) = Mock::new("fish");
    let mut history = History::new(provider);
    history.add_local(memory("m", 1), &vec![]);
    history.add_shared_no_file_detection("s".to_string(), at(2));
    assert_eq!(history.items_at_indexes(vec![1])[&1], "s");
    history.add_local(memory("n", 3), &vec![]);
    history.add_shared_no_file_detection("t".to_string(), at(3));
    let out = history.items_at_indexes(vec![4, 3, 2, 1, usize::MAX]);
    assert_eq!([&out[&1], &out[&2], &out[&3], &out[&4]], ["n", "t", "s", "m"]);
    assert_eq!(out[&usize::MAX], "");
}

#[test]
fn items_of_both_parts_go_back_in_time() {
    let local = vec![memory("a", 1), memory("c", 3), memory("e", 5)];
    let shared = vec![
        api::HistoryItem::new("d".to_string(), at(4)),
        api::HistoryItem::new("b".to_string(), at(2)),
    ];
    let items = merge_newest_first(&local, &shared);
    let texts: Vec<&str> = items.iter().map(|item| item.str()).collect();
    assert_eq!(texts, ["e", "d", "c", "b", "a"]);
    assert!(merge_newest_first(&vec![], &vec![]).is_empty());
    let (mut provider, _) = Mock::new("fish");
    let out = answer_indexes(&mut provider, &vec![5, 6], &items, 3);
    assert_eq!(out[&5], "a");
    assert_eq!(out[&6], "");
}

/// Has entries at 1 and 3, and none at 2.
struct Gappy;

impl HistoryProvider for Gappy {
    fn name(&self) -> &str {
        "gappy"
    }
    fn item_at_index(&mut self, idx: usize) -> Option<api::HistoryItem> {
        match idx {
            1 => Some(api::HistoryItem::new("one".to_string(), at(10))),
            3 => Some(api::HistoryItem::new("three".to_string(), at(5))),
            _ => None,
        }
    }
    fn get_history(&mut self) -> Vec<api::HistoryItem> {
        get_history_by_index(self)
    }
    fn add(&mut self, _item: api::HistoryItem) {}
    fn remove(&mut self, _s: &str) {}
    fn clear(&mut self) {}
    fn size(&mut self) -> u64 {
        3
    }
    fn is_empty(&mut self) -> bool {
        false
    }
    fn save(&mut self) {}
}

#[test]
fn an_index_behind_a_gap_is_answered() {
    let mut history = History::new(Gappy);
    let out = history.items_at_indexes(vec![3, 2, 1, 4]);
    assert_eq!([&out[&1], &out[&2], &out[&3], &out[&4]], ["one", "", "three", ""]);
    history.add_local(memory("m", 1), &vec![]);
    let out = history.items_at_indexes(vec![4, 3, 2, 1]);
    assert_eq!([&out[&1], &out[&2], &out[&3], &out[&4]], ["one", "m", "", "three"]);
}

#[test]
fn so_many_entries_are_read_as_asked_for() {
    let (mut provider, _) = Mock::new("fish");
    for text in ["a", "b", "c"] {
        provider.add(api::HistoryItem::new(text.to_string(), at(1)));
    }
    let texts = |items: Vec<api::HistoryItem>| -> Vec<String> {
        items.into_iter().map(|item| item.into_str()).collect()
    };
    assert_eq!(texts(get_history_up_to(&mut provider, 2)), ["c", "b"]);
    assert_eq!(texts(get_history_up_to(&mut provider, 9)), ["c", "b", "a"]);
    assert!(get_history_up_to(&mut provider, 0).is_empty());
}

#[test]
fn sizes_add_up_or_do_not_fit() {
    assert_eq!(total_size(2, 3), Some(5));
    assert_eq!(total_size(usize::MAX, 1), None);
    assert_eq!(total_size(0, u64::MAX), Some(usize::MAX));
}

#[test]
fn the_default_name_is_recognized() {
    let (fish, _) = Mock::new("fish");
    let (other, _) = Mock::new("other");
    let fish = History::new(fish);
    let other = History::new(other);
    assert_eq!(fish.name(), "fish");
    assert!(fish.is_default());
    assert!(!other.is_default());
}

#[test]
fn emptiness_is_that_of_the_provider() {
    let mut history = history_of(&[], &["l"]);
    assert!(history.is_empty());
    history.add_shared_no_file_detection("s".to_string(), at(1));
    assert!(!history.is_empty());
}

#[test]
fn removing_a_text_keeps_the_others() {
    let mut history = history_of(&["a", "b"], &["b", "c", "a"]);
    history.remove("a");
    assert_eq!(texts(&mut history), ["c", "b", "b"]);
    history.remove("nothing");
    assert_eq!(texts(&mut history), ["c", "b", "b"]);
}

#[test]
fn clearing_leaves_nothing() {
    let mut history = history_of(&["a"], &["b"]);
    history.clear();
    assert_eq!(history.size(), Some(0));
    assert!(texts(&mut history).is_empty());
}

#[test]
fn local_items_like_the_last_are_merged() {
    let mut history = history_of(&[], &["a"]);
    assert!(history.add_local(memory("a", 500), &vec![argument("/tmp")]).is_none());
    assert_eq!(history.size(), Some(1));
    assert_eq!(history.item_at_index(1).unwrap().get_timestamp(), at(500));
    history.add_local(memory("", 600), &vec![]);
    assert_eq!(history.size(), Some(1));
    history.add_local(memory("b", 600), &vec![]);
    assert_eq!(texts(&mut history), ["b", "a"]);
}

#[test]
fn ephemeral_items_go_when_another_is_added() {
    let mut history = history_of(&["s"], &["a"]);
    history.add_local(ephemeral(" secret", 200), &vec![]);
    assert_eq!(texts(&mut history), [" secret", "a", "s"]);
    history.add_local(ephemeral(" secret", 300), &vec![]);
    assert_eq!(texts(&mut history), [" secret", "a", "s"]);
    assert_eq!(history.item_at_index(1).unwrap().get_timestamp(), at(300));
    history.add_local(ephemeral(" other", 400), &vec![]);
    assert_eq!(texts(&mut history), [" other", "a", "s"]);
    history.add_local(memory("b", 500), &vec![]);
    assert_eq!(texts(&mut history), ["b", "a", "s"]);
    history.add_local(ephemeral(" once", 600), &vec![]);
    history.add_shared("t".to_string(), at(700), &vec![]);
    assert_eq!(texts(&mut history), ["b", "a", "t", "s"]);
    history.add_local(ephemeral(" once", 800), &vec![]);
    history.remove_ephemeral_items();
    assert_eq!(texts(&mut history), ["b", "a", "t", "s"]);
}

#[test]
fn potential_paths_are_arguments_without_dashes() {
    let nodes = vec![
        statement(StatementDecoration::Plain, "ls", Some("ls")),
        argument("-l"),
        argument(""),
        argument("/tmp"),
        NodeKind::Other,
        argument("a b"),
    ];
    assert_eq!(find_potential_paths(&nodes), Some(vec!["/tmp".to_string(), "a b".to_string()]));
    assert_eq!(find_potential_paths(&vec![]), Some(vec![]));
}

#[test]
fn commands_that_may_exit_stop_the_detection() {
    for command in ["exit", "reboot", "restart", "echo"] {
        let nodes = vec![
            argument("/tmp"),
            statement(StatementDecoration::Command, "'x'", Some(command)),
        ];
        assert_eq!(find_potential_paths(&nodes), None);
        let nodes = vec![statement(StatementDecoration::Builtin, command, None)];
        assert_eq!(find_potential_paths(&nodes), None);
    }
    let nodes = vec![statement(StatementDecoration::Exec, "ls", Some("ls"))];
    assert_eq!(find_potential_paths(&nodes), None);
    let nodes = vec![statement(StatementDecoration::Plain, "exit", Some("exitt"))];
    assert_eq!(find_potential_paths(&nodes), Some(vec![]));
}

#[test]
fn adding_begins_file_detection() {
    let (provider, saves) = Mock::new("fish");
    let mut history = History::new(provider);
    let nodes = vec![argument("/tmp"), argument("-l")];
    let expected =
        FileDetection { command: "ls /tmp -l".to_string(), potential_paths: vec!["/tmp".to_string()] };
    assert_eq!(history.add_shared("ls /tmp -l".to_string(), at(1), &nodes), Some(expected));
    assert_eq!(history.item_at_index(1).unwrap().str(), "ls /tmp -l");
    assert!(history.add_shared("ls".to_string(), at(2), &vec![]).is_none());
    assert_eq!(saves.load(Ordering::SeqCst), 0);
    let exit = vec![statement(StatementDecoration::Plain, "exit", None), argument("/tmp")];
    assert!(history.add_shared("exit /tmp".to_string(), at(3), &exit).is_none());
    assert_eq!(saves.load(Ordering::SeqCst), 1);
    let detection = history.add_local(memory("cat /etc", 4), &vec![argument("/etc")]).unwrap();
    assert_eq!(detection.command, "cat /etc");
    assert!(history.add_local(ephemeral(" cat /x", 5), &vec![argument("/x")]).is_none());
    history.save();
    assert_eq!(saves.load(Ordering::SeqCst), 2);
}

#[test]
fn detected_paths_are_noted_once() {
    let mut cache = RequiredPathsCache::new();
    assert!(get(&cache, "ls /tmp").is_none());
    let none = DetectedPaths { given: vec![], absolute: vec![] };
    file_detection_finished(&mut cache, "ls /x".to_string(), none);
    assert!(get(&cache, "ls /x").is_none());
    let found =
        DetectedPaths { given: vec!["rel".to_string()], absolute: vec!["/d/rel".to_string()] };
    file_detection_finished(&mut cache, "ls rel".to_string(), found);
    assert_eq!(get(&cache, "ls rel"), Some(vec!["/d/rel".to_string()]));
    insert(&mut cache, "ls /tmp".to_string(), vec!["/tmp".to_string()]);
    insert(&mut cache, "ls /tmp".to_string(), vec!["/other".to_string()]);
    assert_eq!(get(&cache, "ls /tmp"), Some(vec!["/tmp".to_string()]));
}

#[test]
fn histories_are_made_once_per_name() {
    let mut histories: Histories<Mock> = Histories::new();
    let mut counters = vec![];
    for name in ["b", "a", "c", "ab"] {
        let (provider, saves) = Mock::new(name);
        counters.push(saves);
        let history = with_name(&mut histories, name, |_| provider);
        history.add_shared_no_file_detection(format!("in {name}"), at(1));
    }
    let (unused, _) = Mock::new("other");
    let again = with_name(&mut histories, "a", |_| unused);
    assert_eq!(again.name(), "a");
    assert_eq!(again.item_at_index(1).unwrap().str(), "in a");
    assert_eq!(again.size(), Some(1));
    save_all(&mut histories);
    for counter in counters {
        assert_eq!(counter.load(Ordering::SeqCst), 1);
    }
}
