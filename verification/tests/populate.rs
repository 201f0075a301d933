use fish_history::api::{self, get_history_by_index, HistoryProvider};
use fish_history::history::History;
use fish_history::populate::{should_import_bash_history_line, Grammar};
use fish_history::timestamp::Timestamp;

struct Mock {
    items: Vec<api::HistoryItem>,
}

impl HistoryProvider for Mock {
    fn name(&self) -> &str {
        "fish"
    }
    fn item_at_index(&mut self, idx: usize) -> Option<api::HistoryItem> {
        if idx == 0 || idx > self.items.len() {
            None
        } else {
            Some(self.items[self.items.len() - idx].clone())
        }
    }
    fn get_history(&mut self) -> Vec<api::HistoryItem> {
        get_history_by_index(self)
    }
    fn add(&mut self, item: api::HistoryItem) {
        self.items.push(item);
    }
    fn remove(&mut self, _s: &str) {}
    fn clear(&mut self) {}
    fn size(&mut self) -> u64 {
        self.items.len() as u64
    }
    fn is_empty(&mut self) -> bool {
        self.items.is_empty()
    }
    fn save(&mut self) {}
}

fn parse_errored(line: &str) -> bool {
    line.contains(')')
}

fn has_parse_errors(line: &str) -> bool {
    line.matches('"').count() % 2 == 1
}

fn grammar() -> Grammar<fn(&str) -> bool, fn(&str) -> bool> {
    Grammar { parse_errored, has_parse_errors }
}

#[test]
fn foreign_lines_are_skipped() {
    let grammar = grammar();
    for line in [
        "", "# comment", "echo `date`", "echo {a,b}", "ls *", "ls \\", "a \\ b", "[[ -f x ]]", "x ]]",
        "((i", "i))", "cat <<EOF", "echo )", "echo \"open",
    ] {
        assert!(!should_import_bash_history_line(line, &grammar), "{line}");
    }
    for line in ["ls", "echo # later", "[ -f x ]", "cat < file", "echo \"closed\"", "a }"] {
        assert!(should_import_bash_history_line(line, &grammar), "{line}");
    }
}

#[test]
fn bash_lines_become_items_of_one_time() {
    let mut history = History::new(Mock { items: vec![] });
    let time = Timestamp::from_secs(77);
    let lines = ["ls", "# no", "cd /tmp", ""].iter().map(|line| line.to_string()).collect();
    history.populate_from_bash(lines, time, &grammar());
    assert_eq!(history.size(), Some(2));
    assert_eq!(history.item_at_index(1).unwrap().str(), "cd /tmp");
    assert_eq!(history.item_at_index(2).unwrap().str(), "ls");
    assert_eq!(history.item_at_index(1).unwrap().get_timestamp(), time);
}
