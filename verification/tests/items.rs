use fish_history::api;
use fish_history::format::{format_history_record, time_to_seconds};
use fish_history::item::{HistoryItem, LocalHistoryItem, PersistenceMode};
use fish_history::timestamp::Timestamp;

fn at(secs: i64) -> Timestamp {
    Timestamp::from_secs(secs)
}

#[test]
fn shared_item_keeps_text_and_time() {
    let mut item = api::HistoryItem::new("ls -l".to_string(), at(7));
    assert_eq!(item.str(), "ls -l");
    assert_eq!(item.get_timestamp(), at(7));
    assert!(!item.is_empty());
    item.set_timestamp(at(9));
    assert_eq!(item.get_timestamp(), at(9));
    assert_eq!(item.into_str(), "ls -l");
    assert!(api::HistoryItem::new(String::new(), at(0)).is_empty());
}

#[test]
fn merging_takes_the_later_time() {
    let mut a = api::HistoryItem::new("ls".to_string(), at(7));
    let b = api::HistoryItem::new("ls".to_string(), at(9));
    let c = api::HistoryItem::new("cd".to_string(), at(11));
    assert!(a.merge(&b));
    assert_eq!(a.get_timestamp(), at(9));
    assert!(a.merge(&api::HistoryItem::new("ls".to_string(), at(3))));
    assert_eq!(a.get_timestamp(), at(9));
    assert!(!a.merge(&c));
    assert_eq!(a, b);
}

#[test]
fn merging_shared_items_is_symmetric() {
    let a = api::HistoryItem::new("ls".to_string(), at(7));
    let b = api::HistoryItem::new("ls".to_string(), at(9));
    let mut ab = a.clone();
    let mut ba = b.clone();
    assert!(ab.merge(&b) && ba.merge(&a));
    assert_eq!(ab, ba);
    let merged = ab.clone();
    assert!(ab.merge(&b));
    assert_eq!(ab, merged);
}

#[test]
fn local_items_merge_only_within_their_mode() {
    let mut memory = LocalHistoryItem::new("x".to_string(), at(1), PersistenceMode::Memory);
    let later = LocalHistoryItem::new("x".to_string(), at(5), PersistenceMode::Memory);
    let ephemeral = LocalHistoryItem::new("x".to_string(), at(9), PersistenceMode::Ephemeral);
    assert!(!memory.merge(&ephemeral));
    assert_eq!(memory.timestamp(), at(1));
    assert!(memory.merge(&later));
    assert_eq!(memory.timestamp(), at(5));
    assert!(ephemeral.is_ephemeral());
    assert!(!memory.is_ephemeral());
    assert!(!memory.is_empty());
    assert_eq!(memory.str(), "x");
    assert_eq!(memory.into_str(), "x");
}

#[test]
fn items_of_either_kind_show_the_same_face() {
    let shared = HistoryItem::from(api::HistoryItem::new("a".to_string(), at(3)));
    let local =
        HistoryItem::from(LocalHistoryItem::new("b".to_string(), at(4), PersistenceMode::Memory));
    assert_eq!(shared.str(), "a");
    assert_eq!(shared.get_timestamp(), at(3));
    assert_eq!(local.str(), "b");
    assert_eq!(local.get_timestamp(), at(4));
    assert_eq!(shared.clone().into_str(), "a");
    assert_eq!(local.clone().into_str(), "b");
    assert!(matches!(shared, HistoryItem::SharedHistoryItem(_)));
    assert!(matches!(local, HistoryItem::LocalHistoryItem(_)));
}

#[test]
fn seconds_are_cut_off_towards_the_epoch() {
    assert_eq!(time_to_seconds(at(5)), 5);
    assert_eq!(time_to_seconds(Timestamp { nanos: 1_999_999_999 }), 1);
    assert_eq!(time_to_seconds(Timestamp { nanos: -1 }), 0);
    assert_eq!(time_to_seconds(Timestamp { nanos: -1_999_999_999 }), -1);
    assert_eq!(time_to_seconds(at(-3)), -3);
}

#[test]
fn records_end_in_a_newline_or_a_null() {
    let item = HistoryItem::from(api::HistoryItem::new("echo hi".to_string(), at(3)));
    assert_eq!(format_history_record(&item, None, None, false), "echo hi\n");
    assert_eq!(format_history_record(&item, None, None, true), "echo hi\0");
    assert_eq!(
        format_history_record(&item, Some("12:00 ".to_string()), None, false),
        "12:00 echo hi\n"
    );
    assert_eq!(
        format_history_record(
            &item,
            Some("t ".to_string()),
            Some("<red>echo hi".to_string()),
            true
        ),
        "t <red>echo hi\0"
    );
}
