use fish_history::api::HistoryItem;
use fish_history::timestamp::Timestamp;
use fish_history::yaml::cache::{into_items, LruCacheExt};
use fish_history::yaml::file::{invalid_file_id, FileId, HistoryFile};
use fish_history::yaml::item_list::{drop_duplicates, drop_text};
use fish_history::yaml::state::{HISTORY_SAVE_MAX, VACUUM_FREQUENCY};
use fish_history::yaml::time_profiler::TimeProfiler;
use fish_history::yaml::yaml_history::{
    append_failed, canonical_path, is_empty_by_file_len, new_file_opened, new_file_written,
    nudge_timestamp_if_at_boundary, old_file_read, HistoryImpl, HistoryPathError, ItemLookup,
    LoadAction, PathStep, PopulateAction, SaveAction, YAMLHistory,
};
use lru::LruCache;
use std::num::NonZeroUsize;

fn at(secs: i64) -> Timestamp {
    Timestamp::from_secs(secs)
}

fn item(text: &str, secs: i64) -> HistoryItem {
    HistoryItem::new(text.to_string(), at(secs))
}

fn file_id(n: u64) -> FileId {
    FileId { inode: n, ..invalid_file_id() }
}

/// A history that began at second 1000.
fn named(name: &str) -> HistoryImpl {
    HistoryImpl::new(name.to_string(), Some("/dir".to_string()), at(1000))
}

fn loaded(name: &str, entries: Vec<Option<HistoryItem>>) -> HistoryImpl {
    let mut history = named(name);
    history.load_finished(Some((file_id(1), HistoryFile::new(entries))));
    history
}

fn text_at(history: &HistoryImpl, idx: usize) -> Option<String> {
    match history.item_at_index(idx) {
        ItemLookup::Item { item } => Some(item.into_str()),
        _ => None,
    }
}

fn texts(items: &[HistoryItem]) -> Vec<&str> {
    items.iter().map(|item| item.str()).collect()
}

/// Saves by whatever way, with the file given and taken as a list of items.
fn save_to(history: &mut HistoryImpl, file: &mut Vec<HistoryItem>, action: SaveAction) {
    let mut action = action;
    loop {
        action = match action {
            SaveAction::Finished => return,
            SaveAction::ResolvePath { vacuum } => {
                history.save_path_resolved(vacuum, Some("/dir/fish_history".to_string()))
            }
            SaveAction::Append { .. } => {
                let items = history.save_internal_via_appending(file_id(1));
                file.extend(items);
                history.append_succeeded(file_id(2));
                return;
            }
            SaveAction::Rewrite { .. } => {
                let old = file.iter().cloned().map(Some).collect();
                *file = history.rewrite_to_temporary_file(old);
                history.save_internal_via_rewrite(file_id(3));
                return;
            }
        }
    }
}

#[test]
fn times_at_the_boundary_are_nudged() {
    assert_eq!(nudge_timestamp_if_at_boundary(at(5), at(5)), at(6));
    assert_eq!(
        nudge_timestamp_if_at_boundary(Timestamp { nanos: 5_900_000_000 }, at(5)),
        Timestamp { nanos: 6_900_000_000 }
    );
    assert_eq!(nudge_timestamp_if_at_boundary(at(4), at(5)), at(4));
    assert_eq!(nudge_timestamp_if_at_boundary(at(6), at(5)), at(6));
    assert_eq!(nudge_timestamp_if_at_boundary(at(-9), at(-2)), at(-8));
    assert_eq!(nudge_timestamp_if_at_boundary(at(-9), at(2)), at(-9));
}

#[test]
fn new_items_are_merged_skipped_or_taken() {
    let mut history = named("fish");
    assert_eq!(history.add(item("", 1), true), SaveAction::Finished);
    assert_eq!(history.add(item("a", 2000), false), SaveAction::Finished);
    assert_eq!(history.add(item("a", 2005), true), SaveAction::Finished);
    assert_eq!(history.item_at_index(1), ItemLookup::Item { item: item("a", 2005) });
    assert!(matches!(history.add(item("b", 1000), true), SaveAction::ResolvePath { .. }));
    assert_eq!(history.item_at_index(1), ItemLookup::Item { item: item("b", 1001) });
    assert_eq!(history.item_at_index(2), ItemLookup::Item { item: item("a", 2005) });
    assert_eq!(history.item_at_index(3), ItemLookup::LoadFirst);
    assert_eq!(history.item_at_index(0), ItemLookup::Nothing);
}

#[test]
fn merged_items_leave_the_boundary_too() {
    let mut history = named("fish");
    history.add(item("a", 500), false);
    history.add(item("a", 1000), false);
    assert_eq!(history.item_at_index(1), ItemLookup::Item { item: item("a", 1001) });
    history.add(item("a", 900), false);
    assert_eq!(history.item_at_index(1), ItemLookup::Item { item: item("a", 1001) });
    // Before the epoch a repeated item stays where it is.
    let mut early = HistoryImpl::new("fish".to_string(), None, at(-5));
    for _ in 0..3 {
        early.add(item("a", -100), false);
        assert_eq!(early.item_at_index(1), ItemLookup::Item { item: item("a", -99) });
    }
}

#[test]
fn repeated_texts_are_in_the_file_once_saved() {
    let mut history = named("fish");
    let mut file = vec![];
    for (i, text) in ["a", "b", "a", "c"].iter().enumerate() {
        history.add(item(text, 2000 + i as i64), false);
    }
    let action = history.save_and_vacuum(false);
    save_to(&mut history, &mut file, action);
    assert_eq!(texts(&file), ["b", "a", "c"]);
    history.add(item("b", 2010), false);
    let action = history.save_and_vacuum(false);
    save_to(&mut history, &mut file, action);
    assert_eq!(texts(&file), ["b", "a", "c", "b"]);
}

#[test]
fn old_items_stand_behind_new_ones() {
    let mut history = loaded("fish", vec![Some(item("old 1", 1)), None, Some(item("old 2", 2))]);
    history.add(item("new", 2000), false);
    assert_eq!(text_at(&history, 1).as_deref(), Some("new"));
    assert_eq!(text_at(&history, 2).as_deref(), Some("old 2"));
    // What could not be decoded has no index.
    assert_eq!(text_at(&history, 3).as_deref(), Some("old 1"));
    assert_eq!(history.item_at_index(4), ItemLookup::Nothing);
    assert_eq!(history.size(), Some(3));
    assert_eq!(named("fish").size(), None);
}

#[test]
fn compacting_keeps_the_most_recent() {
    let mut history = named("fish");
    for (i, text) in ["a", "b", "a", "c", "b"].iter().enumerate() {
        history.add(item(text, 2000 + i as i64), false);
    }
    history.compact_new_items();
    assert_eq!(text_at(&history, 1).as_deref(), Some("b"));
    assert_eq!(text_at(&history, 2).as_deref(), Some("c"));
    assert_eq!(text_at(&history, 3).as_deref(), Some("a"));
    assert_eq!(history.item_at_index(4), ItemLookup::LoadFirst);
}

#[test]
fn the_mark_stays_at_its_item() {
    let mut items = vec![item("a", 1), item("b", 2), item("a", 3), item("c", 4)];
    assert_eq!(drop_duplicates(&mut items, 2), 1);
    assert_eq!(texts(&items), ["b", "a", "c"]);
    let mut items = vec![item("a", 1), item("b", 2), item("a", 3), item("c", 4)];
    assert_eq!(drop_text(&mut items, "a", 3), 1);
    assert_eq!(texts(&items), ["b", "c"]);
    assert_eq!(drop_text(&mut items, "c", 2), 1);
    assert_eq!(texts(&items), ["b"]);
    assert_eq!(drop_duplicates(&mut items, 0), 0);
}

#[test]
fn saving_appends_what_is_unwritten() {
    let mut history = named("fish");
    let mut file = vec![];
    assert_eq!(history.save_and_vacuum(true), SaveAction::Finished);
    history.add(item("a", 2000), false);
    history.add(item("b", 2001), false);
    let action = history.save_and_vacuum(false);
    assert_eq!(action, SaveAction::ResolvePath { vacuum: false });
    save_to(&mut history, &mut file, action);
    assert_eq!(texts(&file), ["a", "b"]);
    assert_eq!(history.save_and_vacuum(false), SaveAction::Finished);
    history.add(item("c", 2002), false);
    let action = history.save_and_vacuum(false);
    save_to(&mut history, &mut file, action);
    assert_eq!(texts(&file), ["a", "b", "c"]);
}

#[test]
fn a_replaced_file_is_forgotten() {
    let mut history = loaded("fish", vec![Some(item("old", 1))]);
    assert_eq!(history.load_old_if_needed(), LoadAction::Loaded);
    history.add(item("a", 2000), false);
    history.save_internal_via_appending(file_id(1));
    assert_eq!(history.load_old_if_needed(), LoadAction::Loaded);
    history.save_internal_via_appending(file_id(9));
    assert_eq!(history.load_old_if_needed(), LoadAction::ResolvePath);
}

#[test]
fn deletions_and_vacuums_rewrite() {
    let mut history = named("fish");
    let path = Some("/p".to_string());
    assert_eq!(
        history.save_path_resolved(false, path.clone()),
        SaveAction::Append { path: "/p".to_string() }
    );
    assert_eq!(
        history.save_path_resolved(true, path.clone()),
        SaveAction::Rewrite { path: "/p".to_string() }
    );
    assert_eq!(history.save_path_resolved(true, None), SaveAction::Finished);
    history.remove("x");
    assert_eq!(
        history.save_path_resolved(false, path),
        SaveAction::Rewrite { path: "/p".to_string() }
    );
    assert_eq!(append_failed("/p".to_string()), SaveAction::Rewrite { path: "/p".to_string() });
}

#[test]
fn rewriting_merges_sorts_and_dedups() {
    let mut history = named("fish");
    history.add(item("b", 2000), false);
    history.add(item("new", 1500), false);
    let old = vec![
        Some(item("z", 3000)),
        Some(item("a", 10)),
        None,
        Some(item("", 11)),
        Some(item("b", 2500)),
        Some(item("a", 5)),
    ];
    let items = history.rewrite_to_temporary_file(old);
    assert_eq!(texts(&items), ["a", "new", "b", "z"]);
    assert_eq!(items[0].get_timestamp(), at(10));
    assert_eq!(items[2].get_timestamp(), at(2500));
    let again = named("fish").rewrite_to_temporary_file(items.iter().cloned().map(Some).collect());
    assert_eq!(again, items);
}

#[test]
fn items_of_one_time_stay_in_order() {
    let history = named("fish");
    let old = vec![Some(item("c", 7)), Some(item("a", 7)), Some(item("b", 3))];
    assert_eq!(texts(&history.rewrite_to_temporary_file(old)), ["b", "c", "a"]);
}

#[test]
fn a_rewritten_file_has_a_limit() {
    let history = named("fish");
    let total = HISTORY_SAVE_MAX + 3;
    let old = (0..total).map(|i| Some(item(&format!("cmd {i}"), i as i64))).collect();
    let items = history.rewrite_to_temporary_file(old);
    assert_eq!(HISTORY_SAVE_MAX, 262_144);
    assert_eq!(items.len(), HISTORY_SAVE_MAX);
    assert_eq!(items[0].str(), "cmd 3");
    assert_eq!(items[items.len() - 1].str(), format!("cmd {}", total - 1));
}

#[test]
fn the_cache_drops_what_is_least_recently_used() {
    let mut cache: LruCache<String, i128> = LruCache::new(NonZeroUsize::new(2).unwrap());
    cache.add_item(item("a", 5));
    cache.add_item(item("b", 6));
    cache.add_item(item("", 6));
    cache.add_item(item("a", 2));
    cache.add_item(item("c", 7));
    let items = into_items(cache);
    assert_eq!(items, [item("a", 5), item("c", 7)]);
}

#[test]
fn removed_items_leave_the_file() {
    let mut history = loaded("fish", vec![]);
    let mut file = vec![item("x", 1), item("y", 2), item("x", 3000)];
    history.add(item("x", 2000), false);
    history.add(item("z", 2001), false);
    history.remove("x");
    assert_eq!(text_at(&history, 1).as_deref(), Some("z"));
    assert_eq!(history.size(), Some(1));
    let action = history.save_and_vacuum(false);
    save_to(&mut history, &mut file, action);
    assert_eq!(texts(&file), ["y", "z"]);
    // Added anew, it is written again.
    history.remove("y");
    history.add(item("y", 4000), false);
    let action = history.save_and_vacuum(false);
    save_to(&mut history, &mut file, action);
    assert_eq!(texts(&file), ["z", "y"]);
}

#[test]
fn clearing_the_session_spares_older_items() {
    let mut history = named("fish");
    let mut file = vec![item("x", 900), item("x", 1000), item("w", 1500)];
    history.add(item("x", 2000), false);
    history.add(item("w", 2001), false);
    let action = history.save_and_vacuum(false);
    save_to(&mut history, &mut file, action);
    assert_eq!(texts(&file), ["x", "x", "w", "x", "w"]);
    history.clear_session();
    assert_eq!(history.item_at_index(1), ItemLookup::LoadFirst);
    let action = history.save_and_vacuum(false);
    save_to(&mut history, &mut file, action);
    assert_eq!(file, [item("x", 1000)]);
}

#[test]
fn clearing_forgets_everything() {
    let mut history = loaded("fish", vec![Some(item("old", 1))]);
    history.add(item("a", 2000), false);
    history.remove("b");
    assert!(history.clear());
    assert_eq!(history.item_at_index(1), ItemLookup::LoadFirst);
    assert_eq!(history.save_and_vacuum(true), SaveAction::Finished);
    assert!(!named("").clear());
}

#[test]
fn a_private_history_writes_nothing() {
    let mut history = named("");
    history.add(item("a", 2000), true);
    history.add(item("b", 2001), true);
    history.add(item("a", 2002), true);
    assert_eq!(history.save_and_vacuum(true), SaveAction::Finished);
    assert_eq!(text_at(&history, 1).as_deref(), Some("a"));
    assert_eq!(text_at(&history, 2).as_deref(), Some("b"));
    assert_eq!(history.history_file_path(None), Ok(PathStep::NoFile));
}

#[test]
fn one_save_in_so_many_vacuums() {
    let mut history = named("fish");
    history.add(item("a", 2000), false);
    let mut vacuums = vec![];
    for i in 0..3 * VACUUM_FREQUENCY {
        match history.save_with_countdown(7) {
            SaveAction::ResolvePath { vacuum: true } => vacuums.push(i),
            SaveAction::ResolvePath { vacuum: false } => {}
            _ => panic!("nothing was written"),
        }
    }
    assert_eq!(vacuums, [7, 7 + VACUUM_FREQUENCY, 7 + 2 * VACUUM_FREQUENCY]);
    assert!(!history.has_just_vacuumed());
    for _ in 0..7 {
        history.save();
    }
    assert!(!history.has_just_vacuumed());
    history.save();
    assert!(history.has_just_vacuumed());
    assert_eq!(VACUUM_FREQUENCY, 25);
}

#[test]
fn the_countdown_begins_at_random_but_in_range() {
    for _ in 0..20 {
        let mut history = named("fish");
        history.add(item("a", 2000), false);
        let vacuums = (0..VACUUM_FREQUENCY)
            .filter(|_| history.save() == SaveAction::ResolvePath { vacuum: true })
            .count();
        assert_eq!(vacuums, 1);
    }
}

#[test]
fn external_changes_are_incorporated_when_time_passes() {
    let mut history = loaded("fish", vec![Some(item("old", 1))]);
    let mut file = vec![item("old", 1)];
    history.add(item("mine", 2000), false);
    assert_eq!(history.incorporate_external_changes(at(1000)), None);
    assert_eq!(text_at(&history, 2).as_deref(), Some("old"));
    let action = history.incorporate_external_changes(at(3000)).unwrap();
    save_to(&mut history, &mut file, action);
    history.external_changes_incorporated();
    assert_eq!(history.incorporate_external_changes(at(3000)), None);
    assert_eq!(history.load_old_if_needed(), LoadAction::ResolvePath);
    assert_eq!(
        history.load_path_resolved(Some("/p".to_string())),
        LoadAction::ReadFile { path: "/p".to_string(), cutoff: at(3000) }
    );
    let entries = file.iter().cloned().map(Some).collect();
    history.load_finished(Some((file_id(5), HistoryFile::new(entries))));
    assert_eq!(text_at(&history, 1).as_deref(), Some("mine"));
    assert_eq!(text_at(&history, 2).as_deref(), Some("old"));
    assert_eq!(history.size(), Some(2));
}

#[test]
fn without_a_file_there_are_no_old_items() {
    let mut history = named("fish");
    assert_eq!(history.load_old_if_needed(), LoadAction::ResolvePath);
    assert_eq!(history.load_path_resolved(None), LoadAction::Loaded);
    assert_eq!(history.size(), Some(0));
    let mut history = named("fish");
    history.load_finished(None);
    assert_eq!(history.size(), Some(0));
    assert_eq!(history.item_at_index(1), ItemLookup::Nothing);
}

#[test]
fn emptiness_goes_by_what_is_known() {
    assert_eq!(named("fish").is_empty(), None);
    assert_eq!(loaded("fish", vec![]).is_empty(), Some(true));
    assert_eq!(loaded("fish", vec![None]).is_empty(), Some(false));
    let mut history = named("fish");
    history.add(item("a", 2000), false);
    assert_eq!(history.is_empty(), Some(false));
    assert!(is_empty_by_file_len(None));
    assert!(is_empty_by_file_len(Some(0)));
    assert!(!is_empty_by_file_len(Some(1)));
}

#[test]
fn the_history_file_has_a_path() {
    assert_eq!(
        named("fish").history_file_path(None),
        Ok(PathStep::Ready { path: "/dir/fish_history".to_string() })
    );
    let history = HistoryImpl::new("work".to_string(), None, at(0));
    assert_eq!(
        history.history_file_path(Some("/data".to_string())),
        Ok(PathStep::Canonicalize { path: "/data/work_history".to_string() })
    );
    let error = history.history_file_path(None).unwrap_err();
    assert_eq!(error, HistoryPathError::NoDataDirectory);
    assert_eq!(
        error.message(),
        "Error obtaining data directory. This is a manually constructed error which does not indicate why this happened."
    );
    assert_eq!(
        canonical_path("/a".to_string(), Some("/b".to_string())),
        Ok("/b".to_string())
    );
    let error = canonical_path("/a".to_string(), None).unwrap_err();
    assert_eq!(error, HistoryPathError::NotCanonical { path: "/a".to_string() });
    assert_eq!(error.message(), "wrealpath failed to produce a canonical version of '/a'.");
}

#[test]
fn an_older_location_is_copied() {
    let mut history = loaded("fish", vec![Some(item("old", 1))]);
    assert_eq!(history.populate_from_config_path(None), PopulateAction::Finished);
    let new_file = "/data/fish_history".to_string();
    assert_eq!(
        history.populate_from_config_path(Some(new_file.clone())),
        PopulateAction::FindConfigPath { new_file: new_file.clone() }
    );
    assert_eq!(history.config_path_found(None, new_file.clone()), PopulateAction::Finished);
    assert_eq!(
        history.config_path_found(Some("/config".to_string()), new_file.clone()),
        PopulateAction::OpenOldFile {
            old_file: "/config/fish_history".to_string(),
            new_file: new_file.clone()
        }
    );
    assert_eq!(history.old_file_opened(false, new_file.clone()), PopulateAction::Finished);
    assert_eq!(history.size(), Some(1));
    assert_eq!(
        history.old_file_opened(true, new_file.clone()),
        PopulateAction::CreateNewFile { new_file }
    );
    assert_eq!(history.size(), None);
    assert_eq!(new_file_opened(false), PopulateAction::Finished);
    assert_eq!(new_file_opened(true), PopulateAction::Read);
    assert_eq!(old_file_read(None), PopulateAction::Finished);
    assert_eq!(old_file_read(Some(0)), PopulateAction::Finished);
    assert_eq!(old_file_read(Some(9)), PopulateAction::Write { len: 9 });
    assert_eq!(new_file_written(true), PopulateAction::Read);
    assert_eq!(new_file_written(false), PopulateAction::Finished);
}

#[test]
fn a_yaml_history_goes_by_its_name() {
    let mut history = YAMLHistory::new("fish", Some("/dir".to_string()), at(1000));
    assert_eq!(history.name(), "fish");
    assert!(history.incorporate_external_changes(at(999)).is_none());
    history.imp().add(item("a", 2000), false);
    assert_eq!(text_at(history.imp(), 1).as_deref(), Some("a"));
    history.clear_session();
    assert_eq!(history.imp().item_at_index(1), ItemLookup::LoadFirst);
    assert_eq!(history.populate_from_config_path(None), PopulateAction::Finished);
    assert_eq!(
        history.incorporate_external_changes(at(1001)),
        Some(SaveAction::ResolvePath { vacuum: false })
    );
}

#[test]
fn measurements_are_reported_in_milliseconds() {
    let profiler = TimeProfiler::new("save", at(5));
    assert_eq!(profiler.report(Timestamp { nanos: 5_012_034_056 }), "save: 12.034056 ms");
    assert_eq!(profiler.report(at(5)), "save: 0.000000 ms");
    assert_eq!(profiler.report(at(4)), "save: ??? ms");
    let late = Timestamp { nanos: 5_000_000_000 + (1i128 << 64) * 1_000_000 + 7 };
    assert_eq!(profiler.report(late), "save: 0.000007 ms");
}
