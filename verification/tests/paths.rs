use fish_history::history::file_detection_finished;
use fish_history::path_utils::{
    all_noted_paths_are_valid, all_paths_are_valid, expand_and_detect_paths, make_absolute,
    DetectedPaths, DetectionStep, ValidationStep,
};
use fish_history::required_paths_cache::{get, RequiredPathsCache};

fn strings(texts: &[&str]) -> Vec<String> {
    texts.iter().map(|text| text.to_string()).collect()
}

/// Expands `~`, fails on `(`, and takes `/home` and `/tmp` for files.
fn expand(path: &str) -> Option<String> {
    if path.contains('(') {
        None
    } else {
        Some(path.replace('~', "/home").replace("$nothing", ""))
    }
}

fn is_file(path: &str) -> bool {
    ["/home", "/tmp", "/tmp/", "/d/rel", "/d/(x)~"].contains(&path)
}

fn detect(paths: &[&str], working_directory: &str) -> DetectedPaths {
    let mut step = expand_and_detect_paths(strings(paths), working_directory.to_string());
    loop {
        step = match step {
            DetectionStep::Expand { run, path } => run.expanded(expand(&path)),
            DetectionStep::CheckValid { run, path } => run.checked(is_file(&path)),
            DetectionStep::Done { paths, .. } => return paths,
        }
    }
}

fn validate(paths: &[&str], cancel_after: usize) -> bool {
    run_validation(all_paths_are_valid(&strings(paths)), cancel_after)
}

fn run_validation(first: ValidationStep, cancel_after: usize) -> bool {
    let mut asked = 0;
    let mut step = first;
    loop {
        step = match step {
            ValidationStep::CheckCancel { run } => {
                asked += 1;
                run.cancel_checked(asked > cancel_after)
            }
            ValidationStep::Expand { run, path } => run.expanded(expand(&path)),
            ValidationStep::CheckValid { run, path } => run.checked(is_file(&path)),
            ValidationStep::Done { valid } => return valid,
        }
    }
}

#[test]
fn detection_keeps_the_unexpanded_paths() {
    assert_eq!(detect(&["~", "/none", "/tmp", "(x)"], "/").given, ["~", "/tmp"]);
    assert_eq!(detect(&[], "/").given, Vec::<String>::new());
    assert_eq!(detect(&["/none"], "/").given, Vec::<String>::new());
}

#[test]
fn detection_finds_the_absolute_paths() {
    for working_directory in ["/d", "/d/"] {
        let found = detect(&["rel", "~", "other", "/tmp"], working_directory);
        assert_eq!(found.given, ["rel", "~", "/tmp"]);
        assert_eq!(found.absolute, ["/d/rel", "/home", "/tmp"]);
    }
    // What expands to nothing is not the working directory.
    let found = detect(&["$nothing", "/tmp"], "/tmp");
    assert_eq!(found.given, ["/tmp"]);
    assert_eq!(make_absolute("/", "x"), "/x");
    assert_eq!(make_absolute("/d", "/x"), "/x");
    assert_eq!(make_absolute("/d", ""), "/d/");
}

#[test]
fn the_absolute_paths_of_a_command_are_noted() {
    let mut cache = RequiredPathsCache::new();
    let found = detect(&["rel", "/tmp"], "/d");
    file_detection_finished(&mut cache, "ls rel /tmp".to_string(), found);
    assert_eq!(get(&cache, "ls rel /tmp"), Some(strings(&["/d/rel", "/tmp"])));
}

#[test]
fn noted_paths_are_checked_as_they_are() {
    let noted = |paths: &[&str], cancel_after| {
        run_validation(all_noted_paths_are_valid(&strings(paths)), cancel_after)
    };
    assert!(noted(&[], 0));
    assert!(noted(&["/tmp", "/d/(x)~"], 9));
    assert!(!noted(&["/tmp", "~"], 9));
    assert!(!noted(&["/tmp"], 0));
}

#[test]
fn validation_wants_all_paths() {
    assert!(validate(&[], 9));
    assert!(validate(&["~", "/tmp"], 9));
    assert!(!validate(&["~", "/none"], 9));
    assert!(!validate(&["(x)"], 9));
    assert!(!validate(&["~", "/tmp"], 1));
    assert!(!validate(&["~"], 0));
}
