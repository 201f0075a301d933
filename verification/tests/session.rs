use fish_history::session::{
    history_session_id, history_session_id_from_var, in_private_mode, start_private_mode, EnvVars,
    DFLT_FISH_HISTORY_SESSION_ID,
};

fn valid_var_name(name: &str) -> bool {
    !name.is_empty() && name.chars().all(|c| c == '_' || c.is_alphanumeric())
}

fn vars(pairs: &[(&str, &str)]) -> EnvVars {
    EnvVars::new(pairs.iter().map(|(n, v)| (n.to_string(), v.to_string())).collect())
}

#[test]
fn the_session_id_is_the_variable_or_the_default() {
    assert_eq!(DFLT_FISH_HISTORY_SESSION_ID, "fish");
    assert_eq!(history_session_id(&vars(&[]), valid_var_name), "fish");
    assert_eq!(history_session_id(&vars(&[("fish_history", "work")]), valid_var_name), "work");
    assert_eq!(history_session_id(&vars(&[("fish_history", "")]), valid_var_name), "");
    assert_eq!(history_session_id(&vars(&[("fish_history", "a/b")]), valid_var_name), "fish");
    assert_eq!(history_session_id_from_var(None, valid_var_name), "fish");
    assert_eq!(history_session_id_from_var(Some("x".to_string()), valid_var_name), "x");
    assert_eq!(history_session_id_from_var(Some("x y".to_string()), valid_var_name), "fish");
}

#[test]
fn later_values_replace_earlier_ones() {
    let vars = vars(&[("a", "1"), ("b", "2"), ("a", "3")]);
    assert_eq!(vars.get("a"), Some("3".to_string()));
    assert_eq!(vars.get("b"), Some("2".to_string()));
    assert_eq!(vars.get("c"), None);
}

#[test]
fn private_mode_hides_the_history() {
    let mut vars = vars(&[("fish_history", "work"), ("other", "x")]);
    assert!(!in_private_mode(&vars));
    start_private_mode(&mut vars);
    assert!(in_private_mode(&vars));
    assert_eq!(vars.get("fish_history"), Some(String::new()));
    assert_eq!(vars.get("fish_private_mode"), Some("1".to_string()));
    assert_eq!(vars.get("other"), Some("x".to_string()));
    assert_eq!(history_session_id(&vars, valid_var_name), "");
    start_private_mode(&mut vars);
    assert!(in_private_mode(&vars));
}

#[test]
fn an_empty_private_mode_variable_does_not_count() {
    assert!(!in_private_mode(&vars(&[("fish_private_mode", "")])));
    assert!(in_private_mode(&vars(&[("fish_private_mode", "0")])));
}
