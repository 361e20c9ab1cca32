//! Patterns, and what a configuration file may say.

use landed::config;
use landed::config::Config;
use landed::config::ConfigError;

#[test]
fn exact_and_wildcards() {
    assert!(config::matches("run", "run"));
    assert!(!config::matches("run", "runner"));
    assert!(config::matches("*", "anything"));
    assert!(config::matches("handle_*", "handle_webhook"));
    assert!(!config::matches("handle_*", "unhandle_webhook"));
    assert!(config::matches("*_handler", "webhook_handler"));
    assert!(!config::matches("*_handler", "handler_webhook"));
    assert!(config::matches("daemon_*_message", "daemon_process_message"));
    assert!(!config::matches("daemon_*_message", "daemon_process_event"));
}

#[test]
fn a_star_takes_any_text_and_nothing_else_is_special() {
    assert!(config::matches("*", ""));
    assert!(config::matches("", ""));
    assert!(!config::matches("", "a"));
    assert!(config::matches("a*b*c", "abc"));
    assert!(config::matches("a*b*c", "a..b..b..c"));
    assert!(!config::matches("a*b*c", "a..c..b"));
    assert!(config::matches("**", "x"));
    assert!(!config::matches("a.c", "abc"));
    assert!(!config::matches("a?c", "abc"));
    assert!(config::matches("é*", "été"));
    assert!(config::matches("*ab", "aab"));
}

#[test]
fn a_pattern_full_of_stars_is_decided_in_time() {
    let mut pattern = String::new();
    for _ in 0..30 {
        pattern.push_str("a*");
    }
    pattern.push('b');
    let name: String = std::iter::repeat('a').take(400).collect();
    assert!(!config::matches(&pattern, &name));
}

#[test]
fn no_file_is_the_norm() {
    let c = Config::load(None, None).unwrap();
    assert!(c.is_empty());
    assert!(!c.is_root("anything"));
    assert!(!c.is_ignored("anything"));
}

#[test]
fn both_lists_are_read() {
    let c = Config::load(Some("roots = [\"a\", \"b_*\"]\nignore = [\"c\"]\n"), None).unwrap();
    assert_eq!(c.roots, vec!["a".to_string(), "b_*".to_string()]);
    assert_eq!(c.ignore, vec!["c".to_string()]);
    assert!(c.is_root("b_x"));
    assert!(!c.is_root("c"));
    assert!(c.is_ignored("c"));
    assert!(!c.is_empty());
}

#[test]
fn a_malformed_config_does_not_silently_disable_itself() {
    let cfg = Config::load(Some("roots = \"not a list\"\n"), None);
    assert!(matches!(cfg, Err(ConfigError::Malformed(_))));
    assert!(matches!(Config::parse("roots = ["), Err(ConfigError::Malformed(_))));
}

#[test]
fn an_unknown_key_is_rejected_rather_than_ignored() {
    match Config::load(Some("rootz = [\"handle_webhook\"]\n"), None) {
        Err(ConfigError::UnknownKey(k)) => assert_eq!(k, "rootz"),
        other => panic!("got {other:?}"),
    }
}

#[test]
fn of_two_entries_for_one_key_the_later_counts() {
    let table = vec![
        ("roots".to_string(), vec!["a".to_string()]),
        ("roots".to_string(), vec!["b".to_string()]),
    ];
    assert_eq!(Config::of_lists(&table).unwrap().roots, vec!["b".to_string()]);
}

#[test]
fn the_nearer_file_counts() {
    let near = Some("roots = [\"near\"]\n");
    let far = Some("roots = [\"far\"]\n");
    assert_eq!(Config::load(near, far).unwrap().roots, vec!["near".to_string()]);
    assert_eq!(Config::load(None, far).unwrap().roots, vec!["far".to_string()]);
    assert!(Config::load(Some("roots = 3\n"), far).is_err());
}

#[test]
fn the_first_stray_key_is_named() {
    let table = vec![
        ("roots".to_string(), vec![]),
        ("rootz".to_string(), vec![]),
        ("ignores".to_string(), vec![]),
    ];
    match Config::of_lists(&table) {
        Err(ConfigError::UnknownKey(k)) => assert_eq!(k, "rootz"),
        other => panic!("got {other:?}"),
    }
}
