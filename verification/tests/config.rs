//! Behaviour of the user configuration: override bookkeeping and flags.

use wtf::config::UserConfig;

#[test]
fn default_config_is_empty() {
    let c = UserConfig::default();
    assert!(c.custom_typos.is_empty());
    assert!(!c.first_run_complete);
    assert!(!c.auto_mode);
    assert!(c.google_api_key.is_none());
}

#[test]
fn add_typo_appends() {
    let mut c = UserConfig::default();
    c.add_typo("gp".to_string(), "git push".to_string());
    c.add_typo("sl".to_string(), "ls".to_string());
    assert_eq!(
        c.custom_typos,
        vec![
            ("gp".to_string(), "git push".to_string()),
            ("sl".to_string(), "ls".to_string()),
        ]
    );
}

#[test]
fn add_typo_replaces_existing_entry() {
    let mut c = UserConfig::default();
    c.add_typo("gp".to_string(), "git push".to_string());
    c.add_typo("sl".to_string(), "ls".to_string());
    c.add_typo("gp".to_string(), "git pull".to_string());
    // The old entry goes; the replacement moves to the end.
    assert_eq!(
        c.custom_typos,
        vec![
            ("sl".to_string(), "ls".to_string()),
            ("gp".to_string(), "git pull".to_string()),
        ]
    );
}

#[test]
fn remove_typo_reports_whether_it_was_there() {
    let mut c = UserConfig::default();
    c.add_typo("gp".to_string(), "git push".to_string());
    assert!(!c.remove_typo("sl"));
    assert_eq!(c.custom_typos.len(), 1);
    assert!(c.remove_typo("gp"));
    assert!(c.custom_typos.is_empty());
    assert!(!c.remove_typo("gp"));
}

#[test]
fn add_from_builtin_does_not_duplicate() {
    let mut c = UserConfig::default();
    c.add_from_builtin("sl".to_string(), "ls".to_string());
    c.add_from_builtin("sl".to_string(), "ls -la".to_string());
    assert_eq!(c.custom_typos, vec![("sl".to_string(), "ls".to_string())]);
}

#[test]
fn flags_and_key() {
    let mut c = UserConfig::default();
    c.mark_first_run_complete();
    assert!(c.first_run_complete);
    c.set_auto_mode(true);
    assert!(c.auto_mode);
    assert!(!c.toggle_auto_mode());
    assert!(c.toggle_auto_mode());
    assert!(c.get_google_api_key().is_none());
    c.set_google_api_key("SECRET-REDACTED".to_string());
    assert_eq!(c.get_google_api_key().unwrap(), "SECRET-REDACTED");
}

#[test]
fn config_path_shape() {
    let p = UserConfig::config_path_for("/home/u");
    assert_eq!(p, "/home/u/.wtf/config.json");
    let shown = UserConfig::get_config_path_display();
    assert!(shown == "unknown" || shown.ends_with("/.wtf/config.json"));
}
