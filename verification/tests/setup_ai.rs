//! Behaviour of the AI-answer cleanup and the installation and prompting
//! decisions.

use wtf::ai::clean_ai_response;
use wtf::setup::bashrc_with_history_config;
use wtf::setup::interpret_selection;
use wtf::setup::is_system_path;
use wtf::setup::needs_history_config;

#[test]
fn clean_strips_quoting_and_keeps_first_line() {
    assert_eq!(clean_ai_response("`git status`").unwrap(), "git status");
    assert_eq!(clean_ai_response("\"ls -la\"").unwrap(), "ls -la");
    assert_eq!(clean_ai_response("'make'").unwrap(), "make");
    assert_eq!(clean_ai_response("  cargo build  ").unwrap(), "cargo build");
    assert_eq!(
        clean_ai_response("git push\nThis fixes the typo.").unwrap(),
        "git push"
    );
    assert_eq!(clean_ai_response("```\nls\n```").unwrap(), "ls");
}

#[test]
fn clean_fails_only_on_empty_answer() {
    assert!(clean_ai_response("").is_err());
    assert_eq!(
        clean_ai_response("").unwrap_err(),
        "AI returned empty response"
    );
    // An answer of nothing but quoting falls back to the raw answer.
    assert_eq!(clean_ai_response("``").unwrap(), "``");
    assert_eq!(clean_ai_response(" ").unwrap(), " ");
}

#[test]
fn selection_prompt_answers() {
    assert_eq!(interpret_selection("n", 3), None);
    assert_eq!(interpret_selection("NO", 3), None);
    assert_eq!(interpret_selection("2", 3), Some(1));
    assert_eq!(interpret_selection(" 3 ", 3), Some(2));
    assert_eq!(interpret_selection("+2", 3), Some(1));
    assert_eq!(interpret_selection("0", 3), None);
    assert_eq!(interpret_selection("7", 3), None);
    assert_eq!(interpret_selection("", 3), Some(0));
    assert_eq!(interpret_selection("", 0), None);
    assert_eq!(interpret_selection("maybe", 3), None);
    assert_eq!(interpret_selection("99999999999999999999999999", 3), None);
}

#[test]
fn system_paths_recognised() {
    assert!(is_system_path("/usr/local/bin/wtf"));
    assert!(is_system_path("/usr/bin/wtf"));
    assert!(is_system_path("/opt/tools/wtf"));
    assert!(is_system_path("/bin/wtf"));
    assert!(!is_system_path("/home/u/.wtf/bin/wtf"));
    assert!(!is_system_path("./wtf"));
}

#[test]
fn bashrc_configuration_need() {
    assert!(needs_history_config(""));
    assert!(needs_history_config("shopt -s histappend\n"));
    assert!(needs_history_config("PROMPT_COMMAND='history -a'\n"));
    assert!(!needs_history_config(
        "shopt -s histappend\nPROMPT_COMMAND='history -a'\n"
    ));
}

#[test]
fn bashrc_appends_only_missing_settings() {
    let out = bashrc_with_history_config("alias ll='ls -la'");
    assert_eq!(
        out,
        "alias ll='ls -la'\n\n# WTF - Command Typo Fixer: Enable real-time history\nshopt -s histappend\nPROMPT_COMMAND='history -a'\n"
    );
    let out2 = bashrc_with_history_config("shopt -s histappend");
    assert_eq!(
        out2,
        "shopt -s histappend\n\n# WTF - Command Typo Fixer: Enable real-time history\nPROMPT_COMMAND='history -a'\n"
    );
}
