//! Behaviour of the history layer: dialect inference, the three history
//! formats, the stale-Bash advice, and the path resolution order.

use wtf::history::detect_shell_type;
use wtf::history::get_last_command;
use wtf::history::history_candidates;
use wtf::history::parse_bash_zsh_history;
use wtf::history::parse_fish_history;
use wtf::history::parse_powershell_history;
use wtf::history::HistoryError;
use wtf::history::ShellType;

#[test]
fn bash_style_skips_own_invocation() {
    let content = ": 100:0;ls -la\n: 101:0;wtf\n: 102:0;git statuus\n";
    assert_eq!(parse_bash_zsh_history(content).unwrap(), "git statuus");
}

#[test]
fn bash_style_scans_newest_first() {
    let content = ": 100:0;ls -la\n: 101:0;wtf\n";
    assert_eq!(parse_bash_zsh_history(content).unwrap(), "ls -la");
}

#[test]
fn bash_plain_lines_are_trimmed() {
    let content = "ls -la\n  git status  \n";
    assert_eq!(parse_bash_zsh_history(content).unwrap(), "git status");
}

#[test]
fn bash_timestamp_payload_kept_verbatim() {
    // A timestamped line's payload is not trimmed.
    let content = ": 100:0; ls \n";
    assert_eq!(parse_bash_zsh_history(content).unwrap(), " ls ");
}

#[test]
fn bash_malformed_timestamp_is_a_plain_line() {
    // Missing digits after the colon: no timestamp prefix, so the whole
    // trimmed line is the command.
    let content = ": :0;ls\n";
    assert_eq!(parse_bash_zsh_history(content).unwrap(), ": :0;ls");
}

#[test]
fn bash_empty_history_fails() {
    assert_eq!(parse_bash_zsh_history(""), Err(HistoryError::EmptyHistory));
}

#[test]
fn bash_only_own_invocations_fails() {
    let content = "wtf\n: 5:0;wtf --debug\n\n";
    assert_eq!(parse_bash_zsh_history(content), Err(HistoryError::NoValidCommand));
}

#[test]
fn fish_style_takes_most_recent_cmd_field() {
    let content = "- cmd: gti status\n  when: 100\n- cmd: wtf\n  when: 101\n";
    assert_eq!(parse_fish_history(content).unwrap(), "gti status");
}

#[test]
fn fish_ignores_lines_without_marker() {
    let content = "- cmd: ls\n  when: 100\n  paths:\n    - /tmp\n";
    assert_eq!(parse_fish_history(content).unwrap(), "ls");
}

#[test]
fn fish_without_candidates_fails() {
    assert_eq!(parse_fish_history("- cmd: wtf\n"), Err(HistoryError::NoValidCommand));
    assert_eq!(parse_fish_history(""), Err(HistoryError::NoValidCommand));
}

#[test]
fn powershell_returns_second_to_last_line() {
    assert_eq!(parse_powershell_history("ls\nwtf\n").unwrap(), "ls");
}

#[test]
fn powershell_single_line_fails() {
    assert_eq!(parse_powershell_history("wtf\n"), Err(HistoryError::NotEnoughHistory));
    assert_eq!(parse_powershell_history(""), Err(HistoryError::NotEnoughHistory));
}

#[test]
fn powershell_trims_the_line() {
    assert_eq!(parse_powershell_history("  dir c:\\  \nwtf\n").unwrap(), "dir c:\\");
}

#[test]
fn shell_type_detection() {
    assert_eq!(detect_shell_type("/home/u/.zsh_history"), ShellType::Zsh);
    assert_eq!(detect_shell_type("/home/u/.bash_history"), ShellType::Bash);
    assert_eq!(detect_shell_type("/home/u/.local/share/fish/fish_history"), ShellType::Fish);
    assert_eq!(
        detect_shell_type(
            "C:\\Users\\u\\AppData\\Roaming\\Microsoft\\Windows\\PowerShell\\PSReadLine\\ConsoleHost_history.txt"
        ),
        ShellType::PowerShell
    );
    assert_eq!(detect_shell_type("/home/u/.ZSH_HISTORY"), ShellType::Zsh);
    // A custom name that names no shell falls back to Bash.
    assert_eq!(detect_shell_type("/home/u/.my_hist"), ShellType::Bash);
}

#[test]
fn last_command_dispatches_on_path() {
    assert_eq!(
        get_last_command("/home/u/.zsh_history", ": 1:0;make\n: 2:0;wtf\n").unwrap(),
        "make"
    );
    assert_eq!(
        get_last_command("/home/u/.local/share/fish/fish_history", "- cmd: cargo biuld\n")
            .unwrap(),
        "cargo biuld"
    );
    assert_eq!(get_last_command("powershell_history.txt", "ls\nwtf\n").unwrap(), "ls");
}

#[test]
fn bash_failure_becomes_stale_history_advice() {
    assert_eq!(
        get_last_command("/home/u/.bash_history", "wtf\n"),
        Err(HistoryError::BashHistoryStale)
    );
    assert_eq!(
        get_last_command("/home/u/.bash_history", ""),
        Err(HistoryError::BashHistoryStale)
    );
    // The same failures on a zsh-named file keep their own variants.
    assert_eq!(
        get_last_command("/home/u/.zsh_history", "wtf\n"),
        Err(HistoryError::NoValidCommand)
    );
    assert_eq!(
        get_last_command("/home/u/.zsh_history", ""),
        Err(HistoryError::EmptyHistory)
    );
}

#[test]
fn stale_bash_message_carries_remediation() {
    let msg = HistoryError::BashHistoryStale.message();
    assert!(msg.contains("shopt -s histappend"));
    assert!(msg.contains("PROMPT_COMMAND='history -a'"));
    assert_eq!(HistoryError::NotFound.message(), "No shell history file found");
    assert_eq!(HistoryError::EmptyHistory.message(), "Empty history");
    assert_eq!(HistoryError::NotEnoughHistory.message(), "Not enough history");
    assert_eq!(
        HistoryError::NoValidCommand.message(),
        "No valid command found in history"
    );
}

#[test]
fn candidate_paths_in_resolution_order() {
    let v = history_candidates(false, None, Some("/tmp/hist"), Some("/home/u")).unwrap();
    assert_eq!(
        v,
        vec![
            "/tmp/hist".to_string(),
            "/home/u/.zsh_history".to_string(),
            "/home/u/.bash_history".to_string(),
            "/home/u/.local/share/fish/fish_history".to_string(),
        ]
    );
    let v2 = history_candidates(false, None, None, Some("/home/u")).unwrap();
    assert_eq!(v2.len(), 3);
    assert_eq!(v2[0], "/home/u/.zsh_history");
}

#[test]
fn candidate_paths_need_a_home() {
    assert_eq!(
        history_candidates(false, None, Some("/tmp/hist"), None),
        Err(HistoryError::NotFound)
    );
}

#[test]
fn candidate_paths_on_windows() {
    let v = history_candidates(true, Some("C:\\Users\\u\\AppData\\Roaming"), None, None).unwrap();
    assert_eq!(v.len(), 1);
    assert_eq!(
        v[0],
        "C:\\Users\\u\\AppData\\Roaming\\Microsoft\\Windows\\PowerShell\\PSReadLine\\ConsoleHost_history.txt"
    );
    assert_eq!(history_candidates(true, None, None, None).unwrap().len(), 0);
}
