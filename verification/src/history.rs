//! The shell-history retrieval layer: inferring the shell dialect from the
//! history file's path, parsing each dialect's history format, and picking
//! the most recent real command the user typed.
//!
//! Reading the environment and the file itself is the caller's business;
//! everything here works on the path and the file contents as plain text.

use crate::text::chars_of;
use crate::text::contains_chars;
use crate::text::contains_sub;
use crate::text::copy_range;
use crate::text::find_marker;
use crate::text::is_digit;
use crate::text::line_split;
use crate::text::lower_spec;
use crate::text::lowercased;
use crate::text::marker_pos;
use crate::text::split_lines;
use crate::text::starts_with;
use crate::text::str_views;
use crate::text::starts_with_chars;
use crate::text::string_of;
use crate::text::trim_spec;
use crate::text::trimmed;
use crate::text::views_of;
use vstd::prelude::*;

verus! {

/// The shell dialect a history file is written in.
#[derive(Clone, Copy, Debug, PartialEq, Eq, Structural)]
pub enum ShellType {
    PowerShell,
    Bash,
    Zsh,
    Fish,
}

/// Why no last command could be produced.
#[derive(Clone, Copy, Debug, PartialEq, Eq, Structural)]
pub enum HistoryError {
    /// No history file could be resolved, or none exists on disk.
    NotFound,
    /// A PowerShell history with fewer than two lines.
    NotEnoughHistory,
    /// A history file with no lines at all.
    EmptyHistory,
    /// Every line is empty or is itself an invocation of this tool.
    NoValidCommand,
    /// A Bash history that yielded nothing. Bash flushes history to disk
    /// only at shell exit by default, so the user is told how to enable
    /// live flushing.
    BashHistoryStale,
}

impl HistoryError {
    /// The message text of each failure, as shown to the user.
    pub open spec fn message_spec(self) -> Seq<char> {
        match self {
            HistoryError::NotFound => "No shell history file found"@,
            HistoryError::NotEnoughHistory => "Not enough history"@,
            HistoryError::EmptyHistory => "Empty history"@,
            HistoryError::NoValidCommand => "No valid command found in history"@,
            HistoryError::BashHistoryStale => "History file is not up to date. Add this to your ~/.bashrc:\nshopt -s histappend\nPROMPT_COMMAND='history -a'"@,
        }
    }

    /// The message shown to the user; the stale-Bash variant carries its
    /// remediation instructions.
    pub fn message(&self) -> (r: String)
        ensures
            r@ == self.message_spec(),
    {
        match self {
            HistoryError::NotFound => String::from_str("No shell history file found"),
            HistoryError::NotEnoughHistory => String::from_str("Not enough history"),
            HistoryError::EmptyHistory => String::from_str("Empty history"),
            HistoryError::NoValidCommand => String::from_str(
                "No valid command found in history",
            ),
            HistoryError::BashHistoryStale => String::from_str(
                "History file is not up to date. Add this to your ~/.bashrc:\nshopt -s histappend\nPROMPT_COMMAND='history -a'",
            ),
        }
    }
}

/// The dialect inferred from a history file path: a case-insensitive
/// substring heuristic, with Bash the fallback.
pub open spec fn detect_shell_spec(path: Seq<char>) -> ShellType {
    let p = lower_spec(path);
    if contains_sub(p, "powershell"@) || contains_sub(p, "consolehost_history"@) {
        ShellType::PowerShell
    } else if contains_sub(p, "fish"@) {
        ShellType::Fish
    } else if contains_sub(p, "zsh"@) {
        ShellType::Zsh
    } else {
        ShellType::Bash
    }
}

/// Infers the shell dialect from the history file path. A custom path that
/// names none of the known shells falls back to Bash.
pub fn detect_shell_type(path: &str) -> (t: ShellType)
    ensures
        t == detect_shell_spec(path@),
{
    let pv = lowercased(&chars_of(path));
    let ps = chars_of("powershell");
    let ch = chars_of("consolehost_history");
    let fi = chars_of("fish");
    let zs = chars_of("zsh");
    if contains_chars(&pv, &ps) || contains_chars(&pv, &ch) {
        ShellType::PowerShell
    } else if contains_chars(&pv, &fi) {
        ShellType::Fish
    } else if contains_chars(&pv, &zs) {
        ShellType::Zsh
    } else {
        ShellType::Bash
    }
}

/// The second-to-last line of a PowerShell history, trimmed: the last line
/// is the invocation of this tool itself.
pub open spec fn powershell_last_spec(content: Seq<char>) -> Result<Seq<char>, HistoryError> {
    let ls = line_split(content);
    if ls.len() < 2 {
        Err(HistoryError::NotEnoughHistory)
    } else {
        Ok(trim_spec(ls[ls.len() - 2]))
    }
}

/// The most recent command of a PowerShell history: one command per line,
/// newest last, the very last line being this tool's own invocation.
pub fn parse_powershell_history(content: &str) -> (r: Result<String, HistoryError>)
    ensures
        match r {
            Ok(s) => powershell_last_spec(content@) == Ok::<Seq<char>, HistoryError>(s@),
            Err(e) => powershell_last_spec(content@) == Err::<Seq<char>, HistoryError>(e),
        },
{
    let cv = chars_of(content);
    let lines = split_lines(&cv);
    if lines.len() < 2 {
        return Err(HistoryError::NotEnoughHistory);
    }
    let line = trimmed(&lines[lines.len() - 2]);
    proof {
        assert(views_of(lines@)[lines@.len() - 2] == lines@[lines@.len() - 2]@);
    }
    Ok(string_of(&line))
}

/// First index at or after `from` that holds no digit, or the length.
pub open spec fn digit_run_end(l: Seq<char>, from: int) -> int
    decreases (if from < l.len() {
        l.len() - from
    } else {
        0
    }),
{
    if 0 <= from && from < l.len() && is_digit(l[from]) {
        digit_run_end(l, from + 1)
    } else {
        from
    }
}

/// Where the payload of a zsh extended-history line starts: just after a
/// prefix of the exact form `: <digits>:<digits>;` when at least one more
/// character follows, and -1 when the line has no such prefix.
pub open spec fn ts_payload_start(l: Seq<char>) -> int {
    if l.len() >= 2 && l[0] == ':' && l[1] == ' ' {
        let i = digit_run_end(l, 2);
        if i > 2 && i < l.len() && l[i] == ':' {
            let j = digit_run_end(l, i + 1);
            if j > i + 1 && j < l.len() && l[j] == ';' && j + 1 < l.len() {
                j + 1
            } else {
                -1
            }
        } else {
            -1
        }
    } else {
        -1
    }
}

/// What a Bash or Zsh history line stands for: the payload after a
/// timestamp prefix, kept as it is, or else the whole line trimmed.
pub open spec fn bash_line_cmd(l: Seq<char>) -> Seq<char> {
    let p = ts_payload_start(l);
    if p >= 0 {
        l.skip(p)
    } else {
        trim_spec(l)
    }
}

/// A line's command counts when it is non-empty and is not an invocation of
/// this tool.
pub open spec fn is_valid_cmd(c: Seq<char>) -> bool {
    c.len() > 0 && !starts_with(c, "wtf"@)
}

/// The newest valid command of a Bash or Zsh history, scanning from the
/// most recent line backwards.
pub open spec fn last_valid_bash(lines: Seq<Seq<char>>) -> Option<Seq<char>>
    decreases lines.len(),
{
    if lines.len() == 0 {
        None
    } else {
        let c = bash_line_cmd(lines.last());
        if is_valid_cmd(c) {
            Some(c)
        } else {
            last_valid_bash(lines.drop_last())
        }
    }
}

/// The result of parsing a Bash or Zsh history.
pub open spec fn bash_zsh_last_spec(content: Seq<char>) -> Result<Seq<char>, HistoryError> {
    let ls = line_split(content);
    if ls.len() == 0 {
        Err(HistoryError::EmptyHistory)
    } else {
        match last_valid_bash(ls) {
            Some(c) => Ok(c),
            None => Err(HistoryError::NoValidCommand),
        }
    }
}

/// First index at or after `from` that holds no digit, or the length.
fn scan_digits_end(l: &Vec<char>, from: usize) -> (r: usize)
    requires
        from <= l@.len(),
    ensures
        from <= r <= l@.len(),
        r == digit_run_end(l@, from as int),
    decreases l@.len() - from,
{
    let mut i = from;
    loop
        invariant
            from <= i <= l@.len(),
            digit_run_end(l@, from as int) == digit_run_end(l@, i as int),
        decreases l@.len() - i,
    {
        if i == l.len() {
            return i;
        }
        let c = l[i];
        if !(c >= '0' && c <= '9') {
            return i;
        }
        i = i + 1;
    }
}

/// Where a zsh extended-history payload starts in this line, if anywhere.
fn payload_start(l: &Vec<char>) -> (r: Option<usize>)
    ensures
        match r {
            Some(p) => ts_payload_start(l@) == p as int,
            None => ts_payload_start(l@) == -1,
        },
{
    if l.len() >= 2 && l[0] == ':' && l[1] == ' ' {
        let i = scan_digits_end(l, 2);
        if i > 2 && i < l.len() && l[i] == ':' {
            let j = scan_digits_end(l, i + 1);
            if j > i + 1 && j < l.len() && l[j] == ';' && j + 1 < l.len() {
                Some(j + 1)
            } else {
                None
            }
        } else {
            None
        }
    } else {
        None
    }
}

/// The command a Bash or Zsh history line stands for.
fn bash_line_cmd_exec(line: &Vec<char>) -> (r: Vec<char>)
    ensures
        r@ == bash_line_cmd(line@),
{
    match payload_start(line) {
        Some(p) => {
            let r = copy_range(line, p, line.len());
            proof {
                assert(r@ =~= line@.skip(p as int));
            }
            r
        },
        None => trimmed(line),
    }
}

/// The most recent command of a Bash or Zsh history: lines newest last,
/// each optionally carrying a `: <epoch>:<duration>;` prefix, scanning
/// newest-first past empty lines and this tool's own invocations.
pub fn parse_bash_zsh_history(content: &str) -> (r: Result<String, HistoryError>)
    ensures
        match r {
            Ok(s) => bash_zsh_last_spec(content@) == Ok::<Seq<char>, HistoryError>(s@),
            Err(e) => bash_zsh_last_spec(content@) == Err::<Seq<char>, HistoryError>(e),
        },
{
    let cv = chars_of(content);
    let lines = split_lines(&cv);
    if lines.len() == 0 {
        return Err(HistoryError::EmptyHistory);
    }
    let wtf_pat = chars_of("wtf");
    let ghost all = views_of(lines@);
    let mut idx = lines.len();
    proof {
        assert(all.take(idx as int) =~= all);
    }
    while idx > 0
        invariant
            idx <= lines@.len(),
            all == views_of(lines@),
            all == line_split(content@),
            all.len() > 0,
            wtf_pat@ == "wtf"@,
            last_valid_bash(all) == last_valid_bash(all.take(idx as int)),
        decreases idx,
    {
        idx = idx - 1;
        let cand = bash_line_cmd_exec(&lines[idx]);
        proof {
            assert(all.take(idx + 1).last() == lines@[idx as int]@);
            assert(all.take(idx + 1).drop_last() =~= all.take(idx as int));
        }
        if cand.len() > 0 && !starts_with_chars(&cand, &wtf_pat) {
            assert(last_valid_bash(all.take(idx + 1)) == Some(cand@));
            return Ok(string_of(&cand));
        }
    }
    proof {
        assert(all.take(0).len() == 0);
        assert(last_valid_bash(all) is None);
    }
    Err(HistoryError::NoValidCommand)
}

/// What a Fish history line stands for: the text after the first
/// `- cmd: ` marker that has anything after it, trimmed; nothing when the
/// line has no such marker.
pub open spec fn fish_line_cmd(l: Seq<char>) -> Option<Seq<char>> {
    let p = marker_pos(l, "- cmd: "@);
    if p >= 0 {
        Some(trim_spec(l.skip(p + "- cmd: "@.len())))
    } else {
        None
    }
}

/// The newest valid command of a Fish history, scanning from the most
/// recent line backwards.
pub open spec fn last_valid_fish(lines: Seq<Seq<char>>) -> Option<Seq<char>>
    decreases lines.len(),
{
    if lines.len() == 0 {
        None
    } else {
        match fish_line_cmd(lines.last()) {
            Some(c) => if is_valid_cmd(c) {
                Some(c)
            } else {
                last_valid_fish(lines.drop_last())
            },
            None => last_valid_fish(lines.drop_last()),
        }
    }
}

/// The result of parsing a Fish history.
pub open spec fn fish_last_spec(content: Seq<char>) -> Result<Seq<char>, HistoryError> {
    match last_valid_fish(line_split(content)) {
        Some(c) => Ok(c),
        None => Err(HistoryError::NoValidCommand),
    }
}

/// The most recent command of a Fish history: entries are multi-field
/// records, and only `- cmd: ` fields are candidates, scanned newest-first.
pub fn parse_fish_history(content: &str) -> (r: Result<String, HistoryError>)
    ensures
        match r {
            Ok(s) => fish_last_spec(content@) == Ok::<Seq<char>, HistoryError>(s@),
            Err(e) => fish_last_spec(content@) == Err::<Seq<char>, HistoryError>(e),
        },
{
    let cv = chars_of(content);
    let lines = split_lines(&cv);
    let marker = chars_of("- cmd: ");
    let wtf_pat = chars_of("wtf");
    let ghost all = views_of(lines@);
    let mut idx = lines.len();
    proof {
        assert(all.take(idx as int) =~= all);
    }
    while idx > 0
        invariant
            idx <= lines@.len(),
            all == views_of(lines@),
            all == line_split(content@),
            marker@ == "- cmd: "@,
            wtf_pat@ == "wtf"@,
            last_valid_fish(all) == last_valid_fish(all.take(idx as int)),
        decreases idx,
    {
        idx = idx - 1;
        let line = &lines[idx];
        proof {
            assert(all.take(idx + 1).last() == lines@[idx as int]@);
            assert(all.take(idx + 1).drop_last() =~= all.take(idx as int));
        }
        match find_marker(line, &marker) {
            Some(p) => {
                proof {
                    crate::text::lemma_marker_pos_props(line@, marker@);
                }
                let ll = line.len();
                let raw = copy_range(line, p + marker.len(), ll);
                proof {
                    assert(raw@ =~= line@.skip(p + marker@.len()));
                }
                let cand = trimmed(&raw);
                if cand.len() > 0 && !starts_with_chars(&cand, &wtf_pat) {
                    assert(last_valid_fish(all.take(idx + 1)) == Some(cand@));
                    return Ok(string_of(&cand));
                }
            },
            None => {},
        }
    }
    proof {
        assert(all.take(0).len() == 0);
        assert(last_valid_fish(all) is None);
    }
    Err(HistoryError::NoValidCommand)
}

/// What the last command of a history file is: the dialect is inferred from
/// the path, the matching parser runs, and a failure on a file taken for
/// Bash becomes the stale-history error with its remediation advice.
pub open spec fn last_command_spec(path: Seq<char>, content: Seq<char>) -> Result<
    Seq<char>,
    HistoryError,
> {
    let shell = detect_shell_spec(path);
    let r = match shell {
        ShellType::PowerShell => powershell_last_spec(content),
        ShellType::Bash => bash_zsh_last_spec(content),
        ShellType::Zsh => bash_zsh_last_spec(content),
        ShellType::Fish => fish_last_spec(content),
    };
    if r is Err && shell == ShellType::Bash {
        Err(HistoryError::BashHistoryStale)
    } else {
        r
    }
}

/// The most recent command in the given history file. `path` decides the
/// dialect; `content` is the file's text. When parsing fails for a file
/// inferred as Bash, the error tells the user to enable live history
/// flushing instead of reporting the bare parse failure.
pub fn get_last_command(path: &str, content: &str) -> (r: Result<String, HistoryError>)
    ensures
        match r {
            Ok(s) => last_command_spec(path@, content@) == Ok::<Seq<char>, HistoryError>(s@),
            Err(e) => last_command_spec(path@, content@) == Err::<Seq<char>, HistoryError>(e),
        },
{
    let shell = detect_shell_type(path);
    let r = match shell {
        ShellType::PowerShell => parse_powershell_history(content),
        ShellType::Bash => parse_bash_zsh_history(content),
        ShellType::Zsh => parse_bash_zsh_history(content),
        ShellType::Fish => parse_fish_history(content),
    };
    if r.is_err() && shell == ShellType::Bash {
        return Err(HistoryError::BashHistoryStale);
    }
    r
}

/// The view of an optional string slice.
pub open spec fn opt_view(o: Option<&str>) -> Option<Seq<char>> {
    match o {
        Some(s) => Some(s@),
        None => None,
    }
}

/// The history file paths to try, in the order the first existing one wins.
/// On Windows only the PowerShell PSReadLine history under AppData is known.
/// Elsewhere a set `HISTFILE` takes precedence, then the zsh, bash and fish
/// defaults under the home directory, in that fixed order; without a home
/// directory nothing can be tried at all. Path components are joined with
/// the separator of the platform each branch serves.
pub open spec fn history_candidates_spec(
    windows: bool,
    appdata: Option<Seq<char>>,
    histfile: Option<Seq<char>>,
    home: Option<Seq<char>>,
) -> Result<Seq<Seq<char>>, HistoryError> {
    if windows {
        match appdata {
            Some(a) => Ok(
                seq![a + "\\Microsoft\\Windows\\PowerShell\\PSReadLine\\ConsoleHost_history.txt"@],
            ),
            None => Ok(Seq::empty()),
        }
    } else {
        match home {
            None => Err(HistoryError::NotFound),
            Some(h) => {
                let defaults = seq![
                    h + "/.zsh_history"@,
                    h + "/.bash_history"@,
                    h + "/.local/share/fish/fish_history"@,
                ];
                match histfile {
                    Some(f) => Ok(seq![f] + defaults),
                    None => Ok(defaults),
                }
            },
        }
    }
}

/// The candidate history file paths, in the order to try them; the caller
/// checks which exists on disk. `windows` says which platform's layout to
/// use; `appdata`, `histfile` and `home` carry what the environment gave.
pub fn history_candidates(
    windows: bool,
    appdata: Option<&str>,
    histfile: Option<&str>,
    home: Option<&str>,
) -> (r: Result<Vec<String>, HistoryError>)
    ensures
        ({
            let model = history_candidates_spec(
                windows,
                opt_view(appdata),
                opt_view(histfile),
                opt_view(home),
            );
            match r {
                Ok(v) => model is Ok && str_views(v@) == model->Ok_0,
                Err(e) => model == Err::<Seq<Seq<char>>, HistoryError>(e),
            }
        }),
{
    if windows {
        match appdata {
            Some(a) => {
                let p = String::from_str(a).concat(
                    "\\Microsoft\\Windows\\PowerShell\\PSReadLine\\ConsoleHost_history.txt",
                );
                let mut v: Vec<String> = Vec::new();
                v.push(p);
                proof {
                    assert(str_views(v@) =~= history_candidates_spec(
                        windows,
                        opt_view(appdata),
                        opt_view(histfile),
                        opt_view(home),
                    )->Ok_0);
                }
                Ok(v)
            },
            None => {
                let v: Vec<String> = Vec::new();
                proof {
                    assert(str_views(v@) =~= Seq::<Seq<char>>::empty());
                }
                Ok(v)
            },
        }
    } else {
        match home {
            None => Err(HistoryError::NotFound),
            Some(h) => {
                let mut v: Vec<String> = Vec::new();
                match histfile {
                    Some(f) => {
                        v.push(String::from_str(f));
                    },
                    None => {},
                }
                v.push(String::from_str(h).concat("/.zsh_history"));
                v.push(String::from_str(h).concat("/.bash_history"));
                v.push(String::from_str(h).concat("/.local/share/fish/fish_history"));
                proof {
                    assert(str_views(v@) =~= history_candidates_spec(
                        windows,
                        opt_view(appdata),
                        opt_view(histfile),
                        opt_view(home),
                    )->Ok_0);
                }
                Ok(v)
            },
        }
    }
}

} // verus!
