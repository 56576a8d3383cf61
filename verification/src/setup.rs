//! Decisions around installing the tool and configuring the shell: whether
//! the binary already sits on a system path, whether a bashrc needs the
//! live-history settings, what to append to it, and how a selection-prompt
//! answer is read. The filesystem and terminal work around these decisions
//! is the caller's business.

use crate::text::chars_eq;
use crate::text::chars_of;
use crate::text::contains_chars;
use crate::text::contains_sub;
use crate::text::lower_spec;
use crate::text::lowercased;
use crate::text::parse_usize;
use crate::text::parse_usize_spec;
use crate::text::starts_with;
use crate::text::starts_with_chars;
use crate::text::trim_spec;
use crate::text::trimmed;
use vstd::prelude::*;

verus! {

/// The path prefixes that mark a system-wide installation.
pub open spec fn system_prefixes() -> Seq<Seq<char>> {
    seq!["/usr/local/bin"@, "/usr/bin"@, "/opt"@, "/bin"@]
}

/// Whether an executable path lies under one of the system prefixes.
pub open spec fn is_system_path_spec(exe: Seq<char>) -> bool {
    exists|i: int| 0 <= i < system_prefixes().len() && starts_with(exe, system_prefixes()[i])
}

/// Whether the executable path lies under one of the system install
/// locations.
pub fn is_system_path(exe: &str) -> (r: bool)
    ensures
        r == is_system_path_spec(exe@),
{
    let cv = chars_of(exe);
    let p0 = chars_of("/usr/local/bin");
    let p1 = chars_of("/usr/bin");
    let p2 = chars_of("/opt");
    let p3 = chars_of("/bin");
    if starts_with_chars(&cv, &p0) {
        assert(starts_with(exe@, system_prefixes()[0]));
        return true;
    }
    if starts_with_chars(&cv, &p1) {
        assert(starts_with(exe@, system_prefixes()[1]));
        return true;
    }
    if starts_with_chars(&cv, &p2) {
        assert(starts_with(exe@, system_prefixes()[2]));
        return true;
    }
    if starts_with_chars(&cv, &p3) {
        assert(starts_with(exe@, system_prefixes()[3]));
        return true;
    }
    proof {
        assert forall|i: int| 0 <= i < system_prefixes().len() implies !starts_with(
            exe@,
            system_prefixes()[i],
        ) by {
            if i == 0 {
                assert(system_prefixes()[0] == "/usr/local/bin"@);
            } else if i == 1 {
                assert(system_prefixes()[1] == "/usr/bin"@);
            } else if i == 2 {
                assert(system_prefixes()[2] == "/opt"@);
            } else {
                assert(system_prefixes()[3] == "/bin"@);
            }
        }
    }
    false
}

/// Whether the bashrc already enables appending to the history file at each
/// prompt.
pub open spec fn has_histappend(bashrc: Seq<char>) -> bool {
    contains_sub(bashrc, "shopt -s histappend"@)
}

/// Whether the bashrc already flushes history at each prompt.
pub open spec fn has_prompt_command(bashrc: Seq<char>) -> bool {
    contains_sub(bashrc, "PROMPT_COMMAND"@) && contains_sub(bashrc, "history -a"@)
}

/// Whether the bashrc still lacks one of the two live-history settings.
pub open spec fn needs_history_config_spec(bashrc: Seq<char>) -> bool {
    !(has_histappend(bashrc) && has_prompt_command(bashrc))
}

/// Whether this bashrc content still needs the live-history settings.
pub fn needs_history_config(bashrc: &str) -> (r: bool)
    ensures
        r == needs_history_config_spec(bashrc@),
{
    let cv = chars_of(bashrc);
    let shopt = chars_of("shopt -s histappend");
    let pc = chars_of("PROMPT_COMMAND");
    let ha = chars_of("history -a");
    let have_histappend = contains_chars(&cv, &shopt);
    let have_prompt = contains_chars(&cv, &pc) && contains_chars(&cv, &ha);
    !(have_histappend && have_prompt)
}

/// The bashrc content with the live-history settings appended: a blank
/// separator and a marker comment, then whichever of the two settings is
/// missing.
pub open spec fn with_history_config_spec(bashrc: Seq<char>) -> Seq<char> {
    let base = bashrc + "\n\n"@ + "# WTF - Command Typo Fixer: Enable real-time history\n"@;
    let base2 = if !has_histappend(bashrc) {
        base + "shopt -s histappend\n"@
    } else {
        base
    };
    if !has_prompt_command(bashrc) {
        base2 + "PROMPT_COMMAND='history -a'\n"@
    } else {
        base2
    }
}

/// This bashrc content with the live-history settings appended.
pub fn bashrc_with_history_config(bashrc: &str) -> (r: String)
    ensures
        r@ == with_history_config_spec(bashrc@),
{
    let cv = chars_of(bashrc);
    let shopt = chars_of("shopt -s histappend");
    let pc = chars_of("PROMPT_COMMAND");
    let ha = chars_of("history -a");
    let mut out = String::from_str(bashrc);
    out.append("\n\n");
    out.append("# WTF - Command Typo Fixer: Enable real-time history\n");
    if !contains_chars(&cv, &shopt) {
        out.append("shopt -s histappend\n");
    }
    if !(contains_chars(&cv, &pc) && contains_chars(&cv, &ha)) {
        out.append("PROMPT_COMMAND='history -a'\n");
    }
    out
}

/// How a selection-prompt answer picks a suggestion, after trimming and
/// lower-casing: `n` or `no` cancels; a number from one up to `max` picks
/// that suggestion, counted from zero; an empty answer takes the first when
/// there is one; anything else cancels.
pub open spec fn interpret_selection_spec(input: Seq<char>, max: int) -> Option<int> {
    let t = lower_spec(trim_spec(input));
    if t == "n"@ || t == "no"@ {
        None
    } else {
        match parse_usize_spec(t) {
            Some(v) => if 0 < v && v <= max {
                Some(v - 1)
            } else if t.len() == 0 && max > 0 {
                Some(0)
            } else {
                None
            },
            None => if t.len() == 0 && max > 0 {
                Some(0)
            } else {
                None
            },
        }
    }
}

/// Reads the user's answer to a selection prompt over `max` suggestions:
/// the zero-based index to run, or nothing to cancel.
pub fn interpret_selection(input: &str, max: usize) -> (r: Option<usize>)
    ensures
        match r {
            Some(v) => interpret_selection_spec(input@, max as int) == Some(v as int),
            None => interpret_selection_spec(input@, max as int) is None,
        },
{
    let cv = chars_of(input);
    let t = lowercased(&trimmed(&cv));
    let n_pat = chars_of("n");
    let no_pat = chars_of("no");
    if chars_eq(&t, &n_pat) || chars_eq(&t, &no_pat) {
        return None;
    }
    match parse_usize(&t) {
        Some(num) => {
            if num > 0 && num <= max {
                return Some(num - 1);
            }
        },
        None => {},
    }
    if t.len() == 0 && max > 0 {
        return Some(0);
    }
    None
}

} // verus!
