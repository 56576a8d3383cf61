//! Cleaning of the raw answer an AI service returns for a broken command:
//! stray quoting is stripped and only the first line is kept. The network
//! call itself is the caller's business.

use crate::text::chars_of;
use crate::text::copy_range;
use crate::text::find_nl;
use crate::text::is_wspace;
use crate::text::lemma_find_nl_at;
use crate::text::lemma_find_nl_bounds;
use crate::text::lemma_ws_len_bounds;
use crate::text::line_split;
use crate::text::scan_to_char;
use crate::text::string_of;
use crate::text::strip_cr;
use crate::text::trim_char;
use crate::text::trim_char_spec;
use crate::text::trim_spec;
use crate::text::trimmed;
use crate::text::ws_len;
use vstd::prelude::*;

verus! {

/// The cleaned form of an AI answer: backticks, double quotes and single
/// quotes stripped from both ends in that order, whitespace trimmed, and
/// the first line of what is left. When nothing is left, the raw answer
/// itself.
pub open spec fn cleaned_response(resp: Seq<char>) -> Seq<char> {
    let t = trim_spec(trim_char_spec(trim_char_spec(trim_char_spec(resp, '`'), '"'), '\''));
    if t.len() == 0 {
        resp
    } else {
        line_split(t)[0]
    }
}

/// A trimmed non-empty text starts with no whitespace, so its first line is
/// non-empty.
proof fn lemma_first_line_nonempty(t: Seq<char>)
    requires
        t.len() > 0,
        !is_wspace(t[0]),
    ensures
        line_split(t).len() > 0,
        line_split(t)[0].len() > 0,
{
    lemma_find_nl_bounds(t);
    if t.len() > 0 {
        lemma_find_nl_bounds(t.drop_first());
    }
    let i = find_nl(t);
    assert(i >= 1);
    if i < t.len() {
        let l = t.take(i);
        assert(l[0] == t[0]);
        if l.len() > 0 && l.last() == '\r' {
            assert(strip_cr(l) == l.drop_last());
            if i == 1 {
                assert(l.last() == t[0]);
                assert(false);
            }
            assert(l.drop_last()[0] == t[0]);
        }
    }
}

/// Normalizes a raw AI answer into a single command line: quoting characters
/// are stripped from both ends, the text is trimmed, and only the first line
/// is kept. Fails exactly on an empty answer.
pub fn clean_ai_response(response: &str) -> (r: Result<String, String>)
    ensures
        response@.len() == 0 <==> r is Err,
        match r {
            Ok(s) => s@ == cleaned_response(response@),
            Err(e) => e@ == "AI returned empty response"@,
        },
{
    let cv = chars_of(response);
    let t1 = trim_char(&cv, '`');
    let t2 = trim_char(&t1, '"');
    let t3 = trim_char(&t2, '\'');
    let t = trimmed(&t3);
    let cleaned: Vec<char> = if t.len() == 0 {
        copy_range(&cv, 0, cv.len())
    } else {
        proof {
            lemma_ws_len_bounds(t3@);
            let a = ws_len(t3@) as int;
            let tp = t3@.skip(a);
            crate::text::lemma_end_ws_len_bounds(tp);
            assert(t@.len() > 0);
            assert(a < t3@.len());
            assert(t@[0] == tp[0]);
            assert(tp[0] == t3@[a]);
            assert(!is_wspace(t@[0]));
            lemma_first_line_nonempty(t@);
        }
        let j = scan_to_char(&t, 0, '\n');
        proof {
            lemma_find_nl_at(t@, j as int);
        }
        if j == t.len() {
            proof {
                assert(line_split(t@) == seq![t@]);
            }
            copy_range(&t, 0, t.len())
        } else {
            let end = if j > 0 && t[j - 1] == '\r' {
                j - 1
            } else {
                j
            };
            let line = copy_range(&t, 0, end);
            proof {
                let l = t@.take(j as int);
                assert(l =~= t@.subrange(0, j as int));
                if j > 0 && t@[j - 1] == '\r' {
                    assert(l.last() == '\r');
                    assert(line@ =~= l.drop_last());
                } else {
                    assert(line@ == l);
                }
                assert(line@ == strip_cr(l));
                assert(line_split(t@)[0] == strip_cr(l));
            }
            line
        }
    };
    proof {
        assert(cv@.subrange(0, cv@.len() as int) =~= cv@);
        assert(cleaned@ == cleaned_response(response@));
        if t@.len() > 0 {
            assert(cleaned@.len() > 0);
        }
    }
    if cleaned.len() == 0 {
        assert(response@.len() == 0);
        Err(String::from_str("AI returned empty response"))
    } else {
        assert(response@.len() > 0) by {
            if response@.len() == 0 {
                assert(t3@.len() == 0);
                assert(t@.len() == 0);
            }
        }
        Ok(string_of(&cleaned))
    }
}

} // verus!
