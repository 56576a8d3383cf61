//! Character-sequence utilities shared by the correction engine and the
//! history parsers: whitespace tokenization, trimming, line splitting and
//! substring search, each verified against a spec over `Seq<char>`.
//!
//! Whitespace throughout this crate means the ASCII whitespace characters.

use vstd::prelude::*;

verus! {

/// The ASCII whitespace characters: space, tab, line feed, vertical tab,
/// form feed, carriage return.
pub open spec fn is_wspace(c: char) -> bool {
    c == ' ' || c == '\t' || c == '\n' || c == '\u{b}' || c == '\u{c}' || c == '\r'
}

/// Length of the run of whitespace at the front of `s`.
pub open spec fn ws_len(s: Seq<char>) -> nat
    decreases s.len(),
{
    if s.len() == 0 {
        0
    } else if is_wspace(s[0]) {
        1 + ws_len(s.drop_first())
    } else {
        0
    }
}

/// Length of the run of non-whitespace at the front of `s`.
pub open spec fn tok_len(s: Seq<char>) -> nat
    decreases s.len(),
{
    if s.len() == 0 {
        0
    } else if !is_wspace(s[0]) {
        1 + tok_len(s.drop_first())
    } else {
        0
    }
}

pub proof fn lemma_ws_len_bounds(s: Seq<char>)
    ensures
        ws_len(s) <= s.len(),
        forall|k: int| 0 <= k < ws_len(s) ==> is_wspace(s[k]),
        ws_len(s) < s.len() ==> !is_wspace(s[ws_len(s) as int]),
    decreases s.len(),
{
    if s.len() > 0 && is_wspace(s[0]) {
        lemma_ws_len_bounds(s.drop_first());
        assert forall|k: int| 0 <= k < ws_len(s) implies is_wspace(s[k]) by {
            if k > 0 {
                assert(s[k] == s.drop_first()[k - 1]);
            }
        }
        if ws_len(s) < s.len() {
            assert(s[ws_len(s) as int] == s.drop_first()[ws_len(s.drop_first()) as int]);
        }
    }
}

pub proof fn lemma_tok_len_bounds(s: Seq<char>)
    ensures
        tok_len(s) <= s.len(),
        forall|k: int| 0 <= k < tok_len(s) ==> !is_wspace(s[k]),
        tok_len(s) < s.len() ==> is_wspace(s[tok_len(s) as int]),
    decreases s.len(),
{
    if s.len() > 0 && !is_wspace(s[0]) {
        lemma_tok_len_bounds(s.drop_first());
        assert forall|k: int| 0 <= k < tok_len(s) implies !is_wspace(s[k]) by {
            if k > 0 {
                assert(s[k] == s.drop_first()[k - 1]);
            }
        }
        if tok_len(s) < s.len() {
            assert(s[tok_len(s) as int] == s.drop_first()[tok_len(s.drop_first()) as int]);
        }
    }
}

/// The run lengths are determined by any index that sees the run end.
pub proof fn lemma_ws_len_at(s: Seq<char>, i: int)
    requires
        0 <= i <= s.len(),
        forall|k: int| 0 <= k < i ==> is_wspace(s[k]),
        i == s.len() || !is_wspace(s[i]),
    ensures
        ws_len(s) == i,
    decreases i,
{
    if i > 0 {
        lemma_ws_len_at(s.drop_first(), i - 1);
    }
}

pub proof fn lemma_tok_len_at(s: Seq<char>, i: int)
    requires
        0 <= i <= s.len(),
        forall|k: int| 0 <= k < i ==> !is_wspace(s[k]),
        i == s.len() || is_wspace(s[i]),
    ensures
        tok_len(s) == i,
    decreases i,
{
    if i > 0 {
        lemma_tok_len_at(s.drop_first(), i - 1);
    }
}

/// Whether `s` holds at least one whitespace-separated token.
pub open spec fn has_token(s: Seq<char>) -> bool {
    ws_len(s) < s.len()
}

#[via_fn]
proof fn joined_tokens_decreases(s: Seq<char>) {
    lemma_ws_len_bounds(s);
    lemma_tok_len_bounds(s.skip(ws_len(s) as int));
}

/// All whitespace-separated tokens of `s`, rejoined with single spaces.
pub open spec fn joined_tokens(s: Seq<char>) -> Seq<char>
    decreases s.len(),
    via joined_tokens_decreases
{
    let w = ws_len(s) as int;
    if w >= s.len() {
        Seq::empty()
    } else {
        let t = tok_len(s.skip(w)) as int;
        let rest = joined_tokens(s.skip(w + t));
        if rest.len() == 0 {
            s.subrange(w, w + t)
        } else {
            s.subrange(w, w + t) + seq![' '] + rest
        }
    }
}

/// The first whitespace-separated token of `s` (empty if there is none).
pub open spec fn first_token(s: Seq<char>) -> Seq<char> {
    let w = ws_len(s) as int;
    s.subrange(w, w + tok_len(s.skip(w)) as int)
}

/// The tokens of `s` after the first, rejoined with single spaces.
pub open spec fn args_of(s: Seq<char>) -> Seq<char> {
    let w = ws_len(s) as int;
    joined_tokens(s.skip(w + tok_len(s.skip(w)) as int))
}

pub fn wspace_char(c: char) -> (r: bool)
    ensures
        r == is_wspace(c),
{
    c == ' ' || c == '\t' || c == '\n' || c == '\u{b}' || c == '\u{c}' || c == '\r'
}

/// First index at or after `from` that is not whitespace, or the length.
pub fn scan_ws_end(cv: &Vec<char>, from: usize) -> (r: usize)
    requires
        from <= cv@.len(),
    ensures
        from <= r <= cv@.len(),
        forall|k: int| from <= k < r ==> is_wspace(cv@[k]),
        r < cv@.len() ==> !is_wspace(cv@[r as int]),
    decreases cv@.len() - from,
{
    let mut i = from;
    loop
        invariant
            from <= i <= cv@.len(),
            forall|k: int| from <= k < i ==> is_wspace(cv@[k]),
        decreases cv@.len() - i,
    {
        if i == cv.len() {
            return i;
        }
        if !wspace_char(cv[i]) {
            return i;
        }
        i = i + 1;
    }
}

/// First index at or after `from` that is whitespace, or the length.
pub fn scan_tok_end(cv: &Vec<char>, from: usize) -> (r: usize)
    requires
        from <= cv@.len(),
    ensures
        from <= r <= cv@.len(),
        forall|k: int| from <= k < r ==> !is_wspace(cv@[k]),
        r < cv@.len() ==> is_wspace(cv@[r as int]),
    decreases cv@.len() - from,
{
    let mut i = from;
    loop
        invariant
            from <= i <= cv@.len(),
            forall|k: int| from <= k < i ==> !is_wspace(cv@[k]),
        decreases cv@.len() - i,
    {
        if i == cv.len() {
            return i;
        }
        if wspace_char(cv[i]) {
            return i;
        }
        i = i + 1;
    }
}

/// The characters of a string slice, as a vector.
pub fn chars_of(s: &str) -> (v: Vec<char>)
    ensures
        v@ == s@,
{
    let n = s.unicode_len();
    let mut v: Vec<char> = Vec::new();
    let mut i: usize = 0;
    while i < n
        invariant
            i <= n,
            n == s@.len(),
            v@ == s@.take(i as int),
        decreases n - i,
    {
        v.push(s.get_char(i));
        assert(v@ =~= s@.take(i + 1));
        i = i + 1;
    }
    assert(v@ =~= s@);
    v
}

/// Relies on String::push, which appends the one character to the string.
#[verifier::external_body]
pub fn push_char(s: &mut String, c: char)
    ensures
        final(s)@ == old(s)@.push(c),
{
    s.push(c)
}

/// A string holding exactly the given characters.
pub fn string_of(v: &Vec<char>) -> (s: String)
    ensures
        s@ == v@,
{
    let mut s = String::new();
    let mut i: usize = 0;
    while i < v.len()
        invariant
            i <= v@.len(),
            s@ == v@.take(i as int),
        decreases v@.len() - i,
    {
        push_char(&mut s, v[i]);
        assert(s@ =~= v@.take(i + 1));
        i = i + 1;
    }
    assert(s@ =~= v@);
    s
}

/// `joined_tokens` is unchanged by dropping a leading whitespace character.
proof fn lemma_joined_skip_ws(s: Seq<char>)
    requires
        s.len() > 0,
        is_wspace(s[0]),
    ensures
        joined_tokens(s) == joined_tokens(s.drop_first()),
{
    let s1 = s.drop_first();
    lemma_ws_len_bounds(s);
    lemma_ws_len_bounds(s1);
    let w = ws_len(s) as int;
    if w >= s.len() {
        assert(joined_tokens(s) == Seq::<char>::empty());
        assert(joined_tokens(s1) == Seq::<char>::empty());
    } else {
        let w1 = ws_len(s1) as int;
        assert(w1 == w - 1);
        assert(s.skip(w) =~= s1.skip(w1));
        let t = tok_len(s.skip(w)) as int;
        lemma_tok_len_bounds(s.skip(w));
        assert(s.subrange(w, w + t) =~= s1.subrange(w1, w1 + t));
        assert(s.skip(w + t) =~= s1.skip(w1 + t));
    }
}

/// `joined_tokens` is unchanged by dropping a leading whitespace run.
proof fn lemma_joined_skip_ws_run(s: Seq<char>, j: int)
    requires
        0 <= j <= s.len(),
        forall|k: int| 0 <= k < j ==> is_wspace(s[k]),
    ensures
        joined_tokens(s) == joined_tokens(s.skip(j)),
    decreases j,
{
    if j > 0 {
        lemma_joined_skip_ws(s);
        assert forall|k: int| 0 <= k < j - 1 implies is_wspace(s.drop_first()[k]) by {
            assert(s.drop_first()[k] == s[k + 1]);
        }
        lemma_joined_skip_ws_run(s.drop_first(), j - 1);
        assert(s.drop_first().skip(j - 1) =~= s.skip(j));
    } else {
        assert(s.skip(0) =~= s);
    }
}

/// The tokens still to come, joined onto what is already built.
pub open spec fn join_acc(acc: Seq<char>, s: Seq<char>) -> Seq<char> {
    if joined_tokens(s).len() == 0 {
        acc
    } else if acc.len() == 0 {
        joined_tokens(s)
    } else {
        acc + seq![' '] + joined_tokens(s)
    }
}

/// The tokens of `cv` from index `from` on, rejoined with single spaces.
pub fn joined_from(cv: &Vec<char>, from: usize) -> (out: Vec<char>)
    requires
        from <= cv@.len(),
    ensures
        out@ == joined_tokens(cv@.skip(from as int)),
{
    let ghost target = joined_tokens(cv@.skip(from as int));
    let n = cv.len();
    let mut pos = from;
    let mut out: Vec<char> = Vec::new();
    while pos < n
        invariant
            from <= pos <= n,
            n == cv@.len(),
            join_acc(out@, cv@.skip(pos as int)) == target,
        decreases n - pos,
    {
        let w_end = scan_ws_end(cv, pos);
        proof {
            let sp = cv@.skip(pos as int);
            assert forall|k: int| 0 <= k < w_end - pos implies is_wspace(sp[k]) by {
                assert(sp[k] == cv@[pos + k]);
            }
            lemma_joined_skip_ws_run(sp, w_end - pos);
            assert(sp.skip(w_end - pos) =~= cv@.skip(w_end as int));
        }
        if w_end == n {
            pos = w_end;
            assert(joined_tokens(cv@.skip(pos as int)).len() == 0);
        } else {
        let t_end = scan_tok_end(cv, w_end);
        let ghost s0 = cv@.skip(w_end as int);
        let ghost t = t_end - w_end;
        proof {
            assert forall|k: int| 0 <= k < t implies !is_wspace(s0[k]) by {
                assert(s0[k] == cv@[w_end + k]);
            }
            assert(t < s0.len() ==> is_wspace(s0[t]));
            lemma_tok_len_at(s0, t);
            assert(ws_len(s0) == 0) by {
                lemma_ws_len_at(s0, 0);
            }
            assert(s0.skip(0) =~= s0);
            assert(s0.skip(t) =~= cv@.skip(t_end as int));
            assert(s0.subrange(0, t) =~= cv@.subrange(w_end as int, t_end as int));
        }
        let ghost out_before = out@;
        if out.len() > 0 {
            out.push(' ');
        }
        let ghost base = out@;
        let mut k = w_end;
        while k < t_end
            invariant
                w_end <= k <= t_end <= cv@.len(),
                out@ == base + cv@.subrange(w_end as int, k as int),
            decreases t_end - k,
        {
            out.push(cv[k]);
            assert(out@ =~= base + cv@.subrange(w_end as int, k + 1));
            k = k + 1;
        }
        proof {
            let rest = joined_tokens(cv@.skip(t_end as int));
            let tok = cv@.subrange(w_end as int, t_end as int);
            assert(tok.len() > 0);
            if rest.len() == 0 {
                assert(joined_tokens(s0) == tok);
            } else {
                assert(joined_tokens(s0) == tok + seq![' '] + rest);
            }
            if out_before.len() == 0 {
                assert(out@ =~= tok);
                if rest.len() > 0 {
                    assert(join_acc(out@, cv@.skip(t_end as int)) =~= tok + seq![' '] + rest);
                }
                assert(join_acc(out@, cv@.skip(t_end as int)) == target);
            } else {
                assert(out@ =~= out_before + seq![' '] + tok);
                if rest.len() == 0 {
                    assert(join_acc(out@, cv@.skip(t_end as int)) =~= out_before + seq![' ']
                        + joined_tokens(s0));
                } else {
                    assert(join_acc(out@, cv@.skip(t_end as int)) =~= out_before + seq![' ']
                        + joined_tokens(s0));
                }
                assert(join_acc(out@, cv@.skip(t_end as int)) == target);
            }
        }
        pos = t_end;
        }
    }
    proof {
        assert(cv@.skip(pos as int).len() == 0);
        assert(joined_tokens(cv@.skip(pos as int)).len() == 0);
    }
    out
}

/// Splits off the first whitespace-separated token; the rest of the tokens
/// come back rejoined with single spaces. `None` when there is no token.
pub fn first_token_and_args(cv: &Vec<char>) -> (r: Option<(Vec<char>, Vec<char>)>)
    ensures
        match r {
            None => !has_token(cv@),
            Some(p) => has_token(cv@) && p.0@ == first_token(cv@) && p.1@ == args_of(cv@),
        },
{
    let w = scan_ws_end(cv, 0);
    proof {
        lemma_ws_len_at(cv@, w as int);
    }
    if w == cv.len() {
        return None;
    }
    let t_end = scan_tok_end(cv, w);
    let ghost s0 = cv@.skip(w as int);
    proof {
        assert forall|k: int| 0 <= k < t_end - w implies !is_wspace(s0[k]) by {
            assert(s0[k] == cv@[w + k]);
        }
        assert(t_end - w < s0.len() ==> is_wspace(s0[t_end - w]));
        lemma_tok_len_at(s0, t_end - w);
        assert(cv@.subrange(w as int, t_end as int) =~= first_token(cv@));
    }
    let command = copy_range(cv, w, t_end);
    let arglist = joined_from(cv, t_end);
    Some((command, arglist))
}

/// Length of the run of whitespace at the end of `s`.
pub open spec fn end_ws_len(s: Seq<char>) -> nat
    decreases s.len(),
{
    if s.len() > 0 && is_wspace(s.last()) {
        1 + end_ws_len(s.drop_last())
    } else {
        0
    }
}

pub proof fn lemma_end_ws_len_bounds(s: Seq<char>)
    ensures
        end_ws_len(s) <= s.len(),
    decreases s.len(),
{
    if s.len() > 0 && is_wspace(s.last()) {
        lemma_end_ws_len_bounds(s.drop_last());
    }
}

/// The run length at the end is determined by any index that sees the run
/// start.
pub proof fn lemma_end_ws_len_at(s: Seq<char>, i: int)
    requires
        0 <= i <= s.len(),
        forall|k: int| s.len() - i <= k < s.len() ==> is_wspace(s[k]),
        i == s.len() || !is_wspace(s[s.len() - i - 1]),
    ensures
        end_ws_len(s) == i,
    decreases i,
{
    if i > 0 {
        assert(is_wspace(s.last()));
        assert forall|k: int| s.len() - i <= k < s.len() - 1 implies is_wspace(
            s.drop_last()[k],
        ) by {
            assert(s.drop_last()[k] == s[k]);
        }
        lemma_end_ws_len_at(s.drop_last(), i - 1);
    }
}

/// `s` with leading and trailing whitespace removed.
pub open spec fn trim_spec(s: Seq<char>) -> Seq<char> {
    let t = s.skip(ws_len(s) as int);
    t.take(t.len() - end_ws_len(t))
}

/// `cv` with leading and trailing whitespace removed.
pub fn trimmed(cv: &Vec<char>) -> (r: Vec<char>)
    ensures
        r@ == trim_spec(cv@),
{
    let a = scan_ws_end(cv, 0);
    proof {
        lemma_ws_len_at(cv@, a as int);
    }
    let mut b = cv.len();
    let mut stop = false;
    while b > a && !stop
        invariant
            a <= b <= cv@.len(),
            forall|k: int| b <= k < cv@.len() ==> is_wspace(cv@[k]),
            stop ==> b > a && !is_wspace(cv@[b - 1]),
        decreases b + (if stop { 0int } else { 1int }),
    {
        if !wspace_char(cv[b - 1]) {
            stop = true;
        } else {
            b = b - 1;
        }
    }
    proof {
        let t = cv@.skip(a as int);
        assert forall|k: int| t.len() - (cv@.len() - b) <= k < t.len() implies is_wspace(t[k]) by {
            assert(t[k] == cv@[a + k]);
        }
        if b > a {
            assert(cv@.len() - b < t.len());
            assert(t[t.len() - (cv@.len() - b) - 1] == cv@[b - 1]);
        }
        lemma_end_ws_len_at(t, cv@.len() - b);
        assert(cv@.subrange(a as int, b as int) =~= t.take(t.len() - end_ws_len(t)));
    }
    copy_range(cv, a, b)
}

/// Length of the run of the character `c` at the front of `s`.
pub open spec fn lead_run(s: Seq<char>, c: char) -> nat
    decreases s.len(),
{
    if s.len() > 0 && s[0] == c {
        1 + lead_run(s.drop_first(), c)
    } else {
        0
    }
}

/// Length of the run of the character `c` at the end of `s`.
pub open spec fn end_run(s: Seq<char>, c: char) -> nat
    decreases s.len(),
{
    if s.len() > 0 && s.last() == c {
        1 + end_run(s.drop_last(), c)
    } else {
        0
    }
}

pub proof fn lemma_lead_run_at(s: Seq<char>, c: char, i: int)
    requires
        0 <= i <= s.len(),
        forall|k: int| 0 <= k < i ==> s[k] == c,
        i == s.len() || s[i] != c,
    ensures
        lead_run(s, c) == i,
    decreases i,
{
    if i > 0 {
        assert forall|k: int| 0 <= k < i - 1 implies s.drop_first()[k] == c by {
            assert(s.drop_first()[k] == s[k + 1]);
        }
        if i < s.len() {
            assert(s.drop_first()[i - 1] == s[i]);
        }
        lemma_lead_run_at(s.drop_first(), c, i - 1);
    }
}

pub proof fn lemma_end_run_at(s: Seq<char>, c: char, i: int)
    requires
        0 <= i <= s.len(),
        forall|k: int| s.len() - i <= k < s.len() ==> s[k] == c,
        i == s.len() || s[s.len() - i - 1] != c,
    ensures
        end_run(s, c) == i,
    decreases i,
{
    if i > 0 {
        assert(s.last() == c);
        assert forall|k: int| s.len() - i <= k < s.len() - 1 implies s.drop_last()[k] == c by {
            assert(s.drop_last()[k] == s[k]);
        }
        lemma_end_run_at(s.drop_last(), c, i - 1);
    }
}

/// `s` with every leading and trailing occurrence of `c` removed.
pub open spec fn trim_char_spec(s: Seq<char>, c: char) -> Seq<char> {
    let t = s.skip(lead_run(s, c) as int);
    t.take(t.len() - end_run(t, c))
}

/// `cv` with every leading and trailing occurrence of `c` removed.
pub fn trim_char(cv: &Vec<char>, c: char) -> (r: Vec<char>)
    ensures
        r@ == trim_char_spec(cv@, c),
{
    let mut a: usize = 0;
    let mut stop_a = false;
    while a < cv.len() && !stop_a
        invariant
            a <= cv@.len(),
            forall|k: int| 0 <= k < a ==> cv@[k] == c,
            stop_a ==> a < cv@.len() && cv@[a as int] != c,
        decreases cv@.len() - a + (if stop_a { 0int } else { 1int }),
    {
        if cv[a] != c {
            stop_a = true;
        } else {
            a = a + 1;
        }
    }
    proof {
        lemma_lead_run_at(cv@, c, a as int);
    }
    let mut b = cv.len();
    let mut stop_b = false;
    while b > a && !stop_b
        invariant
            a <= b <= cv@.len(),
            forall|k: int| b <= k < cv@.len() ==> cv@[k] == c,
            stop_b ==> b > a && cv@[b - 1] != c,
        decreases b + (if stop_b { 0int } else { 1int }),
    {
        if cv[b - 1] != c {
            stop_b = true;
        } else {
            b = b - 1;
        }
    }
    proof {
        let t = cv@.skip(a as int);
        assert forall|k: int| t.len() - (cv@.len() - b) <= k < t.len() implies t[k] == c by {
            assert(t[k] == cv@[a + k]);
        }
        if b > a {
            assert(t[t.len() - (cv@.len() - b) - 1] == cv@[b - 1]);
        }
        lemma_end_run_at(t, c, cv@.len() - b);
        assert(cv@.subrange(a as int, b as int) =~= t.take(t.len() - end_run(t, c)));
    }
    copy_range(cv, a, b)
}

/// Whether `s` starts with the prefix `p`.
pub open spec fn starts_with(s: Seq<char>, p: Seq<char>) -> bool {
    s.len() >= p.len() && s.subrange(0, p.len() as int) == p
}

/// Whether `cv` starts with the characters of `p`.
pub fn starts_with_chars(cv: &Vec<char>, p: &Vec<char>) -> (r: bool)
    ensures
        r == starts_with(cv@, p@),
{
    if cv.len() < p.len() {
        assert(!starts_with(cv@, p@));
        return false;
    }
    let mut i: usize = 0;
    while i < p.len()
        invariant
            i <= p@.len() <= cv@.len(),
            forall|k: int| 0 <= k < i ==> cv@[k] == p@[k],
        decreases p@.len() - i,
    {
        if cv[i] != p[i] {
            assert(cv@.subrange(0, p@.len() as int)[i as int] != p@[i as int]);
            return false;
        }
        i = i + 1;
    }
    assert(cv@.subrange(0, p@.len() as int) =~= p@);
    true
}

/// Whether the two vectors hold the same characters.
pub fn chars_eq(a: &Vec<char>, b: &Vec<char>) -> (r: bool)
    ensures
        r == (a@ == b@),
{
    if a.len() != b.len() {
        return false;
    }
    let mut i: usize = 0;
    while i < a.len()
        invariant
            i <= a@.len(),
            a@.len() == b@.len(),
            forall|k: int| 0 <= k < i ==> a@[k] == b@[k],
        decreases a@.len() - i,
    {
        if a[i] != b[i] {
            return false;
        }
        i = i + 1;
    }
    assert(a@ =~= b@);
    true
}

/// An upper-case ASCII letter mapped to lower case; all else unchanged.
pub open spec fn lower_char(c: char) -> char {
    if 'A' <= c && c <= 'Z' {
        (((c as u8) + 32) as char)
    } else {
        c
    }
}

/// `s` with upper-case ASCII letters mapped to lower case.
pub open spec fn lower_spec(s: Seq<char>) -> Seq<char> {
    s.map_values(|c: char| lower_char(c))
}

/// `cv` with upper-case ASCII letters mapped to lower case.
pub fn lowercased(cv: &Vec<char>) -> (r: Vec<char>)
    ensures
        r@ == lower_spec(cv@),
{
    let mut r: Vec<char> = Vec::new();
    let mut i: usize = 0;
    while i < cv.len()
        invariant
            i <= cv@.len(),
            r@ == lower_spec(cv@.take(i as int)),
        decreases cv@.len() - i,
    {
        let c = cv[i];
        if 'A' <= c && c <= 'Z' {
            assert(c as u8 <= 90);
            r.push(((c as u8) + 32) as char);
        } else {
            r.push(c);
        }
        assert(r@ =~= lower_spec(cv@.take(i + 1)));
        i = i + 1;
    }
    assert(r@ =~= lower_spec(cv@));
    r
}

/// The characters of `cv` between `from` and `to`, as a fresh vector.
pub fn copy_range(cv: &Vec<char>, from: usize, to: usize) -> (r: Vec<char>)
    requires
        from <= to <= cv@.len(),
    ensures
        r@ == cv@.subrange(from as int, to as int),
{
    let mut r: Vec<char> = Vec::new();
    let mut i = from;
    while i < to
        invariant
            from <= i <= to <= cv@.len(),
            r@ == cv@.subrange(from as int, i as int),
        decreases to - i,
    {
        r.push(cv[i]);
        assert(r@ =~= cv@.subrange(from as int, i + 1));
        i = i + 1;
    }
    r
}

/// Index of the first line feed in `s`, or the length when there is none.
pub open spec fn find_nl(s: Seq<char>) -> int
    decreases s.len(),
{
    if s.len() == 0 {
        0
    } else if s[0] == '\n' {
        0
    } else {
        1 + find_nl(s.drop_first())
    }
}

pub proof fn lemma_find_nl_bounds(s: Seq<char>)
    ensures
        0 <= find_nl(s) <= s.len(),
    decreases s.len(),
{
    if s.len() > 0 && s[0] != '\n' {
        lemma_find_nl_bounds(s.drop_first());
    }
}

pub proof fn lemma_find_nl_at(s: Seq<char>, i: int)
    requires
        0 <= i <= s.len(),
        forall|k: int| 0 <= k < i ==> s[k] != '\n',
        i == s.len() || s[i] == '\n',
    ensures
        find_nl(s) == i,
    decreases i,
{
    if i > 0 {
        assert forall|k: int| 0 <= k < i - 1 implies s.drop_first()[k] != '\n' by {
            assert(s.drop_first()[k] == s[k + 1]);
        }
        if i < s.len() {
            assert(s.drop_first()[i - 1] == s[i]);
        }
        lemma_find_nl_at(s.drop_first(), i - 1);
    }
}

/// A line with a trailing carriage return removed.
pub open spec fn strip_cr(l: Seq<char>) -> Seq<char> {
    if l.len() > 0 && l.last() == '\r' {
        l.drop_last()
    } else {
        l
    }
}

#[via_fn]
proof fn line_split_decreases(s: Seq<char>) {
    lemma_find_nl_bounds(s);
}

/// The lines of `s`: split at line feeds, a carriage return before the line
/// feed removed, and a final line without line feed kept. The empty text has
/// no lines.
pub open spec fn line_split(s: Seq<char>) -> Seq<Seq<char>>
    decreases s.len(),
    via line_split_decreases
{
    if s.len() == 0 {
        Seq::empty()
    } else {
        let i = find_nl(s);
        if i == s.len() {
            seq![s]
        } else {
            seq![strip_cr(s.take(i))] + line_split(s.skip(i + 1))
        }
    }
}

/// First index at or after `from` holding `c`, or the length.
pub fn scan_to_char(cv: &Vec<char>, from: usize, c: char) -> (r: usize)
    requires
        from <= cv@.len(),
    ensures
        from <= r <= cv@.len(),
        forall|k: int| from <= k < r ==> cv@[k] != c,
        r < cv@.len() ==> cv@[r as int] == c,
    decreases cv@.len() - from,
{
    let mut i = from;
    loop
        invariant
            from <= i <= cv@.len(),
            forall|k: int| from <= k < i ==> cv@[k] != c,
        decreases cv@.len() - i,
    {
        if i == cv.len() {
            return i;
        }
        if cv[i] == c {
            return i;
        }
        i = i + 1;
    }
}

/// The views of a sequence of strings.
pub open spec fn str_views(v: Seq<String>) -> Seq<Seq<char>> {
    v.map_values(|s: String| s@)
}

/// The views of a vector of character vectors.
pub open spec fn views_of(r: Seq<Vec<char>>) -> Seq<Seq<char>> {
    r.map_values(|v: Vec<char>| v@)
}

/// The lines of `cv`, as `line_split` gives them.
pub fn split_lines(cv: &Vec<char>) -> (r: Vec<Vec<char>>)
    ensures
        views_of(r@) == line_split(cv@),
{
    let n = cv.len();
    let mut pos: usize = 0;
    let mut r: Vec<Vec<char>> = Vec::new();
    proof {
        assert(cv@.skip(0) =~= cv@);
        assert(views_of(r@) + line_split(cv@) =~= line_split(cv@));
    }
    while pos < n
        invariant
            pos <= n,
            n == cv@.len(),
            line_split(cv@) == views_of(r@) + line_split(cv@.skip(pos as int)),
        decreases n - pos,
    {
        let ghost p0 = pos as int;
        let ghost s = cv@.skip(p0);
        let j = scan_to_char(cv, pos, '\n');
        proof {
            assert forall|k: int| 0 <= k < j - p0 implies s[k] != '\n' by {
                assert(s[k] == cv@[p0 + k]);
            }
            if j < n {
                assert(s[j - p0] == cv@[j as int]);
            }
            lemma_find_nl_at(s, j - p0);
        }
        let ghost old_r = r@;
        if j == n {
            let line = copy_range(cv, pos, n);
            proof {
                assert(line@ =~= s);
            }
            r.push(line);
            pos = n;
            proof {
                assert(line_split(s) == seq![s]);
                assert(cv@.skip(pos as int).len() == 0);
                assert(line_split(cv@.skip(pos as int)) =~= Seq::<Seq<char>>::empty());
                assert(views_of(old_r) + line_split(s) =~= views_of(r@) + line_split(
                    cv@.skip(pos as int),
                ));
            }
        } else {
            let end = if j > pos && cv[j - 1] == '\r' {
                j - 1
            } else {
                j
            };
            let line = copy_range(cv, pos, end);
            proof {
                assert(s.take(j - p0) =~= cv@.subrange(p0, j as int));
                if j > p0 && cv@[j - 1] == '\r' {
                    assert(s.take(j - p0).last() == '\r');
                    assert(line@ =~= s.take(j - p0).drop_last());
                } else {
                    assert(line@ == s.take(j - p0));
                }
                assert(line@ == strip_cr(s.take(j - p0)));
            }
            r.push(line);
            pos = j + 1;
            proof {
                let i0 = j - p0;
                assert(line_split(s) == seq![strip_cr(s.take(i0))] + line_split(s.skip(i0 + 1)));
                assert(s.skip(i0 + 1) =~= cv@.skip(pos as int));
                assert(views_of(old_r) + line_split(s) =~= views_of(r@) + line_split(
                    cv@.skip(pos as int),
                ));
            }
        }
    }
    proof {
        assert(cv@.skip(pos as int).len() == 0);
        assert(line_split(cv@.skip(pos as int)) =~= Seq::<Seq<char>>::empty());
        assert(views_of(r@) + line_split(cv@.skip(pos as int)) =~= views_of(r@));
    }
    r
}

/// Whether `p` occurs in `s` starting at index `i`.
pub open spec fn matches_at(s: Seq<char>, p: Seq<char>, i: int) -> bool {
    0 <= i && i + p.len() <= s.len() && s.subrange(i, i + p.len() as int) == p
}

/// Whether `p` occurs anywhere in `s`.
pub open spec fn contains_sub(s: Seq<char>, p: Seq<char>) -> bool {
    exists|i: int| matches_at(s, p, i)
}

/// Whether `p` occurs in `cv` starting at `i`.
pub fn match_at(cv: &Vec<char>, p: &Vec<char>, i: usize) -> (r: bool)
    requires
        i + p@.len() <= cv@.len(),
    ensures
        r == matches_at(cv@, p@, i as int),
{
    let n = cv.len();
    let mut k: usize = 0;
    while k < p.len()
        invariant
            k <= p@.len(),
            n == cv@.len(),
            i + p@.len() <= cv@.len(),
            forall|m: int| 0 <= m < k ==> cv@[i + m] == p@[m],
        decreases p@.len() - k,
    {
        if cv[i + k] != p[k] {
            assert(cv@.subrange(i as int, i + p@.len() as int)[k as int] != p@[k as int]);
            return false;
        }
        k = k + 1;
    }
    assert(cv@.subrange(i as int, i + p@.len() as int) =~= p@);
    true
}

/// Whether the characters of `p` occur anywhere in `cv`.
pub fn contains_chars(cv: &Vec<char>, p: &Vec<char>) -> (r: bool)
    ensures
        r == contains_sub(cv@, p@),
{
    if p.len() > cv.len() {
        assert(!contains_sub(cv@, p@));
        return false;
    }
    if p.len() == 0 {
        assert(cv@.subrange(0, 0) =~= p@);
        assert(matches_at(cv@, p@, 0));
        return true;
    }
    let last = cv.len() - p.len();
    let mut i: usize = 0;
    while i <= last
        invariant
            i <= last + 1,
            last == cv@.len() - p@.len(),
            0 < p@.len() <= cv@.len(),
            cv@.len() <= usize::MAX,
            forall|j: int| 0 <= j < i ==> !matches_at(cv@, p@, j),
        decreases last - i + 1,
    {
        if match_at(cv, p, i) {
            return true;
        }
        i = i + 1;
    }
    assert forall|j: int| !matches_at(cv@, p@, j) by {
        if 0 <= j < i {
            assert(!matches_at(cv@, p@, j));
        }
    }
    false
}

/// Index of the first occurrence of `p` in `s` that has at least one more
/// character after it, or `-1` when there is none.
pub open spec fn marker_pos(s: Seq<char>, p: Seq<char>) -> int
    decreases s.len(),
{
    if s.len() < p.len() + 1 {
        -1
    } else if s.subrange(0, p.len() as int) == p {
        0
    } else {
        let r = marker_pos(s.drop_first(), p);
        if r < 0 {
            -1
        } else {
            1 + r
        }
    }
}

/// What a non-negative `marker_pos` means.
pub proof fn lemma_marker_pos_props(s: Seq<char>, p: Seq<char>)
    requires
        marker_pos(s, p) >= 0,
    ensures
        matches_at(s, p, marker_pos(s, p)),
        marker_pos(s, p) + p.len() < s.len(),
    decreases s.len(),
{
    if s.len() >= p.len() + 1 && s.subrange(0, p.len() as int) != p {
        lemma_marker_pos_props(s.drop_first(), p);
        let r = marker_pos(s.drop_first(), p);
        assert(s.drop_first().subrange(r, r + p.len() as int) =~= s.subrange(
            r + 1,
            r + 1 + p.len() as int,
        ));
    }
}

/// A position shift between a sequence and the same sequence without its
/// first character.
proof fn lemma_matches_at_shift(s: Seq<char>, p: Seq<char>, j: int)
    requires
        0 <= j,
        j + 1 + p.len() <= s.len(),
    ensures
        matches_at(s.drop_first(), p, j) == matches_at(s, p, j + 1),
{
    assert(s.drop_first().subrange(j, j + p.len() as int) =~= s.subrange(
        j + 1,
        j + 1 + p.len() as int,
    ));
}

pub proof fn lemma_marker_pos_found(s: Seq<char>, p: Seq<char>, i: int)
    requires
        matches_at(s, p, i),
        i + p.len() < s.len(),
        forall|j: int| 0 <= j < i ==> !(matches_at(s, p, j) && j + p.len() < s.len()),
    ensures
        marker_pos(s, p) == i,
    decreases i,
{
    if i == 0 {
    } else {
        assert(!(matches_at(s, p, 0) && p.len() < s.len()));
        assert(s.subrange(0, p.len() as int) != p);
        let s1 = s.drop_first();
        assert(s1.subrange(i - 1, i - 1 + p.len() as int) =~= s.subrange(i, i + p.len() as int));
        assert forall|j: int| 0 <= j < i - 1 implies !(matches_at(s1, p, j) && j + p.len()
            < s1.len()) by {
            if j + p.len() < s1.len() {
                lemma_matches_at_shift(s, p, j);
                assert(!(matches_at(s, p, j + 1) && j + 1 + p.len() < s.len()));
            }
        }
        lemma_marker_pos_found(s1, p, i - 1);
    }
}

pub proof fn lemma_marker_pos_none(s: Seq<char>, p: Seq<char>)
    requires
        forall|j: int| !(matches_at(s, p, j) && j + p.len() < s.len()),
    ensures
        marker_pos(s, p) == -1,
    decreases s.len(),
{
    if s.len() >= p.len() + 1 {
        assert(!(matches_at(s, p, 0) && p.len() < s.len()));
        assert(s.subrange(0, p.len() as int) != p);
        let s1 = s.drop_first();
        assert forall|j: int| !(matches_at(s1, p, j) && j + p.len() < s1.len()) by {
            if 0 <= j && j + p.len() < s1.len() {
                lemma_matches_at_shift(s, p, j);
                assert(!(matches_at(s, p, j + 1) && j + 1 + p.len() < s.len()));
            }
        }
        lemma_marker_pos_none(s1, p);
    }
}

/// First occurrence of `p` in `cv` with at least one character after it.
pub fn find_marker(cv: &Vec<char>, p: &Vec<char>) -> (r: Option<usize>)
    ensures
        match r {
            Some(i) => marker_pos(cv@, p@) == i as int,
            None => marker_pos(cv@, p@) == -1,
        },
{
    if cv.len() <= p.len() {
        proof {
            assert forall|j: int| !(matches_at(cv@, p@, j) && j + p@.len() < cv@.len()) by {}
            lemma_marker_pos_none(cv@, p@);
        }
        return None;
    }
    let last = cv.len() - p.len() - 1;
    let mut i: usize = 0;
    while i <= last
        invariant
            i <= last + 1,
            last == cv@.len() - p@.len() - 1,
            p@.len() + 1 <= cv@.len(),
            cv@.len() <= usize::MAX,
            forall|j: int| 0 <= j < i ==> !(matches_at(cv@, p@, j) && j + p@.len() < cv@.len()),
        decreases last - i + 1,
    {
        if match_at(cv, p, i) {
            proof {
                lemma_marker_pos_found(cv@, p@, i as int);
            }
            return Some(i);
        }
        i = i + 1;
    }
    proof {
        assert forall|j: int| !(matches_at(cv@, p@, j) && j + p@.len() < cv@.len()) by {
            if 0 <= j < i {
                assert(!(matches_at(cv@, p@, j) && j + p@.len() < cv@.len()));
            }
        }
        lemma_marker_pos_none(cv@, p@);
    }
    None
}

/// An ASCII decimal digit.
pub open spec fn is_digit(c: char) -> bool {
    '0' <= c && c <= '9'
}

pub open spec fn all_digits(s: Seq<char>) -> bool {
    forall|k: int| 0 <= k < s.len() ==> is_digit(s[k])
}

/// The value of a digit string read in base ten.
pub open spec fn digits_val(s: Seq<char>) -> int
    decreases s.len(),
{
    if s.len() == 0 {
        0
    } else {
        digits_val(s.drop_last()) * 10 + (s.last() as int - '0' as int)
    }
}

pub proof fn lemma_digits_val_nonneg(s: Seq<char>)
    requires
        all_digits(s),
    ensures
        digits_val(s) >= 0,
    decreases s.len(),
{
    if s.len() > 0 {
        assert(all_digits(s.drop_last()));
        lemma_digits_val_nonneg(s.drop_last());
    }
}

/// Reading more digits never lowers the value.
pub proof fn lemma_digits_val_mono(s: Seq<char>, i: int)
    requires
        all_digits(s),
        0 <= i <= s.len(),
    ensures
        digits_val(s.take(i)) <= digits_val(s),
    decreases s.len() - i,
{
    if i < s.len() {
        lemma_digits_val_mono(s, i + 1);
        let t = s.take(i + 1);
        assert(t.drop_last() =~= s.take(i));
        assert(all_digits(s.take(i)));
        lemma_digits_val_nonneg(s.take(i));
        assert(digits_val(t) == digits_val(s.take(i)) * 10 + (t.last() as int - '0' as int));
    } else {
        assert(s.take(i) =~= s);
    }
}

/// What `str::parse::<usize>` accepts after trimming: an optional plus sign,
/// then one or more digits whose value fits.
pub open spec fn parse_usize_spec(s: Seq<char>) -> Option<int> {
    let d = if s.len() > 0 && s[0] == '+' {
        s.drop_first()
    } else {
        s
    };
    if d.len() > 0 && all_digits(d) && digits_val(d) <= usize::MAX as int {
        Some(digits_val(d))
    } else {
        None
    }
}

/// Base-ten parse of `cv`, as `str::parse::<usize>` would read it.
pub fn parse_usize(cv: &Vec<char>) -> (r: Option<usize>)
    ensures
        match r {
            Some(v) => parse_usize_spec(cv@) == Some(v as int),
            None => parse_usize_spec(cv@) is None,
        },
{
    let start: usize = if cv.len() > 0 && cv[0] == '+' {
        1
    } else {
        0
    };
    let ghost d = if cv@.len() > 0 && cv@[0] == '+' {
        cv@.drop_first()
    } else {
        cv@
    };
    assert(d =~= cv@.skip(start as int));
    if cv.len() == start {
        return None;
    }
    let mut acc: usize = 0;
    let mut i = start;
    while i < cv.len()
        invariant
            start <= i <= cv@.len(),
            start == (if cv@.len() > 0 && cv@[0] == '+' {
                1int
            } else {
                0int
            }),
            d == (if cv@.len() > 0 && cv@[0] == '+' {
                cv@.drop_first()
            } else {
                cv@
            }),
            d == cv@.skip(start as int),
            all_digits(d.take(i - start)),
            acc as int == digits_val(d.take(i - start)),
        decreases cv@.len() - i,
    {
        let c = cv[i];
        if !(c >= '0' && c <= '9') {
            proof {
                assert(d[i - start] == cv@[i as int]);
                assert(!is_digit(d[i - start]));
                assert(!all_digits(d));
            }
            return None;
        }
        let dv: usize = (c as u8 - 48) as usize;
        proof {
            assert('0' <= c && c <= '9');
            assert(dv as int == c as int - '0' as int);
            assert(d[i - start] == cv@[i as int]);
            let t = d.take(i - start + 1);
            assert(t.drop_last() =~= d.take(i - start));
            assert(t.last() == d[i - start]);
            assert(all_digits(t)) by {
                assert forall|k: int| 0 <= k < t.len() implies is_digit(t[k]) by {
                    if k < t.len() - 1 {
                        assert(t[k] == d.take(i - start)[k]);
                    }
                }
            }
            assert(digits_val(t) == acc as int * 10 + dv as int);
        }
        if acc > (usize::MAX - dv) / 10 {
            proof {
                assert(acc as int * 10 + dv as int > usize::MAX as int) by (nonlinear_arith)
                    requires
                        acc as int > ((usize::MAX - dv) as int) / 10,
                        0 <= dv as int <= 9,
                        usize::MAX as int >= 9,
                {}
                if all_digits(d) {
                    lemma_digits_val_mono(d, i - start + 1);
                    assert(digits_val(d) > usize::MAX as int);
                }
                assert(parse_usize_spec(cv@) is None);
            }
            return None;
        }
        let new_acc = acc * 10 + dv;
        acc = new_acc;
        i = i + 1;
        proof {
            assert(all_digits(d.take(i - start)));
            assert(acc as int == digits_val(d.take(i - start)));
        }
    }
    proof {
        assert(d.take(cv@.len() - start) =~= d);
    }
    Some(acc)
}

} // verus!
