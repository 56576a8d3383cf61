//! The correction engine: given a command line, a list of user override
//! rules, a built-in typo table and a vocabulary of common command names, it
//! produces ranked fix candidates.
//!
//! Matching runs in three strictly ordered passes. User overrides come
//! first; the built-in table is consulted next, deduplicated against what is
//! already there by the resulting fixed text; approximate matching runs only
//! when the first two passes produced nothing at all. The surviving
//! candidates are stable-sorted by confidence, highest first, and capped at
//! `MAX_CANDIDATES`.

use crate::text::args_of;
use crate::text::chars_eq;
use crate::text::chars_of;
use crate::text::first_token;
use crate::text::first_token_and_args;
use crate::text::has_token;
use crate::text::starts_with;
use crate::text::starts_with_chars;
use crate::text::copy_range;
use crate::text::str_views;
use crate::text::string_of;
use vstd::prelude::*;

verus! {

/// Confidence scores are similarity scores in [0, 1] carried as their IEEE
/// 754 bit patterns, an encoding that orders such scores exactly as the
/// scores themselves order. This value encodes the score one: full
/// certainty.
pub const CONFIDENCE_UNIT: u64 = 0x3FF0000000000000;

/// The encoding of the score 0.85: an approximate match is kept only when
/// its similarity score is strictly above this.
pub const SIMILARITY_FLOOR: u64 = 0x3FEB333333333333;

/// At most this many candidates are returned.
pub const MAX_CANDIDATES: usize = 5;

/// A ranked fix candidate. `confidence` encodes a score in [0, 1] as its
/// IEEE 754 bit pattern: `CONFIDENCE_UNIT` for exact and prefix rule
/// matches, and the encoded similarity score, strictly between
/// `SIMILARITY_FLOOR` and `CONFIDENCE_UNIT`, for approximate matches.
#[derive(Debug, Clone, PartialEq, Eq)]
pub struct Correction {
    pub fixed_cmd: String,
    pub reason: String,
    pub confidence: u64,
}

/// The mathematical content of a `Correction`.
pub ghost struct CorrectionModel {
    pub fixed_cmd: Seq<char>,
    pub reason: Seq<char>,
    pub confidence: u64,
}

impl View for Correction {
    type V = CorrectionModel;

    open spec fn view(&self) -> CorrectionModel {
        CorrectionModel {
            fixed_cmd: self.fixed_cmd@,
            reason: self.reason@,
            confidence: self.confidence,
        }
    }
}

/// The views of a list of corrections.
pub open spec fn correction_views(v: Seq<Correction>) -> Seq<CorrectionModel> {
    v.map_values(|c: Correction| c@)
}

/// The views of a list of override rules.
pub open spec fn rule_views(v: Seq<(String, String)>) -> Seq<(Seq<char>, Seq<char>)> {
    v.map_values(|p: (String, String)| (p.0@, p.1@))
}

/// The views of the built-in table: wrong form, replacement, reason.
pub open spec fn table_views(v: Seq<(String, String, String)>) -> Seq<
    (Seq<char>, Seq<char>, Seq<char>),
> {
    v.map_values(|p: (String, String, String)| (p.0@, p.1@, p.2@))
}

/// The similarity that `strsim::jaro_winkler` assigns to two character
/// sequences, encoded as the score's IEEE 754 bit pattern.
pub uninterp spec fn sim_of(a: Seq<char>, b: Seq<char>) -> u64;

/// Relies on strsim::jaro_winkler: a similarity score in [0, 1] that is a
/// function of the two strings alone. The score comes back as its bit
/// pattern, which compares against `SIMILARITY_FLOOR` and `CONFIDENCE_UNIT`
/// exactly as the score compares against 0.85 and 1.
#[verifier::external_body]
fn similarity_key(a: &str, b: &str) -> (r: u64)
    ensures
        r == sim_of(a@, b@),
        r <= CONFIDENCE_UNIT,
{
    strsim::jaro_winkler(a, b).to_bits()
}

/// A rule matches exactly when the whole command line or its first token
/// equals the wrong form.
pub open spec fn rule_exact(cmd: Seq<char>, command: Seq<char>, wrong: Seq<char>) -> bool {
    cmd == wrong || command == wrong
}

/// A rule matches as a prefix when the command line starts with the wrong
/// form followed immediately by a space.
pub open spec fn rule_prefix(cmd: Seq<char>, wrong: Seq<char>) -> bool {
    starts_with(cmd, wrong) && cmd.len() > wrong.len() && cmd[wrong.len() as int] == ' '
}

/// The fixed text of an exact override match: the replacement, with the
/// original arguments carried over when only the first token matched.
pub open spec fn override_fixed(
    cmd: Seq<char>,
    args: Seq<char>,
    wrong: Seq<char>,
    correct: Seq<char>,
) -> Seq<char> {
    if cmd == wrong {
        correct
    } else if args.len() == 0 {
        correct
    } else {
        correct + seq![' '] + args
    }
}

/// The fixed text of a prefix match: the replacement, then the rest of the
/// command line unchanged.
pub open spec fn prefix_fixed(cmd: Seq<char>, wrong: Seq<char>, correct: Seq<char>) -> Seq<char> {
    correct + cmd.skip(wrong.len() as int)
}

/// The override pass: every matching rule contributes one candidate, in rule
/// order, none deduplicated.
pub open spec fn pass_overrides(
    cmd: Seq<char>,
    command: Seq<char>,
    args: Seq<char>,
    rules: Seq<(Seq<char>, Seq<char>)>,
    acc: Seq<CorrectionModel>,
) -> Seq<CorrectionModel>
    decreases rules.len(),
{
    if rules.len() == 0 {
        acc
    } else {
        let wrong = rules[0].0;
        let correct = rules[0].1;
        let acc2 = if rule_exact(cmd, command, wrong) {
            acc.push(
                CorrectionModel {
                    fixed_cmd: override_fixed(cmd, args, wrong, correct),
                    reason: "custom fix"@,
                    confidence: CONFIDENCE_UNIT,
                },
            )
        } else if rule_prefix(cmd, wrong) {
            acc.push(
                CorrectionModel {
                    fixed_cmd: prefix_fixed(cmd, wrong, correct),
                    reason: "custom fix"@,
                    confidence: CONFIDENCE_UNIT,
                },
            )
        } else {
            acc
        };
        pass_overrides(cmd, command, args, rules.drop_first(), acc2)
    }
}

/// Whether a built-in table entry matches the command line.
pub open spec fn builtin_matched(cmd: Seq<char>, command: Seq<char>, wrong: Seq<char>) -> bool {
    command == wrong || cmd == wrong || rule_prefix(cmd, wrong)
}

/// The fixed text of a built-in match.
pub open spec fn builtin_fixed(
    cmd: Seq<char>,
    args: Seq<char>,
    wrong: Seq<char>,
    fix: Seq<char>,
) -> Seq<char> {
    if cmd == wrong {
        fix
    } else if starts_with(cmd, wrong) {
        fix + cmd.skip(wrong.len() as int)
    } else if args.len() == 0 {
        fix
    } else {
        fix + seq![' '] + args
    }
}

/// Whether some candidate already carries this fixed text.
pub open spec fn has_fixed(acc: Seq<CorrectionModel>, fixed: Seq<char>) -> bool {
    exists|i: int| 0 <= i < acc.len() && acc[i].fixed_cmd == fixed
}

/// The built-in pass: a matching entry contributes a candidate unless an
/// earlier candidate already has the identical fixed text.
pub open spec fn pass_builtins(
    cmd: Seq<char>,
    command: Seq<char>,
    args: Seq<char>,
    table: Seq<(Seq<char>, Seq<char>, Seq<char>)>,
    acc: Seq<CorrectionModel>,
) -> Seq<CorrectionModel>
    decreases table.len(),
{
    if table.len() == 0 {
        acc
    } else {
        let wrong = table[0].0;
        let fix = table[0].1;
        let reason = table[0].2;
        let fixed = builtin_fixed(cmd, args, wrong, fix);
        let acc2 = if builtin_matched(cmd, command, wrong) && !has_fixed(acc, fixed) {
            acc.push(
                CorrectionModel { fixed_cmd: fixed, reason: reason, confidence: CONFIDENCE_UNIT },
            )
        } else {
            acc
        };
        pass_builtins(cmd, command, args, table.drop_first(), acc2)
    }
}

/// The fixed text of an approximate match: the vocabulary entry, with the
/// original arguments carried over.
pub open spec fn fuzzy_fixed(entry: Seq<char>, args: Seq<char>) -> Seq<char> {
    if args.len() == 0 {
        entry
    } else {
        entry + seq![' '] + args
    }
}

/// The reason text of an approximate match.
pub open spec fn fuzzy_reason(entry: Seq<char>) -> Seq<char> {
    "similar to '"@ + entry + "'"@
}

/// The approximate pass: a vocabulary entry contributes a candidate exactly
/// when its similarity to the first token is strictly between
/// `SIMILARITY_FLOOR` and `CONFIDENCE_UNIT`.
pub open spec fn pass_fuzzy(
    command: Seq<char>,
    args: Seq<char>,
    vocab: Seq<Seq<char>>,
    acc: Seq<CorrectionModel>,
) -> Seq<CorrectionModel>
    decreases vocab.len(),
{
    if vocab.len() == 0 {
        acc
    } else {
        let score = sim_of(command, vocab[0]);
        let acc2 = if SIMILARITY_FLOOR < score && score < CONFIDENCE_UNIT {
            acc.push(
                CorrectionModel {
                    fixed_cmd: fuzzy_fixed(vocab[0], args),
                    reason: fuzzy_reason(vocab[0]),
                    confidence: score,
                },
            )
        } else {
            acc
        };
        pass_fuzzy(command, args, vocab.drop_first(), acc2)
    }
}

/// Stable insertion of `c` into a list already sorted by descending
/// confidence: `c` goes after every candidate at least as confident.
pub open spec fn insert_desc(s: Seq<CorrectionModel>, c: CorrectionModel) -> Seq<CorrectionModel>
    decreases s.len(),
{
    if s.len() == 0 {
        seq![c]
    } else if s[0].confidence >= c.confidence {
        seq![s[0]] + insert_desc(s.drop_first(), c)
    } else {
        seq![c] + s
    }
}

/// Stable sort by descending confidence: candidates of equal confidence keep
/// their discovery order.
pub open spec fn sort_desc(s: Seq<CorrectionModel>) -> Seq<CorrectionModel>
    decreases s.len(),
{
    if s.len() == 0 {
        Seq::empty()
    } else {
        insert_desc(sort_desc(s.drop_last()), s.last())
    }
}

/// Non-increasing confidence.
pub open spec fn sorted_desc(s: Seq<CorrectionModel>) -> bool {
    forall|i: int, j: int| 0 <= i <= j < s.len() ==> s[i].confidence >= s[j].confidence
}

/// What `find_corrections` returns, as a sequence of candidate models: the
/// pass cascade, sorted and capped. Empty both when the command line has no
/// token and when no pass matched.
pub open spec fn corrections_spec(
    cmd: Seq<char>,
    rules: Seq<(Seq<char>, Seq<char>)>,
    table: Seq<(Seq<char>, Seq<char>, Seq<char>)>,
    vocab: Seq<Seq<char>>,
) -> Seq<CorrectionModel> {
    if !has_token(cmd) {
        Seq::empty()
    } else {
        let command = first_token(cmd);
        let args = args_of(cmd);
        let p1 = pass_overrides(cmd, command, args, rules, Seq::empty());
        let p2 = pass_builtins(cmd, command, args, table, p1);
        let all = if p2.len() == 0 {
            pass_fuzzy(command, args, vocab, Seq::empty())
        } else {
            p2
        };
        let sorted = sort_desc(all);
        if sorted.len() > MAX_CANDIDATES {
            sorted.take(MAX_CANDIDATES as int)
        } else {
            sorted
        }
    }
}

/// Appends the characters of `src` to `dst`.
fn extend_chars(dst: &mut Vec<char>, src: &Vec<char>)
    ensures
        final(dst)@ == old(dst)@ + src@,
{
    let mut i: usize = 0;
    while i < src.len()
        invariant
            i <= src@.len(),
            dst@ == old(dst)@ + src@.take(i as int),
        decreases src@.len() - i,
    {
        dst.push(src[i]);
        assert(dst@ =~= old(dst)@ + src@.take(i + 1));
        i = i + 1;
    }
    assert(dst@ =~= old(dst)@ + src@);
}

/// `a`, a single space, then `b`.
fn join_with_space(a: &Vec<char>, b: &Vec<char>) -> (r: Vec<char>)
    ensures
        r@ == a@ + seq![' '] + b@,
{
    let mut r: Vec<char> = Vec::new();
    extend_chars(&mut r, a);
    r.push(' ');
    let ghost mid = r@;
    extend_chars(&mut r, b);
    assert(r@ =~= a@ + seq![' '] + b@);
    r
}

/// `a` then `b`.
fn concat_chars(a: &Vec<char>, b: &Vec<char>) -> (r: Vec<char>)
    ensures
        r@ == a@ + b@,
{
    let mut r: Vec<char> = Vec::new();
    extend_chars(&mut r, a);
    extend_chars(&mut r, b);
    assert(r@ =~= a@ + b@);
    r
}

/// Whether the command line starts with `wrong` followed by a space.
fn check_prefix(cv: &Vec<char>, wrong: &Vec<char>) -> (r: bool)
    ensures
        r == rule_prefix(cv@, wrong@),
{
    if starts_with_chars(cv, wrong) && cv.len() > wrong.len() {
        cv[wrong.len()] == ' '
    } else {
        false
    }
}

/// Whether some candidate already carries this fixed text.
fn has_fixed_exec(corrections: &Vec<Correction>, fixed: &Vec<char>) -> (r: bool)
    ensures
        r == has_fixed(correction_views(corrections@), fixed@),
{
    let mut i: usize = 0;
    while i < corrections.len()
        invariant
            i <= corrections@.len(),
            forall|k: int|
                0 <= k < i ==> correction_views(corrections@)[k].fixed_cmd != fixed@,
        decreases corrections@.len() - i,
    {
        let cand = chars_of(corrections[i].fixed_cmd.as_str());
        if chars_eq(&cand, fixed) {
            assert(correction_views(corrections@)[i as int].fixed_cmd == fixed@);
            return true;
        }
        i = i + 1;
    }
    false
}

/// Stable insertion-sort step: inserts `c` behind every candidate that is at
/// least as confident.
fn insert_sorted(r: &mut Vec<Correction>, c: Correction)
    requires
        sorted_desc(correction_views(old(r)@)),
    ensures
        correction_views(final(r)@) == insert_desc(correction_views(old(r)@), c@),
        sorted_desc(correction_views(final(r)@)),
{
    let ghost s = correction_views(r@);
    let mut k: usize = 0;
    while k < r.len() && r[k].confidence >= c.confidence
        invariant
            k <= r@.len(),
            s == correction_views(r@),
            forall|m: int| 0 <= m < k ==> s[m].confidence >= c@.confidence,
        decreases r@.len() - k,
    {
        k = k + 1;
    }
    proof {
        lemma_insert_desc_at(s, c@, k as int);
    }
    r.insert(k, c);
    proof {
        assert(correction_views(r@) =~= s.take(k as int) + seq![c@] + s.skip(k as int));
        let t = correction_views(r@);
        assert forall|i: int, j: int| 0 <= i <= j < t.len() implies t[i].confidence
            >= t[j].confidence by {
            if i < k && j < k {
                assert(t[i] == s[i] && t[j] == s[j]);
            } else if i < k && j == k {
                assert(t[i] == s[i]);
            } else if i < k && j > k {
                assert(t[i] == s[i] && t[j] == s[j - 1]);
            } else if i == k && j > k {
                assert(t[j] == s[j - 1]);
            } else if i > k && j > k {
                assert(t[i] == s[i - 1] && t[j] == s[j - 1]);
            }
        }
    }
}

/// Where the insertion scan stops is where `insert_desc` puts the candidate.
proof fn lemma_insert_desc_at(s: Seq<CorrectionModel>, c: CorrectionModel, k: int)
    requires
        0 <= k <= s.len(),
        forall|m: int| 0 <= m < k ==> s[m].confidence >= c.confidence,
        k == s.len() || s[k].confidence < c.confidence,
    ensures
        insert_desc(s, c) == s.take(k) + seq![c] + s.skip(k),
    decreases k,
{
    if k == 0 {
        if s.len() == 0 {
            assert(insert_desc(s, c) =~= s.take(0) + seq![c] + s.skip(0));
        } else {
            assert(insert_desc(s, c) =~= s.take(0) + seq![c] + s.skip(0));
        }
    } else {
        let s1 = s.drop_first();
        assert forall|m: int| 0 <= m < k - 1 implies s1[m].confidence >= c.confidence by {
            assert(s1[m] == s[m + 1]);
        }
        if k - 1 < s1.len() {
            assert(s1[k - 1] == s[k as int]);
        }
        lemma_insert_desc_at(s1, c, k - 1);
        assert(insert_desc(s, c) =~= s.take(k) + seq![c] + s.skip(k));
    }
}

/// Stable sort of the candidates by descending confidence.
fn sorted_by_confidence(input: Vec<Correction>) -> (r: Vec<Correction>)
    ensures
        correction_views(r@) == sort_desc(correction_views(input@)),
        sorted_desc(correction_views(r@)),
{
    let ghost orig = correction_views(input@);
    let mut rest = input;
    let mut r: Vec<Correction> = Vec::new();
    proof {
        assert(correction_views(rest@) =~= orig.skip(0));
        assert(orig.take(0) =~= Seq::<CorrectionModel>::empty());
        assert(correction_views(r@) =~= sort_desc(orig.take(0)));
    }
    while rest.len() > 0
        invariant
            correction_views(rest@) == orig.skip(orig.len() - rest@.len()),
            correction_views(r@) == sort_desc(orig.take(orig.len() - rest@.len())),
            sorted_desc(correction_views(r@)),
            rest@.len() <= orig.len(),
        decreases rest@.len(),
    {
        let ghost i = orig.len() - rest@.len();
        let ghost bv = rest@;
        let c = rest.remove(0);
        proof {
            assert forall|k: int| 0 <= k < rest@.len() implies correction_views(rest@)[k]
                == orig.skip(i + 1)[k] by {
                assert(rest@[k] == bv[k + 1]);
                assert(correction_views(bv)[k + 1] == bv[k + 1]@);
                assert(correction_views(bv)[k + 1] == orig.skip(i as int)[k + 1]);
            }
            assert(correction_views(rest@) =~= orig.skip(i + 1));
            assert(c == bv[0]);
            assert(c@ == correction_views(bv)[0]);
            assert(c@ == orig.skip(i as int)[0]);
            assert(c@ == orig[i as int]);
            assert(orig.take(i + 1).drop_last() =~= orig.take(i as int));
            assert(orig.take(i + 1).last() == orig[i as int]);
        }
        insert_sorted(&mut r, c);
    }
    proof {
        assert(orig.take(orig.len() - rest@.len()) =~= orig);
    }
    r
}

/// Ranked fix candidates for `cmd`: `None` when it has no token or nothing
/// matched, otherwise the candidates of the winning pass, stable-sorted by
/// descending confidence and capped at `MAX_CANDIDATES`.
///
/// `rules` are the user overrides, in order; `table` is the built-in typo
/// table, each entry the wrong form, its replacement and a reason text;
/// `vocab` is the vocabulary of common command names for approximate
/// matching.
pub fn find_corrections(
    cmd: &str,
    rules: &Vec<(String, String)>,
    table: &Vec<(String, String, String)>,
    vocab: &Vec<String>,
) -> (r: Option<Vec<Correction>>)
    ensures
        ({
            let model = corrections_spec(cmd@, rule_views(rules@), table_views(table@), str_views(vocab@));
            match r {
                None => model.len() == 0,
                Some(v) => model.len() > 0 && correction_views(v@) == model,
            }
        }),
        !has_token(cmd@) ==> r is None,
        match r {
            None => true,
            Some(v) => v@.len() <= MAX_CANDIDATES && sorted_desc(correction_views(v@)),
        },
{
    proof {
        lemma_result_ranked_and_capped(
            cmd@,
            rule_views(rules@),
            table_views(table@),
            str_views(vocab@),
        );
    }
    let cv = chars_of(cmd);
    let parts = first_token_and_args(&cv);
    let (command, arglist) = match parts {
        None => {
            return None;
        },
        Some(p) => p,
    };

    let mut corrections: Vec<Correction> = Vec::new();
    let ghost g_rules = rule_views(rules@);
    let ghost g_table = table_views(table@);
    let ghost g_vocab = str_views(vocab@);
    let ghost p1 = pass_overrides(cv@, command@, arglist@, g_rules, Seq::empty());

    // Pass 1: user overrides, highest priority, no deduplication.
    let mut i: usize = 0;
    proof {
        assert(g_rules.skip(0) =~= g_rules);
        assert(correction_views(corrections@) =~= Seq::<CorrectionModel>::empty());
    }
    while i < rules.len()
        invariant
            i <= rules@.len(),
            g_rules == rule_views(rules@),
            cv@ == cmd@,
            command@ == first_token(cv@),
            arglist@ == args_of(cv@),
            p1 == pass_overrides(
                cv@,
                command@,
                arglist@,
                g_rules.skip(i as int),
                correction_views(corrections@),
            ),
        decreases rules@.len() - i,
    {
        let ghost acc0 = correction_views(corrections@);
        let wrong_cv = chars_of(rules[i].0.as_str());
        let correct_cv = chars_of(rules[i].1.as_str());
        proof {
            assert(g_rules[i as int] == (rules@[i as int].0@, rules@[i as int].1@));
        }
        if chars_eq(&cv, &wrong_cv) || chars_eq(&command, &wrong_cv) {
            let fixed = if chars_eq(&cv, &wrong_cv) {
                copy_range(&correct_cv, 0, correct_cv.len())
            } else if arglist.len() == 0 {
                copy_range(&correct_cv, 0, correct_cv.len())
            } else {
                join_with_space(&correct_cv, &arglist)
            };
            proof {
                assert(correct_cv@.subrange(0, correct_cv@.len() as int) =~= correct_cv@);
                assert(fixed@ == override_fixed(cv@, arglist@, wrong_cv@, correct_cv@));
            }
            let c = Correction {
                fixed_cmd: string_of(&fixed),
                reason: String::from_str("custom fix"),
                confidence: CONFIDENCE_UNIT,
            };
            corrections.push(c);
            proof {
                assert(correction_views(corrections@) =~= acc0.push(
                    CorrectionModel {
                        fixed_cmd: override_fixed(cv@, arglist@, wrong_cv@, correct_cv@),
                        reason: "custom fix"@,
                        confidence: CONFIDENCE_UNIT,
                    },
                ));
            }
        } else if check_prefix(&cv, &wrong_cv) {
            let rest = copy_range(&cv, wrong_cv.len(), cv.len());
            let fixed = concat_chars(&correct_cv, &rest);
            proof {
                assert(cv@.subrange(wrong_cv@.len() as int, cv@.len() as int) =~= cv@.skip(
                    wrong_cv@.len() as int,
                ));
                assert(fixed@ == prefix_fixed(cv@, wrong_cv@, correct_cv@));
            }
            let c = Correction {
                fixed_cmd: string_of(&fixed),
                reason: String::from_str("custom fix"),
                confidence: CONFIDENCE_UNIT,
            };
            corrections.push(c);
            proof {
                assert(correction_views(corrections@) =~= acc0.push(
                    CorrectionModel {
                        fixed_cmd: prefix_fixed(cv@, wrong_cv@, correct_cv@),
                        reason: "custom fix"@,
                        confidence: CONFIDENCE_UNIT,
                    },
                ));
            }
        }
        proof {
            assert(g_rules.skip(i as int).drop_first() =~= g_rules.skip(i + 1));
            assert(g_rules.skip(i as int)[0] == g_rules[i as int]);
        }
        i = i + 1;
    }
    proof {
        assert(g_rules.skip(rules@.len() as int).len() == 0);
        assert(p1 == correction_views(corrections@));
    }

    // Pass 2: the built-in table, deduplicated by resulting fixed text.
    let ghost p2 = pass_builtins(cv@, command@, arglist@, g_table, p1);
    let mut j: usize = 0;
    proof {
        assert(g_table.skip(0) =~= g_table);
    }
    while j < table.len()
        invariant
            j <= table@.len(),
            g_table == table_views(table@),
            cv@ == cmd@,
            command@ == first_token(cv@),
            arglist@ == args_of(cv@),
            p2 == pass_builtins(
                cv@,
                command@,
                arglist@,
                g_table.skip(j as int),
                correction_views(corrections@),
            ),
        decreases table@.len() - j,
    {
        let ghost acc0 = correction_views(corrections@);
        let wrong_cv = chars_of(table[j].0.as_str());
        let fix_cv = chars_of(table[j].1.as_str());
        proof {
            assert(g_table[j as int] == (
                table@[j as int].0@,
                table@[j as int].1@,
                table@[j as int].2@,
            ));
        }
        let matched = chars_eq(&command, &wrong_cv) || chars_eq(&cv, &wrong_cv) || check_prefix(
            &cv,
            &wrong_cv,
        );
        if matched {
            let fixed = if chars_eq(&cv, &wrong_cv) {
                copy_range(&fix_cv, 0, fix_cv.len())
            } else if starts_with_chars(&cv, &wrong_cv) {
                let rest = copy_range(&cv, wrong_cv.len(), cv.len());
                concat_chars(&fix_cv, &rest)
            } else if arglist.len() == 0 {
                copy_range(&fix_cv, 0, fix_cv.len())
            } else {
                join_with_space(&fix_cv, &arglist)
            };
            proof {
                assert(fix_cv@.subrange(0, fix_cv@.len() as int) =~= fix_cv@);
                assert(cv@.subrange(wrong_cv@.len() as int, cv@.len() as int) =~= cv@.skip(
                    wrong_cv@.len() as int,
                ));
                assert(fixed@ == builtin_fixed(cv@, arglist@, wrong_cv@, fix_cv@));
            }
            if !has_fixed_exec(&corrections, &fixed) {
                let c = Correction {
                    fixed_cmd: string_of(&fixed),
                    reason: table[j].2.clone(),
                    confidence: CONFIDENCE_UNIT,
                };
                corrections.push(c);
                proof {
                    assert(correction_views(corrections@) =~= acc0.push(
                        CorrectionModel {
                            fixed_cmd: builtin_fixed(cv@, arglist@, wrong_cv@, fix_cv@),
                            reason: table@[j as int].2@,
                            confidence: CONFIDENCE_UNIT,
                        },
                    ));
                }
            }
        }
        proof {
            assert(g_table.skip(j as int).drop_first() =~= g_table.skip(j + 1));
            assert(g_table.skip(j as int)[0] == g_table[j as int]);
        }
        j = j + 1;
    }
    proof {
        assert(g_table.skip(table@.len() as int).len() == 0);
        assert(p2 == correction_views(corrections@));
    }

    // Pass 3: approximate matching, only when the first two passes were
    // completely empty.
    if corrections.len() == 0 {
        let ghost p3 = pass_fuzzy(command@, arglist@, g_vocab, Seq::empty());
        let command_s = string_of(&command);
        let mut k: usize = 0;
        proof {
            assert(g_vocab.skip(0) =~= g_vocab);
            assert(correction_views(corrections@) =~= Seq::<CorrectionModel>::empty());
        }
        while k < vocab.len()
            invariant
                k <= vocab@.len(),
                g_vocab == str_views(vocab@),
                command_s@ == command@,
                arglist@ == args_of(cv@),
                p3 == pass_fuzzy(
                    command@,
                    arglist@,
                    g_vocab.skip(k as int),
                    correction_views(corrections@),
                ),
            decreases vocab@.len() - k,
        {
            let ghost acc0 = correction_views(corrections@);
            proof {
                assert(g_vocab[k as int] == vocab@[k as int]@);
            }
            let score = similarity_key(command_s.as_str(), vocab[k].as_str());
            if SIMILARITY_FLOOR < score && score < CONFIDENCE_UNIT {
                let entry_cv = chars_of(vocab[k].as_str());
                let fixed = if arglist.len() == 0 {
                    copy_range(&entry_cv, 0, entry_cv.len())
                } else {
                    join_with_space(&entry_cv, &arglist)
                };
                proof {
                    assert(entry_cv@.subrange(0, entry_cv@.len() as int) =~= entry_cv@);
                    assert(fixed@ == fuzzy_fixed(g_vocab[k as int], arglist@));
                }
                let mut reason = String::from_str("similar to '");
                reason.append(vocab[k].as_str());
                reason.append("'");
                proof {
                    assert(reason@ == fuzzy_reason(g_vocab[k as int]));
                }
                let c = Correction {
                    fixed_cmd: string_of(&fixed),
                    reason: reason,
                    confidence: score,
                };
                corrections.push(c);
                proof {
                    assert(correction_views(corrections@) =~= acc0.push(
                        CorrectionModel {
                            fixed_cmd: fuzzy_fixed(g_vocab[k as int], arglist@),
                            reason: fuzzy_reason(g_vocab[k as int]),
                            confidence: score,
                        },
                    ));
                }
            }
            proof {
                assert(g_vocab.skip(k as int).drop_first() =~= g_vocab.skip(k + 1));
                assert(g_vocab.skip(k as int)[0] == g_vocab[k as int]);
            }
            k = k + 1;
        }
        proof {
            assert(g_vocab.skip(vocab@.len() as int).len() == 0);
            assert(p3 == correction_views(corrections@));
        }
    }

    // Rank by confidence, cap, and wrap.
    let mut sorted = sorted_by_confidence(corrections);
    let ghost full = correction_views(sorted@);
    if sorted.len() > MAX_CANDIDATES {
        sorted.truncate(MAX_CANDIDATES);
        proof {
            assert(correction_views(sorted@) =~= full.take(MAX_CANDIDATES as int));
        }
    }
    if sorted.len() == 0 {
        None
    } else {
        Some(sorted)
    }
}

/// All candidates an override pass leaves carry full confidence.
proof fn lemma_pass_overrides_unit(
    cmd: Seq<char>,
    command: Seq<char>,
    args: Seq<char>,
    rules: Seq<(Seq<char>, Seq<char>)>,
    acc: Seq<CorrectionModel>,
)
    requires
        forall|i: int| 0 <= i < acc.len() ==> acc[i].confidence == CONFIDENCE_UNIT,
    ensures
        forall|i: int|
            0 <= i < pass_overrides(cmd, command, args, rules, acc).len()
                ==> pass_overrides(cmd, command, args, rules, acc)[i].confidence
                == CONFIDENCE_UNIT,
    decreases rules.len(),
{
    if rules.len() > 0 {
        let wrong = rules[0].0;
        let correct = rules[0].1;
        let acc2 = if rule_exact(cmd, command, wrong) {
            acc.push(
                CorrectionModel {
                    fixed_cmd: override_fixed(cmd, args, wrong, correct),
                    reason: "custom fix"@,
                    confidence: CONFIDENCE_UNIT,
                },
            )
        } else if rule_prefix(cmd, wrong) {
            acc.push(
                CorrectionModel {
                    fixed_cmd: prefix_fixed(cmd, wrong, correct),
                    reason: "custom fix"@,
                    confidence: CONFIDENCE_UNIT,
                },
            )
        } else {
            acc
        };
        assert(pass_overrides(cmd, command, args, rules, acc) == pass_overrides(
            cmd,
            command,
            args,
            rules.drop_first(),
            acc2,
        ));
        assert forall|i: int| 0 <= i < acc2.len() implies acc2[i].confidence
            == CONFIDENCE_UNIT by {
            if i < acc.len() {
                assert(acc2[i] == acc[i]);
            }
        }
        lemma_pass_overrides_unit(cmd, command, args, rules.drop_first(), acc2);
    }
}

/// The built-in pass only appends: what was already there stays, in place.
proof fn lemma_pass_builtins_prefix(
    cmd: Seq<char>,
    command: Seq<char>,
    args: Seq<char>,
    table: Seq<(Seq<char>, Seq<char>, Seq<char>)>,
    acc: Seq<CorrectionModel>,
)
    ensures
        pass_builtins(cmd, command, args, table, acc).len() >= acc.len(),
        forall|i: int|
            0 <= i < acc.len() ==> pass_builtins(cmd, command, args, table, acc)[i] == acc[i],
    decreases table.len(),
{
    if table.len() > 0 {
        let wrong = table[0].0;
        let fix = table[0].1;
        let reason = table[0].2;
        let fixed = builtin_fixed(cmd, args, wrong, fix);
        let acc2 = if builtin_matched(cmd, command, wrong) && !has_fixed(acc, fixed) {
            acc.push(
                CorrectionModel { fixed_cmd: fixed, reason: reason, confidence: CONFIDENCE_UNIT },
            )
        } else {
            acc
        };
        assert(pass_builtins(cmd, command, args, table, acc) == pass_builtins(
            cmd,
            command,
            args,
            table.drop_first(),
            acc2,
        ));
        lemma_pass_builtins_prefix(cmd, command, args, table.drop_first(), acc2);
        assert forall|i: int|
            0 <= i < acc.len() implies pass_builtins(cmd, command, args, table, acc)[i]
            == acc[i] by {
            assert(pass_builtins(cmd, command, args, table.drop_first(), acc2)[i] == acc2[i]);
            assert(acc2[i] == acc[i]);
        }
    }
}

/// All candidates the built-in pass leaves carry full confidence.
proof fn lemma_pass_builtins_unit(
    cmd: Seq<char>,
    command: Seq<char>,
    args: Seq<char>,
    table: Seq<(Seq<char>, Seq<char>, Seq<char>)>,
    acc: Seq<CorrectionModel>,
)
    requires
        forall|i: int| 0 <= i < acc.len() ==> acc[i].confidence == CONFIDENCE_UNIT,
    ensures
        forall|i: int|
            0 <= i < pass_builtins(cmd, command, args, table, acc).len() ==> pass_builtins(
                cmd,
                command,
                args,
                table,
                acc,
            )[i].confidence == CONFIDENCE_UNIT,
    decreases table.len(),
{
    if table.len() > 0 {
        let wrong = table[0].0;
        let fix = table[0].1;
        let reason = table[0].2;
        let fixed = builtin_fixed(cmd, args, wrong, fix);
        let acc2 = if builtin_matched(cmd, command, wrong) && !has_fixed(acc, fixed) {
            acc.push(
                CorrectionModel { fixed_cmd: fixed, reason: reason, confidence: CONFIDENCE_UNIT },
            )
        } else {
            acc
        };
        assert(pass_builtins(cmd, command, args, table, acc) == pass_builtins(
            cmd,
            command,
            args,
            table.drop_first(),
            acc2,
        ));
        assert forall|i: int| 0 <= i < acc2.len() implies acc2[i].confidence
            == CONFIDENCE_UNIT by {
            if i < acc.len() {
                assert(acc2[i] == acc[i]);
            }
        }
        lemma_pass_builtins_unit(cmd, command, args, table.drop_first(), acc2);
    }
}

/// The deduplication law of the built-in pass: every candidate it adds
/// carries a fixed text that no earlier candidate, override or built-in,
/// already carries.
pub proof fn lemma_builtin_no_duplicates(
    cmd: Seq<char>,
    command: Seq<char>,
    args: Seq<char>,
    table: Seq<(Seq<char>, Seq<char>, Seq<char>)>,
    acc: Seq<CorrectionModel>,
)
    ensures
        forall|i: int, j: int|
            acc.len() <= j < pass_builtins(cmd, command, args, table, acc).len() && 0 <= i < j
                ==> pass_builtins(cmd, command, args, table, acc)[i].fixed_cmd != pass_builtins(
                cmd,
                command,
                args,
                table,
                acc,
            )[j].fixed_cmd,
    decreases table.len(),
{
    let out = pass_builtins(cmd, command, args, table, acc);
    if table.len() > 0 {
        let wrong = table[0].0;
        let fix = table[0].1;
        let reason = table[0].2;
        let fixed = builtin_fixed(cmd, args, wrong, fix);
        let pushed = builtin_matched(cmd, command, wrong) && !has_fixed(acc, fixed);
        let acc2 = if pushed {
            acc.push(
                CorrectionModel { fixed_cmd: fixed, reason: reason, confidence: CONFIDENCE_UNIT },
            )
        } else {
            acc
        };
        lemma_builtin_no_duplicates(cmd, command, args, table.drop_first(), acc2);
        lemma_pass_builtins_prefix(cmd, command, args, table.drop_first(), acc2);
        assert forall|i: int, j: int|
            acc.len() <= j < out.len() && 0 <= i < j implies out[i].fixed_cmd
            != out[j].fixed_cmd by {
            if j >= acc2.len() {
            } else {
                assert(pushed && j == acc.len());
                assert(out[j] == acc2[j as int]);
                assert(out[i] == acc2[i as int]);
                assert(acc2[i as int] == acc[i as int]);
                assert(!(acc[i as int].fixed_cmd == fixed));
            }
        }
    }
}

/// Every candidate the approximate pass adds has a similarity strictly
/// between the floor and full certainty.
pub proof fn lemma_fuzzy_band(
    command: Seq<char>,
    args: Seq<char>,
    vocab: Seq<Seq<char>>,
    acc: Seq<CorrectionModel>,
)
    requires
        forall|i: int|
            0 <= i < acc.len() ==> SIMILARITY_FLOOR < acc[i].confidence
                && acc[i].confidence < CONFIDENCE_UNIT,
    ensures
        forall|i: int|
            0 <= i < pass_fuzzy(command, args, vocab, acc).len() ==> SIMILARITY_FLOOR
                < pass_fuzzy(command, args, vocab, acc)[i].confidence && pass_fuzzy(
                command,
                args,
                vocab,
                acc,
            )[i].confidence < CONFIDENCE_UNIT,
    decreases vocab.len(),
{
    if vocab.len() > 0 {
        let score = sim_of(command, vocab[0]);
        let acc2 = if SIMILARITY_FLOOR < score && score < CONFIDENCE_UNIT {
            acc.push(
                CorrectionModel {
                    fixed_cmd: fuzzy_fixed(vocab[0], args),
                    reason: fuzzy_reason(vocab[0]),
                    confidence: score,
                },
            )
        } else {
            acc
        };
        assert(pass_fuzzy(command, args, vocab, acc) == pass_fuzzy(
            command,
            args,
            vocab.drop_first(),
            acc2,
        ));
        assert forall|i: int| 0 <= i < acc2.len() implies SIMILARITY_FLOOR < acc2[i].confidence
            && acc2[i].confidence < CONFIDENCE_UNIT by {
            if i < acc.len() {
                assert(acc2[i] == acc[i]);
            }
        }
        lemma_fuzzy_band(command, args, vocab.drop_first(), acc2);
    }
}

/// The acceptance boundary of approximate matching, for one vocabulary
/// entry: a candidate is emitted exactly when the similarity score lies
/// strictly between the floor and full certainty; a score at the floor
/// itself, or at full certainty, yields none.
pub proof fn lemma_fuzzy_boundary(command: Seq<char>, args: Seq<char>, entry: Seq<char>)
    ensures
        ({
            let out = pass_fuzzy(command, args, seq![entry], Seq::empty());
            let score = sim_of(command, entry);
            &&& (SIMILARITY_FLOOR < score && score < CONFIDENCE_UNIT) <==> out.len() == 1
            &&& (score <= SIMILARITY_FLOOR || score >= CONFIDENCE_UNIT) <==> out.len() == 0
            &&& out.len() == 1 ==> out[0] == (CorrectionModel {
                fixed_cmd: fuzzy_fixed(entry, args),
                reason: fuzzy_reason(entry),
                confidence: score,
            })
        }),
{
    let v = seq![entry];
    assert(v.drop_first() =~= Seq::<Seq<char>>::empty());
    assert(v[0] == entry);
    let score = sim_of(command, entry);
    let c = CorrectionModel {
        fixed_cmd: fuzzy_fixed(entry, args),
        reason: fuzzy_reason(entry),
        confidence: score,
    };
    if SIMILARITY_FLOOR < score && score < CONFIDENCE_UNIT {
        assert(pass_fuzzy(command, args, v, Seq::empty()) == pass_fuzzy(
            command,
            args,
            v.drop_first(),
            Seq::empty().push(c),
        ));
        assert(pass_fuzzy(command, args, v, Seq::empty()) =~= seq![c]);
    } else {
        assert(pass_fuzzy(command, args, v, Seq::empty()) == pass_fuzzy(
            command,
            args,
            v.drop_first(),
            Seq::empty(),
        ));
        assert(pass_fuzzy(command, args, v, Seq::empty()).len() == 0);
    }
}

/// Inserting keeps any confidence bound that held of everything involved.
proof fn lemma_insert_desc_conf_bound(s: Seq<CorrectionModel>, c: CorrectionModel, b: u64)
    requires
        c.confidence <= b,
        forall|i: int| 0 <= i < s.len() ==> s[i].confidence <= b,
    ensures
        forall|m: int|
            0 <= m < insert_desc(s, c).len() ==> insert_desc(s, c)[m].confidence <= b,
    decreases s.len(),
{
    if s.len() > 0 && s[0].confidence >= c.confidence {
        let s1 = s.drop_first();
        assert forall|i: int| 0 <= i < s1.len() implies s1[i].confidence <= b by {
            assert(s1[i] == s[i + 1]);
        }
        lemma_insert_desc_conf_bound(s1, c, b);
        assert forall|m: int|
            0 <= m < insert_desc(s, c).len() implies insert_desc(s, c)[m].confidence <= b by {
            if m > 0 {
                assert(insert_desc(s, c)[m] == insert_desc(s1, c)[m - 1]);
            }
        }
    }
}

proof fn lemma_insert_desc_len(s: Seq<CorrectionModel>, c: CorrectionModel)
    ensures
        insert_desc(s, c).len() == s.len() + 1,
    decreases s.len(),
{
    if s.len() > 0 && s[0].confidence >= c.confidence {
        lemma_insert_desc_len(s.drop_first(), c);
    }
}

/// Inserting into a list sorted by descending confidence keeps it sorted.
proof fn lemma_insert_desc_sorted(s: Seq<CorrectionModel>, c: CorrectionModel)
    requires
        sorted_desc(s),
    ensures
        sorted_desc(insert_desc(s, c)),
    decreases s.len(),
{
    if s.len() == 0 {
    } else if s[0].confidence >= c.confidence {
        let s1 = s.drop_first();
        assert forall|i: int, j: int| 0 <= i <= j < s1.len() implies s1[i].confidence
            >= s1[j].confidence by {
            assert(s1[i] == s[i + 1] && s1[j] == s[j + 1]);
        }
        lemma_insert_desc_sorted(s1, c);
        assert forall|i: int| 0 <= i < s1.len() implies s1[i].confidence
            <= s[0].confidence by {
            assert(s1[i] == s[i + 1]);
        }
        lemma_insert_desc_conf_bound(s1, c, s[0].confidence);
        let out = insert_desc(s, c);
        assert forall|i: int, j: int| 0 <= i <= j < out.len() implies out[i].confidence
            >= out[j].confidence by {
            if i == 0 {
                if j > 0 {
                    assert(out[j] == insert_desc(s1, c)[j - 1]);
                }
            } else {
                assert(out[i] == insert_desc(s1, c)[i - 1]);
                assert(out[j] == insert_desc(s1, c)[j - 1]);
            }
        }
    }
}

proof fn lemma_sort_desc_len(s: Seq<CorrectionModel>)
    ensures
        sort_desc(s).len() == s.len(),
    decreases s.len(),
{
    if s.len() > 0 {
        lemma_sort_desc_len(s.drop_last());
        lemma_insert_desc_len(sort_desc(s.drop_last()), s.last());
    }
}

/// The stable sort leaves the candidates in descending confidence.
proof fn lemma_sort_desc_sorted(s: Seq<CorrectionModel>)
    ensures
        sorted_desc(sort_desc(s)),
    decreases s.len(),
{
    if s.len() > 0 {
        lemma_sort_desc_sorted(s.drop_last());
        lemma_insert_desc_sorted(sort_desc(s.drop_last()), s.last());
    }
}

/// Sorting a list already in descending confidence changes nothing: in
/// particular, candidates of one confidence keep their discovery order.
pub proof fn lemma_sort_desc_identity(s: Seq<CorrectionModel>)
    requires
        sorted_desc(s),
    ensures
        sort_desc(s) == s,
    decreases s.len(),
{
    if s.len() == 0 {
        assert(sort_desc(s) =~= s);
    } else {
        let s0 = s.drop_last();
        assert forall|i: int, j: int| 0 <= i <= j < s0.len() implies s0[i].confidence
            >= s0[j].confidence by {
            assert(s0[i] == s[i] && s0[j] == s[j]);
        }
        lemma_sort_desc_identity(s0);
        assert forall|m: int| 0 <= m < s0.len() implies s0[m].confidence
            >= s.last().confidence by {
            assert(s0[m] == s[m]);
        }
        lemma_insert_desc_at(s0, s.last(), s0.len() as int);
        assert(s0.take(s0.len() as int) =~= s0);
        assert(s0.skip(s0.len() as int) =~= Seq::<CorrectionModel>::empty());
        assert(sort_desc(s) =~= s);
    }
}

/// A command line with no whitespace-separated token yields no candidates,
/// whatever the rules, the table and the vocabulary hold.
pub proof fn lemma_no_token_no_candidates(
    cmd: Seq<char>,
    rules: Seq<(Seq<char>, Seq<char>)>,
    table: Seq<(Seq<char>, Seq<char>, Seq<char>)>,
    vocab: Seq<Seq<char>>,
)
    requires
        !has_token(cmd),
    ensures
        corrections_spec(cmd, rules, table, vocab).len() == 0,
{
}

/// Override precedence: whenever some override rule matched, the first
/// candidate returned is the first override match, ahead of every built-in
/// one.
pub proof fn lemma_override_precedence(
    cmd: Seq<char>,
    rules: Seq<(Seq<char>, Seq<char>)>,
    table: Seq<(Seq<char>, Seq<char>, Seq<char>)>,
    vocab: Seq<Seq<char>>,
)
    requires
        has_token(cmd),
        pass_overrides(cmd, first_token(cmd), args_of(cmd), rules, Seq::empty()).len() > 0,
    ensures
        ({
            let p1 = pass_overrides(cmd, first_token(cmd), args_of(cmd), rules, Seq::empty());
            let model = corrections_spec(cmd, rules, table, vocab);
            model.len() > 0 && model[0] == p1[0]
        }),
{
    let command = first_token(cmd);
    let args = args_of(cmd);
    let p1 = pass_overrides(cmd, command, args, rules, Seq::empty());
    let p2 = pass_builtins(cmd, command, args, table, p1);
    lemma_pass_overrides_unit(cmd, command, args, rules, Seq::empty());
    lemma_pass_builtins_unit(cmd, command, args, table, p1);
    lemma_pass_builtins_prefix(cmd, command, args, table, p1);
    assert(p2.len() > 0);
    assert(sorted_desc(p2));
    lemma_sort_desc_identity(p2);
    if sort_desc(p2).len() > MAX_CANDIDATES {
        assert(corrections_spec(cmd, rules, table, vocab)[0] == p2[0]);
    }
    assert(p2[0] == p1[0]);
}

/// Never more than `MAX_CANDIDATES` candidates come back, and they come in
/// non-increasing confidence: the highest-ranked first.
pub proof fn lemma_result_ranked_and_capped(
    cmd: Seq<char>,
    rules: Seq<(Seq<char>, Seq<char>)>,
    table: Seq<(Seq<char>, Seq<char>, Seq<char>)>,
    vocab: Seq<Seq<char>>,
)
    ensures
        corrections_spec(cmd, rules, table, vocab).len() <= MAX_CANDIDATES,
        sorted_desc(corrections_spec(cmd, rules, table, vocab)),
{
    if has_token(cmd) {
        let command = first_token(cmd);
        let args = args_of(cmd);
        let p1 = pass_overrides(cmd, command, args, rules, Seq::empty());
        let p2 = pass_builtins(cmd, command, args, table, p1);
        let all = if p2.len() == 0 {
            pass_fuzzy(command, args, vocab, Seq::empty())
        } else {
            p2
        };
        lemma_sort_desc_sorted(all);
        let sorted = sort_desc(all);
        if sorted.len() > MAX_CANDIDATES {
            let model = sorted.take(MAX_CANDIDATES as int);
            assert forall|i: int, j: int| 0 <= i <= j < model.len() implies model[i].confidence
                >= model[j].confidence by {
                assert(model[i] == sorted[i] && model[j] == sorted[j]);
            }
        }
    }
}

/// The engine is a pure function of its inputs: two results that both meet
/// its contract on the same command line, rules, table and vocabulary are
/// the same ordered list.
pub proof fn lemma_deterministic(
    cmd: Seq<char>,
    rules: Seq<(Seq<char>, Seq<char>)>,
    table: Seq<(Seq<char>, Seq<char>, Seq<char>)>,
    vocab: Seq<Seq<char>>,
    r1: Seq<CorrectionModel>,
    r2: Seq<CorrectionModel>,
)
    requires
        r1 == corrections_spec(cmd, rules, table, vocab),
        r2 == corrections_spec(cmd, rules, table, vocab),
    ensures
        r1 == r2,
{
}

} // verus!
