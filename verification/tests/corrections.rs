//! Behaviour of the correction engine: the three matching passes, their
//! priority cascade, ranking and capping.

use wtf::corrections::find_corrections;
use wtf::corrections::CONFIDENCE_UNIT;
use wtf::corrections::MAX_CANDIDATES;
use wtf::corrections::SIMILARITY_FLOOR;

fn rules(pairs: &[(&str, &str)]) -> Vec<(String, String)> {
    pairs.iter().map(|(w, c)| (w.to_string(), c.to_string())).collect()
}

fn table(entries: &[(&str, &str, &str)]) -> Vec<(String, String, String)> {
    entries.iter().map(|(w, f, r)| (w.to_string(), f.to_string(), r.to_string())).collect()
}

fn vocab(words: &[&str]) -> Vec<String> {
    words.iter().map(|w| w.to_string()).collect()
}

#[test]
fn no_tokens_gives_none() {
    let empty_rules = rules(&[]);
    let empty_table = table(&[]);
    let empty_vocab = vocab(&[]);
    assert!(find_corrections("", &empty_rules, &empty_table, &empty_vocab).is_none());
    assert!(find_corrections("   ", &empty_rules, &empty_table, &empty_vocab).is_none());
    assert!(find_corrections(" \t \n ", &empty_rules, &empty_table, &empty_vocab).is_none());
}

#[test]
fn exact_override_match() {
    let r = rules(&[("gp", "git push")]);
    let out = find_corrections("gp", &r, &table(&[]), &vocab(&[])).unwrap();
    assert_eq!(out.len(), 1);
    assert_eq!(out[0].fixed_cmd, "git push");
    assert_eq!(out[0].reason, "custom fix");
    assert_eq!(out[0].confidence, CONFIDENCE_UNIT);
}

#[test]
fn exact_override_carries_args() {
    let r = rules(&[("gp", "git push")]);
    let out = find_corrections("gp origin main", &r, &table(&[]), &vocab(&[])).unwrap();
    assert_eq!(out[0].fixed_cmd, "git push origin main");
}

#[test]
fn prefix_override_preserves_trailing_text() {
    let r = rules(&[("gco", "git checkout")]);
    let out = find_corrections("gco -b feature/x", &r, &table(&[]), &vocab(&[])).unwrap();
    assert_eq!(out.len(), 1);
    assert_eq!(out[0].fixed_cmd, "git checkout -b feature/x");
    assert_eq!(out[0].reason, "custom fix");
    assert_eq!(out[0].confidence, CONFIDENCE_UNIT);
}

#[test]
fn override_precedes_builtin_and_duplicates_are_dropped() {
    let r = rules(&[("gp", "git push")]);
    let t = table(&[
        ("gp", "git pull", "common mixup"),
        ("gp", "git push", "same text as the override"),
    ]);
    let out = find_corrections("gp", &r, &t, &vocab(&[])).unwrap();
    assert_eq!(out.len(), 2);
    assert_eq!(out[0].fixed_cmd, "git push");
    assert_eq!(out[0].reason, "custom fix");
    assert_eq!(out[1].fixed_cmd, "git pull");
    assert_eq!(out[1].reason, "common mixup");
}

#[test]
fn builtin_prefix_match_keeps_remainder_verbatim() {
    let t = table(&[("sl", "ls", "transposed letters")]);
    let out = find_corrections("sl  -la", &rules(&[]), &t, &vocab(&[])).unwrap();
    assert_eq!(out[0].fixed_cmd, "ls  -la");
}

#[test]
fn fuzzy_match_fires_only_without_exact_matches() {
    let v = vocab(&["git"]);
    let out = find_corrections("gitt status", &rules(&[]), &table(&[]), &v).unwrap();
    assert_eq!(out.len(), 1);
    assert_eq!(out[0].fixed_cmd, "git status");
    assert_eq!(out[0].reason, "similar to 'git'");
    assert!(out[0].confidence > SIMILARITY_FLOOR);
    assert!(out[0].confidence < CONFIDENCE_UNIT);
    assert_eq!(
        out[0].confidence,
        strsim::jaro_winkler("gitt", "git").to_bits()
    );
}

#[test]
fn fuzzy_skipped_when_builtin_matched() {
    let t = table(&[("gitt", "git", "extra letter")]);
    let v = vocab(&["git"]);
    let out = find_corrections("gitt", &rules(&[]), &t, &v).unwrap();
    assert_eq!(out.len(), 1);
    assert_eq!(out[0].reason, "extra letter");
}

#[test]
fn identical_command_is_no_typo() {
    // A score of exactly one must not be offered as a correction.
    assert_eq!(strsim::jaro_winkler("git", "git"), 1.0);
    let v = vocab(&["git"]);
    assert!(find_corrections("git", &rules(&[]), &table(&[]), &v).is_none());
}

#[test]
fn dissimilar_command_gives_nothing() {
    let v = vocab(&["git"]);
    assert!(find_corrections("xjq", &rules(&[]), &table(&[]), &v).is_none());
}

#[test]
fn results_are_capped_at_five() {
    let t = table(&[
        ("gp", "fix one", "r1"),
        ("gp", "fix two", "r2"),
        ("gp", "fix three", "r3"),
        ("gp", "fix four", "r4"),
        ("gp", "fix five", "r5"),
        ("gp", "fix six", "r6"),
        ("gp", "fix seven", "r7"),
    ]);
    let out = find_corrections("gp", &rules(&[]), &t, &vocab(&[])).unwrap();
    assert_eq!(out.len(), MAX_CANDIDATES);
    assert_eq!(out[0].fixed_cmd, "fix one");
    assert_eq!(out[4].fixed_cmd, "fix five");
    for w in out.windows(2) {
        assert!(w[0].confidence >= w[1].confidence);
    }
}

#[test]
fn fuzzy_results_ranked_by_confidence() {
    // Both words land strictly inside the acceptance band; the closer one
    // must come first.
    let a = strsim::jaro_winkler("gitt", "git");
    let b = strsim::jaro_winkler("gitt", "gitty");
    assert!(a > 0.85 && a < 1.0);
    assert!(b > 0.85 && b < 1.0);
    assert!(a != b);
    let v = vocab(&["gitty", "git"]);
    let out = find_corrections("gitt", &rules(&[]), &table(&[]), &v).unwrap();
    assert_eq!(out.len(), 2);
    assert!(out[0].confidence >= out[1].confidence);
    if a > b {
        assert_eq!(out[0].fixed_cmd, "git");
    } else {
        assert_eq!(out[0].fixed_cmd, "gitty");
    }
}

#[test]
fn identical_inputs_give_identical_output() {
    let r = rules(&[("gp", "git push"), ("gco", "git checkout")]);
    let t = table(&[("sl", "ls", "transposed letters")]);
    let v = vocab(&["git", "ls", "cargo"]);
    let first = find_corrections("gco -b x", &r, &t, &v);
    let second = find_corrections("gco -b x", &r, &t, &v);
    assert_eq!(first, second);
    let third = find_corrections("gitt", &r, &t, &v);
    let fourth = find_corrections("gitt", &r, &t, &v);
    assert_eq!(third, fourth);
}

#[test]
fn whitespace_between_tokens_collapses_in_args() {
    let r = rules(&[("gp", "git push")]);
    // The first token matches exactly, so the arguments are rejoined with
    // single spaces.
    let out = find_corrections("gp\torigin   main", &r, &table(&[]), &vocab(&[])).unwrap();
    assert_eq!(out[0].fixed_cmd, "git push origin main");
}

#[test]
fn multiple_override_matches_all_kept() {
    // Overrides are not deduplicated among themselves.
    let r = rules(&[("gp", "git push"), ("gp", "git push")]);
    let out = find_corrections("gp", &r, &table(&[]), &vocab(&[])).unwrap();
    assert_eq!(out.len(), 2);
    assert_eq!(out[0].fixed_cmd, "git push");
    assert_eq!(out[1].fixed_cmd, "git push");
}
