//! The user's configuration: the ordered list of custom typo rules and a few
//! flags. Loading and saving the configuration file is the caller's
//! business; everything here is the in-memory state and its rules.
//!
//! The override list keeps at most one entry per wrong form: adding a rule
//! for a wrong form that is already present replaces the old entry.

use vstd::prelude::*;

verus! {

/// No two override rules share a wrong form.
pub open spec fn unique_wrongs(rules: Seq<(String, String)>) -> bool {
    forall|i: int, j: int| 0 <= i < j < rules.len() ==> rules[i].0@ != rules[j].0@
}

/// `rules` with every entry for the wrong form `w` removed, order kept.
pub open spec fn without_wrong(rules: Seq<(String, String)>, w: Seq<char>) -> Seq<(String, String)>
    decreases rules.len(),
{
    if rules.len() == 0 {
        rules
    } else if rules[0].0@ == w {
        without_wrong(rules.drop_first(), w)
    } else {
        seq![rules[0]] + without_wrong(rules.drop_first(), w)
    }
}

/// Whether some rule maps the wrong form `w`.
pub open spec fn knows_wrong(rules: Seq<(String, String)>, w: Seq<char>) -> bool {
    exists|i: int| 0 <= i < rules.len() && rules[i].0@ == w
}

/// What removing a wrong form leaves: every kept entry is one of the old
/// ones and maps another wrong form; the list shrinks exactly when the form
/// was known; uniqueness is kept.
pub proof fn lemma_without_wrong(rules: Seq<(String, String)>, w: Seq<char>)
    ensures
        forall|k: int|
            0 <= k < without_wrong(rules, w).len() ==> #[trigger] without_wrong(rules, w)[k].0@
                != w,
        forall|k: int|
            0 <= k < without_wrong(rules, w).len() ==> rules.contains(
                #[trigger] without_wrong(rules, w)[k],
            ),
        without_wrong(rules, w).len() <= rules.len(),
        knows_wrong(rules, w) <==> without_wrong(rules, w).len() < rules.len(),
        unique_wrongs(rules) ==> unique_wrongs(without_wrong(rules, w)),
    decreases rules.len(),
{
    if rules.len() > 0 {
        let rest = rules.drop_first();
        lemma_without_wrong(rest, w);
        let out = without_wrong(rules, w);
        assert forall|k: int| 0 <= k < out.len() implies rules.contains(#[trigger] out[k]) by {
            if rules[0].0@ == w {
                assert(rest.contains(out[k]));
                let m = choose|m: int| 0 <= m < rest.len() && rest[m] == out[k];
                assert(rules[m + 1] == out[k]);
            } else {
                if k == 0 {
                    assert(rules[0] == out[0]);
                } else {
                    assert(rest.contains(out[k]));
                    let m = choose|m: int| 0 <= m < rest.len() && rest[m] == out[k];
                    assert(rules[m + 1] == out[k]);
                }
            }
        }
        if knows_wrong(rules, w) {
            let i = choose|i: int| 0 <= i < rules.len() && rules[i].0@ == w;
            if i == 0 {
                assert(without_wrong(rules, w).len() < rules.len());
            } else {
                assert(rest[i - 1].0@ == w);
                assert(knows_wrong(rest, w));
                assert(without_wrong(rules, w).len() < rules.len());
            }
        }
        if without_wrong(rules, w).len() < rules.len() {
            if rules[0].0@ != w {
                assert(without_wrong(rest, w).len() < rest.len());
                let i = choose|i: int| 0 <= i < rest.len() && rest[i].0@ == w;
                assert(rules[i + 1].0@ == w);
            }
        }
        if unique_wrongs(rules) {
            assert forall|i: int, j: int| 0 <= i < j < rest.len() implies rest[i].0@
                != rest[j].0@ by {
                assert(rest[i] == rules[i + 1] && rest[j] == rules[j + 1]);
            }
            if rules[0].0@ != w {
                assert forall|i: int, j: int| 0 <= i < j < out.len() implies out[i].0@
                    != out[j].0@ by {
                    if i == 0 {
                        assert(rest.contains(out[j]));
                        let m = choose|m: int| 0 <= m < rest.len() && rest[m] == out[j];
                        assert(rules[m + 1] == out[j]);
                    }
                }
            }
        }
    }
}

/// The user's configuration, as the correction engine and the surrounding
/// tool consume it: the ordered custom typo rules and the behaviour flags.
pub struct UserConfig {
    /// The override rules, each a wrong form and its replacement, in
    /// insertion order, at most one entry per wrong form.
    pub custom_typos: Vec<(String, String)>,
    /// Whether the first-run installation prompt has been dealt with.
    pub first_run_complete: bool,
    /// Whether the first suggestion runs without asking.
    pub auto_mode: bool,
    /// The stored AI service key, if the user saved one.
    pub google_api_key: Option<String>,
}

impl UserConfig {
    /// At most one override per wrong form.
    pub open spec fn wf(self) -> bool {
        unique_wrongs(self.custom_typos@)
    }

    /// Everything but the override list.
    pub open spec fn flags(self) -> (bool, bool, Option<String>) {
        (self.first_run_complete, self.auto_mode, self.google_api_key)
    }

    /// Adds an override rule; an existing rule for the same wrong form is
    /// replaced, and the new rule goes to the end of the list.
    pub fn add_typo(&mut self, wrong: String, correct: String)
        ensures
            final(self).custom_typos@ == without_wrong(old(self).custom_typos@, wrong@).push(
                (wrong, correct),
            ),
            final(self).flags() == old(self).flags(),
            old(self).wf() ==> final(self).wf(),
    {
        let mut kept = self.retained_without(&wrong);
        proof {
            lemma_without_wrong(old(self).custom_typos@, wrong@);
        }
        kept.push((wrong, correct));
        self.custom_typos = kept;
    }

    /// The override list without any entry for the given wrong form.
    fn retained_without(&self, wrong: &String) -> (kept: Vec<(String, String)>)
        ensures
            kept@ == without_wrong(self.custom_typos@, wrong@),
    {
        let ghost full = self.custom_typos@;
        let mut kept: Vec<(String, String)> = Vec::new();
        let mut i: usize = 0;
        proof {
            assert(full.skip(0) =~= full);
            assert(kept@ + without_wrong(full, wrong@) =~= without_wrong(full, wrong@));
        }
        while i < self.custom_typos.len()
            invariant
                i <= full.len(),
                full == self.custom_typos@,
                without_wrong(full, wrong@) == kept@ + without_wrong(
                    full.skip(i as int),
                    wrong@,
                ),
            decreases full.len() - i,
        {
            let ghost kept0 = kept@;
            let entry = &self.custom_typos[i];
            let keep = !(entry.0 == *wrong);
            if keep {
                kept.push((entry.0.clone(), entry.1.clone()));
                proof {
                    assert((entry.0, entry.1) == full[i as int]);
                }
            }
            proof {
                let rem = full.skip(i as int);
                assert(rem[0] == full[i as int]);
                assert(rem.drop_first() =~= full.skip(i + 1));
                if full[i as int].0@ != wrong@ {
                    assert(kept@ =~= kept0.push(full[i as int]));
                    assert(kept@ + without_wrong(full.skip(i + 1), wrong@) =~= kept0 + (seq![
                        full[i as int],
                    ] + without_wrong(full.skip(i + 1), wrong@)));
                }
            }
            i = i + 1;
        }
        proof {
            assert(full.skip(full.len() as int).len() == 0);
            assert(kept@ + without_wrong(full.skip(full.len() as int), wrong@) =~= kept@);
        }
        kept
    }

    /// Removes the override for the given wrong form. Returns whether one
    /// was there to remove.
    pub fn remove_typo(&mut self, wrong: &str) -> (removed: bool)
        ensures
            final(self).custom_typos@ == without_wrong(old(self).custom_typos@, wrong@),
            removed == knows_wrong(old(self).custom_typos@, wrong@),
            final(self).flags() == old(self).flags(),
            old(self).wf() ==> final(self).wf(),
    {
        let w = String::from_str(wrong);
        let kept = self.retained_without(&w);
        proof {
            lemma_without_wrong(old(self).custom_typos@, wrong@);
        }
        let removed = kept.len() < self.custom_typos.len();
        self.custom_typos = kept;
        removed
    }

    /// Adds a rule that also exists in the built-in table: it goes in only
    /// when its wrong form is not already overridden.
    pub fn add_from_builtin(&mut self, wrong: String, correct: String)
        ensures
            final(self).custom_typos@ == (if knows_wrong(old(self).custom_typos@, wrong@) {
                old(self).custom_typos@
            } else {
                old(self).custom_typos@.push((wrong, correct))
            }),
            final(self).flags() == old(self).flags(),
            old(self).wf() ==> final(self).wf(),
    {
        let mut i: usize = 0;
        let n = self.custom_typos.len();
        while i < n
            invariant
                i <= n,
                n == self.custom_typos@.len(),
                self == old(self),
                forall|k: int| 0 <= k < i ==> old(self).custom_typos@[k].0@ != wrong@,
            decreases n - i,
        {
            if self.custom_typos[i].0 == wrong {
                return ;
            }
            i = i + 1;
        }
        assert(!knows_wrong(old(self).custom_typos@, wrong@));
        self.custom_typos.push((wrong, correct));
    }

    /// Marks the first-run prompt as dealt with.
    pub fn mark_first_run_complete(&mut self)
        ensures
            final(self).first_run_complete == true,
            final(self).custom_typos == old(self).custom_typos,
            final(self).auto_mode == old(self).auto_mode,
            final(self).google_api_key == old(self).google_api_key,
    {
        self.first_run_complete = true;
    }

    /// Turns auto-mode on or off.
    pub fn set_auto_mode(&mut self, enabled: bool)
        ensures
            final(self).auto_mode == enabled,
            final(self).custom_typos == old(self).custom_typos,
            final(self).first_run_complete == old(self).first_run_complete,
            final(self).google_api_key == old(self).google_api_key,
    {
        self.auto_mode = enabled;
    }

    /// Flips auto-mode and reports the new state.
    pub fn toggle_auto_mode(&mut self) -> (on: bool)
        ensures
            final(self).auto_mode == !old(self).auto_mode,
            on == final(self).auto_mode,
            final(self).custom_typos == old(self).custom_typos,
            final(self).first_run_complete == old(self).first_run_complete,
            final(self).google_api_key == old(self).google_api_key,
    {
        self.auto_mode = !self.auto_mode;
        self.auto_mode
    }

    /// Stores the AI service key.
    pub fn set_google_api_key(&mut self, key: String)
        ensures
            final(self).google_api_key == Some(key),
            final(self).custom_typos == old(self).custom_typos,
            final(self).first_run_complete == old(self).first_run_complete,
            final(self).auto_mode == old(self).auto_mode,
    {
        self.google_api_key = Some(key);
    }

    /// The stored AI service key, if any.
    pub fn get_google_api_key(&self) -> (r: Option<String>)
        ensures
            match (r, self.google_api_key) {
                (Some(a), Some(b)) => a@ == b@,
                (None, None) => true,
                _ => false,
            },
    {
        match &self.google_api_key {
            Some(k) => Some(k.clone()),
            None => None,
        }
    }

    /// Where the configuration file lives under a home directory.
    pub open spec fn config_path_spec(home: Seq<char>) -> Seq<char> {
        home + "/.wtf/config.json"@
    }

    /// The configuration file path under the given home directory.
    pub fn config_path_for(home: &str) -> (r: String)
        ensures
            r@ == Self::config_path_spec(home@),
    {
        String::from_str(home).concat("/.wtf/config.json")
    }

    /// The location of the configuration file, for display: the path under
    /// the user's home directory, or "unknown" when no home directory is
    /// known. What the home directory is depends on the environment, so no
    /// more than the shape of the answer can be promised.
    pub fn get_config_path_display() -> (r: String)
        ensures
            (exists|h: Seq<char>| r@ == #[trigger] Self::config_path_spec(h)) || r@
                == "unknown"@,
    {
        match home_dir_string() {
            Some(h) => {
                let p = Self::config_path_for(h.as_str());
                proof {
                    assert(p@ == Self::config_path_spec(h@));
                }
                p
            },
            None => String::from_str("unknown"),
        }
    }
}

impl Default for UserConfig {
    /// The configuration a fresh installation starts from: no overrides,
    /// nothing enabled, no key.
    fn default() -> (c: Self)
        ensures
            c.custom_typos@.len() == 0,
            c.first_run_complete == false,
            c.auto_mode == false,
            c.google_api_key is None,
            c.wf(),
    {
        UserConfig {
            custom_typos: Vec::new(),
            first_run_complete: false,
            auto_mode: false,
            google_api_key: None,
        }
    }
}

/// Relies on dirs::home_dir, which reads the environment: nothing can be
/// promised of what comes back.
#[verifier::external_body]
fn home_dir_string() -> (r: Option<String>)
{
    match dirs::home_dir() {
        Some(p) => Some(p.to_string_lossy().into_owned()),
        None => None,
    }
}

} // verus!
