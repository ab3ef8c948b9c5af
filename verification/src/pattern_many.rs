use vstd::prelude::*;
use crate::utils::{spec_compiles, spec_matches, PatternError};
use crate::enums::{spec_word_bounds_pattern, WordBounds};
use crate::pattern_match::{spec_any_matches, PatternMatch};
use crate::pattern_replace::PatternReplace;
use crate::utils::{spec_replaced, spec_replaced_first};

verus! {

// Matching and replacing with several patterns at once: all-of and any-of
// tests, positivity conditions, and sequential multi-pattern replacement.

/// Whether one best-effort match of a pattern against a modelled value
/// comes out true: the pattern compiles and matches some modelled text.
pub open spec fn spec_best_effort_match(
    pattern: Seq<char>,
    case_insensitive: bool,
    items: Seq<Seq<char>>,
) -> bool {
    spec_compiles(pattern, case_insensitive) && spec_any_matches(pattern, case_insensitive, items)
}

/// Methods to match several patterns, as plain lists, (pattern, flag)
/// pairs, or (positivity, pattern, flag) triples.
pub trait PatternMatchMany where Self: PatternMatch {
    /// All patterns must match, under one case flag.
    fn pattern_match_many(&self, patterns: &[&str], case_insensitive: bool) -> (r: bool)
        ensures
            r == forall|k: int|
                0 <= k < patterns@.len() ==> spec_best_effort_match(
                    (#[trigger] patterns@[k])@,
                    case_insensitive,
                    self.match_model(),
                ),
    {
        let mut k: usize = 0;
        while k < patterns.len()
            invariant
                0 <= k <= patterns@.len(),
                forall|j: int|
                    0 <= j < k ==> spec_best_effort_match(
                        (#[trigger] patterns@[j])@,
                        case_insensitive,
                        self.match_model(),
                    ),
            decreases patterns@.len() - k,
        {
            if !self.pattern_match(patterns[k], case_insensitive) {
                proof {
                    assert(!spec_best_effort_match(
                        patterns@[k as int]@,
                        case_insensitive,
                        self.match_model(),
                    ));
                }
                return false;
            }
            k += 1;
        }
        true
    }

    /// All patterns must match, each with its own case flag.
    fn pattern_match_many_mixed(&self, pattern_sets: &[(&str, bool)]) -> (r: bool)
        ensures
            r == forall|k: int|
                0 <= k < pattern_sets@.len() ==> spec_best_effort_match(
                    (#[trigger] pattern_sets@[k]).0@,
                    pattern_sets@[k].1,
                    self.match_model(),
                ),
    {
        let mut k: usize = 0;
        while k < pattern_sets.len()
            invariant
                0 <= k <= pattern_sets@.len(),
                forall|j: int|
                    0 <= j < k ==> spec_best_effort_match(
                        (#[trigger] pattern_sets@[j]).0@,
                        pattern_sets@[j].1,
                        self.match_model(),
                    ),
            decreases pattern_sets@.len() - k,
        {
            let (pattern, case_insensitive) = pattern_sets[k];
            if !self.pattern_match(pattern, case_insensitive) {
                proof {
                    assert(!spec_best_effort_match(
                        pattern_sets@[k as int].0@,
                        pattern_sets@[k as int].1,
                        self.match_model(),
                    ));
                }
                return false;
            }
            k += 1;
        }
        true
    }

    /// Every (positivity, pattern, flag) triple must agree with its
    /// best-effort match outcome.
    fn pattern_match_many_conditional(&self, pattern_sets: &[(bool, &str, bool)]) -> (r: bool)
        ensures
            r == forall|k: int|
                0 <= k < pattern_sets@.len() ==> spec_best_effort_match(
                    (#[trigger] pattern_sets@[k]).1@,
                    pattern_sets@[k].2,
                    self.match_model(),
                ) == pattern_sets@[k].0,
    {
        let mut k: usize = 0;
        while k < pattern_sets.len()
            invariant
                0 <= k <= pattern_sets@.len(),
                forall|j: int|
                    0 <= j < k ==> spec_best_effort_match(
                        (#[trigger] pattern_sets@[j]).1@,
                        pattern_sets@[j].2,
                        self.match_model(),
                    ) == pattern_sets@[j].0,
            decreases pattern_sets@.len() - k,
        {
            let (is_positive, pattern, case_insensitive) = pattern_sets[k];
            if self.pattern_match(pattern, case_insensitive) != is_positive {
                proof {
                    assert(spec_best_effort_match(
                        pattern_sets@[k as int].1@,
                        pattern_sets@[k as int].2,
                        self.match_model(),
                    ) != pattern_sets@[k as int].0);
                }
                return false;
            }
            k += 1;
        }
        true
    }

    /// All patterns must match, case-insensitively.
    fn pattern_match_many_ci(&self, patterns: &[&str]) -> (r: bool)
        ensures
            r == forall|k: int|
                0 <= k < patterns@.len() ==> spec_best_effort_match(
                    (#[trigger] patterns@[k])@,
                    true,
                    self.match_model(),
                ),
    {
        self.pattern_match_many(patterns, true)
    }

    /// All patterns must match, case-sensitively.
    fn pattern_match_many_cs(&self, patterns: &[&str]) -> (r: bool)
        ensures
            r == forall|k: int|
                0 <= k < patterns@.len() ==> spec_best_effort_match(
                    (#[trigger] patterns@[k])@,
                    false,
                    self.match_model(),
                ),
    {
        self.pattern_match_many(patterns, false)
    }

    /// All patterns must match: another name for the many-pattern "and".
    fn pattern_match_all_ci(&self, patterns: &[&str]) -> (r: bool)
        ensures
            r == forall|k: int|
                0 <= k < patterns@.len() ==> spec_best_effort_match(
                    (#[trigger] patterns@[k])@,
                    true,
                    self.match_model(),
                ),
    {
        self.pattern_match_many(patterns, true)
    }

    /// Every triple must agree with its match outcome: another name for
    /// the conditional "and".
    fn pattern_match_all_conditional(&self, pattern_sets: &[(bool, &str, bool)]) -> (r: bool)
        ensures
            r == forall|k: int|
                0 <= k < pattern_sets@.len() ==> spec_best_effort_match(
                    (#[trigger] pattern_sets@[k]).1@,
                    pattern_sets@[k].2,
                    self.match_model(),
                ) == pattern_sets@[k].0,
    {
        self.pattern_match_many_conditional(pattern_sets)
    }

    /// At least one pattern matches, under one case flag.
    fn pattern_match_any(&self, patterns: &[&str], case_insensitive: bool) -> (r: bool)
        ensures
            r == exists|k: int|
                0 <= k < patterns@.len() && spec_best_effort_match(
                    (#[trigger] patterns@[k])@,
                    case_insensitive,
                    self.match_model(),
                ),
    {
        let mut k: usize = 0;
        while k < patterns.len()
            invariant
                0 <= k <= patterns@.len(),
                forall|j: int|
                    0 <= j < k ==> !spec_best_effort_match(
                        (#[trigger] patterns@[j])@,
                        case_insensitive,
                        self.match_model(),
                    ),
            decreases patterns@.len() - k,
        {
            if self.pattern_match(patterns[k], case_insensitive) {
                proof {
                    assert(spec_best_effort_match(
                        patterns@[k as int]@,
                        case_insensitive,
                        self.match_model(),
                    ));
                }
                return true;
            }
            k += 1;
        }
        false
    }

    /// At least one pattern matches, case-insensitively.
    fn pattern_match_any_ci(&self, patterns: &[&str]) -> (r: bool)
        ensures
            r == exists|k: int|
                0 <= k < patterns@.len() && spec_best_effort_match(
                    (#[trigger] patterns@[k])@,
                    true,
                    self.match_model(),
                ),
    {
        self.pattern_match_any(patterns, true)
    }

    /// At least one pattern matches, case-sensitively.
    fn pattern_match_any_cs(&self, patterns: &[&str]) -> (r: bool)
        ensures
            r == exists|k: int|
                0 <= k < patterns@.len() && spec_best_effort_match(
                    (#[trigger] patterns@[k])@,
                    false,
                    self.match_model(),
                ),
    {
        self.pattern_match_any(patterns, false)
    }

    /// At least one pattern matches, each with its own case flag.
    fn pattern_match_any_mixed(&self, pattern_sets: &[(&str, bool)]) -> (r: bool)
        ensures
            r == exists|k: int|
                0 <= k < pattern_sets@.len() && spec_best_effort_match(
                    (#[trigger] pattern_sets@[k]).0@,
                    pattern_sets@[k].1,
                    self.match_model(),
                ),
    {
        let mut k: usize = 0;
        while k < pattern_sets.len()
            invariant
                0 <= k <= pattern_sets@.len(),
                forall|j: int|
                    0 <= j < k ==> !spec_best_effort_match(
                        (#[trigger] pattern_sets@[j]).0@,
                        pattern_sets@[j].1,
                        self.match_model(),
                    ),
            decreases pattern_sets@.len() - k,
        {
            let (pattern, case_insensitive) = pattern_sets[k];
            if self.pattern_match(pattern, case_insensitive) {
                proof {
                    assert(spec_best_effort_match(
                        pattern_sets@[k as int].0@,
                        pattern_sets@[k as int].1,
                        self.match_model(),
                    ));
                }
                return true;
            }
            k += 1;
        }
        false
    }

    /// At least one triple agrees with its match outcome.
    fn pattern_match_any_conditional(&self, pattern_sets: &[(bool, &str, bool)]) -> (r: bool)
        ensures
            r == exists|k: int|
                0 <= k < pattern_sets@.len() && spec_best_effort_match(
                    (#[trigger] pattern_sets@[k]).1@,
                    pattern_sets@[k].2,
                    self.match_model(),
                ) == pattern_sets@[k].0,
    {
        let mut k: usize = 0;
        while k < pattern_sets.len()
            invariant
                0 <= k <= pattern_sets@.len(),
                forall|j: int|
                    0 <= j < k ==> spec_best_effort_match(
                        (#[trigger] pattern_sets@[j]).1@,
                        pattern_sets@[j].2,
                        self.match_model(),
                    ) != pattern_sets@[j].0,
            decreases pattern_sets@.len() - k,
        {
            let (is_positive, pattern, case_insensitive) = pattern_sets[k];
            if self.pattern_match(pattern, case_insensitive) == is_positive {
                proof {
                    assert(spec_best_effort_match(
                        pattern_sets@[k as int].1@,
                        pattern_sets@[k as int].2,
                        self.match_model(),
                    ) == pattern_sets@[k as int].0);
                }
                return true;
            }
            k += 1;
        }
        false
    }
}

impl PatternMatchMany for str {

}

impl PatternMatchMany for [String] {

}

/// One boolean per (pattern, flag) pair, each pattern first wrapped with
/// the given word bounds.
pub trait PatternMatchesMany where Self: PatternMatch {
    /// One best-effort outcome per pair, with the bounds applied to each
    /// pattern.
    fn pattern_matches_conditional(&self, pattern_sets: &[(&str, bool)], bounds: WordBounds) -> (r:
        Vec<bool>)
        ensures
            r@.len() == pattern_sets@.len(),
            forall|k: int|
                0 <= k < pattern_sets@.len() ==> r@[k] == spec_best_effort_match(
                    spec_word_bounds_pattern(bounds, (#[trigger] pattern_sets@[k]).0@),
                    pattern_sets@[k].1,
                    self.match_model(),
                ),
    ;

    /// Whole-word outcomes per pair.
    fn pattern_word_matches_conditional(&self, pattern_sets: &[(&str, bool)]) -> (r: Vec<bool>)
        ensures
            r@.len() == pattern_sets@.len(),
            forall|k: int|
                0 <= k < pattern_sets@.len() ==> r@[k] == spec_best_effort_match(
                    spec_word_bounds_pattern(WordBounds::Both, (#[trigger] pattern_sets@[k]).0@),
                    pattern_sets@[k].1,
                    self.match_model(),
                ),
    {
        self.pattern_matches_conditional(pattern_sets, WordBounds::Both)
    }

    /// One case-insensitive outcome per bare pattern.
    fn pattern_matches_conditional_ci(&self, patterns: &[&str]) -> (r: Vec<bool>)
        ensures
            r@.len() == patterns@.len(),
            forall|k: int|
                0 <= k < patterns@.len() ==> r@[k] == spec_best_effort_match(
                    (#[trigger] patterns@[k])@,
                    true,
                    self.match_model(),
                ),
    {
        let pairs = crate::utils::strs_to_str_bool_pairs(patterns, true);
        let r = self.pattern_matches_conditional(pairs.as_slice(), WordBounds::Neither);
        proof {
            assert forall|k: int| 0 <= k < patterns@.len() implies r@[k] == spec_best_effort_match(
                (#[trigger] patterns@[k])@,
                true,
                self.match_model(),
            ) by {
                assert(pairs@[k].0@ == patterns@[k]@);
                assert(spec_word_bounds_pattern(WordBounds::Neither, pairs@[k].0@) == pairs@[
                    k
                ].0@);
                assert(r@[k] == spec_best_effort_match(
                    spec_word_bounds_pattern(WordBounds::Neither, pairs@[k].0@),
                    pairs@[k].1,
                    self.match_model(),
                ));
            }
        }
        r
    }

    /// One case-sensitive outcome per bare pattern.
    fn pattern_matches_conditional_cs(&self, patterns: &[&str]) -> (r: Vec<bool>)
        ensures
            r@.len() == patterns@.len(),
            forall|k: int|
                0 <= k < patterns@.len() ==> r@[k] == spec_best_effort_match(
                    (#[trigger] patterns@[k])@,
                    false,
                    self.match_model(),
                ),
    {
        let pairs = crate::utils::strs_to_str_bool_pairs(patterns, false);
        let r = self.pattern_matches_conditional(pairs.as_slice(), WordBounds::Neither);
        proof {
            assert forall|k: int| 0 <= k < patterns@.len() implies r@[k] == spec_best_effort_match(
                (#[trigger] patterns@[k])@,
                false,
                self.match_model(),
            ) by {
                assert(pairs@[k].0@ == patterns@[k]@);
                assert(spec_word_bounds_pattern(WordBounds::Neither, pairs@[k].0@) == pairs@[
                    k
                ].0@);
                assert(r@[k] == spec_best_effort_match(
                    spec_word_bounds_pattern(WordBounds::Neither, pairs@[k].0@),
                    pairs@[k].1,
                    self.match_model(),
                ));
            }
        }
        r
    }

    /// One case-insensitive whole-word outcome per word.
    fn pattern_word_matches_conditional_ci(&self, patterns: &[&str]) -> (r: Vec<bool>)
        ensures
            r@.len() == patterns@.len(),
            forall|k: int|
                0 <= k < patterns@.len() ==> r@[k] == spec_best_effort_match(
                    spec_word_bounds_pattern(WordBounds::Both, (#[trigger] patterns@[k])@),
                    true,
                    self.match_model(),
                ),
    {
        let pairs = crate::utils::strs_to_str_bool_pairs(patterns, true);
        let r = self.pattern_matches_conditional(pairs.as_slice(), WordBounds::Both);
        proof {
            assert forall|k: int| 0 <= k < patterns@.len() implies r@[k] == spec_best_effort_match(
                spec_word_bounds_pattern(WordBounds::Both, (#[trigger] patterns@[k])@),
                true,
                self.match_model(),
            ) by {
                assert(pairs@[k].0@ == patterns@[k]@);
                assert(r@[k] == spec_best_effort_match(
                    spec_word_bounds_pattern(WordBounds::Both, pairs@[k].0@),
                    pairs@[k].1,
                    self.match_model(),
                ));
            }
        }
        r
    }

    /// One case-sensitive whole-word outcome per word.
    fn pattern_word_matches_conditional_cs(&self, patterns: &[&str]) -> (r: Vec<bool>)
        ensures
            r@.len() == patterns@.len(),
            forall|k: int|
                0 <= k < patterns@.len() ==> r@[k] == spec_best_effort_match(
                    spec_word_bounds_pattern(WordBounds::Both, (#[trigger] patterns@[k])@),
                    false,
                    self.match_model(),
                ),
    {
        let pairs = crate::utils::strs_to_str_bool_pairs(patterns, false);
        let r = self.pattern_matches_conditional(pairs.as_slice(), WordBounds::Both);
        proof {
            assert forall|k: int| 0 <= k < patterns@.len() implies r@[k] == spec_best_effort_match(
                spec_word_bounds_pattern(WordBounds::Both, (#[trigger] patterns@[k])@),
                false,
                self.match_model(),
            ) by {
                assert(pairs@[k].0@ == patterns@[k]@);
                assert(r@[k] == spec_best_effort_match(
                    spec_word_bounds_pattern(WordBounds::Both, pairs@[k].0@),
                    pairs@[k].1,
                    self.match_model(),
                ));
            }
        }
        r
    }
}

impl PatternMatchesMany for str {
    fn pattern_matches_conditional(&self, pattern_sets: &[(&str, bool)], bounds: WordBounds) -> (r:
        Vec<bool>) {
        let mut out: Vec<bool> = Vec::new();
        let mut k: usize = 0;
        while k < pattern_sets.len()
            invariant
                0 <= k <= pattern_sets@.len(),
                out@.len() == k,
                forall|j: int|
                    0 <= j < k ==> out@[j] == spec_best_effort_match(
                        spec_word_bounds_pattern(bounds, (#[trigger] pattern_sets@[j]).0@),
                        pattern_sets@[j].1,
                        self.match_model(),
                    ),
            decreases pattern_sets@.len() - k,
        {
            let (pattern, case_insensitive) = pattern_sets[k];
            let bounded = bounds.to_pattern(pattern);
            let hit = self.pattern_match(bounded.as_str(), case_insensitive);
            out.push(hit);
            proof {
                assert(out@[k as int] == spec_best_effort_match(
                    spec_word_bounds_pattern(bounds, pattern_sets@[k as int].0@),
                    pattern_sets@[k as int].1,
                    self.match_model(),
                ));
            }
            k += 1;
        }
        out
    }
}

/// What stays of a text after applying each (pattern, replacement) pair in
/// turn; a pair whose pattern does not compile is skipped.
pub open spec fn spec_replace_pairs_fold(
    t: Seq<char>,
    pairs: Seq<(Seq<char>, Seq<char>)>,
    case_insensitive: bool,
) -> Seq<char>
    decreases pairs.len(),
{
    if pairs.len() == 0 {
        t
    } else {
        let prev = spec_replace_pairs_fold(t, pairs.drop_last(), case_insensitive);
        if spec_compiles(pairs.last().0, case_insensitive) {
            spec_replaced(pairs.last().0, case_insensitive, prev, pairs.last().1)
        } else {
            prev
        }
    }
}

/// What stays of a text after applying each (pattern, replacement, flag)
/// triple in turn; a triple whose pattern does not compile is skipped.
pub open spec fn spec_replace_sets_fold(t: Seq<char>, sets: Seq<(Seq<char>, Seq<char>, bool)>) -> Seq<
    char,
>
    decreases sets.len(),
{
    if sets.len() == 0 {
        t
    } else {
        let prev = spec_replace_sets_fold(t, sets.drop_last());
        if spec_compiles(sets.last().0, sets.last().2) {
            spec_replaced(sets.last().0, sets.last().2, prev, sets.last().1)
        } else {
            prev
        }
    }
}

/// Replace with several patterns in sequence, skipping patterns that do
/// not compile.
pub trait PatternReplaceMany where Self: Sized + PatternReplace {
    /// Apply each (pattern, replacement) pair in turn under one case flag.
    fn pattern_replace_pairs(&self, replacement_pairs: &[(&str, &str)], case_insensitive: bool) -> (r:
        Self)
        ensures
            r.replace_model().len() == self.replace_model().len(),
            forall|e: int|
                0 <= e < self.replace_model().len() ==> (#[trigger] r.replace_model()[e])
                    == spec_replace_pairs_fold(
                    self.replace_model()[e],
                    replacement_pairs.deep_view(),
                    case_insensitive,
                ),
    ;

    /// Apply each (pattern, replacement, flag) triple in turn.
    fn pattern_replace_sets(&self, replacement_sets: &[(&str, &str, bool)]) -> (r: Self)
        ensures
            r.replace_model().len() == self.replace_model().len(),
            forall|e: int|
                0 <= e < self.replace_model().len() ==> (#[trigger] r.replace_model()[e])
                    == spec_replace_sets_fold(
                    self.replace_model()[e],
                    replacement_sets.deep_view(),
                ),
    ;

    /// The pairs applied case-insensitively.
    fn pattern_replace_pairs_ci(&self, replacement_pairs: &[(&str, &str)]) -> (r: Self)
        ensures
            r.replace_model().len() == self.replace_model().len(),
            forall|e: int|
                0 <= e < self.replace_model().len() ==> (#[trigger] r.replace_model()[e])
                    == spec_replace_pairs_fold(
                    self.replace_model()[e],
                    replacement_pairs.deep_view(),
                    true,
                ),
    {
        self.pattern_replace_pairs(replacement_pairs, true)
    }

    /// The pairs applied case-sensitively.
    fn pattern_replace_pairs_cs(&self, replacement_pairs: &[(&str, &str)]) -> (r: Self)
        ensures
            r.replace_model().len() == self.replace_model().len(),
            forall|e: int|
                0 <= e < self.replace_model().len() ==> (#[trigger] r.replace_model()[e])
                    == spec_replace_pairs_fold(
                    self.replace_model()[e],
                    replacement_pairs.deep_view(),
                    false,
                ),
    {
        self.pattern_replace_pairs(replacement_pairs, false)
    }
}

impl PatternReplaceMany for String {
    fn pattern_replace_pairs(&self, replacement_pairs: &[(&str, &str)], case_insensitive: bool) -> (r:
        Self) {
        let mut current = self.clone();
        let mut k: usize = 0;
        while k < replacement_pairs.len()
            invariant
                0 <= k <= replacement_pairs@.len(),
                current@ == spec_replace_pairs_fold(
                    self@,
                    replacement_pairs.deep_view().take(k as int),
                    case_insensitive,
                ),
            decreases replacement_pairs@.len() - k,
        {
            proof {
                assert(replacement_pairs.deep_view().take(k + 1 as int).drop_last()
                    =~~= replacement_pairs.deep_view().take(k as int));
                assert(replacement_pairs.deep_view().take(k + 1 as int).last()
                    == replacement_pairs.deep_view()[k as int]);
                assert(replacement_pairs.deep_view()[k as int].0 == replacement_pairs@[
                    k as int
                ].0@);
                assert(replacement_pairs.deep_view()[k as int].1 == replacement_pairs@[
                    k as int
                ].1@);
            }
            let (pattern, replacement) = replacement_pairs[k];
            match current.pattern_replace_result(pattern, replacement, case_insensitive) {
                Ok(new_string) => {
                    proof {
                        assert(new_string.replace_model()[0] == new_string@);
                        assert(current.replace_model()[0] == current@);
                    }
                    current = new_string;
                },
                Err(_) => {},
            }
            k += 1;
        }
        proof {
            assert(replacement_pairs.deep_view().take(replacement_pairs@.len() as int)
                =~~= replacement_pairs.deep_view());
        }
        current
    }

    fn pattern_replace_sets(&self, replacement_sets: &[(&str, &str, bool)]) -> (r: Self) {
        let mut current = self.clone();
        let mut k: usize = 0;
        while k < replacement_sets.len()
            invariant
                0 <= k <= replacement_sets@.len(),
                current@ == spec_replace_sets_fold(
                    self@,
                    replacement_sets.deep_view().take(k as int),
                ),
            decreases replacement_sets@.len() - k,
        {
            proof {
                assert(replacement_sets.deep_view().take(k + 1 as int).drop_last()
                    =~~= replacement_sets.deep_view().take(k as int));
                assert(replacement_sets.deep_view().take(k + 1 as int).last()
                    == replacement_sets.deep_view()[k as int]);
                assert(replacement_sets.deep_view()[k as int].0 == replacement_sets@[
                    k as int
                ].0@);
                assert(replacement_sets.deep_view()[k as int].1 == replacement_sets@[
                    k as int
                ].1@);
                assert(replacement_sets.deep_view()[k as int].2 == replacement_sets@[k as int].2);
            }
            let (pattern, replacement, case_insensitive) = replacement_sets[k];
            match current.pattern_replace_result(pattern, replacement, case_insensitive) {
                Ok(new_string) => {
                    proof {
                        assert(new_string.replace_model()[0] == new_string@);
                        assert(current.replace_model()[0] == current@);
                    }
                    current = new_string;
                },
                Err(_) => {},
            }
            k += 1;
        }
        proof {
            assert(replacement_sets.deep_view().take(replacement_sets@.len() as int)
                =~~= replacement_sets.deep_view());
        }
        current
    }
}

impl PatternReplaceMany for Vec<String> {
    fn pattern_replace_pairs(&self, replacement_pairs: &[(&str, &str)], case_insensitive: bool) -> (r:
        Self) {
        let mut current = crate::pattern_replace::clone_strings(self);
        let mut k: usize = 0;
        while k < replacement_pairs.len()
            invariant
                0 <= k <= replacement_pairs@.len(),
                current.deep_view().len() == self.deep_view().len(),
                forall|e: int|
                    0 <= e < self.deep_view().len() ==> (#[trigger] current.deep_view()[e])
                        == spec_replace_pairs_fold(
                        self.deep_view()[e],
                        replacement_pairs.deep_view().take(k as int),
                        case_insensitive,
                    ),
            decreases replacement_pairs@.len() - k,
        {
            proof {
                assert(replacement_pairs.deep_view().take(k + 1 as int).drop_last()
                    =~~= replacement_pairs.deep_view().take(k as int));
                assert(replacement_pairs.deep_view().take(k + 1 as int).last()
                    == replacement_pairs.deep_view()[k as int]);
                assert(replacement_pairs.deep_view()[k as int].0 == replacement_pairs@[
                    k as int
                ].0@);
                assert(replacement_pairs.deep_view()[k as int].1 == replacement_pairs@[
                    k as int
                ].1@);
            }
            let (pattern, replacement) = replacement_pairs[k];
            let ghost pre = current.deep_view();
            match current.pattern_replace_result(pattern, replacement, case_insensitive) {
                Ok(new_strings) => {
                    proof {
                        assert(new_strings.replace_model() == crate::pattern_replace::spec_replaced_texts(
                            pattern@,
                            case_insensitive,
                            pre,
                            replacement@,
                        ));
                        assert forall|e: int| 0 <= e < self.deep_view().len() implies (
                        #[trigger] new_strings.deep_view()[e]) == spec_replace_pairs_fold(
                            self.deep_view()[e],
                            replacement_pairs.deep_view().take(k + 1 as int),
                            case_insensitive,
                        ) by {
                            assert(new_strings.deep_view()[e] == spec_replaced(
                                pattern@,
                                case_insensitive,
                                pre[e],
                                replacement@,
                            ));
                        }
                    }
                    current = new_strings;
                },
                Err(_) => {},
            }
            k += 1;
        }
        proof {
            assert(replacement_pairs.deep_view().take(replacement_pairs@.len() as int)
                =~~= replacement_pairs.deep_view());
        }
        current
    }

    fn pattern_replace_sets(&self, replacement_sets: &[(&str, &str, bool)]) -> (r: Self) {
        let mut current = crate::pattern_replace::clone_strings(self);
        let mut k: usize = 0;
        while k < replacement_sets.len()
            invariant
                0 <= k <= replacement_sets@.len(),
                current.deep_view().len() == self.deep_view().len(),
                forall|e: int|
                    0 <= e < self.deep_view().len() ==> (#[trigger] current.deep_view()[e])
                        == spec_replace_sets_fold(
                        self.deep_view()[e],
                        replacement_sets.deep_view().take(k as int),
                    ),
            decreases replacement_sets@.len() - k,
        {
            proof {
                assert(replacement_sets.deep_view().take(k + 1 as int).drop_last()
                    =~~= replacement_sets.deep_view().take(k as int));
                assert(replacement_sets.deep_view().take(k + 1 as int).last()
                    == replacement_sets.deep_view()[k as int]);
                assert(replacement_sets.deep_view()[k as int].0 == replacement_sets@[
                    k as int
                ].0@);
                assert(replacement_sets.deep_view()[k as int].1 == replacement_sets@[
                    k as int
                ].1@);
                assert(replacement_sets.deep_view()[k as int].2 == replacement_sets@[k as int].2);
            }
            let (pattern, replacement, case_insensitive) = replacement_sets[k];
            let ghost pre = current.deep_view();
            match current.pattern_replace_result(pattern, replacement, case_insensitive) {
                Ok(new_strings) => {
                    proof {
                        assert forall|e: int| 0 <= e < self.deep_view().len() implies (
                        #[trigger] new_strings.deep_view()[e]) == spec_replace_sets_fold(
                            self.deep_view()[e],
                            replacement_sets.deep_view().take(k + 1 as int),
                        ) by {
                            assert(new_strings.deep_view()[e] == spec_replaced(
                                pattern@,
                                case_insensitive,
                                pre[e],
                                replacement@,
                            ));
                        }
                    }
                    current = new_strings;
                },
                Err(_) => {},
            }
            k += 1;
        }
        proof {
            assert(replacement_sets.deep_view().take(replacement_sets@.len() as int)
                =~~= replacement_sets.deep_view());
        }
        current
    }
}

} // verus!
