use vstd::prelude::*;
use crate::enums::{spec_word_bounds_pattern, WordBounds};
use crate::pattern_capture::{spec_matches_as_vec, PatternCapture};
use crate::pattern_many::spec_best_effort_match;
use crate::pattern_match::PatternMatch;
use crate::pattern_replace::{spec_replaced_texts, PatternReplace};
use crate::utils;
use crate::utils::{spec_any_word_pattern, spec_compiles, spec_whole_word};

verus! {

// Whole-word matching and replacement: word-boundary anchored patterns,
// conjunctions and disjunctions of words, positivity conditions, and
// word-proximity distance checks.

/// Whether every word of a list, wrapped with the given bounds, matches.
pub open spec fn spec_all_words_match(
    words: Seq<Seq<char>>,
    bounds: WordBounds,
    case_insensitive: bool,
    items: Seq<Seq<char>>,
) -> bool {
    forall|k: int|
        0 <= k < words.len() ==> spec_best_effort_match(
            spec_word_bounds_pattern(bounds, #[trigger] words[k]),
            case_insensitive,
            items,
        )
}

/// How many words of a list, wrapped with the given bounds, match.
pub open spec fn spec_count_matched_words(
    words: Seq<Seq<char>>,
    bounds: WordBounds,
    case_insensitive: bool,
    items: Seq<Seq<char>>,
) -> int
    decreases words.len(),
{
    if words.len() == 0 {
        0
    } else {
        spec_count_matched_words(words.drop_last(), bounds, case_insensitive, items) + (
        if spec_best_effort_match(
            spec_word_bounds_pattern(bounds, words.last()),
            case_insensitive,
            items,
        ) {
            1int
        } else {
            0int
        })
    }
}

/// The word-proximity rule: both words must occur as whole words; the
/// distance from the end of the first word's first occurrence to the start
/// of the second word's last occurrence must lie in `[min, max]`, with the
/// check defined only for distances that fit a signed 16-bit range. When
/// `min` is negative the reversed distance — from the end of the second
/// word's last occurrence to the start of the first word's first
/// occurrence — serves as a fallback for distances out of that range.
pub open spec fn spec_words_by_proximity(
    haystack: Seq<char>,
    first: Seq<char>,
    second: Seq<char>,
    min: int,
    max: int,
    case_insensitive: bool,
) -> bool {
    let v1 = spec_matches_as_vec(spec_whole_word(first), case_insensitive, haystack, false);
    let v2 = spec_matches_as_vec(spec_whole_word(second), case_insensitive, haystack, false);
    if v1.len() > 0 && v2.len() > 0 {
        let diff = v2.last().0 - v1[0].1;
        if -32768 <= diff <= 32767 {
            min <= diff <= max
        } else if min < 0 {
            let rev_diff = v1[0].0 - v2.last().1;
            if -32768 <= rev_diff <= 32767 {
                min <= rev_diff <= max
            } else {
                false
            }
        } else {
            false
        }
    } else {
        false
    }
}

/// Whole-word match methods with boundary and case-sensitivity rules.
pub trait MatchWord where Self: PatternMatch + PatternCapture {
    /// Match a word wrapped with the given bounds.
    fn match_word_bounds(&self, word: &str, bounds: WordBounds, case_insensitive: bool) -> (r: bool)
        ensures
            r == spec_best_effort_match(
                spec_word_bounds_pattern(bounds, word@),
                case_insensitive,
                self.match_model(),
            ),
    {
        let word_pattern = bounds.to_pattern(word);
        self.pattern_match(word_pattern.as_str(), case_insensitive)
    }

    /// Match a whole word: boundary anchors on both sides.
    fn match_word(&self, word: &str, case_insensitive: bool) -> (r: bool)
        ensures
            r == spec_best_effort_match(
                spec_whole_word(word@),
                case_insensitive,
                self.match_model(),
            ),
    {
        let pattern = utils::build_whole_word_pattern(word);
        self.pattern_match(pattern.as_str(), case_insensitive)
    }

    /// Match any of the words as a whole word, with one compiled
    /// alternation.
    fn match_any_words(&self, words: &[&str], case_insensitive: bool) -> (r: bool)
        ensures
            r == spec_best_effort_match(
                spec_any_word_pattern(words.deep_view()),
                case_insensitive,
                self.match_model(),
            ),
    {
        let pattern = utils::build_optional_whole_word_pattern(words);
        self.pattern_match(pattern.as_str(), case_insensitive)
    }

    /// Match from the start of a word boundary.
    fn match_word_start(&self, word: &str, case_insensitive: bool) -> (r: bool)
        ensures
            r == spec_best_effort_match(
                spec_word_bounds_pattern(WordBounds::Start, word@),
                case_insensitive,
                self.match_model(),
            ),
    {
        self.match_word_bounds(word, WordBounds::Start, case_insensitive)
    }

    /// Match to the end of a word boundary.
    fn match_word_end(&self, word: &str, case_insensitive: bool) -> (r: bool)
        ensures
            r == spec_best_effort_match(
                spec_word_bounds_pattern(WordBounds::End, word@),
                case_insensitive,
                self.match_model(),
            ),
    {
        self.match_word_bounds(word, WordBounds::End, case_insensitive)
    }

    /// Case-insensitive whole-word match.
    fn match_word_ci(&self, word: &str) -> (r: bool)
        ensures
            r == spec_best_effort_match(spec_whole_word(word@), true, self.match_model()),
    {
        self.match_word(word, true)
    }

    /// Case-sensitive whole-word match.
    fn match_word_cs(&self, word: &str) -> (r: bool)
        ensures
            r == spec_best_effort_match(spec_whole_word(word@), false, self.match_model()),
    {
        self.match_word(word, false)
    }

    /// Case-insensitive any-of-words match.
    fn match_any_words_ci(&self, words: &[&str]) -> (r: bool)
        ensures
            r == spec_best_effort_match(
                spec_any_word_pattern(words.deep_view()),
                true,
                self.match_model(),
            ),
    {
        self.match_any_words(words, true)
    }

    /// Case-sensitive any-of-words match.
    fn match_any_words_cs(&self, words: &[&str]) -> (r: bool)
        ensures
            r == spec_best_effort_match(
                spec_any_word_pattern(words.deep_view()),
                false,
                self.match_model(),
            ),
    {
        self.match_any_words(words, false)
    }

    /// Case-insensitive match from a word-boundary start.
    fn match_word_start_ci(&self, word: &str) -> (r: bool)
        ensures
            r == spec_best_effort_match(
                spec_word_bounds_pattern(WordBounds::Start, word@),
                true,
                self.match_model(),
            ),
    {
        self.match_word_start(word, true)
    }

    /// Case-sensitive match from a word-boundary start.
    fn match_word_start_cs(&self, word: &str) -> (r: bool)
        ensures
            r == spec_best_effort_match(
                spec_word_bounds_pattern(WordBounds::Start, word@),
                false,
                self.match_model(),
            ),
    {
        self.match_word_start(word, false)
    }

    /// Case-insensitive match to a word-boundary end.
    fn match_word_end_ci(&self, word: &str) -> (r: bool)
        ensures
            r == spec_best_effort_match(
                spec_word_bounds_pattern(WordBounds::End, word@),
                true,
                self.match_model(),
            ),
    {
        self.match_word_end(word, true)
    }

    /// Case-sensitive match to a word-boundary end.
    fn match_word_end_cs(&self, word: &str) -> (r: bool)
        ensures
            r == spec_best_effort_match(
                spec_word_bounds_pattern(WordBounds::End, word@),
                false,
                self.match_model(),
            ),
    {
        self.match_word_end(word, false)
    }

    /// Count how many of the words match under the given bounds.
    fn count_matched_words_bounds(&self, words: &[&str], bounds: WordBounds, case_insensitive: bool) -> (r:
        usize)
        ensures
            r as int == spec_count_matched_words(
                words.deep_view(),
                bounds,
                case_insensitive,
                self.match_model(),
            ),
            r <= words@.len(),
    {
        let mut num_matched: usize = 0;
        let mut k: usize = 0;
        while k < words.len()
            invariant
                0 <= k <= words@.len(),
                num_matched <= k,
                num_matched as int == spec_count_matched_words(
                    words.deep_view().take(k as int),
                    bounds,
                    case_insensitive,
                    self.match_model(),
                ),
            decreases words@.len() - k,
        {
            proof {
                assert(words.deep_view().take(k + 1 as int).drop_last() =~~= words.deep_view().take(
                    k as int,
                ));
                assert(words.deep_view().take(k + 1 as int).last() == words.deep_view()[k as int]);
                assert(words.deep_view()[k as int] == words@[k as int]@);
            }
            let pattern = bounds.to_pattern(words[k]);
            if self.pattern_match(pattern.as_str(), case_insensitive) {
                num_matched += 1;
            }
            k += 1;
        }
        proof {
            assert(words.deep_view().take(words@.len() as int) =~~= words.deep_view());
        }
        num_matched
    }

    /// Whether every word matches under the given bounds.
    fn match_words_bounds(&self, words: &[&str], bounds: WordBounds, case_insensitive: bool) -> (r:
        bool)
        ensures
            r == spec_all_words_match(
                words.deep_view(),
                bounds,
                case_insensitive,
                self.match_model(),
            ),
    {
        let mut k: usize = 0;
        while k < words.len()
            invariant
                0 <= k <= words@.len(),
                forall|j: int|
                    0 <= j < k ==> spec_best_effort_match(
                        spec_word_bounds_pattern(bounds, #[trigger] words.deep_view()[j]),
                        case_insensitive,
                        self.match_model(),
                    ),
            decreases words@.len() - k,
        {
            proof {
                assert(words.deep_view()[k as int] == words@[k as int]@);
            }
            let pattern = bounds.to_pattern(words[k]);
            if !self.pattern_match(pattern.as_str(), case_insensitive) {
                proof {
                    assert(!spec_best_effort_match(
                        spec_word_bounds_pattern(bounds, words.deep_view()[k as int]),
                        case_insensitive,
                        self.match_model(),
                    ));
                }
                return false;
            }
            k += 1;
        }
        true
    }

    /// Whether every word matches as a whole word.
    fn match_words(&self, words: &[&str], case_insensitive: bool) -> (r: bool)
        ensures
            r == spec_all_words_match(
                words.deep_view(),
                WordBounds::Both,
                case_insensitive,
                self.match_model(),
            ),
    {
        self.match_words_bounds(words, WordBounds::Both, case_insensitive)
    }

    /// Case-insensitive all-of-words match.
    fn match_words_ci(&self, words: &[&str]) -> (r: bool)
        ensures
            r == spec_all_words_match(
                words.deep_view(),
                WordBounds::Both,
                true,
                self.match_model(),
            ),
    {
        self.match_words_bounds(words, WordBounds::Both, true)
    }

    /// Case-sensitive all-of-words match.
    fn match_words_cs(&self, words: &[&str]) -> (r: bool)
        ensures
            r == spec_all_words_match(
                words.deep_view(),
                WordBounds::Both,
                false,
                self.match_model(),
            ),
    {
        self.match_words_bounds(words, WordBounds::Both, false)
    }

    /// Whether every (positivity, word, flag) triple agrees with its
    /// whole-word match outcome.
    fn match_words_sets_conditional(&self, sets: &[(bool, &str, bool)]) -> (r: bool)
        ensures
            r == forall|k: int|
                0 <= k < sets@.len() ==> spec_best_effort_match(
                    spec_whole_word((#[trigger] sets@[k]).1@),
                    sets@[k].2,
                    self.match_model(),
                ) == sets@[k].0,
    {
        let mut k: usize = 0;
        while k < sets.len()
            invariant
                0 <= k <= sets@.len(),
                forall|j: int|
                    0 <= j < k ==> spec_best_effort_match(
                        spec_whole_word((#[trigger] sets@[j]).1@),
                        sets@[j].2,
                        self.match_model(),
                    ) == sets@[j].0,
            decreases sets@.len() - k,
        {
            let (is_positive, word, case_insensitive) = sets[k];
            let pattern = utils::build_whole_word_pattern(word);
            if self.pattern_match(pattern.as_str(), case_insensitive) != is_positive {
                proof {
                    assert(spec_best_effort_match(
                        spec_whole_word(sets@[k as int].1@),
                        sets@[k as int].2,
                        self.match_model(),
                    ) != sets@[k as int].0);
                }
                return false;
            }
            k += 1;
        }
        true
    }

    /// Whether every (positivity, word) pair agrees with its
    /// case-insensitive whole-word match outcome.
    fn match_words_sets_conditional_ci(&self, tuples: &[(bool, &str)]) -> (r: bool)
        ensures
            r == forall|k: int|
                0 <= k < tuples@.len() ==> spec_best_effort_match(
                    spec_whole_word((#[trigger] tuples@[k]).1@),
                    true,
                    self.match_model(),
                ) == tuples@[k].0,
    {
        let mut k: usize = 0;
        while k < tuples.len()
            invariant
                0 <= k <= tuples@.len(),
                forall|j: int|
                    0 <= j < k ==> spec_best_effort_match(
                        spec_whole_word((#[trigger] tuples@[j]).1@),
                        true,
                        self.match_model(),
                    ) == tuples@[j].0,
            decreases tuples@.len() - k,
        {
            let (is_positive, word) = tuples[k];
            let pattern = utils::build_whole_word_pattern(word);
            if self.pattern_match(pattern.as_str(), true) != is_positive {
                proof {
                    assert(spec_best_effort_match(
                        spec_whole_word(tuples@[k as int].1@),
                        true,
                        self.match_model(),
                    ) != tuples@[k as int].0);
                }
                return false;
            }
            k += 1;
        }
        true
    }

    /// Whether the two whole words occur within the given signed distance
    /// of one another.
    fn match_words_by_proximity(
        &self,
        first: &str,
        second: &str,
        min: i16,
        max: i16,
        case_insensitive: bool,
    ) -> (r: bool)
        ensures
            r == spec_words_by_proximity(
                self.cap_model(),
                first@,
                second@,
                min as int,
                max as int,
                case_insensitive,
            ),
    {
        let word_pattern_1 = utils::build_whole_word_pattern(first);
        let word_pattern_2 = utils::build_whole_word_pattern(second);
        match self.pattern_first_last_matches(word_pattern_1.as_str(), case_insensitive) {
            Some((first_first, _first_last)) => {
                match self.pattern_first_last_matches(word_pattern_2.as_str(), case_insensitive) {
                    Some((_second_first, second_last)) => {
                        let diff: i128 = second_last.start() as i128 - first_first.end() as i128;
                        if diff >= -32768 && diff <= 32767 {
                            min as i128 <= diff && diff <= max as i128
                        } else if min < 0 {
                            let rev_diff: i128 = first_first.start() as i128 - second_last.end()
                                as i128;
                            if rev_diff >= -32768 && rev_diff <= 32767 {
                                min as i128 <= rev_diff && rev_diff <= max as i128
                            } else {
                                false
                            }
                        } else {
                            false
                        }
                    },
                    None => false,
                }
            },
            None => false,
        }
    }
}

impl MatchWord for str {

}

/// What stays of a text after replacing each word of a pair list as a
/// whole word in turn; a word whose pattern does not compile is skipped.
pub open spec fn spec_replace_words_fold(
    t: Seq<char>,
    pairs: Seq<(Seq<char>, Seq<char>)>,
    case_insensitive: bool,
) -> Seq<char>
    decreases pairs.len(),
{
    if pairs.len() == 0 {
        t
    } else {
        let prev = spec_replace_words_fold(t, pairs.drop_last(), case_insensitive);
        let pattern = spec_whole_word(pairs.last().0);
        if spec_compiles(pattern, case_insensitive) {
            utils::spec_replaced(pattern, case_insensitive, prev, pairs.last().1)
        } else {
            prev
        }
    }
}

/// What stays of a text after replacing each (word, replacement, flag)
/// triple as a whole word in turn.
pub open spec fn spec_replace_word_sets_fold(
    t: Seq<char>,
    sets: Seq<(Seq<char>, Seq<char>, bool)>,
) -> Seq<char>
    decreases sets.len(),
{
    if sets.len() == 0 {
        t
    } else {
        let prev = spec_replace_word_sets_fold(t, sets.drop_last());
        let pattern = spec_whole_word(sets.last().0);
        if spec_compiles(pattern, sets.last().2) {
            utils::spec_replaced(pattern, sets.last().2, prev, sets.last().1)
        } else {
            prev
        }
    }
}

/// Whole-word replacement methods.
pub trait ReplaceWord where Self: PatternReplace {
    /// Replace a word wrapped with the given bounds.
    fn replace_word_bounds(
        &self,
        word: &str,
        replacement: &str,
        bounds: WordBounds,
        case_insensitive: bool,
    ) -> (r: Self)
        ensures
            spec_compiles(spec_word_bounds_pattern(bounds, word@), case_insensitive)
                ==> r.replace_model() == spec_replaced_texts(
                spec_word_bounds_pattern(bounds, word@),
                case_insensitive,
                self.replace_model(),
                replacement@,
            ),
            !spec_compiles(spec_word_bounds_pattern(bounds, word@), case_insensitive)
                ==> r.replace_model() == self.replace_model(),
    ;

    /// Replace a whole word.
    fn replace_word(&self, word: &str, replacement: &str, case_insensitive: bool) -> (r: Self)
        ensures
            spec_compiles(spec_whole_word(word@), case_insensitive) ==> r.replace_model()
                == spec_replaced_texts(
                spec_whole_word(word@),
                case_insensitive,
                self.replace_model(),
                replacement@,
            ),
            !spec_compiles(spec_whole_word(word@), case_insensitive) ==> r.replace_model()
                == self.replace_model(),
    ;

    /// Replace a whole word, case-insensitively.
    fn replace_word_ci(&self, word: &str, replacement: &str) -> (r: Self)
        ensures
            spec_compiles(spec_whole_word(word@), true) ==> r.replace_model()
                == spec_replaced_texts(
                spec_whole_word(word@),
                true,
                self.replace_model(),
                replacement@,
            ),
            !spec_compiles(spec_whole_word(word@), true) ==> r.replace_model()
                == self.replace_model(),
    {
        self.replace_word(word, replacement, true)
    }

    /// Replace a whole word, case-sensitively.
    fn replace_word_cs(&self, word: &str, replacement: &str) -> (r: Self)
        ensures
            spec_compiles(spec_whole_word(word@), false) ==> r.replace_model()
                == spec_replaced_texts(
                spec_whole_word(word@),
                false,
                self.replace_model(),
                replacement@,
            ),
            !spec_compiles(spec_whole_word(word@), false) ==> r.replace_model()
                == self.replace_model(),
    {
        self.replace_word(word, replacement, false)
    }

    /// Replace each (word, replacement) pair as a whole word in turn.
    fn replace_words(&self, pairs: &[(&str, &str)], case_insensitive: bool) -> (r: Self)
        ensures
            r.replace_model().len() == self.replace_model().len(),
            forall|e: int|
                0 <= e < self.replace_model().len() ==> (#[trigger] r.replace_model()[e])
                    == spec_replace_words_fold(
                    self.replace_model()[e],
                    pairs.deep_view(),
                    case_insensitive,
                ),
    ;

    /// The pairs replaced case-insensitively.
    fn replace_words_ci(&self, pairs: &[(&str, &str)]) -> (r: Self)
        ensures
            r.replace_model().len() == self.replace_model().len(),
            forall|e: int|
                0 <= e < self.replace_model().len() ==> (#[trigger] r.replace_model()[e])
                    == spec_replace_words_fold(self.replace_model()[e], pairs.deep_view(), true),
    {
        self.replace_words(pairs, true)
    }

    /// The pairs replaced case-sensitively.
    fn replace_words_cs(&self, pairs: &[(&str, &str)]) -> (r: Self)
        ensures
            r.replace_model().len() == self.replace_model().len(),
            forall|e: int|
                0 <= e < self.replace_model().len() ==> (#[trigger] r.replace_model()[e])
                    == spec_replace_words_fold(self.replace_model()[e], pairs.deep_view(), false),
    {
        self.replace_words(pairs, false)
    }

    /// Replace each (word, replacement, flag) triple as a whole word in
    /// turn.
    fn replace_word_sets(&self, tuples: &[(&str, &str, bool)]) -> (r: Self)
        ensures
            r.replace_model().len() == self.replace_model().len(),
            forall|e: int|
                0 <= e < self.replace_model().len() ==> (#[trigger] r.replace_model()[e])
                    == spec_replace_word_sets_fold(self.replace_model()[e], tuples.deep_view()),
    ;
}

impl ReplaceWord for String {
    fn replace_word_bounds(
        &self,
        word: &str,
        replacement: &str,
        bounds: WordBounds,
        case_insensitive: bool,
    ) -> (r: Self) {
        let pattern = utils::build_word_pattern(word, bounds);
        self.pattern_replace(pattern.as_str(), replacement, case_insensitive)
    }

    fn replace_word(&self, word: &str, replacement: &str, case_insensitive: bool) -> (r: Self) {
        let pattern = utils::build_whole_word_pattern(word);
        self.pattern_replace(pattern.as_str(), replacement, case_insensitive)
    }

    fn replace_words(&self, pairs: &[(&str, &str)], case_insensitive: bool) -> (r: Self) {
        let mut current = self.clone();
        let mut k: usize = 0;
        while k < pairs.len()
            invariant
                0 <= k <= pairs@.len(),
                current@ == spec_replace_words_fold(
                    self@,
                    pairs.deep_view().take(k as int),
                    case_insensitive,
                ),
            decreases pairs@.len() - k,
        {
            proof {
                assert(pairs.deep_view().take(k + 1 as int).drop_last() =~~= pairs.deep_view().take(
                    k as int,
                ));
                assert(pairs.deep_view().take(k + 1 as int).last() == pairs.deep_view()[k as int]);
                assert(pairs.deep_view()[k as int].0 == pairs@[k as int].0@);
                assert(pairs.deep_view()[k as int].1 == pairs@[k as int].1@);
            }
            let (word, replacement) = pairs[k];
            let pattern = utils::build_whole_word_pattern(word);
            let next = current.pattern_replace(pattern.as_str(), replacement, case_insensitive);
            proof {
                assert(next.replace_model()[0] == next@);
                assert(current.replace_model()[0] == current@);
            }
            current = next;
            k += 1;
        }
        proof {
            assert(pairs.deep_view().take(pairs@.len() as int) =~~= pairs.deep_view());
        }
        current
    }

    fn replace_word_sets(&self, tuples: &[(&str, &str, bool)]) -> (r: Self) {
        let mut current = self.clone();
        let mut k: usize = 0;
        while k < tuples.len()
            invariant
                0 <= k <= tuples@.len(),
                current@ == spec_replace_word_sets_fold(
                    self@,
                    tuples.deep_view().take(k as int),
                ),
            decreases tuples@.len() - k,
        {
            proof {
                assert(tuples.deep_view().take(k + 1 as int).drop_last()
                    =~~= tuples.deep_view().take(k as int));
                assert(tuples.deep_view().take(k + 1 as int).last() == tuples.deep_view()[
                    k as int
                ]);
                assert(tuples.deep_view()[k as int].0 == tuples@[k as int].0@);
                assert(tuples.deep_view()[k as int].1 == tuples@[k as int].1@);
                assert(tuples.deep_view()[k as int].2 == tuples@[k as int].2);
            }
            let (word, replacement, case_insensitive) = tuples[k];
            let pattern = utils::build_whole_word_pattern(word);
            let next = current.pattern_replace(pattern.as_str(), replacement, case_insensitive);
            proof {
                assert(next.replace_model()[0] == next@);
                assert(current.replace_model()[0] == current@);
            }
            current = next;
            k += 1;
        }
        proof {
            assert(tuples.deep_view().take(tuples@.len() as int) =~~= tuples.deep_view());
        }
        current
    }
}

} // verus!
