use vstd::prelude::*;
use crate::charseq;
use crate::charseq::{spec_contains_seq, spec_ends_with, spec_starts_with};
use crate::engine;
use crate::engine::lower_of;
use crate::enums::StringBounds;

verus! {

// Regex-free matching for the common cases: case-insensitive prefix,
// suffix and containment tests, batches of simple containment rules, and
// literal-occurrence positions.

/// Whether one simple containment rule holds of a text: the rule's test
/// (with both sides lowercased when the rule is case-insensitive) must come
/// out equal to the rule's polarity.
pub open spec fn spec_string_bounds_matches(s: Seq<char>, sb: StringBounds) -> bool {
    let base = if sb.spec_case_insensitive() {
        lower_of(s)
    } else {
        s
    };
    let pat = if sb.spec_case_insensitive() {
        lower_of(sb.spec_pattern())
    } else {
        sb.spec_pattern()
    };
    let hit = match sb {
        StringBounds::StartsWith(_, _, _) => spec_starts_with(base, pat),
        StringBounds::EndsWith(_, _, _) => spec_ends_with(base, pat),
        StringBounds::Contains(_, _, _) => spec_contains_seq(base, pat),
    };
    hit == sb.spec_is_positive()
}

/// Whether a text satisfies every rule of a set.
pub open spec fn spec_matches_all_bounds(s: Seq<char>, sets: Seq<StringBounds>) -> bool {
    forall|i: int| 0 <= i < sets.len() ==> spec_string_bounds_matches(s, #[trigger] sets[i])
}

/// Test one containment rule against a text.
fn bounds_match_one(t: &str, sb: &StringBounds) -> (r: bool)
    ensures
        r == spec_string_bounds_matches(t@, *sb),
{
    let ci = sb.case_insensitive();
    let base = if ci {
        engine::to_lowercase(t)
    } else {
        t.to_owned()
    };
    let pat = if ci {
        engine::to_lowercase(sb.pattern())
    } else {
        sb.pattern().to_owned()
    };
    let base_chars = charseq::to_chars(base.as_str());
    let pat_chars = charseq::to_chars(pat.as_str());
    let hit = if sb.starts_with() {
        charseq::starts_with_chars(&base_chars, &pat_chars)
    } else if sb.ends_with() {
        charseq::ends_with_chars(&base_chars, &pat_chars)
    } else {
        charseq::contains_chars(&base_chars, &pat_chars)
    };
    hit == sb.is_positive()
}

/// Case-insensitive prefix, suffix and containment tests, plain or
/// restricted to letters and digits.
pub trait SimpleMatch {
    spec fn simple_model(&self) -> Seq<char>;

    /// Starts with the pattern, compared case-insensitively.
    fn starts_with_ci(&self, pattern: &str) -> (r: bool)
        ensures
            r == spec_starts_with(lower_of(self.simple_model()), lower_of(pattern@)),
    ;

    /// Starts with the pattern after dropping everything but letters and
    /// digits, compared case-insensitively.
    fn starts_with_ci_alphanum(&self, pattern: &str) -> (r: bool)
        ensures
            r == spec_starts_with(
                crate::alphanumeric::spec_strip_non_alphanum(lower_of(self.simple_model())),
                lower_of(pattern@),
            ),
    ;

    /// Ends with the pattern, compared case-insensitively.
    fn ends_with_ci(&self, pattern: &str) -> (r: bool)
        ensures
            r == spec_ends_with(lower_of(self.simple_model()), lower_of(pattern@)),
    ;

    /// Ends with the pattern after dropping everything but letters and
    /// digits, compared case-insensitively.
    fn ends_with_ci_alphanum(&self, pattern: &str) -> (r: bool)
        ensures
            r == spec_ends_with(
                crate::alphanumeric::spec_strip_non_alphanum(lower_of(self.simple_model())),
                lower_of(pattern@),
            ),
    ;

    /// Contains the pattern, compared case-insensitively.
    fn contains_ci(&self, pattern: &str) -> (r: bool)
        ensures
            r == spec_contains_seq(lower_of(self.simple_model()), lower_of(pattern@)),
    ;

    /// Contains the pattern after dropping everything but letters and
    /// digits, compared case-insensitively.
    fn contains_ci_alphanum(&self, pattern: &str) -> (r: bool)
        ensures
            r == spec_contains_seq(
                crate::alphanumeric::spec_strip_non_alphanum(lower_of(self.simple_model())),
                lower_of(pattern@),
            ),
    ;
}

impl SimpleMatch for str {
    open spec fn simple_model(&self) -> Seq<char> {
        self@
    }

    fn starts_with_ci(&self, pattern: &str) -> (r: bool) {
        let base = engine::to_lowercase(self);
        let pat = engine::to_lowercase(pattern);
        charseq::starts_with_chars(&charseq::to_chars(base.as_str()), &charseq::to_chars(pat.as_str()))
    }

    fn starts_with_ci_alphanum(&self, pattern: &str) -> (r: bool) {
        let base = crate::alphanumeric::StripCharacters::strip_non_alphanum(
            engine::to_lowercase(self).as_str(),
        );
        let pat = engine::to_lowercase(pattern);
        charseq::starts_with_chars(&charseq::to_chars(base.as_str()), &charseq::to_chars(pat.as_str()))
    }

    fn ends_with_ci(&self, pattern: &str) -> (r: bool) {
        let base = engine::to_lowercase(self);
        let pat = engine::to_lowercase(pattern);
        charseq::ends_with_chars(&charseq::to_chars(base.as_str()), &charseq::to_chars(pat.as_str()))
    }

    fn ends_with_ci_alphanum(&self, pattern: &str) -> (r: bool) {
        let base = crate::alphanumeric::StripCharacters::strip_non_alphanum(
            engine::to_lowercase(self).as_str(),
        );
        let pat = engine::to_lowercase(pattern);
        charseq::ends_with_chars(&charseq::to_chars(base.as_str()), &charseq::to_chars(pat.as_str()))
    }

    fn contains_ci(&self, pattern: &str) -> (r: bool) {
        let base = engine::to_lowercase(self);
        let pat = engine::to_lowercase(pattern);
        charseq::contains_chars(&charseq::to_chars(base.as_str()), &charseq::to_chars(pat.as_str()))
    }

    fn contains_ci_alphanum(&self, pattern: &str) -> (r: bool) {
        let base = crate::alphanumeric::StripCharacters::strip_non_alphanum(
            engine::to_lowercase(self).as_str(),
        );
        let pat = engine::to_lowercase(pattern);
        charseq::contains_chars(&charseq::to_chars(base.as_str()), &charseq::to_chars(pat.as_str()))
    }
}

/// Collect a batch of string-like values into owned strings.
pub trait ToStrings {
    spec fn strings_model(&self) -> Seq<Seq<char>>;

    /// The same texts, owned.
    fn to_strings(&self) -> (r: Vec<String>)
        ensures
            r.deep_view() == self.strings_model(),
    ;
}

impl ToStrings for [&str] {
    open spec fn strings_model(&self) -> Seq<Seq<char>> {
        self.deep_view()
    }

    fn to_strings(&self) -> (r: Vec<String>) {
        let mut out: Vec<String> = Vec::new();
        let mut i: usize = 0;
        while i < self.len()
            invariant
                0 <= i <= self@.len(),
                out.deep_view() =~~= self.deep_view().take(i as int),
            decreases self@.len() - i,
        {
            proof {
                assert(out.deep_view().len() == out@.len());
            }
            out.push(self[i].to_owned());
            proof {
                assert(out.deep_view() =~~= self.deep_view().take(i + 1 as int));
            }
            i += 1;
        }
        proof {
            assert(self.deep_view().take(self@.len() as int) =~~= self.deep_view());
        }
        out
    }
}

impl ToStrings for [String] {
    open spec fn strings_model(&self) -> Seq<Seq<char>> {
        self.deep_view()
    }

    fn to_strings(&self) -> (r: Vec<String>) {
        let mut out: Vec<String> = Vec::new();
        let mut i: usize = 0;
        while i < self.len()
            invariant
                0 <= i <= self@.len(),
                out.deep_view() =~~= self.deep_view().take(i as int),
            decreases self@.len() - i,
        {
            proof {
                assert(out.deep_view().len() == out@.len());
            }
            let item: &String = &self[i];
            out.push(item.clone());
            proof {
                assert(out.deep_view() =~~= self.deep_view().take(i + 1 as int));
            }
            i += 1;
        }
        proof {
            assert(self.deep_view().take(self@.len() as int) =~~= self.deep_view());
        }
        out
    }
}

/// The character positions of every non-overlapping occurrence of a
/// literal, scanning left to right from each previous occurrence's end.
pub open spec fn spec_match_indices(s: Seq<char>, pat: Seq<char>, at: int) -> Seq<int>
    decreases s.len() - at,
    when 0 <= at <= s.len() && pat.len() >= 1
{
    if at + pat.len() > s.len() {
        Seq::empty()
    } else if charseq::spec_occurs_at(s, pat, at) {
        seq![at] + spec_match_indices(s, pat, at + pat.len())
    } else {
        spec_match_indices(s, pat, at + 1)
    }
}

/// The positions of every occurrence of an exact (non-regex) string.
pub trait MatchOccurrences {
    spec fn occ_model(&self) -> Seq<char>;

    /// Character positions of all non-overlapping occurrences of the
    /// literal pattern, left to right; empty for an empty pattern.
    fn find_matched_indices(&self, pat: &str) -> (r: Vec<usize>)
        ensures
            pat@.len() >= 1 ==> r@.map_values(|u: usize| u as int) == spec_match_indices(
                self.occ_model(),
                pat@,
                0,
            ),
            pat@.len() == 0 ==> r@.len() == 0,
    ;
}

impl MatchOccurrences for str {
    open spec fn occ_model(&self) -> Seq<char> {
        self@
    }

    fn find_matched_indices(&self, pat: &str) -> (r: Vec<usize>) {
        let s = charseq::to_chars(self);
        let p = charseq::to_chars(pat);
        let mut out: Vec<usize> = Vec::new();
        if p.len() == 0 {
            return out;
        }
        if p.len() > s.len() {
            return out;
        }
        let limit: usize = s.len() - p.len();
        let mut at: usize = 0;
        proof {
            assert(out@.map_values(|u: usize| u as int) =~= Seq::<int>::empty());
            assert(Seq::<int>::empty() + spec_match_indices(s@, p@, 0) =~= spec_match_indices(
                s@,
                p@,
                0,
            ));
        }
        while at <= limit
            invariant
                0 <= at <= s@.len(),
                p@.len() >= 1,
                limit == s@.len() - p@.len(),
                s@ == self@,
                p@ == pat@,
                s@.len() <= usize::MAX,
                spec_match_indices(s@, p@, 0) =~= out@.map_values(|u: usize| u as int)
                    + spec_match_indices(s@, p@, at as int),
            decreases s@.len() - at,
        {
            if charseq::occurs_at(&s, &p, at) {
                let ghost old_map = out@.map_values(|u: usize| u as int);
                out.push(at);
                proof {
                    assert(out@.map_values(|u: usize| u as int) =~= old_map.push(at as int));
                    assert(seq![at as int] + spec_match_indices(s@, p@, at + p@.len())
                        =~= spec_match_indices(s@, p@, at as int));
                }
                at += p.len();
            } else {
                at += 1;
            }
        }
        proof {
            assert(spec_match_indices(s@, p@, at as int) =~= Seq::<int>::empty());
            assert(out@.map_values(|u: usize| u as int) + Seq::<int>::empty() =~= out@.map_values(
                |u: usize| u as int,
            ));
        }
        out
    }
}


/// The texts of a batch that satisfy every rule of a set, in order.
pub open spec fn spec_filter_all_bounds(items: Seq<Seq<char>>, sets: Seq<StringBounds>) -> Seq<
    Seq<char>,
>
    decreases items.len(),
{
    if items.len() == 0 {
        Seq::empty()
    } else {
        let pre = spec_filter_all_bounds(items.drop_last(), sets);
        if spec_matches_all_bounds(items.last(), sets) {
            pre.push(items.last())
        } else {
            pre
        }
    }
}

/// Build containment rules that pair each pattern text with a
/// case-insensitivity flag; the rules are positive.
pub fn pairs_to_string_bounds<'a>(pairs: &[(&'a str, bool)]) -> (r: Vec<StringBounds<'a>>)
    ensures
        r@.len() == pairs@.len(),
        forall|i: int|
            0 <= i < r@.len() ==> (#[trigger] r@[i]) == StringBounds::Contains(
                pairs@[i].0,
                true,
                pairs@[i].1,
            ),
{
    let mut out: Vec<StringBounds> = Vec::new();
    let mut i: usize = 0;
    while i < pairs.len()
        invariant
            0 <= i <= pairs@.len(),
            out@.len() == i,
            forall|j: int|
                0 <= j < i ==> (#[trigger] out@[j]) == StringBounds::Contains(
                    pairs@[j].0,
                    true,
                    pairs@[j].1,
                ),
        decreases pairs@.len() - i,
    {
        let (pat, ci) = pairs[i];
        out.push(StringBounds::Contains(pat, true, ci));
        i += 1;
    }
    out
}

/// Build positive containment rules with one shared case flag.
pub fn strs_to_string_bounds<'a>(patterns: &[&'a str], case_insensitive: bool) -> (r: Vec<
    StringBounds<'a>,
>)
    ensures
        r@.len() == patterns@.len(),
        forall|i: int|
            0 <= i < r@.len() ==> (#[trigger] r@[i]) == StringBounds::Contains(
                patterns@[i],
                true,
                case_insensitive,
            ),
{
    let mut out: Vec<StringBounds> = Vec::new();
    let mut i: usize = 0;
    while i < patterns.len()
        invariant
            0 <= i <= patterns@.len(),
            out@.len() == i,
            forall|j: int|
                0 <= j < i ==> (#[trigger] out@[j]) == StringBounds::Contains(
                    patterns@[j],
                    true,
                    case_insensitive,
                ),
        decreases patterns@.len() - i,
    {
        out.push(StringBounds::Contains(patterns[i], true, case_insensitive));
        i += 1;
    }
    out
}

/// Test several containment rules at once, one boolean per rule.
pub trait SimpleMatchesMany where Self: SimpleMatch {
    /// One boolean per rule: whether the rule holds of this text.
    fn matched_conditional(&self, pattern_sets: &[StringBounds]) -> (r: Vec<bool>)
        ensures
            r@.len() == pattern_sets@.len(),
            forall|i: int|
                0 <= i < r@.len() ==> r@[i] == spec_string_bounds_matches(
                    self.simple_model(),
                    #[trigger] pattern_sets@[i],
                ),
    ;

    /// Containment rules from (pattern, case-insensitive) pairs.
    fn contains_conditional(&self, pattern_sets: &[(&str, bool)]) -> (r: Vec<bool>)
        ensures
            r@.len() == pattern_sets@.len(),
            forall|i: int|
                0 <= i < r@.len() ==> r@[i] == spec_string_bounds_matches(
                    self.simple_model(),
                    StringBounds::Contains(#[trigger] pattern_sets@[i].0, true, pattern_sets@[i].1),
                ),
    {
        let bounds = pairs_to_string_bounds(pattern_sets);
        let r = self.matched_conditional(bounds.as_slice());
        proof {
            assert forall|i: int| 0 <= i < r@.len() implies r@[i] == spec_string_bounds_matches(
                self.simple_model(),
                StringBounds::Contains(#[trigger] pattern_sets@[i].0, true, pattern_sets@[i].1),
            ) by {
                assert(bounds@[i] == StringBounds::Contains(
                    pattern_sets@[i].0,
                    true,
                    pattern_sets@[i].1,
                ));
                assert(r@[i] == spec_string_bounds_matches(self.simple_model(), bounds@[i]));
            }
        }
        r
    }

    /// Case-insensitive containment of each pattern.
    fn contains_conditional_ci(&self, patterns: &[&str]) -> (r: Vec<bool>)
        ensures
            r@.len() == patterns@.len(),
            forall|i: int|
                0 <= i < r@.len() ==> r@[i] == spec_string_bounds_matches(
                    self.simple_model(),
                    StringBounds::Contains(#[trigger] patterns@[i], true, true),
                ),
    {
        let bounds = strs_to_string_bounds(patterns, true);
        let r = self.matched_conditional(bounds.as_slice());
        proof {
            assert forall|i: int| 0 <= i < r@.len() implies r@[i] == spec_string_bounds_matches(
                self.simple_model(),
                StringBounds::Contains(#[trigger] patterns@[i], true, true),
            ) by {
                assert(bounds@[i] == StringBounds::Contains(patterns@[i], true, true));
                assert(r@[i] == spec_string_bounds_matches(self.simple_model(), bounds@[i]));
            }
        }
        r
    }

    /// Case-sensitive containment of each pattern.
    fn contains_conditional_cs(&self, patterns: &[&str]) -> (r: Vec<bool>)
        ensures
            r@.len() == patterns@.len(),
            forall|i: int|
                0 <= i < r@.len() ==> r@[i] == spec_string_bounds_matches(
                    self.simple_model(),
                    StringBounds::Contains(#[trigger] patterns@[i], true, false),
                ),
    {
        let bounds = strs_to_string_bounds(patterns, false);
        let r = self.matched_conditional(bounds.as_slice());
        proof {
            assert forall|i: int| 0 <= i < r@.len() implies r@[i] == spec_string_bounds_matches(
                self.simple_model(),
                StringBounds::Contains(#[trigger] patterns@[i], true, false),
            ) by {
                assert(bounds@[i] == StringBounds::Contains(patterns@[i], true, false));
                assert(r@[i] == spec_string_bounds_matches(self.simple_model(), bounds@[i]));
            }
        }
        r
    }
}

impl SimpleMatchesMany for str {
    fn matched_conditional(&self, pattern_sets: &[StringBounds]) -> (r: Vec<bool>) {
        let mut out: Vec<bool> = Vec::new();
        let mut i: usize = 0;
        while i < pattern_sets.len()
            invariant
                0 <= i <= pattern_sets@.len(),
                out@.len() == i,
                forall|j: int|
                    0 <= j < i ==> out@[j] == spec_string_bounds_matches(
                        self@,
                        #[trigger] pattern_sets@[j],
                    ),
            decreases pattern_sets@.len() - i,
        {
            let hit = bounds_match_one(self, &pattern_sets[i]);
            out.push(hit);
            i += 1;
        }
        out
    }
}

/// Test whether every rule of a set holds at once.
pub trait SimpleMatchAll where Self: SimpleMatchesMany {
    /// Whether every rule holds of this text.
    fn match_all_conditional(&self, pattern_sets: &[StringBounds]) -> (r: bool)
        ensures
            r == spec_matches_all_bounds(self.simple_model(), pattern_sets@),
    ;

    /// Containment rules from (pattern, case-insensitive) pairs, all
    /// required to hold.
    fn contains_all_conditional(&self, pattern_sets: &[(&str, bool)]) -> (r: bool)
        ensures
            r == forall|i: int|
                0 <= i < pattern_sets@.len() ==> spec_string_bounds_matches(
                    self.simple_model(),
                    StringBounds::Contains(#[trigger] pattern_sets@[i].0, true, pattern_sets@[i].1),
                ),
    {
        let bounds = pairs_to_string_bounds(pattern_sets);
        let r = self.match_all_conditional(bounds.as_slice());
        proof {
            if r {
                assert forall|i: int| 0 <= i < pattern_sets@.len() implies spec_string_bounds_matches(
                    self.simple_model(),
                    StringBounds::Contains(#[trigger] pattern_sets@[i].0, true, pattern_sets@[i].1),
                ) by {
                    assert(spec_string_bounds_matches(self.simple_model(), bounds@[i]));
                }
            } else {
                let w = choose|i: int|
                    0 <= i < bounds@.len() && !spec_string_bounds_matches(
                        self.simple_model(),
                        bounds@[i],
                    );
                assert(!spec_string_bounds_matches(
                    self.simple_model(),
                    StringBounds::Contains(pattern_sets@[w].0, true, pattern_sets@[w].1),
                ));
            }
        }
        r
    }

    /// All patterns contained, case-insensitively.
    fn contains_all_conditional_ci(&self, patterns: &[&str]) -> (r: bool)
        ensures
            r == forall|i: int|
                0 <= i < patterns@.len() ==> spec_string_bounds_matches(
                    self.simple_model(),
                    StringBounds::Contains(#[trigger] patterns@[i], true, true),
                ),
    {
        let bounds = strs_to_string_bounds(patterns, true);
        let r = self.match_all_conditional(bounds.as_slice());
        proof {
            if r {
                assert forall|i: int| 0 <= i < patterns@.len() implies spec_string_bounds_matches(
                    self.simple_model(),
                    StringBounds::Contains(#[trigger] patterns@[i], true, true),
                ) by {
                    assert(spec_string_bounds_matches(self.simple_model(), bounds@[i]));
                }
            } else {
                let w = choose|i: int|
                    0 <= i < bounds@.len() && !spec_string_bounds_matches(
                        self.simple_model(),
                        bounds@[i],
                    );
                assert(!spec_string_bounds_matches(
                    self.simple_model(),
                    StringBounds::Contains(patterns@[w], true, true),
                ));
            }
        }
        r
    }

    /// All patterns contained, case-sensitively.
    fn contains_all_conditional_cs(&self, patterns: &[&str]) -> (r: bool)
        ensures
            r == forall|i: int|
                0 <= i < patterns@.len() ==> spec_string_bounds_matches(
                    self.simple_model(),
                    StringBounds::Contains(#[trigger] patterns@[i], true, false),
                ),
    {
        let bounds = strs_to_string_bounds(patterns, false);
        let r = self.match_all_conditional(bounds.as_slice());
        proof {
            if r {
                assert forall|i: int| 0 <= i < patterns@.len() implies spec_string_bounds_matches(
                    self.simple_model(),
                    StringBounds::Contains(#[trigger] patterns@[i], true, false),
                ) by {
                    assert(spec_string_bounds_matches(self.simple_model(), bounds@[i]));
                }
            } else {
                let w = choose|i: int|
                    0 <= i < bounds@.len() && !spec_string_bounds_matches(
                        self.simple_model(),
                        bounds@[i],
                    );
                assert(!spec_string_bounds_matches(
                    self.simple_model(),
                    StringBounds::Contains(patterns@[w], true, false),
                ));
            }
        }
        r
    }
}

impl SimpleMatchAll for str {
    fn match_all_conditional(&self, pattern_sets: &[StringBounds]) -> (r: bool) {
        let results = self.matched_conditional(pattern_sets);
        let mut i: usize = 0;
        while i < results.len()
            invariant
                0 <= i <= results@.len(),
                results@.len() == pattern_sets@.len(),
                forall|j: int|
                    0 <= j < results@.len() ==> results@[j] == spec_string_bounds_matches(
                        self@,
                        #[trigger] pattern_sets@[j],
                    ),
                forall|j: int|
                    0 <= j < i ==> spec_string_bounds_matches(self@, #[trigger] pattern_sets@[j]),
            decreases results@.len() - i,
        {
            if !results[i] {
                proof {
                    assert(!spec_string_bounds_matches(self@, pattern_sets@[i as int]));
                }
                return false;
            }
            i += 1;
        }
        true
    }
}

/// Filter a batch of texts by a set of containment rules.
pub trait SimpleFilterAll {
    spec fn filter_model(&self) -> Seq<Seq<char>>;

    /// The texts satisfying every rule, in their original order.
    fn filter_all_conditional(&self, pattern_sets: &[StringBounds]) -> (r: Vec<String>)
        ensures
            r.deep_view() == spec_filter_all_bounds(self.filter_model(), pattern_sets@),
    ;
}

/// Test one text against every rule of a set.
fn str_matches_all(t: &str, sets: &[StringBounds]) -> (r: bool)
    ensures
        r == spec_matches_all_bounds(t@, sets@),
{
    t.match_all_conditional(sets)
}

impl SimpleFilterAll for [&str] {
    open spec fn filter_model(&self) -> Seq<Seq<char>> {
        self.deep_view()
    }

    fn filter_all_conditional(&self, pattern_sets: &[StringBounds]) -> (r: Vec<String>) {
        let mut out: Vec<String> = Vec::new();
        let mut i: usize = 0;
        while i < self.len()
            invariant
                0 <= i <= self@.len(),
                out.deep_view() =~~= spec_filter_all_bounds(
                    self.deep_view().take(i as int),
                    pattern_sets@,
                ),
            decreases self@.len() - i,
        {
            proof {
                assert(out.deep_view().len() == out@.len());
                assert(self.deep_view().take(i + 1 as int).drop_last() =~~= self.deep_view().take(
                    i as int,
                ));
                assert(self.deep_view().take(i + 1 as int).last() == self.deep_view()[i as int]);
            }
            if str_matches_all(self[i], pattern_sets) {
                out.push(self[i].to_owned());
            }
            proof {
                assert(out.deep_view() =~~= spec_filter_all_bounds(
                    self.deep_view().take(i + 1 as int),
                    pattern_sets@,
                ));
            }
            i += 1;
        }
        proof {
            assert(self.deep_view().take(self@.len() as int) =~~= self.deep_view());
        }
        out
    }
}

impl SimpleFilterAll for [String] {
    open spec fn filter_model(&self) -> Seq<Seq<char>> {
        self.deep_view()
    }

    fn filter_all_conditional(&self, pattern_sets: &[StringBounds]) -> (r: Vec<String>) {
        let mut out: Vec<String> = Vec::new();
        let mut i: usize = 0;
        while i < self.len()
            invariant
                0 <= i <= self@.len(),
                out.deep_view() =~~= spec_filter_all_bounds(
                    self.deep_view().take(i as int),
                    pattern_sets@,
                ),
            decreases self@.len() - i,
        {
            proof {
                assert(out.deep_view().len() == out@.len());
                assert(self.deep_view().take(i + 1 as int).drop_last() =~~= self.deep_view().take(
                    i as int,
                ));
                assert(self.deep_view().take(i + 1 as int).last() == self.deep_view()[i as int]);
            }
            let item: &String = &self[i];
            if str_matches_all(item.as_str(), pattern_sets) {
                out.push(item.clone());
            }
            proof {
                assert(out.deep_view() =~~= spec_filter_all_bounds(
                    self.deep_view().take(i + 1 as int),
                    pattern_sets@,
                ));
            }
            i += 1;
        }
        proof {
            assert(self.deep_view().take(self@.len() as int) =~~= self.deep_view());
        }
        out
    }
}

} // verus!
