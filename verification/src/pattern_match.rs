use vstd::prelude::*;
use crate::utils;
use crate::utils::{spec_compiles, spec_matches, PatternError};
use crate::engine;

verus! {

// Core regular-expression match methods, in a Result-returning form and a
// best-effort form that treats a malformed pattern as "no match".

/// Whether any of a batch of texts matches the pattern.
pub open spec fn spec_any_matches(
    pattern: Seq<char>,
    case_insensitive: bool,
    items: Seq<Seq<char>>,
) -> bool {
    exists|i: int|
        0 <= i < items.len() && spec_matches(pattern, case_insensitive, #[trigger] items[i])
}

/// Core regular-expression match methods. A value models one or more
/// texts; the pattern matches when it matches any of them.
pub trait PatternMatch {
    spec fn match_model(&self) -> Seq<Seq<char>>;

    /// Whether the pattern matches, or the syntax error when it does not
    /// compile.
    fn pattern_match_result(&self, pattern: &str, case_insensitive: bool) -> (r: Result<
        bool,
        PatternError,
    >)
        ensures
            r is Ok <==> spec_compiles(pattern@, case_insensitive),
            r is Ok ==> r->Ok_0 == spec_any_matches(pattern@, case_insensitive, self.match_model()),
    ;

    /// Whether the pattern matches; a pattern that does not compile
    /// matches nothing.
    fn pattern_match(&self, pattern: &str, case_insensitive: bool) -> (r: bool)
        ensures
            r == (spec_compiles(pattern@, case_insensitive) && spec_any_matches(
                pattern@,
                case_insensitive,
                self.match_model(),
            )),
    {
        match self.pattern_match_result(pattern, case_insensitive) {
            Ok(matched) => matched,
            Err(_) => false,
        }
    }

    /// Case-insensitive best-effort match.
    fn pattern_match_ci(&self, pattern: &str) -> (r: bool)
        ensures
            r == (spec_compiles(pattern@, true) && spec_any_matches(
                pattern@,
                true,
                self.match_model(),
            )),
    {
        self.pattern_match(pattern, true)
    }

    /// Case-sensitive best-effort match.
    fn pattern_match_cs(&self, pattern: &str) -> (r: bool)
        ensures
            r == (spec_compiles(pattern@, false) && spec_any_matches(
                pattern@,
                false,
                self.match_model(),
            )),
    {
        self.pattern_match(pattern, false)
    }
}

impl PatternMatch for str {
    open spec fn match_model(&self) -> Seq<Seq<char>> {
        seq![self@]
    }

    fn pattern_match_result(&self, pattern: &str, case_insensitive: bool) -> (r: Result<
        bool,
        PatternError,
    >) {
        match utils::build_regex(pattern, case_insensitive) {
            Ok(re) => {
                let m = engine::is_match(&re, self);
                proof {
                    assert(self.match_model()[0] == self@);
                }
                Ok(m)
            },
            Err(e) => Err(e),
        }
    }
}

impl PatternMatch for [&str] {
    open spec fn match_model(&self) -> Seq<Seq<char>> {
        self.deep_view()
    }

    fn pattern_match_result(&self, pattern: &str, case_insensitive: bool) -> (r: Result<
        bool,
        PatternError,
    >) {
        match utils::build_regex(pattern, case_insensitive) {
            Ok(re) => {
                let mut idx: usize = 0;
                let mut found = false;
                while idx < self.len()
                    invariant
                        0 <= idx <= self@.len(),
                        found == exists|i: int|
                            0 <= i < idx && spec_matches(
                                pattern@,
                                case_insensitive,
                                #[trigger] self.deep_view()[i],
                            ),
                        spec_compiles(pattern@, case_insensitive),
                        engine::regex_source(re) == utils::spec_build_src(
                            pattern@,
                            case_insensitive,
                        ),
                    decreases self@.len() - idx,
                {
                    if engine::is_match(&re, self[idx]) {
                        proof {
                            assert(self.deep_view()[idx as int] == self@[idx as int]@);
                        }
                        found = true;
                    }
                    idx += 1;
                }
                Ok(found)
            },
            Err(e) => Err(e),
        }
    }
}

impl PatternMatch for [String] {
    open spec fn match_model(&self) -> Seq<Seq<char>> {
        self.deep_view()
    }

    fn pattern_match_result(&self, pattern: &str, case_insensitive: bool) -> (r: Result<
        bool,
        PatternError,
    >) {
        match utils::build_regex(pattern, case_insensitive) {
            Ok(re) => {
                let mut idx: usize = 0;
                let mut found = false;
                while idx < self.len()
                    invariant
                        0 <= idx <= self@.len(),
                        found == exists|i: int|
                            0 <= i < idx && spec_matches(
                                pattern@,
                                case_insensitive,
                                #[trigger] self.deep_view()[i],
                            ),
                        spec_compiles(pattern@, case_insensitive),
                        engine::regex_source(re) == utils::spec_build_src(
                            pattern@,
                            case_insensitive,
                        ),
                    decreases self@.len() - idx,
                {
                    let item: &String = &self[idx];
                    if engine::is_match(&re, item.as_str()) {
                        proof {
                            assert(self.deep_view()[idx as int] == self@[idx as int]@);
                        }
                        found = true;
                    }
                    idx += 1;
                }
                Ok(found)
            },
            Err(e) => Err(e),
        }
    }
}

/// The texts of a batch that the pattern matches, in order.
pub open spec fn spec_matching_texts(
    pattern: Seq<char>,
    case_insensitive: bool,
    items: Seq<Seq<char>>,
) -> Seq<Seq<char>>
    decreases items.len(),
{
    if items.len() == 0 {
        Seq::empty()
    } else {
        let pre = spec_matching_texts(pattern, case_insensitive, items.drop_last());
        if spec_matches(pattern, case_insensitive, items.last()) {
            pre.push(items.last())
        } else {
            pre
        }
    }
}

/// Batch match methods: one boolean (or matched text) per element of an
/// array or vector of strings, with the pattern compiled exactly once.
pub trait PatternMatches where Self: PatternMatch {
    /// Pairs of match status and borrowed text, or the syntax error when
    /// the pattern does not compile.
    fn pattern_matched_pairs_result<'a>(&'a self, pattern: &str, case_insensitive: bool) -> (r:
        Result<Vec<(bool, &'a str)>, PatternError>)
        ensures
            r is Ok <==> spec_compiles(pattern@, case_insensitive),
            r is Ok ==> (r->Ok_0)@.len() == self.match_model().len() && (forall|i: int|
                0 <= i < self.match_model().len() ==> ((#[trigger] (r->Ok_0)@[i]).0 == spec_matches(
                    pattern@,
                    case_insensitive,
                    self.match_model()[i],
                ) && (r->Ok_0)@[i].1@ == self.match_model()[i])),
    ;

    /// The all-false default used when the pattern does not compile.
    fn pattern_matched_pairs_default<'a>(&'a self) -> (r: Vec<(bool, &'a str)>)
        ensures
            r@.len() == self.match_model().len(),
            forall|i: int|
                0 <= i < self.match_model().len() ==> ((#[trigger] r@[i]).0 == false && r@[i].1@
                    == self.match_model()[i]),
    ;

    /// Pairs of match status and text; a pattern that does not compile
    /// marks every text unmatched.
    fn pattern_matched_pairs<'a>(&'a self, pattern: &str, case_insensitive: bool) -> (r: Vec<
        (bool, &'a str),
    >)
        ensures
            r@.len() == self.match_model().len(),
            forall|i: int|
                0 <= i < self.match_model().len() ==> ((#[trigger] r@[i]).0 == (spec_compiles(
                    pattern@,
                    case_insensitive,
                ) && spec_matches(pattern@, case_insensitive, self.match_model()[i])) && r@[i].1@
                    == self.match_model()[i]),
    {
        match self.pattern_matched_pairs_result(pattern, case_insensitive) {
            Ok(results) => results,
            Err(_) => self.pattern_matched_pairs_default(),
        }
    }

    /// One boolean per text, or the syntax error.
    fn pattern_matches_result(&self, pattern: &str, case_insensitive: bool) -> (r: Result<
        Vec<bool>,
        PatternError,
    >)
        ensures
            r is Ok <==> spec_compiles(pattern@, case_insensitive),
            r is Ok ==> (r->Ok_0)@.len() == self.match_model().len() && (forall|i: int|
                0 <= i < self.match_model().len() ==> (#[trigger] (r->Ok_0)@[i]) == spec_matches(
                    pattern@,
                    case_insensitive,
                    self.match_model()[i],
                )),
    {
        match self.pattern_matched_pairs_result(pattern, case_insensitive) {
            Ok(items) => {
                let mut out: Vec<bool> = Vec::new();
                let mut i: usize = 0;
                while i < items.len()
                    invariant
                        0 <= i <= items@.len(),
                        items@.len() == self.match_model().len(),
                        out@.len() == i,
                        forall|j: int|
                            0 <= j < items@.len() ==> ((#[trigger] items@[j]).0 == spec_matches(
                                pattern@,
                                case_insensitive,
                                self.match_model()[j],
                            )),
                        forall|j: int|
                            0 <= j < i ==> (#[trigger] out@[j]) == spec_matches(
                                pattern@,
                                case_insensitive,
                                self.match_model()[j],
                            ),
                    decreases items@.len() - i,
                {
                    out.push(items[i].0);
                    i += 1;
                }
                Ok(out)
            },
            Err(e) => Err(e),
        }
    }

    /// One boolean per text; a pattern that does not compile yields all
    /// false.
    fn pattern_matches(&self, pattern: &str, case_insensitive: bool) -> (r: Vec<bool>)
        ensures
            r@.len() == self.match_model().len(),
            forall|i: int|
                0 <= i < self.match_model().len() ==> (#[trigger] r@[i]) == (spec_compiles(
                    pattern@,
                    case_insensitive,
                ) && spec_matches(pattern@, case_insensitive, self.match_model()[i])),
    {
        let pairs = self.pattern_matched_pairs(pattern, case_insensitive);
        let mut out: Vec<bool> = Vec::new();
        let mut i: usize = 0;
        while i < pairs.len()
            invariant
                0 <= i <= pairs@.len(),
                pairs@.len() == self.match_model().len(),
                out@.len() == i,
                forall|j: int|
                    0 <= j < pairs@.len() ==> ((#[trigger] pairs@[j]).0 == (spec_compiles(
                        pattern@,
                        case_insensitive,
                    ) && spec_matches(pattern@, case_insensitive, self.match_model()[j]))),
                forall|j: int|
                    0 <= j < i ==> (#[trigger] out@[j]) == (spec_compiles(
                        pattern@,
                        case_insensitive,
                    ) && spec_matches(pattern@, case_insensitive, self.match_model()[j])),
            decreases pairs@.len() - i,
        {
            out.push(pairs[i].0);
            i += 1;
        }
        out
    }

    /// Case-insensitive batch of booleans.
    fn pattern_matches_ci(&self, pattern: &str) -> (r: Vec<bool>)
        ensures
            r@.len() == self.match_model().len(),
            forall|i: int|
                0 <= i < self.match_model().len() ==> (#[trigger] r@[i]) == (spec_compiles(
                    pattern@,
                    true,
                ) && spec_matches(pattern@, true, self.match_model()[i])),
    {
        self.pattern_matches(pattern, true)
    }

    /// Case-sensitive batch of booleans.
    fn pattern_matches_cs(&self, pattern: &str) -> (r: Vec<bool>)
        ensures
            r@.len() == self.match_model().len(),
            forall|i: int|
                0 <= i < self.match_model().len() ==> (#[trigger] r@[i]) == (spec_compiles(
                    pattern@,
                    false,
                ) && spec_matches(pattern@, false, self.match_model()[i])),
    {
        self.pattern_matches(pattern, false)
    }

    /// Only the matched texts; a pattern that does not compile keeps
    /// nothing.
    fn pattern_matches_filtered<'a>(&'a self, pattern: &str, case_insensitive: bool) -> (r: Vec<
        &'a str,
    >)
        ensures
            spec_compiles(pattern@, case_insensitive) ==> r.deep_view() == spec_matching_texts(
                pattern@,
                case_insensitive,
                self.match_model(),
            ),
            !spec_compiles(pattern@, case_insensitive) ==> r.deep_view().len() == 0,
    {
        let pairs = self.pattern_matched_pairs(pattern, case_insensitive);
        let mut out: Vec<&str> = Vec::new();
        let mut i: usize = 0;
        while i < pairs.len()
            invariant
                0 <= i <= pairs@.len(),
                pairs@.len() == self.match_model().len(),
                forall|j: int|
                    0 <= j < pairs@.len() ==> ((#[trigger] pairs@[j]).0 == (spec_compiles(
                        pattern@,
                        case_insensitive,
                    ) && spec_matches(pattern@, case_insensitive, self.match_model()[j]))
                        && pairs@[j].1@ == self.match_model()[j]),
                spec_compiles(pattern@, case_insensitive) ==> out.deep_view()
                    =~~= spec_matching_texts(
                    pattern@,
                    case_insensitive,
                    self.match_model().take(i as int),
                ),
                !spec_compiles(pattern@, case_insensitive) ==> out.deep_view().len() == 0,
            decreases pairs@.len() - i,
        {
            proof {
                assert(out.deep_view().len() == out@.len());
                assert(self.match_model().take(i + 1 as int).drop_last()
                    =~~= self.match_model().take(i as int));
                assert(self.match_model().take(i + 1 as int).last() == self.match_model()[
                    i as int
                ]);
            }
            if pairs[i].0 {
                out.push(pairs[i].1);
            }
            proof {
                if spec_compiles(pattern@, case_insensitive) {
                    assert(out.deep_view() =~~= spec_matching_texts(
                        pattern@,
                        case_insensitive,
                        self.match_model().take(i + 1 as int),
                    ));
                }
            }
            i += 1;
        }
        proof {
            assert(self.match_model().take(self.match_model().len() as int)
                =~~= self.match_model());
        }
        out
    }

    /// Only the matched texts, case-insensitively.
    fn pattern_matches_filtered_ci<'a>(&'a self, pattern: &str) -> (r: Vec<&'a str>)
        ensures
            spec_compiles(pattern@, true) ==> r.deep_view() == spec_matching_texts(
                pattern@,
                true,
                self.match_model(),
            ),
            !spec_compiles(pattern@, true) ==> r.deep_view().len() == 0,
    {
        self.pattern_matches_filtered(pattern, true)
    }

    /// Only the matched texts, case-sensitively.
    fn pattern_matches_filtered_cs<'a>(&'a self, pattern: &str) -> (r: Vec<&'a str>)
        ensures
            spec_compiles(pattern@, false) ==> r.deep_view() == spec_matching_texts(
                pattern@,
                false,
                self.match_model(),
            ),
            !spec_compiles(pattern@, false) ==> r.deep_view().len() == 0,
    {
        self.pattern_matches_filtered(pattern, false)
    }
}

impl PatternMatches for [&str] {
    fn pattern_matched_pairs_result<'a>(&'a self, pattern: &str, case_insensitive: bool) -> (r:
        Result<Vec<(bool, &'a str)>, PatternError>) {
        match utils::build_regex(pattern, case_insensitive) {
            Ok(re) => {
                let mut out: Vec<(bool, &str)> = Vec::new();
                let mut i: usize = 0;
                while i < self.len()
                    invariant
                        0 <= i <= self@.len(),
                        out@.len() == i,
                        spec_compiles(pattern@, case_insensitive),
                        engine::regex_source(re) == utils::spec_build_src(
                            pattern@,
                            case_insensitive,
                        ),
                        forall|j: int|
                            0 <= j < i ==> ((#[trigger] out@[j]).0 == spec_matches(
                                pattern@,
                                case_insensitive,
                                self.deep_view()[j],
                            ) && out@[j].1@ == self.deep_view()[j]),
                    decreases self@.len() - i,
                {
                    let hit = engine::is_match(&re, self[i]);
                    out.push((hit, self[i]));
                    proof {
                        assert(self.deep_view()[i as int] == self@[i as int]@);
                        assert(out@[i as int].1@ == self.deep_view()[i as int]);
                    }
                    i += 1;
                }
                Ok(out)
            },
            Err(e) => Err(e),
        }
    }

    fn pattern_matched_pairs_default<'a>(&'a self) -> (r: Vec<(bool, &'a str)>) {
        let mut out: Vec<(bool, &str)> = Vec::new();
        let mut i: usize = 0;
        while i < self.len()
            invariant
                0 <= i <= self@.len(),
                out@.len() == i,
                forall|j: int|
                    0 <= j < i ==> ((#[trigger] out@[j]).0 == false && out@[j].1@
                        == self.deep_view()[j]),
            decreases self@.len() - i,
        {
            out.push((false, self[i]));
            proof {
                assert(out@[i as int].1@ == self.deep_view()[i as int]);
            }
            i += 1;
        }
        out
    }
}

impl PatternMatches for [String] {
    fn pattern_matched_pairs_result<'a>(&'a self, pattern: &str, case_insensitive: bool) -> (r:
        Result<Vec<(bool, &'a str)>, PatternError>) {
        match utils::build_regex(pattern, case_insensitive) {
            Ok(re) => {
                let mut out: Vec<(bool, &str)> = Vec::new();
                let mut i: usize = 0;
                while i < self.len()
                    invariant
                        0 <= i <= self@.len(),
                        out@.len() == i,
                        spec_compiles(pattern@, case_insensitive),
                        engine::regex_source(re) == utils::spec_build_src(
                            pattern@,
                            case_insensitive,
                        ),
                        forall|j: int|
                            0 <= j < i ==> ((#[trigger] out@[j]).0 == spec_matches(
                                pattern@,
                                case_insensitive,
                                self.deep_view()[j],
                            ) && out@[j].1@ == self.deep_view()[j]),
                    decreases self@.len() - i,
                {
                    let item: &String = &self[i];
                    let hit = engine::is_match(&re, item.as_str());
                    out.push((hit, item.as_str()));
                    proof {
                        assert(self.deep_view()[i as int] == self@[i as int]@);
                        assert(out@[i as int].1@ == self.deep_view()[i as int]);
                    }
                    i += 1;
                }
                Ok(out)
            },
            Err(e) => Err(e),
        }
    }

    fn pattern_matched_pairs_default<'a>(&'a self) -> (r: Vec<(bool, &'a str)>) {
        let mut out: Vec<(bool, &str)> = Vec::new();
        let mut i: usize = 0;
        while i < self.len()
            invariant
                0 <= i <= self@.len(),
                out@.len() == i,
                forall|j: int|
                    0 <= j < i ==> ((#[trigger] out@[j]).0 == false && out@[j].1@
                        == self.deep_view()[j]),
            decreases self@.len() - i,
        {
            let item: &String = &self[i];
            out.push((false, item.as_str()));
            proof {
                assert(out@[i as int].1@ == self.deep_view()[i as int]);
            }
            i += 1;
        }
        out
    }
}

/// Matching a batch of strings element by element agrees with matching
/// each string on its own: the batch result at each position is exactly
/// the single-string match of that element, for every pattern and flag.
pub proof fn lemma_batch_single_equivalence(
    pattern: Seq<char>,
    case_insensitive: bool,
    items: Seq<Seq<char>>,
    batch: Seq<bool>,
)
    requires
        batch.len() == items.len(),
        forall|i: int|
            0 <= i < items.len() ==> (#[trigger] batch[i]) == (spec_compiles(
                pattern,
                case_insensitive,
            ) && spec_matches(pattern, case_insensitive, items[i])),
    ensures
        forall|i: int|
            0 <= i < items.len() ==> (#[trigger] batch[i]) == (spec_compiles(
                pattern,
                case_insensitive,
            ) && spec_any_matches(pattern, case_insensitive, seq![items[i]])),
{
    assert forall|i: int| 0 <= i < items.len() implies (#[trigger] batch[i]) == (spec_compiles(
        pattern,
        case_insensitive,
    ) && spec_any_matches(pattern, case_insensitive, seq![items[i]])) by {
        let single = seq![items[i]];
        assert(single[0] == items[i]);
        if spec_matches(pattern, case_insensitive, items[i]) {
            assert(spec_any_matches(pattern, case_insensitive, single));
        }
        if spec_any_matches(pattern, case_insensitive, single) {
            let w = choose|j: int|
                0 <= j < single.len() && spec_matches(pattern, case_insensitive, single[j]);
            assert(single[w] == items[i]);
        }
    }
}

} // verus!
