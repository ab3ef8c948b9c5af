use vstd::prelude::*;
use crate::utils;
use crate::utils::{
    spec_compiles, spec_first_span, spec_split_parts, spec_splitn_parts, PatternError,
};
use crate::engine;

verus! {

// Splitting a string on every (or only the first) match of a regular
// expression.

/// The head/tail pair a two-way split yields: the part before the first
/// match and the rest; the tail is empty when nothing matched.
pub open spec fn spec_split_pair(
    pattern: Seq<char>,
    case_insensitive: bool,
    haystack: Seq<char>,
) -> (Seq<char>, Seq<char>) {
    let parts = spec_splitn_parts(pattern, case_insensitive, haystack, 2);
    (
        if parts.len() > 0 {
            parts[0]
        } else {
            Seq::empty()
        },
        if parts.len() > 1 {
            parts[1]
        } else {
            Seq::empty()
        },
    )
}

/// Methods to split a string on a regular expression.
pub trait PatternSplit {
    spec fn split_model(&self) -> Seq<char>;

    /// The parts between matches, or the syntax error.
    fn pattern_split_result(&self, pattern: &str, case_insensitive: bool) -> (r: Result<
        Vec<String>,
        PatternError,
    >)
        ensures
            r is Ok <==> spec_compiles(pattern@, case_insensitive),
            r is Ok ==> (r->Ok_0).deep_view() == spec_split_parts(
                pattern@,
                case_insensitive,
                self.split_model(),
            ),
    ;

    /// Head and tail around the first match, or the syntax error. The two
    /// parts flank the matched text: head, matched text and tail
    /// concatenate back to the input, and an unmatched input comes back
    /// whole as the head with an empty tail.
    fn pattern_split_pair_result(&self, pattern: &str, case_insensitive: bool) -> (r: Result<
        (String, String),
        PatternError,
    >)
        ensures
            r is Ok <==> spec_compiles(pattern@, case_insensitive),
            r is Ok ==> ((r->Ok_0).0@, (r->Ok_0).1@) == spec_split_pair(
                pattern@,
                case_insensitive,
                self.split_model(),
            ),
            r is Ok && spec_first_span(pattern@, case_insensitive, self.split_model()) is Some
                ==> (r->Ok_0).0@ + (spec_first_span(
                pattern@,
                case_insensitive,
                self.split_model(),
            )->0).2 + (r->Ok_0).1@ == self.split_model(),
            r is Ok && spec_first_span(pattern@, case_insensitive, self.split_model()) is None
                ==> (r->Ok_0).0@ == self.split_model() && (r->Ok_0).1@.len() == 0,
    ;

    /// The parts between matches; empty when the pattern does not compile.
    fn pattern_split(&self, pattern: &str, case_insensitive: bool) -> (r: Vec<String>)
        ensures
            spec_compiles(pattern@, case_insensitive) ==> r.deep_view() == spec_split_parts(
                pattern@,
                case_insensitive,
                self.split_model(),
            ),
            !spec_compiles(pattern@, case_insensitive) ==> r.deep_view().len() == 0,
    {
        match self.pattern_split_result(pattern, case_insensitive) {
            Ok(parts) => parts,
            Err(_) => Vec::new(),
        }
    }

    /// Case-insensitive split.
    fn pattern_split_ci(&self, pattern: &str) -> (r: Vec<String>)
        ensures
            spec_compiles(pattern@, true) ==> r.deep_view() == spec_split_parts(
                pattern@,
                true,
                self.split_model(),
            ),
            !spec_compiles(pattern@, true) ==> r.deep_view().len() == 0,
    {
        self.pattern_split(pattern, true)
    }

    /// Case-sensitive split.
    fn pattern_split_cs(&self, pattern: &str) -> (r: Vec<String>)
        ensures
            spec_compiles(pattern@, false) ==> r.deep_view() == spec_split_parts(
                pattern@,
                false,
                self.split_model(),
            ),
            !spec_compiles(pattern@, false) ==> r.deep_view().len() == 0,
    {
        self.pattern_split(pattern, false)
    }

    /// Head and tail around the first match; both empty when the pattern
    /// does not compile. On success head, matched text and tail concatenate
    /// back to the input, and an unmatched input comes back whole as the
    /// head with an empty tail.
    fn pattern_split_pair(&self, pattern: &str, case_insensitive: bool) -> (r: (String, String))
        ensures
            spec_compiles(pattern@, case_insensitive) ==> (r.0@, r.1@) == spec_split_pair(
                pattern@,
                case_insensitive,
                self.split_model(),
            ),
            spec_compiles(pattern@, case_insensitive) && spec_first_span(
                pattern@,
                case_insensitive,
                self.split_model(),
            ) is Some ==> r.0@ + (spec_first_span(
                pattern@,
                case_insensitive,
                self.split_model(),
            )->0).2 + r.1@ == self.split_model(),
            spec_compiles(pattern@, case_insensitive) && spec_first_span(
                pattern@,
                case_insensitive,
                self.split_model(),
            ) is None ==> r.0@ == self.split_model() && r.1@.len() == 0,
            !spec_compiles(pattern@, case_insensitive) ==> r.0@.len() == 0 && r.1@.len() == 0,
    {
        match self.pattern_split_pair_result(pattern, case_insensitive) {
            Ok(parts) => parts,
            Err(_) => (String::new(), String::new()),
        }
    }

    /// Case-insensitive head/tail split.
    fn pattern_split_pair_ci(&self, pattern: &str) -> (r: (String, String))
        ensures
            spec_compiles(pattern@, true) ==> (r.0@, r.1@) == spec_split_pair(
                pattern@,
                true,
                self.split_model(),
            ),
            spec_compiles(pattern@, true) && spec_first_span(
                pattern@,
                true,
                self.split_model(),
            ) is Some ==> r.0@ + (spec_first_span(pattern@, true, self.split_model())->0).2 + r.1@
                == self.split_model(),
            spec_compiles(pattern@, true) && spec_first_span(
                pattern@,
                true,
                self.split_model(),
            ) is None ==> r.0@ == self.split_model() && r.1@.len() == 0,
            !spec_compiles(pattern@, true) ==> r.0@.len() == 0 && r.1@.len() == 0,
    {
        self.pattern_split_pair(pattern, true)
    }

    /// Case-sensitive head/tail split.
    fn pattern_split_pair_cs(&self, pattern: &str) -> (r: (String, String))
        ensures
            spec_compiles(pattern@, false) ==> (r.0@, r.1@) == spec_split_pair(
                pattern@,
                false,
                self.split_model(),
            ),
            spec_compiles(pattern@, false) && spec_first_span(
                pattern@,
                false,
                self.split_model(),
            ) is Some ==> r.0@ + (spec_first_span(pattern@, false, self.split_model())->0).2 + r.1@
                == self.split_model(),
            spec_compiles(pattern@, false) && spec_first_span(
                pattern@,
                false,
                self.split_model(),
            ) is None ==> r.0@ == self.split_model() && r.1@.len() == 0,
            !spec_compiles(pattern@, false) ==> r.0@.len() == 0 && r.1@.len() == 0,
    {
        self.pattern_split_pair(pattern, false)
    }
}

impl PatternSplit for str {
    open spec fn split_model(&self) -> Seq<char> {
        self@
    }

    fn pattern_split_result(&self, pattern: &str, case_insensitive: bool) -> (r: Result<
        Vec<String>,
        PatternError,
    >) {
        match utils::build_regex(pattern, case_insensitive) {
            Ok(re) => Ok(engine::split_all(&re, self)),
            Err(e) => Err(e),
        }
    }

    fn pattern_split_pair_result(&self, pattern: &str, case_insensitive: bool) -> (r: Result<
        (String, String),
        PatternError,
    >) {
        match utils::build_regex(pattern, case_insensitive) {
            Ok(re) => {
                let parts = engine::split_limited(&re, self, 2);
                let head = if parts.len() > 0 {
                    let p: &String = &parts[0];
                    p.clone()
                } else {
                    String::new()
                };
                let tail = if parts.len() > 1 {
                    let p: &String = &parts[1];
                    p.clone()
                } else {
                    String::new()
                };
                proof {
                    assert(parts.deep_view().len() == parts@.len());
                    if parts@.len() > 0 {
                        assert(parts.deep_view()[0] == parts@[0]@);
                    }
                    if parts@.len() > 1 {
                        assert(parts.deep_view()[1] == parts@[1]@);
                    }
                }
                Ok((head, tail))
            },
            Err(e) => Err(e),
        }
    }
}

} // verus!
