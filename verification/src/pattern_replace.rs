use vstd::prelude::*;
use crate::utils;
use crate::utils::{spec_compiles, spec_replaced, spec_replaced_first, PatternError};
use crate::engine;

verus! {

// Regular-expression replacement with backreference-capable replacement
// text, in Result-returning and best-effort forms, for single strings and
// for batches that compile the pattern once.

/// Each text of a batch with every match replaced.
pub open spec fn spec_replaced_texts(
    pattern: Seq<char>,
    case_insensitive: bool,
    items: Seq<Seq<char>>,
    replacement: Seq<char>,
) -> Seq<Seq<char>> {
    items.map_values(|t: Seq<char>| spec_replaced(pattern, case_insensitive, t, replacement))
}

/// Each text of a batch with only its leftmost match replaced.
pub open spec fn spec_replaced_first_texts(
    pattern: Seq<char>,
    case_insensitive: bool,
    items: Seq<Seq<char>>,
    replacement: Seq<char>,
) -> Seq<Seq<char>> {
    items.map_values(
        |t: Seq<char>| spec_replaced_first(pattern, case_insensitive, t, replacement),
    )
}

/// Core regular-expression replacement methods. A value models one or
/// more texts; replacement applies to each of them.
pub trait PatternReplace where Self: Sized {
    spec fn replace_model(&self) -> Seq<Seq<char>>;

    /// Replace every match in each text, or report the syntax error.
    fn pattern_replace_result(&self, pattern: &str, replacement: &str, case_insensitive: bool) -> (r:
        Result<Self, PatternError>)
        ensures
            r is Ok <==> spec_compiles(pattern@, case_insensitive),
            r is Ok ==> (r->Ok_0).replace_model() == spec_replaced_texts(
                pattern@,
                case_insensitive,
                self.replace_model(),
                replacement@,
            ),
    ;

    /// Replace only the leftmost match in each text, or report the syntax
    /// error.
    fn pattern_replace_first_result(
        &self,
        pattern: &str,
        replacement: &str,
        case_insensitive: bool,
    ) -> (r: Result<Self, PatternError>)
        ensures
            r is Ok <==> spec_compiles(pattern@, case_insensitive),
            r is Ok ==> (r->Ok_0).replace_model() == spec_replaced_first_texts(
                pattern@,
                case_insensitive,
                self.replace_model(),
                replacement@,
            ),
    ;

    /// Replace every match; a pattern that does not compile leaves the
    /// text unchanged.
    fn pattern_replace(&self, pattern: &str, replacement: &str, case_insensitive: bool) -> (r: Self)
        ensures
            spec_compiles(pattern@, case_insensitive) ==> r.replace_model() == spec_replaced_texts(
                pattern@,
                case_insensitive,
                self.replace_model(),
                replacement@,
            ),
            !spec_compiles(pattern@, case_insensitive) ==> r.replace_model()
                == self.replace_model(),
    ;

    /// Replace the leftmost match; a pattern that does not compile leaves
    /// the text unchanged.
    fn pattern_replace_first(&self, pattern: &str, replacement: &str, case_insensitive: bool) -> (r:
        Self)
        ensures
            spec_compiles(pattern@, case_insensitive) ==> r.replace_model()
                == spec_replaced_first_texts(
                pattern@,
                case_insensitive,
                self.replace_model(),
                replacement@,
            ),
            !spec_compiles(pattern@, case_insensitive) ==> r.replace_model()
                == self.replace_model(),
    ;

    /// Case-insensitive best-effort replacement of every match.
    fn pattern_replace_ci(&self, pattern: &str, replacement: &str) -> (r: Self)
        ensures
            spec_compiles(pattern@, true) ==> r.replace_model() == spec_replaced_texts(
                pattern@,
                true,
                self.replace_model(),
                replacement@,
            ),
            !spec_compiles(pattern@, true) ==> r.replace_model() == self.replace_model(),
    {
        self.pattern_replace(pattern, replacement, true)
    }

    /// Case-sensitive best-effort replacement of every match.
    fn pattern_replace_cs(&self, pattern: &str, replacement: &str) -> (r: Self)
        ensures
            spec_compiles(pattern@, false) ==> r.replace_model() == spec_replaced_texts(
                pattern@,
                false,
                self.replace_model(),
                replacement@,
            ),
            !spec_compiles(pattern@, false) ==> r.replace_model() == self.replace_model(),
    {
        self.pattern_replace(pattern, replacement, false)
    }

    /// Case-insensitive best-effort replacement of the leftmost match.
    fn pattern_replace_first_ci(&self, pattern: &str, replacement: &str) -> (r: Self)
        ensures
            spec_compiles(pattern@, true) ==> r.replace_model() == spec_replaced_first_texts(
                pattern@,
                true,
                self.replace_model(),
                replacement@,
            ),
            !spec_compiles(pattern@, true) ==> r.replace_model() == self.replace_model(),
    {
        self.pattern_replace_first(pattern, replacement, true)
    }

    /// Case-sensitive best-effort replacement of the leftmost match.
    fn pattern_replace_first_cs(&self, pattern: &str, replacement: &str) -> (r: Self)
        ensures
            spec_compiles(pattern@, false) ==> r.replace_model() == spec_replaced_first_texts(
                pattern@,
                false,
                self.replace_model(),
                replacement@,
            ),
            !spec_compiles(pattern@, false) ==> r.replace_model() == self.replace_model(),
    {
        self.pattern_replace_first(pattern, replacement, false)
    }
}

impl PatternReplace for String {
    open spec fn replace_model(&self) -> Seq<Seq<char>> {
        seq![self@]
    }

    fn pattern_replace_result(&self, pattern: &str, replacement: &str, case_insensitive: bool) -> (r:
        Result<Self, PatternError>) {
        match utils::build_regex(pattern, case_insensitive) {
            Ok(re) => {
                let replaced = engine::replace_all(&re, self.as_str(), replacement);
                proof {
                    assert(replaced.replace_model() =~~= spec_replaced_texts(
                        pattern@,
                        case_insensitive,
                        self.replace_model(),
                        replacement@,
                    ));
                }
                Ok(replaced)
            },
            Err(e) => Err(e),
        }
    }

    fn pattern_replace_first_result(
        &self,
        pattern: &str,
        replacement: &str,
        case_insensitive: bool,
    ) -> (r: Result<Self, PatternError>) {
        match utils::build_regex(pattern, case_insensitive) {
            Ok(re) => {
                let replaced = engine::replace_first(&re, self.as_str(), replacement);
                proof {
                    assert(replaced.replace_model() =~~= spec_replaced_first_texts(
                        pattern@,
                        case_insensitive,
                        self.replace_model(),
                        replacement@,
                    ));
                }
                Ok(replaced)
            },
            Err(e) => Err(e),
        }
    }

    fn pattern_replace(&self, pattern: &str, replacement: &str, case_insensitive: bool) -> (r:
        Self) {
        match self.pattern_replace_result(pattern, replacement, case_insensitive) {
            Ok(replaced) => replaced,
            Err(_) => self.clone(),
        }
    }

    fn pattern_replace_first(&self, pattern: &str, replacement: &str, case_insensitive: bool) -> (r:
        Self) {
        match self.pattern_replace_first_result(pattern, replacement, case_insensitive) {
            Ok(replaced) => replaced,
            Err(_) => self.clone(),
        }
    }
}

/// Clone a batch of strings, keeping the modelled texts.
pub(crate) fn clone_strings(items: &Vec<String>) -> (r: Vec<String>)
    ensures
        r.deep_view() == items.deep_view(),
{
    let mut out: Vec<String> = Vec::new();
    let mut i: usize = 0;
    while i < items.len()
        invariant
            0 <= i <= items@.len(),
            out.deep_view() =~~= items.deep_view().take(i as int),
        decreases items@.len() - i,
    {
        proof {
            assert(out.deep_view().len() == out@.len());
        }
        let item: &String = &items[i];
        out.push(item.clone());
        proof {
            assert(out.deep_view() =~~= items.deep_view().take(i + 1 as int));
        }
        i += 1;
    }
    proof {
        assert(items.deep_view().take(items@.len() as int) =~~= items.deep_view());
    }
    out
}

impl PatternReplace for Vec<String> {
    open spec fn replace_model(&self) -> Seq<Seq<char>> {
        self.deep_view()
    }

    fn pattern_replace_result(&self, pattern: &str, replacement: &str, case_insensitive: bool) -> (r:
        Result<Self, PatternError>) {
        match utils::build_regex(pattern, case_insensitive) {
            Ok(re) => {
                let mut out: Vec<String> = Vec::new();
                let mut i: usize = 0;
                while i < self.len()
                    invariant
                        0 <= i <= self@.len(),
                        spec_compiles(pattern@, case_insensitive),
                        engine::regex_source(re) == utils::spec_build_src(
                            pattern@,
                            case_insensitive,
                        ),
                        out.deep_view() =~~= spec_replaced_texts(
                            pattern@,
                            case_insensitive,
                            self.deep_view().take(i as int),
                            replacement@,
                        ),
                    decreases self@.len() - i,
                {
                    proof {
                        assert(out.deep_view().len() == out@.len());
                        assert(spec_replaced_texts(
                            pattern@,
                            case_insensitive,
                            self.deep_view().take(i as int),
                            replacement@,
                        ).len() == i);
                    }
                    let item: &String = &self[i];
                    out.push(engine::replace_all(&re, item.as_str(), replacement));
                    proof {
                        assert(self.deep_view()[i as int] == self@[i as int]@);
                        assert(out.deep_view().len() == i + 1);
                        assert forall|j: int| 0 <= j < i + 1 implies #[trigger] out.deep_view()[j]
                            == spec_replaced_texts(
                            pattern@,
                            case_insensitive,
                            self.deep_view().take(i + 1 as int),
                            replacement@,
                        )[j] by {
                            assert(spec_replaced_texts(
                                pattern@,
                                case_insensitive,
                                self.deep_view().take(i + 1 as int),
                                replacement@,
                            )[j] == spec_replaced(
                                pattern@,
                                case_insensitive,
                                self.deep_view().take(i + 1 as int)[j],
                                replacement@,
                            ));
                            assert(self.deep_view().take(i + 1 as int)[j] == self.deep_view()[j]);
                            if j < i {
                                assert(out.deep_view()[j] == spec_replaced_texts(
                                    pattern@,
                                    case_insensitive,
                                    self.deep_view().take(i as int),
                                    replacement@,
                                )[j]);
                                assert(spec_replaced_texts(
                                    pattern@,
                                    case_insensitive,
                                    self.deep_view().take(i as int),
                                    replacement@,
                                )[j] == spec_replaced(
                                    pattern@,
                                    case_insensitive,
                                    self.deep_view().take(i as int)[j],
                                    replacement@,
                                ));
                            }
                        }
                        assert(out.deep_view() =~~= spec_replaced_texts(
                            pattern@,
                            case_insensitive,
                            self.deep_view().take(i + 1 as int),
                            replacement@,
                        ));
                    }
                    i += 1;
                }
                proof {
                    assert(self.deep_view().take(self@.len() as int) =~~= self.deep_view());
                    assert(out.deep_view() =~~= spec_replaced_texts(
                        pattern@,
                        case_insensitive,
                        self.deep_view(),
                        replacement@,
                    ));
                }
                Ok(out)
            },
            Err(e) => Err(e),
        }
    }

    fn pattern_replace_first_result(
        &self,
        pattern: &str,
        replacement: &str,
        case_insensitive: bool,
    ) -> (r: Result<Self, PatternError>) {
        match utils::build_regex(pattern, case_insensitive) {
            Ok(re) => {
                let mut out: Vec<String> = Vec::new();
                let mut i: usize = 0;
                while i < self.len()
                    invariant
                        0 <= i <= self@.len(),
                        spec_compiles(pattern@, case_insensitive),
                        engine::regex_source(re) == utils::spec_build_src(
                            pattern@,
                            case_insensitive,
                        ),
                        out.deep_view() =~~= spec_replaced_first_texts(
                            pattern@,
                            case_insensitive,
                            self.deep_view().take(i as int),
                            replacement@,
                        ),
                    decreases self@.len() - i,
                {
                    proof {
                        assert(out.deep_view().len() == out@.len());
                        assert(spec_replaced_first_texts(
                            pattern@,
                            case_insensitive,
                            self.deep_view().take(i as int),
                            replacement@,
                        ).len() == i);
                    }
                    let item: &String = &self[i];
                    out.push(engine::replace_first(&re, item.as_str(), replacement));
                    proof {
                        assert(self.deep_view()[i as int] == self@[i as int]@);
                        assert(out.deep_view().len() == i + 1);
                        assert forall|j: int| 0 <= j < i + 1 implies #[trigger] out.deep_view()[j]
                            == spec_replaced_first_texts(
                            pattern@,
                            case_insensitive,
                            self.deep_view().take(i + 1 as int),
                            replacement@,
                        )[j] by {
                            assert(spec_replaced_first_texts(
                                pattern@,
                                case_insensitive,
                                self.deep_view().take(i + 1 as int),
                                replacement@,
                            )[j] == spec_replaced_first(
                                pattern@,
                                case_insensitive,
                                self.deep_view().take(i + 1 as int)[j],
                                replacement@,
                            ));
                            assert(self.deep_view().take(i + 1 as int)[j] == self.deep_view()[j]);
                            if j < i {
                                assert(out.deep_view()[j] == spec_replaced_first_texts(
                                    pattern@,
                                    case_insensitive,
                                    self.deep_view().take(i as int),
                                    replacement@,
                                )[j]);
                                assert(spec_replaced_first_texts(
                                    pattern@,
                                    case_insensitive,
                                    self.deep_view().take(i as int),
                                    replacement@,
                                )[j] == spec_replaced_first(
                                    pattern@,
                                    case_insensitive,
                                    self.deep_view().take(i as int)[j],
                                    replacement@,
                                ));
                            }
                        }
                        assert(out.deep_view() =~~= spec_replaced_first_texts(
                            pattern@,
                            case_insensitive,
                            self.deep_view().take(i + 1 as int),
                            replacement@,
                        ));
                    }
                    i += 1;
                }
                proof {
                    assert(self.deep_view().take(self@.len() as int) =~~= self.deep_view());
                    assert(out.deep_view() =~~= spec_replaced_first_texts(
                        pattern@,
                        case_insensitive,
                        self.deep_view(),
                        replacement@,
                    ));
                }
                Ok(out)
            },
            Err(e) => Err(e),
        }
    }

    fn pattern_replace(&self, pattern: &str, replacement: &str, case_insensitive: bool) -> (r:
        Self) {
        match self.pattern_replace_result(pattern, replacement, case_insensitive) {
            Ok(replaced) => replaced,
            Err(_) => clone_strings(self),
        }
    }

    fn pattern_replace_first(&self, pattern: &str, replacement: &str, case_insensitive: bool) -> (r:
        Self) {
        match self.pattern_replace_first_result(pattern, replacement, case_insensitive) {
            Ok(replaced) => replaced,
            Err(_) => clone_strings(self),
        }
    }
}

} // verus!
