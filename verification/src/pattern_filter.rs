use vstd::prelude::*;
use crate::utils;
use crate::utils::{spec_compiles, spec_whole_word, PatternError};
use crate::engine;
use crate::pattern_match::spec_matching_texts;

verus! {

// Filtering batches of strings by a regular expression, keeping the
// original texts on a compile failure.

/// Filter an array of strings by a pattern, keeping the matching texts.
pub trait PatternFilter<'a, T: DeepView<V = Seq<char>>> {
    spec fn pf_model(&self) -> Seq<Seq<char>>;

    /// The matching texts; every text is kept when the pattern does not
    /// compile.
    fn pattern_filter(&'a self, pattern: &str, case_insensitive: bool) -> (r: Vec<T>)
        ensures
            spec_compiles(pattern@, case_insensitive) ==> r.deep_view() == spec_matching_texts(
                pattern@,
                case_insensitive,
                self.pf_model(),
            ),
            !spec_compiles(pattern@, case_insensitive) ==> r.deep_view() == self.pf_model(),
    ;

    /// Case-insensitive filter.
    fn pattern_filter_ci(&'a self, pattern: &str) -> (r: Vec<T>)
        ensures
            spec_compiles(pattern@, true) ==> r.deep_view() == spec_matching_texts(
                pattern@,
                true,
                self.pf_model(),
            ),
            !spec_compiles(pattern@, true) ==> r.deep_view() == self.pf_model(),
    {
        self.pattern_filter(pattern, true)
    }

    /// Case-sensitive filter.
    fn pattern_filter_cs(&'a self, pattern: &str) -> (r: Vec<T>)
        ensures
            spec_compiles(pattern@, false) ==> r.deep_view() == spec_matching_texts(
                pattern@,
                false,
                self.pf_model(),
            ),
            !spec_compiles(pattern@, false) ==> r.deep_view() == self.pf_model(),
    {
        self.pattern_filter(pattern, false)
    }

    /// Filter by the whole-word form of the pattern.
    fn pattern_filter_word(&'a self, pattern: &str, case_insensitive: bool) -> (r: Vec<T>)
        ensures
            spec_compiles(spec_whole_word(pattern@), case_insensitive) ==> r.deep_view()
                == spec_matching_texts(
                spec_whole_word(pattern@),
                case_insensitive,
                self.pf_model(),
            ),
            !spec_compiles(spec_whole_word(pattern@), case_insensitive) ==> r.deep_view()
                == self.pf_model(),
    {
        let word_pattern = utils::build_whole_word_pattern(pattern);
        self.pattern_filter(word_pattern.as_str(), case_insensitive)
    }

    /// Case-insensitive whole-word filter.
    fn pattern_filter_word_ci(&'a self, pattern: &str) -> (r: Vec<T>)
        ensures
            spec_compiles(spec_whole_word(pattern@), true) ==> r.deep_view()
                == spec_matching_texts(spec_whole_word(pattern@), true, self.pf_model()),
            !spec_compiles(spec_whole_word(pattern@), true) ==> r.deep_view() == self.pf_model(),
    {
        self.pattern_filter_word(pattern, true)
    }

    /// Case-sensitive whole-word filter.
    fn pattern_filter_word_cs(&'a self, pattern: &str) -> (r: Vec<T>)
        ensures
            spec_compiles(spec_whole_word(pattern@), false) ==> r.deep_view()
                == spec_matching_texts(spec_whole_word(pattern@), false, self.pf_model()),
            !spec_compiles(spec_whole_word(pattern@), false) ==> r.deep_view() == self.pf_model(),
    {
        self.pattern_filter_word(pattern, false)
    }
}

impl<'a> PatternFilter<'a, String> for [String] {
    open spec fn pf_model(&self) -> Seq<Seq<char>> {
        self.deep_view()
    }

    fn pattern_filter(&'a self, pattern: &str, case_insensitive: bool) -> (r: Vec<String>) {
        match utils::build_regex(pattern, case_insensitive) {
            Ok(re) => {
                let mut out: Vec<String> = Vec::new();
                let mut i: usize = 0;
                while i < self.len()
                    invariant
                        0 <= i <= self@.len(),
                        spec_compiles(pattern@, case_insensitive),
                        engine::regex_source(re) == utils::spec_build_src(
                            pattern@,
                            case_insensitive,
                        ),
                        out.deep_view() =~~= spec_matching_texts(
                            pattern@,
                            case_insensitive,
                            self.deep_view().take(i as int),
                        ),
                    decreases self@.len() - i,
                {
                    proof {
                        assert(out.deep_view().len() == out@.len());
                        assert(self.deep_view().take(i + 1 as int).drop_last()
                            =~~= self.deep_view().take(i as int));
                        assert(self.deep_view().take(i + 1 as int).last() == self.deep_view()[
                            i as int
                        ]);
                        assert(self.deep_view()[i as int] == self@[i as int]@);
                    }
                    let item: &String = &self[i];
                    if engine::is_match(&re, item.as_str()) {
                        out.push(item.clone());
                    }
                    proof {
                        assert(out.deep_view() =~~= spec_matching_texts(
                            pattern@,
                            case_insensitive,
                            self.deep_view().take(i + 1 as int),
                        ));
                    }
                    i += 1;
                }
                proof {
                    assert(self.deep_view().take(self@.len() as int) =~~= self.deep_view());
                }
                out
            },
            Err(_) => {
                let mut out: Vec<String> = Vec::new();
                let mut i: usize = 0;
                while i < self.len()
                    invariant
                        0 <= i <= self@.len(),
                        out.deep_view() =~~= self.deep_view().take(i as int),
                    decreases self@.len() - i,
                {
                    proof {
                        assert(out.deep_view().len() == out@.len());
                    }
                    let item: &String = &self[i];
                    out.push(item.clone());
                    proof {
                        assert(out.deep_view() =~~= self.deep_view().take(i + 1 as int));
                    }
                    i += 1;
                }
                proof {
                    assert(self.deep_view().take(self@.len() as int) =~~= self.deep_view());
                }
                out
            },
        }
    }
}

impl<'a> PatternFilter<'a, &'a str> for [&str] {
    open spec fn pf_model(&self) -> Seq<Seq<char>> {
        self.deep_view()
    }

    fn pattern_filter(&'a self, pattern: &str, case_insensitive: bool) -> (r: Vec<&'a str>) {
        match utils::build_regex(pattern, case_insensitive) {
            Ok(re) => {
                let mut out: Vec<&str> = Vec::new();
                let mut i: usize = 0;
                while i < self.len()
                    invariant
                        0 <= i <= self@.len(),
                        spec_compiles(pattern@, case_insensitive),
                        engine::regex_source(re) == utils::spec_build_src(
                            pattern@,
                            case_insensitive,
                        ),
                        out.deep_view() =~~= spec_matching_texts(
                            pattern@,
                            case_insensitive,
                            self.deep_view().take(i as int),
                        ),
                    decreases self@.len() - i,
                {
                    proof {
                        assert(out.deep_view().len() == out@.len());
                        assert(self.deep_view().take(i + 1 as int).drop_last()
                            =~~= self.deep_view().take(i as int));
                        assert(self.deep_view().take(i + 1 as int).last() == self.deep_view()[
                            i as int
                        ]);
                        assert(self.deep_view()[i as int] == self@[i as int]@);
                    }
                    if engine::is_match(&re, self[i]) {
                        out.push(self[i]);
                    }
                    proof {
                        assert(out.deep_view() =~~= spec_matching_texts(
                            pattern@,
                            case_insensitive,
                            self.deep_view().take(i + 1 as int),
                        ));
                    }
                    i += 1;
                }
                proof {
                    assert(self.deep_view().take(self@.len() as int) =~~= self.deep_view());
                }
                out
            },
            Err(_) => {
                let mut out: Vec<&str> = Vec::new();
                let mut i: usize = 0;
                while i < self.len()
                    invariant
                        0 <= i <= self@.len(),
                        out.deep_view() =~~= self.deep_view().take(i as int),
                    decreases self@.len() - i,
                {
                    proof {
                        assert(out.deep_view().len() == out@.len());
                    }
                    out.push(self[i]);
                    proof {
                        assert(out.deep_view() =~~= self.deep_view().take(i + 1 as int));
                    }
                    i += 1;
                }
                proof {
                    assert(self.deep_view().take(self@.len() as int) =~~= self.deep_view());
                }
                out
            },
        }
    }
}

} // verus!
