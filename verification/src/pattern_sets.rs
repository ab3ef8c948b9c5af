use vstd::prelude::*;
use crate::charseq::spec_interleave;
use crate::engine;
use crate::pattern_capture::{
    find_matches_within_haystack, spec_first_inner, spec_matches_as_vec, MatchSpan, PatternCapture,
};
use crate::pattern_match::PatternMatch;
use crate::utils;
use crate::utils::{spec_compiles, spec_first_span, spec_matches, spec_split_parts, PatternError};

verus! {

// A declarative match set: a core pattern with optional look-behind and
// look-ahead clauses and positivity flags, evaluated by span arithmetic
// over plain matches since the engine has no native look-around.

/// A core pattern plus optional look-behind/look-ahead clauses, each a
/// pattern with a positivity flag, and one case policy for all of them.
#[derive(Clone, Copy)]
pub struct MatchSet<'a> {
    case_insensitive: bool,
    behind: Option<(&'a str, bool)>,
    main: &'a str,
    ahead: Option<(&'a str, bool)>,
}

impl<'a> MatchSet<'a> {
    pub closed spec fn spec_ci(self) -> bool {
        self.case_insensitive
    }

    pub closed spec fn spec_main(self) -> Seq<char> {
        self.main@
    }

    pub closed spec fn spec_behind(self) -> Option<(Seq<char>, bool)> {
        match self.behind {
            Some((p, pos)) => Some((p@, pos)),
            None => None,
        }
    }

    pub closed spec fn spec_ahead(self) -> Option<(Seq<char>, bool)> {
        match self.ahead {
            Some((p, pos)) => Some((p@, pos)),
            None => None,
        }
    }

    /// The successive whole matches of the core pattern over a haystack.
    pub open spec fn spec_outer(self, haystack: Seq<char>) -> Seq<(int, int, Seq<char>)> {
        spec_matches_as_vec(self.spec_main(), self.spec_ci(), haystack, true)
    }

    /// The any-match look-behind outcome: some core match lies strictly
    /// after the behind clause's first (inner-group aware) span; a clause
    /// whose own lookup locates nothing has a false outcome.
    pub open spec fn spec_any_behind_outcome(self, haystack: Seq<char>, bp: Seq<char>) -> bool {
        match spec_first_inner(bp, self.spec_ci(), haystack) {
            Some(im) => exists|k: int|
                0 <= k < self.spec_outer(haystack).len() && im.1 < (
                #[trigger] self.spec_outer(haystack)[k]).0,
            None => false,
        }
    }

    /// The any-match look-behind test: the clause's outcome must equal its
    /// declared positivity.
    pub open spec fn spec_any_behind_ok(self, haystack: Seq<char>) -> bool {
        match self.spec_behind() {
            Some((bp, pos)) => self.spec_any_behind_outcome(haystack, bp) == pos,
            None => true,
        }
    }

    /// The any-match look-ahead outcome: some core match lies strictly
    /// before the ahead clause's last distinct span; a clause whose own
    /// lookup locates nothing has a false outcome.
    pub open spec fn spec_any_ahead_outcome(self, haystack: Seq<char>, ap: Seq<char>) -> bool {
        let v = spec_matches_as_vec(ap, self.spec_ci(), haystack, false);
        v.len() > 0 && exists|k: int|
            0 <= k < self.spec_outer(haystack).len() && v.last().0 > (
            #[trigger] self.spec_outer(haystack)[k]).1
    }

    /// The any-match look-ahead test: the clause's outcome must equal its
    /// declared positivity.
    pub open spec fn spec_any_ahead_ok(self, haystack: Seq<char>) -> bool {
        match self.spec_ahead() {
            Some((ap, pos)) => self.spec_any_ahead_outcome(haystack, ap) == pos,
            None => true,
        }
    }

    /// Whether the core pattern and every configured look-around pattern
    /// compile.
    pub open spec fn spec_all_patterns_compile(self) -> bool {
        &&& spec_compiles(self.spec_main(), self.spec_ci())
        &&& match self.spec_behind() {
            Some((bp, _)) => spec_compiles(bp, self.spec_ci()),
            None => true,
        }
        &&& match self.spec_ahead() {
            Some((ap, _)) => spec_compiles(ap, self.spec_ci()),
            None => true,
        }
    }

    /// The overall look-around outcome: false without any core match,
    /// else the conjunction of every configured clause's test.
    pub open spec fn spec_set_outcome(self, haystack: Seq<char>) -> bool {
        if self.spec_outer(haystack).len() > 0 {
            self.spec_any_behind_ok(haystack) && self.spec_any_ahead_ok(haystack)
        } else {
            false
        }
    }

    /// The per-match look-around test used by the span listing: this match
    /// must lie strictly after the behind clause's first span and strictly
    /// before the ahead clause's last span, each outcome compared to its
    /// clause's positivity; a clause whose lookup locates nothing has a
    /// false outcome here too.
    pub open spec fn spec_accepts(self, haystack: Seq<char>, m: (int, int, Seq<char>)) -> bool {
        let b_ok = match self.spec_behind() {
            Some((bp, pos)) => {
                let outcome = spec_compiles(bp, self.spec_ci()) && (match spec_first_span(
                    bp,
                    self.spec_ci(),
                    haystack,
                ) {
                    Some(im) => im.1 < m.0,
                    None => false,
                });
                outcome == pos
            },
            None => true,
        };
        let a_ok = match self.spec_ahead() {
            Some((ap, pos)) => {
                let v = spec_matches_as_vec(ap, self.spec_ci(), haystack, false);
                let outcome = v.len() > 0 && v.last().0 > m.1;
                outcome == pos
            },
            None => true,
        };
        b_ok && a_ok
    }

    /// The core matches that pass every configured clause, in order; all
    /// of them when no look-around clause is set.
    pub open spec fn spec_accepted_prefix(
        self,
        haystack: Seq<char>,
        outer: Seq<(int, int, Seq<char>)>,
    ) -> Seq<(int, int, Seq<char>)>
        decreases outer.len(),
    {
        if outer.len() == 0 {
            Seq::empty()
        } else {
            let pre = self.spec_accepted_prefix(haystack, outer.drop_last());
            if !self.spec_has_look_around() || self.spec_accepts(haystack, outer.last()) {
                pre.push(outer.last())
            } else {
                pre
            }
        }
    }

    /// The span listing of this set over a haystack.
    pub open spec fn spec_matched_vec(self, haystack: Seq<char>) -> Seq<(int, int, Seq<char>)> {
        if self.spec_main().len() > 0 {
            self.spec_accepted_prefix(haystack, self.spec_outer(haystack))
        } else {
            Seq::empty()
        }
    }

    pub open spec fn spec_has_look_around(self) -> bool {
        self.spec_behind() is Some || self.spec_ahead() is Some
    }

    /// The replacement text for one core match: replaced locally when the
    /// match passes the clauses, kept verbatim otherwise.
    pub open spec fn spec_piece(
        self,
        haystack: Seq<char>,
        replacement: Seq<char>,
        m: (int, int, Seq<char>),
    ) -> Seq<char> {
        if !self.spec_has_look_around() || self.spec_accepts(haystack, m) {
            engine::replaced_all_of(
                utils::spec_build_src(self.spec_main(), self.spec_ci()),
                m.2,
                replacement,
            )
        } else {
            m.2
        }
    }

    /// What replacing through this set makes of a haystack: the core
    /// pattern's split parts interleaved with each match's piece; the
    /// haystack itself when the core is absent or does not compile.
    pub open spec fn spec_set_replace(self, haystack: Seq<char>, replacement: Seq<char>) -> Seq<
        char,
    > {
        if self.spec_main().len() > 0 && spec_compiles(self.spec_main(), self.spec_ci()) {
            let parts = spec_split_parts(self.spec_main(), self.spec_ci(), haystack);
            let outer = self.spec_outer(haystack);
            let pieces = Seq::new(outer.len(), |k: int| self.spec_piece(haystack, replacement, outer[k]));
            spec_interleave(parts, pieces)
        } else {
            haystack
        }
    }

    /// A set with the given core pattern and case policy and no
    /// look-around clauses.
    pub fn new(main_pattern: &'a str, case_insensitive: bool) -> (r: Self)
        ensures
            r.spec_main() == main_pattern@,
            r.spec_ci() == case_insensitive,
            r.spec_behind() is None,
            r.spec_ahead() is None,
    {
        MatchSet { case_insensitive, behind: None, main: main_pattern, ahead: None }
    }

    /// A case-insensitive set with the given core pattern.
    pub fn new_ci(main_pattern: &'a str) -> (r: Self)
        ensures
            r.spec_main() == main_pattern@,
            r.spec_ci() == true,
            r.spec_behind() is None,
            r.spec_ahead() is None,
    {
        MatchSet { case_insensitive: true, behind: None, main: main_pattern, ahead: None }
    }

    /// A case-sensitive set with the given core pattern.
    pub fn new_cs(main_pattern: &'a str) -> (r: Self)
        ensures
            r.spec_main() == main_pattern@,
            r.spec_ci() == false,
            r.spec_behind() is None,
            r.spec_ahead() is None,
    {
        MatchSet { case_insensitive: false, behind: None, main: main_pattern, ahead: None }
    }

    /// A set with an empty core pattern: evaluating it is an error until a
    /// core is supplied.
    pub fn empty() -> (r: Self)
        ensures
            r.spec_main().len() == 0,
            r.spec_ci() == false,
            r.spec_behind() is None,
            r.spec_ahead() is None,
    {
        let r = MatchSet { case_insensitive: false, behind: None, main: "", ahead: None };
        proof {
            reveal_strlit("");
        }
        r
    }

    /// Switch the set to case-insensitive matching.
    pub fn case_insensitive(&mut self) -> (r: Self)
        ensures
            *final(self) == r,
            r.spec_ci() == true,
            r.spec_main() == old(self).spec_main(),
            r.spec_behind() == old(self).spec_behind(),
            r.spec_ahead() == old(self).spec_ahead(),
    {
        self.case_insensitive = true;
        *self
    }

    /// Switch the set to case-sensitive matching.
    pub fn case_sensitive(&mut self) -> (r: Self)
        ensures
            *final(self) == r,
            r.spec_ci() == false,
            r.spec_main() == old(self).spec_main(),
            r.spec_behind() == old(self).spec_behind(),
            r.spec_ahead() == old(self).spec_ahead(),
    {
        self.case_insensitive = false;
        *self
    }

    /// Set the look-behind clause: a pattern and its positivity.
    pub fn look_behind(&mut self, pattern: &'a str, is_positive: bool) -> (r: Self)
        ensures
            *final(self) == r,
            r.spec_behind() == Some((pattern@, is_positive)),
            r.spec_main() == old(self).spec_main(),
            r.spec_ci() == old(self).spec_ci(),
            r.spec_ahead() == old(self).spec_ahead(),
    {
        self.behind = Some((pattern, is_positive));
        *self
    }

    /// Set the look-ahead clause: a pattern and its positivity.
    pub fn look_ahead(&mut self, pattern: &'a str, is_positive: bool) -> (r: Self)
        ensures
            *final(self) == r,
            r.spec_ahead() == Some((pattern@, is_positive)),
            r.spec_main() == old(self).spec_main(),
            r.spec_ci() == old(self).spec_ci(),
            r.spec_behind() == old(self).spec_behind(),
    {
        self.ahead = Some((pattern, is_positive));
        *self
    }

    /// Whether any look-around clause is set.
    pub fn has_look_around(&self) -> (r: bool)
        ensures
            r == self.spec_has_look_around(),
    {
        self.behind.is_some() || self.ahead.is_some()
    }

    /// Whether the core pattern is non-empty.
    pub fn has_core(&self) -> (r: bool)
        ensures
            r == (self.spec_main().len() > 0),
    {
        self.main.unicode_len() > 0
    }

    /// Evaluate the set over a haystack. Without a core pattern the
    /// evaluation is a configuration error. A core or configured
    /// look-around pattern that does not compile surfaces as a syntax
    /// error. Without look-around clauses the outcome is a plain core
    /// match. With clauses set, the outcome is false without core matches,
    /// else every configured clause's any-match outcome must equal its
    /// declared positivity (a clause whose own lookup locates nothing has
    /// a false outcome).
    pub fn matches_result(&self, sample: &str) -> (r: Result<bool, PatternError>)
        ensures
            self.spec_main().len() == 0 ==> r is Err && r->Err_0 is EmptyCore,
            self.spec_main().len() > 0 ==> ((r is Ok <==> self.spec_all_patterns_compile()) && (
            r is Err ==> r->Err_0 is Syntax)),
            self.spec_main().len() > 0 && !self.spec_has_look_around() && r is Ok ==> r->Ok_0
                == spec_matches(self.spec_main(), self.spec_ci(), sample@),
            self.spec_main().len() > 0 && self.spec_has_look_around() && r is Ok ==> r->Ok_0
                == self.spec_set_outcome(sample@),
    {
        if self.has_look_around() {
            if self.has_core() {
                match utils::build_regex(self.main, self.case_insensitive) {
                    Ok(_) => {},
                    Err(e) => {
                        return Err(e);
                    },
                }
                match self.behind {
                    Some((behind_pattern, _)) => {
                        match utils::build_regex(behind_pattern, self.case_insensitive) {
                            Ok(_) => {},
                            Err(e) => {
                                return Err(e);
                            },
                        }
                    },
                    None => {},
                }
                match self.ahead {
                    Some((ahead_pattern, _)) => {
                        match utils::build_regex(ahead_pattern, self.case_insensitive) {
                            Ok(_) => {},
                            Err(e) => {
                                return Err(e);
                            },
                        }
                    },
                    None => {},
                }
                let matched_items = sample.pattern_matches_outer(self.main, self.case_insensitive);
                proof {
                    assert(matched_items.deep_view().len() == matched_items@.len());
                }
                if matched_items.len() > 0 {
                    let mut all_ok = true;
                    match self.behind {
                        Some((behind_pattern, is_pos)) => {
                            let outcome = match sample.pattern_first_inner_match(
                                behind_pattern,
                                self.case_insensitive,
                            ) {
                                Some(inner_match) => any_starts_after(
                                    &matched_items,
                                    inner_match.end(),
                                ),
                                None => false,
                            };
                            proof {
                                assert(matched_items.deep_view() == self.spec_outer(sample@));
                                assert(outcome == self.spec_any_behind_outcome(
                                    sample@,
                                    behind_pattern@,
                                ));
                            }
                            if outcome != is_pos {
                                all_ok = false;
                            }
                        },
                        None => {},
                    }
                    match self.ahead {
                        Some((ahead_pattern, is_pos)) => {
                            let outcome = match sample.pattern_last_match(
                                ahead_pattern,
                                self.case_insensitive,
                            ) {
                                Some(last_match) => any_ends_before(
                                    &matched_items,
                                    last_match.start(),
                                ),
                                None => false,
                            };
                            proof {
                                assert(matched_items.deep_view() == self.spec_outer(sample@));
                                assert(outcome == self.spec_any_ahead_outcome(
                                    sample@,
                                    ahead_pattern@,
                                ));
                            }
                            if outcome != is_pos {
                                all_ok = false;
                            }
                        },
                        None => {},
                    }
                    Ok(all_ok)
                } else {
                    proof {
                        assert(!self.spec_set_outcome(sample@));
                    }
                    Ok(false)
                }
            } else {
                Err(PatternError::EmptyCore)
            }
        } else if self.has_core() {
            self.pattern_match_result_str(sample)
        } else {
            Err(PatternError::EmptyCore)
        }
    }

    /// The core pattern matched plainly, with its syntax error surfaced.
    fn pattern_match_result_str(&self, sample: &str) -> (r: Result<bool, PatternError>)
        ensures
            r is Ok <==> spec_compiles(self.spec_main(), self.spec_ci()),
            r is Ok ==> r->Ok_0 == spec_matches(self.spec_main(), self.spec_ci(), sample@),
            r is Err ==> r->Err_0 is Syntax,
    {
        match utils::build_regex(self.main, self.case_insensitive) {
            Ok(re) => Ok(engine::is_match(&re, sample)),
            Err(e) => Err(e),
        }
    }

    /// The core matches of this set that pass every configured clause.
    pub fn matched_vec(&self, sample: &str) -> (r: Vec<MatchSpan>)
        ensures
            r.deep_view() == self.spec_matched_vec(sample@),
    {
        let (matched_items, _main_rgx_opt) = self.matched_vec_and_main(sample);
        matched_items
    }

    /// The accepted spans together with the core's compiled pattern for
    /// reuse by replacement.
    fn matched_vec_and_main(&self, sample: &str) -> (r: (Vec<MatchSpan>, Option<regex::Regex>))
        ensures
            r.0.deep_view() == self.spec_matched_vec(sample@),
            r.1 is Some <==> (self.spec_main().len() > 0 && spec_compiles(
                self.spec_main(),
                self.spec_ci(),
            )),
            r.1 is Some ==> engine::regex_source(r.1->0) == utils::spec_build_src(
                self.spec_main(),
                self.spec_ci(),
            ),
    {
        if !self.has_core() {
            return (Vec::new(), None);
        }
        let (outer, rgx_opt) = find_matches_within_haystack(
            sample,
            self.main,
            self.case_insensitive,
            true,
        );
        match rgx_opt {
            Some(rgx) => {
                let ghost outer_spec = self.spec_outer(sample@);
                proof {
                    assert(outer.deep_view() == outer_spec);
                    assert(outer.deep_view().len() == outer@.len());
                }
                if !self.has_look_around() {
                    proof {
                        lemma_accepted_all(*self, sample@, outer_spec);
                    }
                    return (outer, Some(rgx));
                }
                let behind_opt = match self.behind {
                    Some((behind_pattern, _)) => sample.pattern_first_match(
                        behind_pattern,
                        self.case_insensitive,
                    ),
                    None => None,
                };
                let ahead_opt = match self.ahead {
                    Some((ahead_pattern, _)) => sample.pattern_last_match(
                        ahead_pattern,
                        self.case_insensitive,
                    ),
                    None => None,
                };
                let mut accepted: Vec<MatchSpan> = Vec::new();
                let mut i: usize = 0;
                while i < outer.len()
                    invariant
                        0 <= i <= outer@.len(),
                        outer.deep_view() == outer_spec,
                        self.spec_has_look_around(),
                        behind_ok_model(*self, sample@, behind_opt),
                        ahead_ok_model(*self, sample@, ahead_opt),
                        accepted.deep_view() =~~= self.spec_accepted_prefix(
                            sample@,
                            outer_spec.take(i as int),
                        ),
                    decreases outer@.len() - i,
                {
                    proof {
                        assert(accepted.deep_view().len() == accepted@.len());
                        assert(outer_spec.take(i + 1 as int).drop_last() =~~= outer_spec.take(
                            i as int,
                        ));
                        assert(outer_spec.take(i + 1 as int).last() == outer_spec[i as int]);
                        assert(outer.deep_view()[i as int] == outer@[i as int]@);
                    }
                    let m_item = &outer[i];
                    let mut clauses_ok = true;
                    match self.behind {
                        Some((_, is_pos)) => {
                            let outcome = match &behind_opt {
                                Some(inner_match) => inner_match.end() < m_item.start(),
                                None => false,
                            };
                            if outcome != is_pos {
                                clauses_ok = false;
                            }
                        },
                        None => {},
                    }
                    match self.ahead {
                        Some((_, is_pos)) => {
                            let outcome = match &ahead_opt {
                                Some(last_match) => last_match.start() > m_item.end(),
                                None => false,
                            };
                            if outcome != is_pos {
                                clauses_ok = false;
                            }
                        },
                        None => {},
                    }
                    proof {
                        assert(clauses_ok == self.spec_accepts(sample@, outer_spec[i as int]));
                    }
                    if clauses_ok {
                        accepted.push(m_item.clone());
                    }
                    proof {
                        assert(accepted.deep_view() =~~= self.spec_accepted_prefix(
                            sample@,
                            outer_spec.take(i + 1 as int),
                        ));
                    }
                    i += 1;
                }
                proof {
                    assert(outer_spec.take(outer_spec.len() as int) =~~= outer_spec);
                }
                (accepted, Some(rgx))
            },
            None => {
                proof {
                    assert(self.spec_outer(sample@) =~~= Seq::<(int, int, Seq<char>)>::empty());
                    assert(self.spec_matched_vec(sample@) =~~= Seq::<
                        (int, int, Seq<char>),
                    >::empty());
                }
                (Vec::new(), None)
            },
        }
    }

    /// Rebuild the haystack with each accepted core match replaced
    /// locally (backreferences resolved against the core pattern) and
    /// everything else, failed matches included, kept verbatim. A core
    /// that is absent or does not compile leaves the haystack unchanged.
    pub fn replace(&self, sample: &str, replacement: &str) -> (r: String)
        ensures
            r@ == self.spec_set_replace(sample@, replacement@),
            self.spec_matched_vec(sample@).len() == 0 ==> r@ == sample@,
    {
        if !self.has_core() {
            return sample.to_owned();
        }
        let (outer, rgx_opt) = find_matches_within_haystack(
            sample,
            self.main,
            self.case_insensitive,
            true,
        );
        match rgx_opt {
            Some(re) => {
                let parts = engine::split_all(&re, sample);
                let ghost outer_spec = self.spec_outer(sample@);
                let ghost parts_spec = spec_split_parts(self.spec_main(), self.spec_ci(), sample@);
                let ghost pieces_spec = Seq::new(
                    outer_spec.len(),
                    |k: int| self.spec_piece(sample@, replacement@, outer_spec[k]),
                );
                proof {
                    assert(outer.deep_view() == outer_spec);
                    assert(parts.deep_view() == parts_spec);
                    assert(outer.deep_view().len() == outer@.len());
                    assert(parts.deep_view().len() == parts@.len());
                    assert(parts@.len() == outer@.len() + 1);
                }
                let behind_opt = match self.behind {
                    Some((behind_pattern, _)) => sample.pattern_first_match(
                        behind_pattern,
                        self.case_insensitive,
                    ),
                    None => None,
                };
                let ahead_opt = match self.ahead {
                    Some((ahead_pattern, _)) => sample.pattern_last_match(
                        ahead_pattern,
                        self.case_insensitive,
                    ),
                    None => None,
                };
                let first_part: &String = &parts[0];
                let mut acc: String = first_part.clone();
                proof {
                    assert(parts.deep_view()[0] == parts@[0]@);
                    assert(acc@ == spec_interleave(
                        parts_spec.take(1),
                        pieces_spec.take(0),
                    ));
                }
                let mut k: usize = 0;
                while k < outer.len()
                    invariant
                        0 <= k <= outer@.len(),
                        outer.deep_view() == outer_spec,
                        parts.deep_view() == parts_spec,
                        parts@.len() == outer@.len() + 1,
                        engine::regex_source(re) == utils::spec_build_src(
                            self.spec_main(),
                            self.spec_ci(),
                        ),
                        behind_ok_model(*self, sample@, behind_opt),
                        ahead_ok_model(*self, sample@, ahead_opt),
                        pieces_spec == Seq::new(
                            outer_spec.len(),
                            |j: int| self.spec_piece(sample@, replacement@, outer_spec[j]),
                        ),
                        acc@ == spec_interleave(
                            parts_spec.take(k + 1 as int),
                            pieces_spec.take(k as int),
                        ),
                    decreases outer@.len() - k,
                {
                    proof {
                        assert(outer.deep_view()[k as int] == outer@[k as int]@);
                        assert(parts.deep_view()[k + 1 as int] == parts@[k + 1 as int]@);
                        assert(parts_spec.take(k + 2 as int).drop_last() =~~= parts_spec.take(
                            k + 1 as int,
                        ));
                        assert(pieces_spec.take(k + 1 as int).drop_last() =~~= pieces_spec.take(
                            k as int,
                        ));
                        assert(pieces_spec.take(k + 1 as int).last() == pieces_spec[k as int]);
                        assert(parts_spec.take(k + 2 as int).last() == parts_spec[k + 1 as int]);
                    }
                    let m_item = &outer[k];
                    let mut clauses_ok = true;
                    if self.has_look_around() {
                        match self.behind {
                            Some((_, is_pos)) => {
                                let outcome = match &behind_opt {
                                    Some(inner_match) => inner_match.end() < m_item.start(),
                                    None => false,
                                };
                                if outcome != is_pos {
                                    clauses_ok = false;
                                }
                            },
                            None => {},
                        }
                        match self.ahead {
                            Some((_, is_pos)) => {
                                let outcome = match &ahead_opt {
                                    Some(last_match) => last_match.start() > m_item.end(),
                                    None => false,
                                };
                                if outcome != is_pos {
                                    clauses_ok = false;
                                }
                            },
                            None => {},
                        }
                        proof {
                            assert(clauses_ok == self.spec_accepts(sample@, outer_spec[k as int]));
                        }
                    }
                    if clauses_ok {
                        let replaced = engine::replace_all(&re, m_item.as_str(), replacement);
                        acc.append(replaced.as_str());
                        proof {
                            assert(replaced@ == pieces_spec[k as int]);
                        }
                    } else {
                        acc.append(m_item.as_str());
                        proof {
                            assert(m_item.text@ == pieces_spec[k as int]);
                        }
                    }
                    let next_part: &String = &parts[k + 1];
                    acc.append(next_part.as_str());
                    proof {
                        assert(acc@ == spec_interleave(
                            parts_spec.take(k + 2 as int),
                            pieces_spec.take(k + 1 as int),
                        ));
                    }
                    k += 1;
                }
                proof {
                    assert(parts_spec.take(parts_spec.len() as int) =~~= parts_spec);
                    assert(pieces_spec.take(pieces_spec.len() as int) =~~= pieces_spec);
                }
                proof {
                    if self.spec_matched_vec(sample@).len() == 0 {
                        let table = utils::spec_capture_table(
                            self.spec_main(),
                            self.spec_ci(),
                            sample@,
                        );
                        if self.spec_has_look_around() {
                            lemma_accepted_empty_rejects_all(*self, sample@, outer_spec);
                        } else {
                            lemma_accepted_all(*self, sample@, outer_spec);
                        }
                        assert forall|k: int| 0 <= k < outer_spec.len() implies #[trigger] pieces_spec[k]
                            == crate::pattern_capture::spec_outer_texts(table)[k] by {
                            assert(outer_spec[k] == crate::pattern_capture::spec_row_head(
                                table[k],
                            ));
                            assert(!(!self.spec_has_look_around() || self.spec_accepts(
                                sample@,
                                outer_spec[k],
                            )) ==> pieces_spec[k] == outer_spec[k].2);
                            assert(pieces_spec[k] == outer_spec[k].2);
                        }
                        assert(pieces_spec =~~= crate::pattern_capture::spec_outer_texts(table));
                        assert(spec_interleave(parts_spec, pieces_spec) == sample@);
                    }
                }
                acc
            },
            None => sample.to_owned(),
        }
    }
}

/// Whether the behind-lookup result carried through the loops stands for
/// what the clause's first-match lookup yields.
pub open spec fn behind_ok_model<'a>(
    ms: MatchSet<'a>,
    haystack: Seq<char>,
    behind_opt: Option<MatchSpan>,
) -> bool {
    match ms.spec_behind() {
        Some((bp, _)) => if spec_compiles(bp, ms.spec_ci()) {
            match spec_first_span(bp, ms.spec_ci(), haystack) {
                Some(im) => behind_opt is Some && behind_opt->0@ == im,
                None => behind_opt is None,
            }
        } else {
            behind_opt is None
        },
        None => behind_opt is None,
    }
}

/// Whether the ahead-lookup result carried through the loops stands for
/// the clause's last distinct span.
pub open spec fn ahead_ok_model<'a>(
    ms: MatchSet<'a>,
    haystack: Seq<char>,
    ahead_opt: Option<MatchSpan>,
) -> bool {
    match ms.spec_ahead() {
        Some((ap, _)) => {
            let v = spec_matches_as_vec(ap, ms.spec_ci(), haystack, false);
            if v.len() > 0 {
                ahead_opt is Some && ahead_opt->0@ == v.last()
            } else {
                ahead_opt is None
            }
        },
        None => ahead_opt is None,
    }
}

/// An empty accepted list under look-around clauses means every core match
/// failed a clause test.
proof fn lemma_accepted_empty_rejects_all<'a>(
    ms: MatchSet<'a>,
    haystack: Seq<char>,
    outer: Seq<(int, int, Seq<char>)>,
)
    requires
        ms.spec_has_look_around(),
        ms.spec_accepted_prefix(haystack, outer).len() == 0,
    ensures
        forall|k: int| 0 <= k < outer.len() ==> !ms.spec_accepts(haystack, #[trigger] outer[k]),
    decreases outer.len(),
{
    if outer.len() > 0 {
        let pre = ms.spec_accepted_prefix(haystack, outer.drop_last());
        assert(pre.len() == 0);
        lemma_accepted_empty_rejects_all(ms, haystack, outer.drop_last());
        assert(!ms.spec_accepts(haystack, outer.last()));
        assert forall|k: int| 0 <= k < outer.len() implies !ms.spec_accepts(
            haystack,
            #[trigger] outer[k],
        ) by {
            if k < outer.len() - 1 {
                assert(outer.drop_last()[k] == outer[k]);
            }
        }
    }
}

/// Without look-around clauses every core match is accepted.
proof fn lemma_accepted_all<'a>(
    ms: MatchSet<'a>,
    haystack: Seq<char>,
    outer: Seq<(int, int, Seq<char>)>,
)
    requires
        !ms.spec_has_look_around(),
    ensures
        ms.spec_accepted_prefix(haystack, outer) == outer,
    decreases outer.len(),
{
    if outer.len() > 0 {
        lemma_accepted_all(ms, haystack, outer.drop_last());
        assert(ms.spec_accepted_prefix(haystack, outer) =~~= outer);
    } else {
        assert(ms.spec_accepted_prefix(haystack, outer) =~~= outer);
    }
}

/// Helper predicates over the core matches.
fn any_starts_after(spans: &Vec<MatchSpan>, end: usize) -> (r: bool)
    ensures
        r == exists|k: int|
            0 <= k < spans.deep_view().len() && (end as int) < (#[trigger] spans.deep_view()[k]).0,
{
    let mut k: usize = 0;
    while k < spans.len()
        invariant
            0 <= k <= spans@.len(),
            forall|j: int| 0 <= j < k ==> !((end as int) < (#[trigger] spans.deep_view()[j]).0),
        decreases spans@.len() - k,
    {
        if end < spans[k].start {
            proof {
                assert((end as int) < spans.deep_view()[k as int].0);
            }
            return true;
        }
        proof {
            assert(spans.deep_view()[k as int].0 == spans@[k as int]@.0);
        }
        k += 1;
    }
    false
}

/// Whether some span ends strictly before the given start offset.
fn any_ends_before(spans: &Vec<MatchSpan>, start: usize) -> (r: bool)
    ensures
        r == exists|k: int|
            0 <= k < spans.deep_view().len() && (start as int) > (
            #[trigger] spans.deep_view()[k]).1,
{
    let mut k: usize = 0;
    while k < spans.len()
        invariant
            0 <= k <= spans@.len(),
            forall|j: int| 0 <= j < k ==> !((start as int) > (#[trigger] spans.deep_view()[j]).1),
        decreases spans@.len() - k,
    {
        if start > spans[k].end {
            proof {
                assert((start as int) > spans.deep_view()[k as int].1);
            }
            return true;
        }
        proof {
            assert(spans.deep_view()[k as int].1 == spans@[k as int]@.1);
        }
        k += 1;
    }
    false
}

/// Evaluate look-around match sets against a string.
pub trait PatternSet {
    spec fn set_model(&self) -> Seq<char>;

    /// The set's outcome, or its configuration or syntax error: an empty
    /// core is a configuration error, a core or configured clause pattern
    /// that does not compile is a syntax error.
    fn pattern_set_match_result(&self, ms: &MatchSet) -> (r: Result<bool, PatternError>)
        ensures
            ms.spec_main().len() == 0 ==> r is Err && r->Err_0 is EmptyCore,
            ms.spec_main().len() > 0 ==> ((r is Ok <==> ms.spec_all_patterns_compile()) && (
            r is Err ==> r->Err_0 is Syntax)),
            ms.spec_main().len() > 0 && !ms.spec_has_look_around() && r is Ok ==> r->Ok_0
                == spec_matches(ms.spec_main(), ms.spec_ci(), self.set_model()),
            ms.spec_main().len() > 0 && ms.spec_has_look_around() && r is Ok ==> r->Ok_0
                == ms.spec_set_outcome(self.set_model()),
    ;

    /// The set's outcome; every failure degrades to false.
    fn pattern_set_match(&self, ms: &MatchSet) -> (r: bool)
        ensures
            ms.spec_main().len() == 0 ==> r == false,
            ms.spec_main().len() > 0 && !ms.spec_has_look_around() ==> r == (
            ms.spec_all_patterns_compile() && spec_matches(
                ms.spec_main(),
                ms.spec_ci(),
                self.set_model(),
            )),
            ms.spec_main().len() > 0 && ms.spec_has_look_around() ==> r == (
            ms.spec_all_patterns_compile() && ms.spec_set_outcome(self.set_model())),
    {
        match self.pattern_set_match_result(ms) {
            Ok(is_matched) => is_matched,
            Err(_) => false,
        }
    }

    /// The accepted core-match spans of the set.
    fn pattern_set_matches(&self, ms: &MatchSet) -> (r: Vec<MatchSpan>)
        ensures
            r.deep_view() == ms.spec_matched_vec(self.set_model()),
    ;

    /// The haystack rebuilt with the accepted matches replaced.
    fn pattern_set_replace(&self, ms: &MatchSet, replacement: &str) -> (r: String)
        ensures
            r@ == ms.spec_set_replace(self.set_model(), replacement@),
    ;
}

impl PatternSet for str {
    open spec fn set_model(&self) -> Seq<char> {
        self@
    }

    fn pattern_set_match_result(&self, ms: &MatchSet) -> (r: Result<bool, PatternError>) {
        ms.matches_result(self)
    }

    fn pattern_set_matches(&self, ms: &MatchSet) -> (r: Vec<MatchSpan>) {
        ms.matched_vec(self)
    }

    fn pattern_set_replace(&self, ms: &MatchSet, replacement: &str) -> (r: String) {
        ms.replace(self, replacement)
    }
}

/// With both look-around clauses configured, a core pattern present and
/// core matches found, the set's outcome is exactly the conjunction of the
/// two clause tests: each clause's any-match outcome must equal its
/// declared positivity. A clause whose own lookup locates nothing has a
/// false outcome, so it agrees only with a negative positivity. Flipping
/// either declared positivity therefore always flips that clause's
/// agreement, and with it the conjunction whenever the other clause holds.
pub proof fn lemma_look_around_conjunction<'a>(ms: MatchSet<'a>, haystack: Seq<char>)
    requires
        ms.spec_main().len() > 0,
        ms.spec_behind() is Some,
        ms.spec_ahead() is Some,
        ms.spec_outer(haystack).len() > 0,
    ensures
        ms.spec_set_outcome(haystack) == ((ms.spec_any_behind_outcome(
            haystack,
            (ms.spec_behind()->0).0,
        ) == (ms.spec_behind()->0).1) && (ms.spec_any_ahead_outcome(
            haystack,
            (ms.spec_ahead()->0).0,
        ) == (ms.spec_ahead()->0).1)),
{
}

} // verus!
