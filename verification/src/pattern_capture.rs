use vstd::prelude::*;
use crate::utils;
use crate::utils::{spec_capture_table, spec_compiles, spec_first_captures, spec_first_span};
use crate::engine;

verus! {

/// One match within a haystack: its byte-offset range and the matched text.
/// Offsets come from the regex engine and always satisfy `start <= end`,
/// falling on UTF-8 boundaries of the original haystack.
pub struct MatchSpan {
    pub start: usize,
    pub end: usize,
    pub text: String,
}

impl View for MatchSpan {
    type V = (int, int, Seq<char>);

    open spec fn view(&self) -> (int, int, Seq<char>) {
        (self.start as int, self.end as int, self.text@)
    }
}

impl DeepView for MatchSpan {
    type V = (int, int, Seq<char>);

    open spec fn deep_view(&self) -> (int, int, Seq<char>) {
        self.view()
    }
}

impl Clone for MatchSpan {
    fn clone(&self) -> (r: Self)
        ensures
            r@ == self@,
    {
        MatchSpan { start: self.start, end: self.end, text: self.text.clone() }
    }
}

impl MatchSpan {
    /// Byte offset of the start of the match in the haystack.
    pub fn start(&self) -> (r: usize)
        ensures
            r as int == self@.0,
    {
        self.start
    }

    /// Byte offset just past the end of the match in the haystack.
    pub fn end(&self) -> (r: usize)
        ensures
            r as int == self@.1,
    {
        self.end
    }

    /// The matched text.
    pub fn as_str(&self) -> (r: &str)
        ensures
            r@ == self@.2,
    {
        self.text.as_str()
    }
}


/// The whole-match span of one capture row: group 0, which the engine
/// always reports.
pub open spec fn spec_row_head(row: Seq<Option<(int, int, Seq<char>)>>) -> (int, int, Seq<char>) {
    if row.len() > 0 && row[0] is Some {
        row[0]->0
    } else {
        (0, 0, Seq::empty())
    }
}

/// The whole-match spans of a capture table, one per successive match.
pub open spec fn spec_outer_spans(table: Seq<Seq<Option<(int, int, Seq<char>)>>>) -> Seq<
    (int, int, Seq<char>),
> {
    table.map_values(|row: Seq<Option<(int, int, Seq<char>)>>| spec_row_head(row))
}

/// The whole-match texts of a capture table, one per successive match.
pub open spec fn spec_outer_texts(table: Seq<Seq<Option<(int, int, Seq<char>)>>>) -> Seq<
    Seq<char>,
> {
    table.map_values(|row: Seq<Option<(int, int, Seq<char>)>>| spec_row_head(row).2)
}

/// Fold one capture row into the running list of distinct spans: each
/// participating group is appended unless an identical span (same text and
/// offsets) was already collected.
pub open spec fn spec_add_row(
    acc: Seq<(int, int, Seq<char>)>,
    row: Seq<Option<(int, int, Seq<char>)>>,
) -> Seq<(int, int, Seq<char>)>
    decreases row.len(),
{
    if row.len() == 0 {
        acc
    } else {
        let pre = spec_add_row(acc, row.drop_last());
        match row.last() {
            Some(m) => if pre.contains(m) {
                pre
            } else {
                pre.push(m)
            },
            None => pre,
        }
    }
}

/// The distinct spans of a capture table, rows then groups, keeping first
/// occurrences: the order in which the unique-match listing reports them.
pub open spec fn spec_dedup_table(table: Seq<Seq<Option<(int, int, Seq<char>)>>>) -> Seq<
    (int, int, Seq<char>),
>
    decreases table.len(),
{
    if table.len() == 0 {
        Seq::empty()
    } else {
        spec_add_row(spec_dedup_table(table.drop_last()), table.last())
    }
}

/// The span list a match listing yields: whole matches only, or every
/// distinct group span; empty when the pattern does not compile.
pub open spec fn spec_matches_as_vec(
    pattern: Seq<char>,
    case_insensitive: bool,
    haystack: Seq<char>,
    outer: bool,
) -> Seq<(int, int, Seq<char>)> {
    if spec_compiles(pattern, case_insensitive) {
        if outer {
            spec_outer_spans(spec_capture_table(pattern, case_insensitive, haystack))
        } else {
            spec_dedup_table(spec_capture_table(pattern, case_insensitive, haystack))
        }
    } else {
        Seq::empty()
    }
}

/// Whether a pattern carries a parenthesised group of its own.
pub open spec fn spec_has_parens(p: Seq<char>) -> bool {
    p.contains('(') && p.contains(')')
}

/// Whether the pattern holds both an opening and a closing parenthesis.
fn has_parentheses(pattern: &str) -> (r: bool)
    ensures
        r == spec_has_parens(pattern@),
{
    let v = crate::charseq::to_chars(pattern);
    let mut has_open = false;
    let mut has_close = false;
    let mut i: usize = 0;
    while i < v.len()
        invariant
            0 <= i <= v@.len(),
            v@ == pattern@,
            has_open == exists|j: int| 0 <= j < i && v@[j] == '(',
            has_close == exists|j: int| 0 <= j < i && v@[j] == ')',
        decreases v@.len() - i,
    {
        if v[i] == '(' {
            proof {
                assert(v@[i as int] == '(');
            }
            has_open = true;
        }
        if v[i] == ')' {
            proof {
                assert(v@[i as int] == ')');
            }
            has_close = true;
        }
        i += 1;
    }
    proof {
        if has_open {
            let w = choose|j: int| 0 <= j < v@.len() && v@[j] == '(';
            assert(pattern@[w] == '(');
        } else {
            if pattern@.contains('(') {
                let w = choose|j: int| 0 <= j < pattern@.len() && pattern@[j] == '(';
                assert(v@[w] == '(');
            }
        }
        if has_close {
            let w = choose|j: int| 0 <= j < v@.len() && v@[j] == ')';
            assert(pattern@[w] == ')');
        } else {
            if pattern@.contains(')') {
                let w = choose|j: int| 0 <= j < pattern@.len() && pattern@[j] == ')';
                assert(v@[w] == ')');
            }
        }
    }
    has_open && has_close
}

/// Whether the list already holds a span with these offsets and text.
fn contains_span(spans: &Vec<MatchSpan>, m: &MatchSpan) -> (r: bool)
    ensures
        r == spans.deep_view().contains(m@),
{
    let mut i: usize = 0;
    while i < spans.len()
        invariant
            0 <= i <= spans@.len(),
            forall|j: int| 0 <= j < i ==> spans.deep_view()[j] != m@,
        decreases spans@.len() - i,
    {
        let s = &spans[i];
        if s.start == m.start && s.end == m.end && s.text == m.text {
            proof {
                assert(spans.deep_view()[i as int] == m@);
            }
            return true;
        }
        proof {
            assert(spans.deep_view()[i as int] != m@);
        }
        i += 1;
    }
    proof {
        if spans.deep_view().contains(m@) {
            let w = choose|j: int|
                0 <= j < spans.deep_view().len() && spans.deep_view()[j] == m@;
            assert(spans.deep_view()[w] == m@);
        }
    }
    false
}

/// Collect the match spans of a pattern over a haystack: the whole-match
/// spans in order when `outer` is set, else every distinct group span.
/// The compiled pattern rides along for reuse; a pattern that does not
/// compile yields no spans and no handle.
pub fn find_matches_within_haystack(
    haystack: &str,
    pattern: &str,
    case_insensitive: bool,
    outer: bool,
) -> (r: (Vec<MatchSpan>, Option<regex::Regex>))
    ensures
        r.0.deep_view() == spec_matches_as_vec(pattern@, case_insensitive, haystack@, outer),
        r.1 is Some <==> spec_compiles(pattern@, case_insensitive),
        r.1 is Some ==> engine::regex_source(r.1->0) == utils::spec_build_src(
            pattern@,
            case_insensitive,
        ),
{
    match utils::build_regex(pattern, case_insensitive) {
        Ok(re) => {
            let rows = engine::captures_rows(&re, haystack);
            let ghost table = spec_capture_table(pattern@, case_insensitive, haystack@);
            let mut out: Vec<MatchSpan> = Vec::new();
            if outer {
                let mut i: usize = 0;
                while i < rows.len()
                    invariant
                        0 <= i <= rows@.len(),
                        rows.deep_view() == table,
                        forall|j: int|
                            0 <= j < table.len() ==> (#[trigger] table[j]).len() >= 1 && table[j][0]
                                is Some,
                        out.deep_view() =~~= spec_outer_spans(table.take(i as int)),
                    decreases rows@.len() - i,
                {
                    proof {
                        assert(out.deep_view().len() == out@.len());
                        assert(table[i as int].len() >= 1 && table[i as int][0] is Some);
                        assert(rows.deep_view()[i as int] == rows@[i as int].deep_view());
                        assert(rows@[i as int].deep_view()[0] == rows@[i as int]@[0].deep_view());
                    }
                    let row = &rows[i];
                    match &row[0] {
                        Some(m) => {
                            proof {
                                assert(row@[0] == Some(*m));
                                assert(rows@[i as int]@[0].deep_view() == Some(m.deep_view()));
                                assert(m.deep_view() == m@);
                                assert(table[i as int][0] == Some(m@));
                            }
                            out.push(m.clone());
                            proof {
                                assert(table[i as int].len() > 0);
                                assert(table[i as int][0] is Some);
                                assert(spec_row_head(table[i as int]) == table[i as int][0]->0);
                                assert(table[i as int][0]->0 == m@);
                                assert(spec_row_head(table[i as int]) == m@);
                                assert(out.deep_view().len() == i + 1);
                                assert forall|j: int| 0 <= j < i + 1 implies #[trigger] out.deep_view()[j]
                                    == spec_outer_spans(table.take(i + 1 as int))[j] by {
                                    assert(spec_outer_spans(table.take(i + 1 as int))[j]
                                        == spec_row_head(table.take(i + 1 as int)[j]));
                                    assert(table.take(i + 1 as int)[j] == table[j]);
                                    if j < i {
                                        assert(out.deep_view()[j] == spec_outer_spans(
                                            table.take(i as int),
                                        )[j]);
                                        assert(spec_outer_spans(table.take(i as int))[j]
                                            == spec_row_head(table.take(i as int)[j]));
                                    } else {
                                        assert(out.deep_view()[j] == m@);
                                    }
                                }
                                assert(out.deep_view() =~~= spec_outer_spans(
                                    table.take(i + 1 as int),
                                ));
                            }
                        },
                        _ => {
                            proof {
                                assert(false);
                            }
                        },
                    }
                    i += 1;
                }
                proof {
                    assert(table.take(table.len() as int) =~~= table);
                }
            } else {
                let mut i: usize = 0;
                while i < rows.len()
                    invariant
                        0 <= i <= rows@.len(),
                        rows.deep_view() == table,
                        out.deep_view() =~~= spec_dedup_table(table.take(i as int)),
                    decreases rows@.len() - i,
                {
                    proof {
                        assert(table.take(i + 1 as int).drop_last() =~~= table.take(i as int));
                        assert(table.take(i + 1 as int).last() == table[i as int]);
                    }
                    let row = &rows[i];
                    let ghost base = spec_dedup_table(table.take(i as int));
                    let mut g: usize = 0;
                    while g < row.len()
                        invariant
                            0 <= g <= row@.len(),
                            rows.deep_view() == table,
                            0 <= i < rows@.len(),
                            row == &rows@[i as int],
                            base == spec_dedup_table(table.take(i as int)),
                            out.deep_view() =~~= spec_add_row(base, table[i as int].take(g as int)),
                        decreases row@.len() - g,
                    {
                        proof {
                            assert(out.deep_view().len() == out@.len());
                            assert(table[i as int] == rows@[i as int].deep_view());
                            assert(table[i as int].take(g + 1 as int).drop_last() =~~= table[
                                i as int
                            ].take(g as int));
                            assert(table[i as int].take(g + 1 as int).last() == table[i as int][
                                g as int
                            ]);
                            assert(rows@[i as int].deep_view()[g as int] == rows@[i as int]@[
                                g as int
                            ].deep_view());
                        }
                        match &row[g] {
                            Some(m) => {
                                if !contains_span(&out, m) {
                                    out.push(m.clone());
                                }
                                proof {
                                    assert(table[i as int][g as int] == Some(m@));
                                    assert(out.deep_view() =~~= spec_add_row(
                                        base,
                                        table[i as int].take(g + 1 as int),
                                    ));
                                }
                            },
                            _ => {
                                proof {
                                    assert(table[i as int][g as int] is None);
                                    assert(out.deep_view() =~~= spec_add_row(
                                        base,
                                        table[i as int].take(g + 1 as int),
                                    ));
                                }
                            },
                        }
                        g += 1;
                    }
                    proof {
                        assert(table[i as int].take(rows@[i as int]@.len() as int) =~~= table[
                            i as int
                        ]);
                        assert(out.deep_view() =~~= spec_dedup_table(table.take(i + 1 as int)));
                    }
                    i += 1;
                }
                proof {
                    assert(table.take(table.len() as int) =~~= table);
                }
            }
            (out, Some(re))
        },
        Err(_) => (Vec::new(), None),
    }
}


/// The first-or-inner match a pattern yields: for a pattern with its own
/// parenthesised group, the second distinct span (the first inner group)
/// when there is one; otherwise the first distinct span.
pub open spec fn spec_first_inner(
    pattern: Seq<char>,
    case_insensitive: bool,
    haystack: Seq<char>,
) -> Option<(int, int, Seq<char>)> {
    let v = spec_matches_as_vec(pattern, case_insensitive, haystack, false);
    if spec_has_parens(pattern) && v.len() > 1 {
        Some(v[1])
    } else if v.len() > 0 {
        Some(v[0])
    } else {
        None
    }
}

/// Capture-level match methods: span listings, first/last matches and
/// counts, all over the same one-time-compiled pattern.
pub trait PatternCapture {
    spec fn cap_model(&self) -> Seq<char>;

    /// The capture groups of the first match, if the pattern compiles and
    /// matches.
    fn pattern_captures(&self, pattern: &str, case_insensitive: bool) -> (r: Option<
        Vec<Option<MatchSpan>>,
    >)
        ensures
            spec_compiles(pattern@, case_insensitive) ==> match r {
                Some(v) => spec_first_captures(pattern@, case_insensitive, self.cap_model())
                    == Some(v.deep_view()),
                None => spec_first_captures(pattern@, case_insensitive, self.cap_model()) is None,
            },
            !spec_compiles(pattern@, case_insensitive) ==> r is None,
    ;

    /// The span listing: whole matches only, or every distinct group span.
    fn pattern_matches_as_vec(&self, pattern: &str, case_insensitive: bool, outer: bool) -> (r: Vec<
        MatchSpan,
    >)
        ensures
            r.deep_view() == spec_matches_as_vec(
                pattern@,
                case_insensitive,
                self.cap_model(),
                outer,
            ),
    ;

    /// The leftmost match, if the pattern compiles and matches.
    fn pattern_first_match(&self, pattern: &str, case_insensitive: bool) -> (r: Option<MatchSpan>)
        ensures
            spec_compiles(pattern@, case_insensitive) ==> match r {
                Some(m) => spec_first_span(pattern@, case_insensitive, self.cap_model()) == Some(
                    m@,
                ) && m@.0 <= m@.1,
                None => spec_first_span(pattern@, case_insensitive, self.cap_model()) is None,
            },
            !spec_compiles(pattern@, case_insensitive) ==> r is None,
    ;

    /// Every distinct group span.
    fn pattern_matches_vec(&self, pattern: &str, case_insensitive: bool) -> (r: Vec<MatchSpan>)
        ensures
            r.deep_view() == spec_matches_as_vec(
                pattern@,
                case_insensitive,
                self.cap_model(),
                false,
            ),
    {
        self.pattern_matches_as_vec(pattern, case_insensitive, false)
    }

    /// Whole-match spans only.
    fn pattern_matches_outer(&self, pattern: &str, case_insensitive: bool) -> (r: Vec<MatchSpan>)
        ensures
            r.deep_view() == spec_matches_as_vec(
                pattern@,
                case_insensitive,
                self.cap_model(),
                true,
            ),
    {
        self.pattern_matches_as_vec(pattern, case_insensitive, true)
    }

    /// The first span, or the first inner-group span for a parenthesised
    /// pattern.
    fn pattern_first_inner_match(&self, pattern: &str, case_insensitive: bool) -> (r: Option<
        MatchSpan,
    >)
        ensures
            match r {
                Some(m) => spec_first_inner(pattern@, case_insensitive, self.cap_model()) == Some(
                    m@,
                ),
                None => spec_first_inner(pattern@, case_insensitive, self.cap_model()) is None,
            },
    {
        let matched_segments = self.pattern_matches_vec(pattern, case_insensitive);
        proof {
            assert(matched_segments.deep_view().len() == matched_segments@.len());
        }
        let use_inner = has_parentheses(pattern) && matched_segments.len() > 1;
        if use_inner {
            let m = &matched_segments[1];
            proof {
                assert(matched_segments.deep_view()[1] == m@);
            }
            Some(m.clone())
        } else if matched_segments.len() > 0 {
            let m = &matched_segments[0];
            proof {
                assert(matched_segments.deep_view()[0] == m@);
            }
            Some(m.clone())
        } else {
            None
        }
    }

    /// The last distinct span, if any.
    fn pattern_last_match(&self, pattern: &str, case_insensitive: bool) -> (r: Option<MatchSpan>)
        ensures
            ({
                let v = spec_matches_as_vec(pattern@, case_insensitive, self.cap_model(), false);
                match r {
                    Some(m) => v.len() > 0 && v.last() == m@,
                    None => v.len() == 0,
                }
            }),
    {
        let matched_segments = self.pattern_matches_vec(pattern, case_insensitive);
        proof {
            assert(matched_segments.deep_view().len() == matched_segments@.len());
        }
        if matched_segments.len() > 0 {
            let m = &matched_segments[matched_segments.len() - 1];
            proof {
                assert(matched_segments.deep_view()[matched_segments@.len() - 1] == m@);
            }
            Some(m.clone())
        } else {
            None
        }
    }

    /// The first and last distinct spans; both are the same span when only
    /// one exists.
    fn pattern_first_last_matches(&self, pattern: &str, case_insensitive: bool) -> (r: Option<
        (MatchSpan, MatchSpan),
    >)
        ensures
            ({
                let v = spec_matches_as_vec(pattern@, case_insensitive, self.cap_model(), false);
                match r {
                    Some(pair) => v.len() > 0 && v[0] == pair.0@ && v.last() == pair.1@,
                    None => v.len() == 0,
                }
            }),
    {
        let matched_segments = self.pattern_matches_vec(pattern, case_insensitive);
        proof {
            assert(matched_segments.deep_view().len() == matched_segments@.len());
        }
        if matched_segments.len() > 0 {
            let first = &matched_segments[0];
            let last = &matched_segments[matched_segments.len() - 1];
            proof {
                assert(matched_segments.deep_view()[0] == first@);
                assert(matched_segments.deep_view()[matched_segments@.len() - 1] == last@);
            }
            Some((first.clone(), last.clone()))
        } else {
            None
        }
    }

    /// The byte offset where the first match starts.
    fn pattern_first_index(&self, pattern: &str, case_insensitive: bool) -> (r: Option<usize>)
        ensures
            ({
                let m = spec_first_span(pattern@, case_insensitive, self.cap_model());
                if spec_compiles(pattern@, case_insensitive) {
                    match r {
                        Some(i) => m is Some && i as int == (m->0).0,
                        None => m is None,
                    }
                } else {
                    r is None
                }
            }),
    {
        match self.pattern_first_match(pattern, case_insensitive) {
            Some(first) => Some(first.start()),
            None => None,
        }
    }

    /// The byte offset just past the first match.
    fn pattern_first_end_index(&self, pattern: &str, case_insensitive: bool) -> (r: Option<usize>)
        ensures
            ({
                let m = spec_first_span(pattern@, case_insensitive, self.cap_model());
                if spec_compiles(pattern@, case_insensitive) {
                    match r {
                        Some(i) => m is Some && i as int == (m->0).1,
                        None => m is None,
                    }
                } else {
                    r is None
                }
            }),
    {
        match self.pattern_first_match(pattern, case_insensitive) {
            Some(first) => Some(first.end()),
            None => None,
        }
    }

    /// The byte offset where the first located match starts (the leftmost
    /// match anchors this lookup too).
    fn pattern_last_start_index(&self, pattern: &str, case_insensitive: bool) -> (r: Option<usize>)
        ensures
            ({
                let m = spec_first_span(pattern@, case_insensitive, self.cap_model());
                if spec_compiles(pattern@, case_insensitive) {
                    match r {
                        Some(i) => m is Some && i as int == (m->0).0,
                        None => m is None,
                    }
                } else {
                    r is None
                }
            }),
    {
        match self.pattern_first_match(pattern, case_insensitive) {
            Some(first) => Some(first.start()),
            None => None,
        }
    }

    /// The byte offset just past the first located match (the leftmost
    /// match anchors this lookup too).
    fn pattern_last_index(&self, pattern: &str, case_insensitive: bool) -> (r: Option<usize>)
        ensures
            ({
                let m = spec_first_span(pattern@, case_insensitive, self.cap_model());
                if spec_compiles(pattern@, case_insensitive) {
                    match r {
                        Some(i) => m is Some && i as int == (m->0).1,
                        None => m is None,
                    }
                } else {
                    r is None
                }
            }),
    {
        match self.pattern_first_match(pattern, case_insensitive) {
            Some(first) => Some(first.end()),
            None => None,
        }
    }

    /// How many distinct spans the pattern yields.
    fn count_pattern(&self, pattern: &str, case_insensitive: bool) -> (r: usize)
        ensures
            r as int == spec_matches_as_vec(
                pattern@,
                case_insensitive,
                self.cap_model(),
                false,
            ).len(),
    {
        let matched_segments = self.pattern_matches_vec(pattern, case_insensitive);
        proof {
            assert(matched_segments.deep_view().len() == matched_segments@.len());
        }
        matched_segments.len()
    }

    /// How many distinct spans the whole-word form of the word yields.
    fn count_word(&self, word: &str, case_insensitive: bool) -> (r: usize)
        ensures
            r as int == spec_matches_as_vec(
                utils::spec_whole_word(word@),
                case_insensitive,
                self.cap_model(),
                false,
            ).len(),
    {
        let pattern = utils::build_whole_word_pattern(word);
        let matched_segments = self.pattern_matches_vec(pattern.as_str(), case_insensitive);
        proof {
            assert(matched_segments.deep_view().len() == matched_segments@.len());
        }
        matched_segments.len()
    }
}

impl PatternCapture for str {
    open spec fn cap_model(&self) -> Seq<char> {
        self@
    }

    fn pattern_captures(&self, pattern: &str, case_insensitive: bool) -> (r: Option<
        Vec<Option<MatchSpan>>,
    >) {
        match utils::build_regex(pattern, case_insensitive) {
            Ok(re) => engine::captures_first(&re, self),
            Err(_) => None,
        }
    }

    fn pattern_matches_as_vec(&self, pattern: &str, case_insensitive: bool, outer: bool) -> (r: Vec<
        MatchSpan,
    >) {
        let (matched_items, _rgx) = find_matches_within_haystack(
            self,
            pattern,
            case_insensitive,
            outer,
        );
        matched_items
    }

    fn pattern_first_match(&self, pattern: &str, case_insensitive: bool) -> (r: Option<MatchSpan>) {
        match utils::build_regex(pattern, case_insensitive) {
            Ok(re) => engine::find(&re, self),
            Err(_) => None,
        }
    }
}

} // verus!
