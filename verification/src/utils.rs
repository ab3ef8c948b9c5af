use vstd::prelude::*;
use crate::engine;
use crate::enums::WordBounds;

verus! {

/// The pattern source actually handed to the regex engine: when the
/// case-insensitive flag is set and the pattern does not already open an
/// inline flag group (a literal `(?` prefix), the `(?i)` inline flag group
/// is prepended; otherwise the pattern is compiled unchanged.
pub open spec fn spec_build_src(pattern: Seq<char>, case_insensitive: bool) -> Seq<char> {
    if case_insensitive && !(pattern.len() >= 2 && pattern[0] == '(' && pattern[1] == '?') {
        seq!['(', '?', 'i', ')'] + pattern
    } else {
        pattern
    }
}

/// Whether `build_regex` succeeds for this pattern and flag.
pub open spec fn spec_compiles(pattern: Seq<char>, case_insensitive: bool) -> bool {
    engine::pattern_compiles(spec_build_src(pattern, case_insensitive))
}

/// Whether the pattern (annotated per the flag) matches somewhere in the
/// haystack.
pub open spec fn spec_matches(pattern: Seq<char>, case_insensitive: bool, haystack: Seq<char>) -> bool {
    engine::pattern_found(spec_build_src(pattern, case_insensitive), haystack)
}

/// The error a pattern operation reports: a malformed pattern with its
/// syntax diagnostic, or a look-around match set evaluated without a core
/// pattern.
#[derive(Debug)]
pub enum PatternError {
    Syntax(String),
    EmptyCore,
}

/// What the regex engine replaces every match with, under the annotated
/// pattern a flag pair produces.
pub open spec fn spec_replaced(
    pattern: Seq<char>,
    case_insensitive: bool,
    haystack: Seq<char>,
    replacement: Seq<char>,
) -> Seq<char> {
    engine::replaced_all_of(spec_build_src(pattern, case_insensitive), haystack, replacement)
}

/// What the regex engine makes of replacing only the leftmost match.
pub open spec fn spec_replaced_first(
    pattern: Seq<char>,
    case_insensitive: bool,
    haystack: Seq<char>,
    replacement: Seq<char>,
) -> Seq<char> {
    engine::replaced_first_of(spec_build_src(pattern, case_insensitive), haystack, replacement)
}

/// The parts the regex engine splits a haystack into.
pub open spec fn spec_split_parts(
    pattern: Seq<char>,
    case_insensitive: bool,
    haystack: Seq<char>,
) -> Seq<Seq<char>> {
    engine::split_parts_of(spec_build_src(pattern, case_insensitive), haystack)
}

/// The at-most-`limit` parts the regex engine splits a haystack into.
pub open spec fn spec_splitn_parts(
    pattern: Seq<char>,
    case_insensitive: bool,
    haystack: Seq<char>,
    limit: int,
) -> Seq<Seq<char>> {
    engine::splitn_parts_of(spec_build_src(pattern, case_insensitive), haystack, limit)
}

/// The capture rows the regex engine yields over a haystack.
pub open spec fn spec_capture_table(
    pattern: Seq<char>,
    case_insensitive: bool,
    haystack: Seq<char>,
) -> Seq<Seq<Option<(int, int, Seq<char>)>>> {
    engine::capture_table(spec_build_src(pattern, case_insensitive), haystack)
}

/// The leftmost match the regex engine finds, if any.
pub open spec fn spec_first_span(
    pattern: Seq<char>,
    case_insensitive: bool,
    haystack: Seq<char>,
) -> Option<(int, int, Seq<char>)> {
    engine::first_span_of(spec_build_src(pattern, case_insensitive), haystack)
}

/// The capture row of the first match, if any.
pub open spec fn spec_first_captures(
    pattern: Seq<char>,
    case_insensitive: bool,
    haystack: Seq<char>,
) -> Option<Seq<Option<(int, int, Seq<char>)>>> {
    engine::first_captures_of(spec_build_src(pattern, case_insensitive), haystack)
}

/// Build a compiled regular expression, prepending a case-insensitive
/// inline flag group when asked for unless the pattern already starts with
/// its own inline flag group. A compilation failure carries the engine's
/// syntax diagnostic.
pub fn build_regex(pattern: &str, case_insensitive: bool) -> (r: Result<regex::Regex, PatternError>)
    ensures
        r is Ok <==> spec_compiles(pattern@, case_insensitive),
        r is Ok ==> engine::regex_source(r->Ok_0) == spec_build_src(pattern@, case_insensitive),
        r is Err ==> r->Err_0 is Syntax,
{
    let compiled = if case_insensitive && !starts_with_flag_group(pattern) {
        let mut annotated = String::from_str("(?i)");
        annotated.append(pattern);
        proof {
            reveal_strlit("(?i)");
            assert("(?i)"@ =~= seq!['(', '?', 'i', ')']);
        }
        engine::compile(annotated.as_str())
    } else {
        engine::compile(pattern)
    };
    match compiled {
        Ok(re) => Ok(re),
        Err(msg) => Err(PatternError::Syntax(msg)),
    }
}

/// Whether the pattern opens with a literal `(?`, the start of an inline
/// flag or non-capturing group.
fn starts_with_flag_group(pattern: &str) -> (r: bool)
    ensures
        r == (pattern@.len() >= 2 && pattern@[0] == '(' && pattern@[1] == '?'),
{
    if pattern.unicode_len() < 2 {
        false
    } else {
        pattern.get_char(0) == '(' && pattern.get_char(1) == '?'
    }
}

/// The pattern for `word` with the boundary anchors `bounds` calls for.
pub fn build_word_pattern(word: &str, bounds: WordBounds) -> (r: String)
    ensures
        r@ == crate::enums::spec_word_bounds_pattern(bounds, word@),
{
    bounds.to_pattern(word)
}

/// The whole-word pattern for `word`: boundary anchors on both sides.
pub open spec fn spec_whole_word(word: Seq<char>) -> Seq<char> {
    crate::enums::spec_word_bounds_pattern(WordBounds::Both, word)
}

/// Build a pattern that only matches `word` as a whole word.
pub fn build_whole_word_pattern(word: &str) -> (r: String)
    ensures
        r@ == spec_whole_word(word@),
{
    build_word_pattern(word, WordBounds::Both)
}

/// The words joined with `|` into one alternation.
pub open spec fn spec_alternation(words: Seq<Seq<char>>) -> Seq<char>
    decreases words.len(),
{
    if words.len() == 0 {
        Seq::empty()
    } else if words.len() == 1 {
        words[0]
    } else {
        spec_alternation(words.drop_last()) + seq!['|'] + words.last()
    }
}

/// The whole-word alternation pattern for a set of words:
/// `(w1|w2|...)` wrapped in boundary anchors on both sides.
pub open spec fn spec_any_word_pattern(words: Seq<Seq<char>>) -> Seq<char> {
    spec_whole_word(seq!['('] + spec_alternation(words) + seq![')'])
}

/// Build a whole-word pattern matching any of the given words:
/// an alternation group wrapped in boundary anchors.
pub fn build_optional_whole_word_pattern(words: &[&str]) -> (r: String)
    ensures
        r@ == spec_any_word_pattern(words.deep_view()),
{
    let mut joined = String::from_str("(");
    proof {
        reveal_strlit("(");
        assert(joined@ =~= seq!['(']);
        assert(words.deep_view().take(0).len() == 0);
    }
    let mut i: usize = 0;
    while i < words.len()
        invariant
            0 <= i <= words@.len(),
            joined@ =~= seq!['('] + spec_alternation(words.deep_view().take(i as int)),
        decreases words@.len() - i,
    {
        if i > 0 {
            joined.append("|");
            proof {
                reveal_strlit("|");
                    assert("|"@ =~= seq!['|']);
            }
        }
        joined.append(words[i]);
        proof {
            let dv = words.deep_view();
            assert(dv.take(i + 1 as int).drop_last() =~= dv.take(i as int));
            assert(dv.take(i + 1 as int).last() == dv[i as int]);
            if i > 0 {
                assert(joined@ =~= seq!['('] + spec_alternation(dv.take(i + 1 as int)));
            } else {
                assert(dv.take(1).len() == 1);
                assert(joined@ =~= seq!['('] + spec_alternation(dv.take(1)));
            }
        }
        i += 1;
    }
    joined.append(")");
    proof {
        reveal_strlit(")");
                    assert(")"@ =~= seq![')']);
        assert(words.deep_view().take(words@.len() as int) =~= words.deep_view());
    }
    build_whole_word_pattern(joined.as_str())
}

/// Pair every string with the same boolean, as the mixed-flag match methods
/// expect.
pub fn strs_to_str_bool_pairs<'a>(strs: &[&'a str], bool_val: bool) -> (r: Vec<(&'a str, bool)>)
    ensures
        r@.len() == strs@.len(),
        forall|i: int| 0 <= i < r@.len() ==> (#[trigger] r@[i]).0@ == strs@[i]@ && r@[i].1 == bool_val,
{
    let mut out: Vec<(&str, bool)> = Vec::new();
    let mut i: usize = 0;
    while i < strs.len()
        invariant
            0 <= i <= strs@.len(),
            out@.len() == i,
            forall|j: int| 0 <= j < i ==> (#[trigger] out@[j]).0@ == strs@[j]@ && out@[j].1 == bool_val,
        decreases strs@.len() - i,
    {
        out.push((strs[i], bool_val));
        proof {
            assert(out@[i as int].0@ == strs@[i as int]@);
        }
        i += 1;
    }
    out
}

} // verus!
