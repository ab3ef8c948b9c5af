use vstd::prelude::*;
use crate::charseq::spec_interleave;
use crate::pattern_capture::{spec_outer_texts, MatchSpan};

verus! {

// The trusted interface to the `regex` crate (plus the few pieces of `std`
// that vstd leaves unspecified). Every item here is believed, not proved:
// each wrapper's contract states only what the called function's own source
// and documentation show. All results of the regex engine are deterministic
// functions of the pattern source and the haystack, so they are named by
// uninterpreted spec functions over those values.

/// Whether `regex::Regex::new` accepts this pattern source.
pub uninterp spec fn pattern_compiles(pattern: Seq<char>) -> bool;

/// The pattern source a compiled `regex::Regex` was built from
/// (what `Regex::as_str` returns). The names below treat a regex as a
/// function of this source alone, which holds of every handle this crate
/// creates: all come from `compile`, i.e. `Regex::new` under its fixed
/// default configuration. A handle built elsewhere with a non-default
/// `RegexBuilder` configuration is outside this model.
pub uninterp spec fn regex_source(re: regex::Regex) -> Seq<char>;

/// What `Regex::is_match` returns for a pattern and a haystack.
pub uninterp spec fn pattern_found(pattern: Seq<char>, haystack: Seq<char>) -> bool;

/// What `Regex::find` returns: the byte span and text of the leftmost match,
/// if any.
pub uninterp spec fn first_span_of(pattern: Seq<char>, haystack: Seq<char>) -> Option<
    (int, int, Seq<char>),
>;

/// What `Regex::captures_iter` yields: one row per successive non-overlapping
/// match of the whole pattern, each row holding the byte span and text of
/// every capture group (`None` for groups that did not participate).
pub uninterp spec fn capture_table(pattern: Seq<char>, haystack: Seq<char>) -> Seq<
    Seq<Option<(int, int, Seq<char>)>>,
>;

/// What `Regex::captures` returns: the capture-group row of the first match,
/// if any.
pub uninterp spec fn first_captures_of(pattern: Seq<char>, haystack: Seq<char>) -> Option<
    Seq<Option<(int, int, Seq<char>)>>,
>;

/// What `Regex::split` yields: the parts of the haystack between successive
/// matches of the pattern.
pub uninterp spec fn split_parts_of(pattern: Seq<char>, haystack: Seq<char>) -> Seq<Seq<char>>;

/// What `Regex::splitn` yields: at most `limit` parts, the last one holding
/// the unsplit remainder.
pub uninterp spec fn splitn_parts_of(pattern: Seq<char>, haystack: Seq<char>, limit: int) -> Seq<
    Seq<char>,
>;

/// What `Regex::replace_all` returns: the haystack with every match replaced
/// by the (backreference-aware) replacement.
pub uninterp spec fn replaced_all_of(
    pattern: Seq<char>,
    haystack: Seq<char>,
    replacement: Seq<char>,
) -> Seq<char>;

/// What `Regex::replace` returns: the haystack with only the leftmost match
/// replaced.
pub uninterp spec fn replaced_first_of(
    pattern: Seq<char>,
    haystack: Seq<char>,
    replacement: Seq<char>,
) -> Seq<char>;

/// What `str::to_lowercase` returns; it depends on the characters alone.
pub uninterp spec fn lower_of(s: Seq<char>) -> Seq<char>;

/// What `char::is_alphanumeric` returns for a character.
pub uninterp spec fn alphanumeric_char(c: char) -> bool;

/// What `char::is_alphabetic` returns for a character.
pub uninterp spec fn alphabetic_char(c: char) -> bool;

#[verifier::external_type_specification]
#[verifier::external_body]
pub struct ExRegex(regex::Regex);

/// Relies on `regex::Regex::new`: it returns `Ok` exactly when the pattern
/// source is valid, and the compiled value keeps that source (`Regex::as_str`
/// returns the original string). A failure is reported as the error's
/// display text.
#[verifier::external_body]
pub fn compile(pattern: &str) -> (r: Result<regex::Regex, String>)
    ensures
        r is Ok <==> pattern_compiles(pattern@),
        r is Ok ==> regex_source(r->Ok_0) == pattern@,
{
    regex::Regex::new(pattern).map_err(|e| e.to_string())
}

/// Relies on `regex::Regex::is_match`: true iff the pattern matches anywhere
/// in the haystack.
#[verifier::external_body]
pub fn is_match(re: &regex::Regex, haystack: &str) -> (r: bool)
    ensures
        r == pattern_found(regex_source(*re), haystack@),
{
    re.is_match(haystack)
}

/// Relies on `regex::Regex::find`: the leftmost match, with
/// `Match::start() <= Match::end()` guaranteed by its documentation.
#[verifier::external_body]
pub fn find(re: &regex::Regex, haystack: &str) -> (r: Option<MatchSpan>)
    ensures
        r is Some <==> first_span_of(regex_source(*re), haystack@) is Some,
        r is Some ==> r->0@ == first_span_of(regex_source(*re), haystack@)->0,
        r is Some ==> r->0.start <= r->0.end,
{
    re.find(haystack).map(
        |m| MatchSpan { start: m.start(), end: m.end(), text: m.as_str().to_string() },
    )
}

/// Relies on `regex::Regex::captures_iter`: successive non-overlapping
/// matches, each with one entry per capture group; group 0 is the whole
/// match and is always present.
#[verifier::external_body]
pub fn captures_rows(re: &regex::Regex, haystack: &str) -> (r: Vec<Vec<Option<MatchSpan>>>)
    ensures
        r.deep_view() == capture_table(regex_source(*re), haystack@),
        forall|i: int|
            0 <= i < r.deep_view().len() ==> r.deep_view()[i].len() >= 1 && r.deep_view()[i][0]
                is Some,
{
    re.captures_iter(haystack)
        .map(|caps| caps.iter()
            .map(|g| g.map(|m| MatchSpan { start: m.start(), end: m.end(), text: m.as_str().to_string() }))
            .collect())
        .collect()
}

/// Relies on `regex::Regex::captures`: the capture groups of the first
/// match, if any.
#[verifier::external_body]
pub fn captures_first(re: &regex::Regex, haystack: &str) -> (r: Option<Vec<Option<MatchSpan>>>)
    ensures
        r is Some <==> first_captures_of(regex_source(*re), haystack@) is Some,
        r is Some ==> r->0.deep_view() == first_captures_of(regex_source(*re), haystack@)->0,
{
    re.captures(haystack).map(|caps| caps.iter()
        .map(|g| g.map(|m| MatchSpan { start: m.start(), end: m.end(), text: m.as_str().to_string() }))
        .collect())
}

/// Relies on `regex::Regex::split`: the parts of the haystack between
/// successive matches. Its source yields one part per match of the whole
/// pattern plus a final remainder, each part being the haystack text from
/// the previous match's end to the next match's start, so interleaving the
/// parts with the matched texts restores the haystack; `captures_iter`
/// reports the same matches as the finder that drives the split.
#[verifier::external_body]
pub fn split_all(re: &regex::Regex, haystack: &str) -> (r: Vec<String>)
    ensures
        r.deep_view() == split_parts_of(regex_source(*re), haystack@),
        r.deep_view().len() == capture_table(regex_source(*re), haystack@).len() + 1,
        spec_interleave(
            r.deep_view(),
            spec_outer_texts(capture_table(regex_source(*re), haystack@)),
        ) == haystack@,
{
    re.split(haystack).map(|s| s.to_string()).collect()
}

/// Relies on `regex::Regex::splitn`: at most `limit` parts, the last holding
/// the remainder; at least one part comes back whenever `limit > 0`. Its
/// source yields, when nothing matches, the whole haystack as the only
/// part; a two-way split around a leftmost match yields the text before
/// that match and the text after it, so the two parts flank the matched
/// text (the same leftmost match that `Regex::find` reports).
#[verifier::external_body]
pub fn split_limited(re: &regex::Regex, haystack: &str, limit: usize) -> (r: Vec<String>)
    ensures
        r.deep_view() == splitn_parts_of(regex_source(*re), haystack@, limit as int),
        r.deep_view().len() <= limit,
        limit > 0 ==> r.deep_view().len() >= 1,
        limit >= 1 && first_span_of(regex_source(*re), haystack@) is None ==> r.deep_view()
            =~= seq![haystack@],
        limit == 2 && first_span_of(regex_source(*re), haystack@) is Some ==> r.deep_view().len()
            == 2 && r.deep_view()[0] + (first_span_of(regex_source(*re), haystack@)->0).2
            + r.deep_view()[1] == haystack@,
{
    re.splitn(haystack, limit).map(|s| s.to_string()).collect()
}

/// Relies on `regex::Regex::replace_all`; when nothing matches, the haystack
/// comes back unchanged.
#[verifier::external_body]
pub fn replace_all(re: &regex::Regex, haystack: &str, replacement: &str) -> (r: String)
    ensures
        r@ == replaced_all_of(regex_source(*re), haystack@, replacement@),
        !pattern_found(regex_source(*re), haystack@) ==> r@ == haystack@,
{
    re.replace_all(haystack, replacement).to_string()
}

/// Relies on `regex::Regex::replace`: only the leftmost match is replaced;
/// when nothing matches, the haystack comes back unchanged.
#[verifier::external_body]
pub fn replace_first(re: &regex::Regex, haystack: &str, replacement: &str) -> (r: String)
    ensures
        r@ == replaced_first_of(regex_source(*re), haystack@, replacement@),
        !pattern_found(regex_source(*re), haystack@) ==> r@ == haystack@,
{
    re.replace(haystack, replacement).to_string()
}

/// Relies on `String::push`: appends one character.
#[verifier::external_body]
pub fn push_char(s: &mut String, c: char) -> (r: ())
    ensures
        final(s)@ == old(s)@.push(c),
{
    s.push(c)
}

/// Relies on `str::to_lowercase`: the result depends on the characters
/// alone, and an empty string stays empty.
#[verifier::external_body]
pub fn to_lowercase(s: &str) -> (r: String)
    ensures
        r@ == lower_of(s@),
        s@.len() == 0 ==> r@.len() == 0,
{
    s.to_lowercase()
}

/// Relies on `char::is_alphanumeric`, the Unicode letter-or-number class.
#[verifier::external_body]
pub fn is_alphanumeric_char(c: char) -> (r: bool)
    ensures
        r == alphanumeric_char(c),
{
    c.is_alphanumeric()
}

/// Relies on `char::is_alphabetic`, the Unicode letter class.
#[verifier::external_body]
pub fn is_alphabetic_char(c: char) -> (r: bool)
    ensures
        r == alphabetic_char(c),
{
    c.is_alphabetic()
}

/// Relies on `str::parse`: whether the text parses as a `T` is decided by
/// `T`'s own `FromStr` implementation, so nothing is promised of the result.
#[verifier::external_body]
pub fn parse_value<T: core::str::FromStr>(s: &str) -> Option<T> {
    s.parse::<T>().ok()
}

} // verus!
