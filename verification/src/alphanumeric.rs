use vstd::prelude::*;
use crate::charseq;
use crate::charseq::{
    spec_is_digit, spec_count_char, spec_last_index_or_zero, spec_remove_char,
};
use crate::engine;
use crate::segments::spec_join;

verus! {

// Numeric-token extraction: scanning free text for digit runs with
// interleaved separator characters, and correcting each candidate's
// separator convention (thousands vs. decimal) to a canonical form with a
// dot as the only decimal mark.

/// A candidate separator character: dot, comma, or the "one dot leader"
/// used as a decimal mark in some typesetting.
pub open spec fn spec_is_sep(c: char) -> bool {
    c == '.' || c == ',' || c == '\u{2024}'
}

/// Separators are normalized while scanning: a comma stays a comma, any
/// dot-like character becomes a plain dot.
pub open spec fn spec_norm_sep(c: char) -> char {
    if c == ',' {
        ','
    } else {
        '.'
    }
}

/// Whether the sequence holds at least one decimal digit.
pub open spec fn spec_has_digit(s: Seq<char>) -> bool {
    exists|i: int| 0 <= i < s.len() && spec_is_digit(s[i])
}

/// Strip stray dots or commas left at the very end of a candidate.
pub open spec fn spec_trim_seps(s: Seq<char>) -> Seq<char>
    decreases s.len(),
{
    if s.len() > 0 && (s.last() == '.' || s.last() == ',') {
        spec_trim_seps(s.drop_last())
    } else {
        s
    }
}

/// The separator-convention correction before the trailing trim: decide
/// whether commas are the convention needing correction (step 2) or dots
/// are the decimal convention (step 3), and rewrite accordingly.
pub open spec fn spec_correct_core(s: Seq<char>, enforce_comma_as_decimal: bool) -> Seq<char> {
    let num_commas = spec_count_char(s, ',');
    let num_dots = spec_count_char(s, '.');
    let last_comma = spec_last_index_or_zero(s, ',');
    let last_dot = spec_last_index_or_zero(s, '.');
    if num_dots > 1 || (last_comma > last_dot && num_commas <= 1) || (enforce_comma_as_decimal
        && num_commas <= 1) {
        if num_commas == 0 {
            spec_remove_char(s, '.')
        } else {
            spec_remove_char(s.take(last_comma), '.') + seq!['.'] + s.skip(last_comma + 1)
        }
    } else {
        spec_remove_char(s, ',')
    }
}

/// A corrected numeric candidate: the convention correction followed by
/// trimming any trailing stray separator.
pub open spec fn spec_correct(s: Seq<char>, enforce_comma_as_decimal: bool) -> Seq<char> {
    spec_trim_seps(spec_correct_core(s, enforce_comma_as_decimal))
}

/// One step of the numeric scan: a digit always extends the accumulator
/// (with a pending minus sign, if one directly precedes it); a separator
/// extends it only straight after a digit; anything else ends the run,
/// flushing the corrected accumulator when it holds a digit.
pub open spec fn spec_scan_step(
    st: (Seq<Seq<char>>, Seq<char>, char),
    c: char,
    enforce_comma_as_decimal: bool,
) -> (Seq<Seq<char>>, Seq<char>, char) {
    let (out, acc, prev) = st;
    if spec_is_digit(c) {
        if prev == '-' {
            (out, acc.push('-').push(c), c)
        } else {
            (out, acc.push(c), c)
        }
    } else if spec_is_digit(prev) && spec_is_sep(c) {
        (out, acc.push(spec_norm_sep(c)), c)
    } else {
        if spec_has_digit(acc) {
            (out.push(spec_correct(acc, enforce_comma_as_decimal)), Seq::empty(), c)
        } else {
            (out, Seq::empty(), c)
        }
    }
}

/// All corrected numeric tokens found in a text, in order.
pub open spec fn spec_numeric_strings(s: Seq<char>, enforce_comma_as_decimal: bool) -> Seq<
    Seq<char>,
> {
    let st = s.fold_left(
        (Seq::<Seq<char>>::empty(), Seq::<char>::empty(), ' '),
        |st: (Seq<Seq<char>>, Seq<char>, char), c: char|
            spec_scan_step(st, c, enforce_comma_as_decimal),
    );
    if spec_has_digit(st.1) {
        st.0.push(spec_correct(st.1, enforce_comma_as_decimal))
    } else {
        st.0
    }
}

/// Whether one character is acceptable in a strictly numeric string: a
/// digit anywhere, a minus sign first, or a dot that is neither last nor
/// preceded by another dot.
pub open spec fn spec_valid_numeric_char(s: Seq<char>, i: int) -> bool {
    spec_is_digit(s[i]) || (s[i] == '-' && i == 0) || (s[i] == '.' && i < s.len() - 1
        && spec_count_char(s.take(i), '.') == 0)
}

/// A strict check that a non-empty string is a plain number: digits with
/// at most a leading minus and one non-final decimal point.
pub open spec fn spec_is_numeric(s: Seq<char>) -> bool {
    s.len() > 0 && forall|i: int| 0 <= i < s.len() ==> spec_valid_numeric_char(s, i)
}

/// Method to check whether a string may be parsed to an integer or float.
pub trait IsNumeric {
    spec fn num_model(&self) -> Seq<char>;

    /// Strict check on a numeric string before parsing: digits with at most
    /// a leading minus and a single non-final decimal point. The empty
    /// string is not numeric.
    fn is_numeric(&self) -> (r: bool)
        ensures
            r == spec_is_numeric(self.num_model()),
    ;
}

impl IsNumeric for str {
    open spec fn num_model(&self) -> Seq<char> {
        self@
    }

    fn is_numeric(&self) -> (r: bool) {
        let v = charseq::to_chars(self);
        if v.len() == 0 {
            return false;
        }
        let mut dots: usize = 0;
        let mut i: usize = 0;
        while i < v.len()
            invariant
                0 <= i <= v@.len(),
                v@ == self@,
                v@.len() >= 1,
                dots as int == spec_count_char(v@.take(i as int), '.'),
                dots <= i,
                forall|j: int| 0 <= j < i ==> spec_valid_numeric_char(v@, j),
            decreases v@.len() - i,
        {
            let c = v[i];
            let valid = if charseq::is_digit_char(c) {
                true
            } else if c == '-' {
                i == 0
            } else if c == '.' {
                i < v.len() - 1 && dots == 0
            } else {
                false
            };
            proof {
                assert(v@.take(i as int) =~= v@.take(i as int));
                if valid {
                    assert(spec_valid_numeric_char(v@, i as int));
                }
                charseq::lemma_count_char_push(v@.take(i as int), v@[i as int], '.');
                assert(v@.take(i + 1 as int) =~= v@.take(i as int).push(v@[i as int]));
            }
            if !valid {
                proof {
                    assert(!spec_valid_numeric_char(v@, i as int));
                    assert(!spec_valid_numeric_char(self@, i as int));
                    assert(!spec_is_numeric(self@));
                }
                return false;
            }
            if c == '.' {
                dots += 1;
            }
            i += 1;
        }
        proof {
            assert(v@ == self@);
            assert forall|j: int| 0 <= j < self@.len() implies spec_valid_numeric_char(
                self@,
                j,
            ) by {
                assert(spec_valid_numeric_char(v@, j));
            }
        }
        true
    }
}

/// Correct a numeric candidate over its character snapshot.
fn correct_vec(v: &Vec<char>, enforce_comma_as_decimal: bool) -> (r: Vec<char>)
    ensures
        r@ == spec_correct(v@, enforce_comma_as_decimal),
{
    let (num_commas, last_comma) = charseq::count_and_last(v, ',');
    let (num_dots, last_dot) = charseq::count_and_last(v, '.');
    let core = if num_dots > 1 || (last_comma > last_dot && num_commas <= 1) || (
    enforce_comma_as_decimal && num_commas <= 1) {
        if num_commas == 0 {
            charseq::remove_char_vec(v, '.')
        } else {
            proof {
                v@.index_of_last_ensures(',');
                charseq::lemma_count_char_zero(v@, ',');
                assert(v@.index_of_last(',') is Some) by {
                    if v@.index_of_last(',') is None {
                        assert(spec_count_char(v@, ',') == 0);
                    }
                }
                assert(last_comma < v@.len());
            }
            let n = v.len();
            let head = charseq::subvec(v, 0, last_comma);
            let mut main = charseq::remove_char_vec(&head, '.');
            proof {
                assert(head@ =~= v@.take(last_comma as int));
            }
            push_decimal_point(&mut main);
            let tail = charseq::subvec(v, last_comma + 1, n);
            proof {
                assert(tail@ =~= v@.skip(last_comma + 1));
            }
            let mut j: usize = 0;
            let ghost base = main@;
            while j < tail.len()
                invariant
                    0 <= j <= tail@.len(),
                    main@ =~= base + tail@.take(j as int),
                decreases tail@.len() - j,
            {
                main.push(tail[j]);
                proof {
                    assert(tail@.take(j + 1 as int) =~= tail@.take(j as int).push(
                        tail@[j as int],
                    ));
                }
                j += 1;
            }
            proof {
                assert(tail@.take(tail@.len() as int) =~= tail@);
                assert(main@ =~= spec_remove_char(v@.take(last_comma as int), '.')
                    + seq!['.'] + v@.skip(last_comma + 1));
            }
            main
        }
    } else {
        charseq::remove_char_vec(v, ',')
    };
    trim_seps_vec(core)
}

/// Push the canonical decimal point.
fn push_decimal_point(v: &mut Vec<char>) -> (r: ())
    ensures
        final(v)@ == old(v)@.push('.'),
{
    v.push('.');
}

/// Drop trailing dots and commas.
fn trim_seps_vec(v: Vec<char>) -> (r: Vec<char>)
    ensures
        r@ == spec_trim_seps(v@),
{
    let mut out = v;
    loop
        invariant
            spec_trim_seps(out@) == spec_trim_seps(v@),
        decreases out@.len(),
    {
        let n = out.len();
        if n == 0 {
            return out;
        }
        let last = out[n - 1];
        if last == '.' || last == ',' {
            out.pop();
            proof {
                assert(out@ =~= out@);
            }
        } else {
            return out;
        }
    }
}


/// A candidate separator character.
fn is_sep_char(c: char) -> (r: bool)
    ensures
        r == spec_is_sep(c),
{
    c == '.' || c == ',' || c == '\u{2024}'
}

/// Whether the vector holds at least one decimal digit.
fn has_digit_vec(v: &Vec<char>) -> (r: bool)
    ensures
        r == spec_has_digit(v@),
{
    let mut i: usize = 0;
    while i < v.len()
        invariant
            0 <= i <= v@.len(),
            forall|j: int| 0 <= j < i ==> !spec_is_digit(v@[j]),
        decreases v@.len() - i,
    {
        if charseq::is_digit_char(v[i]) {
            return true;
        }
        i += 1;
    }
    false
}

/// Scan a character snapshot for numeric tokens and correct each one.
fn numeric_strings_vec(text: &Vec<char>, enforce_comma_as_decimal: bool) -> (r: Vec<String>)
    ensures
        r.deep_view() == spec_numeric_strings(text@, enforce_comma_as_decimal),
{
    let mut out: Vec<String> = Vec::new();
    let mut acc: Vec<char> = Vec::new();
    let mut prev: char = ' ';
    let ghost step = |st: (Seq<Seq<char>>, Seq<char>, char), c: char|
        spec_scan_step(st, c, enforce_comma_as_decimal);
    let ghost init = (Seq::<Seq<char>>::empty(), Seq::<char>::empty(), ' ');
    let mut i: usize = 0;
    while i < text.len()
        invariant
            0 <= i <= text@.len(),
            step == (|st: (Seq<Seq<char>>, Seq<char>, char), c: char|
                spec_scan_step(st, c, enforce_comma_as_decimal)),
            init == (Seq::<Seq<char>>::empty(), Seq::<char>::empty(), ' '),
            text@.take(i as int).fold_left(init, step) == (out.deep_view(), acc@, prev),
        decreases text@.len() - i,
    {
        let ghost pre_state = text@.take(i as int).fold_left(init, step);
        proof {
            assert(text@.take(i + 1 as int).drop_last() =~= text@.take(i as int));
            assert(text@.take(i + 1 as int).last() == text@[i as int]);
            assert(text@.take(i + 1 as int).fold_left(init, step) == step(
                pre_state,
                text@[i as int],
            ));
        }
        let c = text[i];
        if charseq::is_digit_char(c) {
            if prev == '-' {
                acc.push('-');
            }
            acc.push(c);
            prev = c;
        } else if charseq::is_digit_char(prev) && is_sep_char(c) {
            if c == ',' {
                acc.push(',');
            } else {
                acc.push('.');
            }
            prev = c;
        } else {
            if has_digit_vec(&acc) {
                let corrected = correct_vec(&acc, enforce_comma_as_decimal);
                let token = charseq::chars_to_string(&corrected);
                proof {
                    assert(out.deep_view().len() == out@.len());
                }
                out.push(token);
                proof {
                    assert(out.deep_view() =~~= pre_state.0.push(spec_correct(
                        acc@,
                        enforce_comma_as_decimal,
                    )));
                }
            }
            acc = Vec::new();
            prev = c;
        }
        i += 1;
    }
    proof {
        assert(text@.take(text@.len() as int) =~= text@);
    }
    if has_digit_vec(&acc) {
        let corrected = correct_vec(&acc, enforce_comma_as_decimal);
        let token = charseq::chars_to_string(&corrected);
        proof {
            assert(out.deep_view().len() == out@.len());
        }
        out.push(token);
        proof {
            assert(out.deep_view() =~~= spec_numeric_strings(text@, enforce_comma_as_decimal));
        }
    }
    out
}


/// `s` restricted to its Unicode letters and digits.
pub open spec fn spec_strip_non_alphanum(s: Seq<char>) -> Seq<char> {
    s.filter(|c: char| engine::alphanumeric_char(c))
}

/// `s` restricted to its decimal digits.
pub open spec fn spec_strip_non_digits(s: Seq<char>) -> Seq<char> {
    s.filter(|c: char| spec_is_digit(c))
}

/// Keeping the letter-or-digit characters distributes over appending one.
proof fn lemma_strip_alphanum_push(s: Seq<char>, x: char)
    ensures
        spec_strip_non_alphanum(s.push(x)) == if engine::alphanumeric_char(x) {
            spec_strip_non_alphanum(s).push(x)
        } else {
            spec_strip_non_alphanum(s)
        },
{
    reveal(Seq::filter);
    assert(s.push(x).drop_last() =~= s);
    assert(s.push(x).last() == x);
}

/// Keeping the digit characters distributes over appending one.
proof fn lemma_strip_digits_push(s: Seq<char>, x: char)
    ensures
        spec_strip_non_digits(s.push(x)) == if spec_is_digit(x) {
            spec_strip_non_digits(s).push(x)
        } else {
            spec_strip_non_digits(s)
        },
{
    reveal(Seq::filter);
    assert(s.push(x).drop_last() =~= s);
    assert(s.push(x).last() == x);
}

/// Methods to strip unwanted characters by class or extract numeric
/// strings and numbers from free text.
pub trait StripCharacters {
    spec fn strip_model(&self) -> Seq<char>;

    /// Remove every character that is not a Unicode letter or digit.
    fn strip_non_alphanum(&self) -> (r: String)
        ensures
            r@ == spec_strip_non_alphanum(self.strip_model()),
    ;

    /// Remove every character that is not a decimal digit.
    fn strip_non_digits(&self) -> (r: String)
        ensures
            r@ == spec_strip_non_digits(self.strip_model()),
    ;

    /// Extract corrected numeric strings, deducing the separator
    /// convention for each candidate.
    fn to_numeric_strings(&self) -> (r: Vec<String>)
        ensures
            r.deep_view() == spec_numeric_strings(self.strip_model(), false),
    ;

    /// Extract corrected numeric strings, treating dots as thousands
    /// separators and commas as decimal separators where ambiguous.
    fn to_numeric_strings_euro(&self) -> (r: Vec<String>)
        ensures
            r.deep_view() == spec_numeric_strings(self.strip_model(), true),
    ;

    /// Extract corrected numeric strings with an explicit flag for the
    /// European convention.
    fn to_numeric_strings_conditional(&self, enforce_comma_as_decimal: bool) -> (r: Vec<String>)
        ensures
            r.deep_view() == spec_numeric_strings(self.strip_model(), enforce_comma_as_decimal),
    ;

    /// Parse the extracted numeric strings, silently dropping candidates
    /// the target type rejects; what parses is decided by `T::from_str`,
    /// so only the count is bounded here.
    fn to_numbers_conditional<T: core::str::FromStr>(&self, enforce_comma_as_decimal: bool) -> (r:
        Vec<T>)
        ensures
            r@.len() <= spec_numeric_strings(self.strip_model(), enforce_comma_as_decimal).len(),
    ;

    /// Parse numbers with the deduced separator convention.
    fn to_numbers<T: core::str::FromStr>(&self) -> (r: Vec<T>)
        ensures
            r@.len() <= spec_numeric_strings(self.strip_model(), false).len(),
    ;

    /// Parse numbers with the European separator convention.
    fn to_numbers_euro<T: core::str::FromStr>(&self) -> (r: Vec<T>)
        ensures
            r@.len() <= spec_numeric_strings(self.strip_model(), true).len(),
    ;

    /// The first number found with the deduced convention, if any parses:
    /// nothing without a numeric token, and something only when a token is
    /// there for `T::from_str` to accept.
    fn to_first_number<T: core::str::FromStr + Copy>(&self) -> (r: Option<T>)
        ensures
            spec_numeric_strings(self.strip_model(), false).len() == 0 ==> r is None,
            r is Some ==> spec_numeric_strings(self.strip_model(), false).len() > 0,
    ;

    /// The first number found with the European convention, if any parses:
    /// nothing without a numeric token, and something only when a token is
    /// there for `T::from_str` to accept.
    fn to_first_number_euro<T: core::str::FromStr + Copy>(&self) -> (r: Option<T>)
        ensures
            spec_numeric_strings(self.strip_model(), true).len() == 0 ==> r is None,
            r is Some ==> spec_numeric_strings(self.strip_model(), true).len() > 0,
    ;

    /// Correct one numeric candidate to canonical dot-decimal form.
    fn correct_numeric_string(&self, enforce_comma_as_decimal: bool) -> (r: String)
        ensures
            r@ == spec_correct(self.strip_model(), enforce_comma_as_decimal),
    ;

    /// All corrected numeric tokens joined with single spaces.
    fn strip_non_numeric(&self) -> (r: String)
        ensures
            r@ == spec_join(spec_numeric_strings(self.strip_model(), false), seq![' ']),
    ;
}

impl StripCharacters for str {
    open spec fn strip_model(&self) -> Seq<char> {
        self@
    }

    fn strip_non_alphanum(&self) -> (r: String) {
        let v = charseq::to_chars(self);
        let mut out: Vec<char> = Vec::new();
        let mut i: usize = 0;
        while i < v.len()
            invariant
                0 <= i <= v@.len(),
                v@ == self@,
                out@ == spec_strip_non_alphanum(v@.take(i as int)),
            decreases v@.len() - i,
        {
            proof {
                lemma_strip_alphanum_push(v@.take(i as int), v@[i as int]);
                assert(v@.take(i + 1 as int) =~= v@.take(i as int).push(v@[i as int]));
            }
            if engine::is_alphanumeric_char(v[i]) {
                out.push(v[i]);
            }
            i += 1;
        }
        proof {
            assert(v@.take(v@.len() as int) =~= v@);
            assert(out@ == spec_strip_non_alphanum(self.strip_model()));
        }
        let result = charseq::chars_to_string(&out);
        proof {
            assert(result@ == spec_strip_non_alphanum(self.strip_model()));
        }
        result
    }

    fn strip_non_digits(&self) -> (r: String) {
        let v = charseq::to_chars(self);
        let mut out: Vec<char> = Vec::new();
        let mut i: usize = 0;
        while i < v.len()
            invariant
                0 <= i <= v@.len(),
                v@ == self@,
                out@ == spec_strip_non_digits(v@.take(i as int)),
            decreases v@.len() - i,
        {
            proof {
                lemma_strip_digits_push(v@.take(i as int), v@[i as int]);
                assert(v@.take(i + 1 as int) =~= v@.take(i as int).push(v@[i as int]));
            }
            if charseq::is_digit_char(v[i]) {
                out.push(v[i]);
            }
            i += 1;
        }
        proof {
            assert(v@.take(v@.len() as int) =~= v@);
        }
        charseq::chars_to_string(&out)
    }

    fn to_numeric_strings(&self) -> (r: Vec<String>) {
        self.to_numeric_strings_conditional(false)
    }

    fn to_numeric_strings_euro(&self) -> (r: Vec<String>) {
        self.to_numeric_strings_conditional(true)
    }

    fn to_numeric_strings_conditional(&self, enforce_comma_as_decimal: bool) -> (r: Vec<String>) {
        let v = charseq::to_chars(self);
        numeric_strings_vec(&v, enforce_comma_as_decimal)
    }

    fn to_numbers_conditional<T: core::str::FromStr>(&self, enforce_comma_as_decimal: bool) -> (r:
        Vec<T>) {
        let candidates = self.to_numeric_strings_conditional(enforce_comma_as_decimal);
        let mut out: Vec<T> = Vec::new();
        let mut i: usize = 0;
        while i < candidates.len()
            invariant
                0 <= i <= candidates@.len(),
                out@.len() <= i,
            decreases candidates@.len() - i,
        {
            match engine::parse_value::<T>(candidates[i].as_str()) {
                Some(n) => {
                    out.push(n);
                },
                _ => {},
            }
            i += 1;
        }
        out
    }

    fn to_numbers<T: core::str::FromStr>(&self) -> (r: Vec<T>) {
        self.to_numbers_conditional::<T>(false)
    }

    fn to_numbers_euro<T: core::str::FromStr>(&self) -> (r: Vec<T>) {
        self.to_numbers_conditional::<T>(true)
    }

    fn to_first_number<T: core::str::FromStr + Copy>(&self) -> (r: Option<T>) {
        let numbers = self.to_numbers::<T>();
        if numbers.len() > 0 {
            Some(numbers[0])
        } else {
            None
        }
    }

    fn to_first_number_euro<T: core::str::FromStr + Copy>(&self) -> (r: Option<T>) {
        let numbers = self.to_numbers_euro::<T>();
        if numbers.len() > 0 {
            Some(numbers[0])
        } else {
            None
        }
    }

    fn correct_numeric_string(&self, enforce_comma_as_decimal: bool) -> (r: String) {
        let v = charseq::to_chars(self);
        let corrected = correct_vec(&v, enforce_comma_as_decimal);
        charseq::chars_to_string(&corrected)
    }

    fn strip_non_numeric(&self) -> (r: String) {
        let tokens = self.to_numeric_strings();
        let mut parts: Vec<Vec<char>> = Vec::new();
        let mut i: usize = 0;
        while i < tokens.len()
            invariant
                0 <= i <= tokens@.len(),
                parts.deep_view() =~~= tokens.deep_view().take(i as int),
            decreases tokens@.len() - i,
        {
            proof {
                assert(parts.deep_view().len() == parts@.len());
                assert(parts@.len() == i);
            }
            parts.push(charseq::to_chars(tokens[i].as_str()));
            proof {
                assert(parts.deep_view() =~~= tokens.deep_view().take(i + 1 as int));
            }
            i += 1;
        }
        proof {
            assert(tokens.deep_view().take(tokens@.len() as int) =~~= tokens.deep_view());
        }
        let mut space: Vec<char> = Vec::new();
        space.push(' ');
        proof {
            assert(space@ =~= seq![' ']);
        }
        let joined = crate::segments::join_chars(&parts, &space);
        charseq::chars_to_string(&joined)
    }
}


/// The numeric value a character stands for in positional notation, as
/// `char::is_digit` reckons it: `0`-`9`, then `a`-`z` or `A`-`Z` for 10 to
/// 35; other characters get a value no radix reaches.
pub open spec fn spec_digit_value(c: char) -> int {
    if '0' <= c && c <= '9' {
        c as int - '0' as int
    } else if 'a' <= c && c <= 'z' {
        c as int - 'a' as int + 10
    } else if 'A' <= c && c <= 'Z' {
        c as int - 'A' as int + 10
    } else {
        36
    }
}

/// Whether a character is a digit in the given radix.
pub open spec fn spec_is_digit_radix(c: char, radix: int) -> bool {
    spec_digit_value(c) < radix
}

/// Whether a character is a digit in the given radix; radices above 36 are
/// not meaningful.
fn is_digit_radix_char(c: char, radix: u8) -> (r: bool)
    requires
        radix <= 36,
    ensures
        r == spec_is_digit_radix(c, radix as int),
{
    let value: u32 = if c >= '0' && c <= '9' {
        c as u32 - '0' as u32
    } else if c >= 'a' && c <= 'z' {
        c as u32 - 'a' as u32 + 10
    } else if c >= 'A' && c <= 'Z' {
        c as u32 - 'A' as u32 + 10
    } else {
        36
    };
    value < radix as u32
}

/// Whether any character is a digit in the given radix.
pub open spec fn spec_has_digit_radix(s: Seq<char>, radix: int) -> bool {
    exists|i: int| 0 <= i < s.len() && spec_is_digit_radix(#[trigger] s[i], radix)
}

/// Whether any character is a Unicode letter or digit.
pub open spec fn spec_has_alphanumeric(s: Seq<char>) -> bool {
    exists|i: int| 0 <= i < s.len() && engine::alphanumeric_char(#[trigger] s[i])
}

/// Whether any character is a Unicode letter.
pub open spec fn spec_has_alphabetic(s: Seq<char>) -> bool {
    exists|i: int| 0 <= i < s.len() && engine::alphabetic_char(#[trigger] s[i])
}

/// Whether every character is a decimal digit.
pub open spec fn spec_all_digits(s: Seq<char>) -> bool {
    forall|i: int| 0 <= i < s.len() ==> spec_is_digit(#[trigger] s[i])
}

/// Whether every character is a digit in the given radix.
pub open spec fn spec_all_digits_radix(s: Seq<char>, radix: int) -> bool {
    forall|i: int| 0 <= i < s.len() ==> spec_is_digit_radix(#[trigger] s[i], radix)
}

/// Methods to test strings against character classes.
pub trait CharGroupMatch {
    spec fn group_model(&self) -> Seq<char>;

    /// Does the string contain any decimal digit?
    fn has_digits(&self) -> (r: bool)
        ensures
            r == spec_has_digit(self.group_model()),
    ;

    /// Does the string contain any digit of the given radix (at most 36)?
    fn has_digits_radix(&self, radix: u8) -> (r: bool)
        requires
            radix <= 36,
        ensures
            r == spec_has_digit_radix(self.group_model(), radix as int),
    ;

    /// Does the string contain any Unicode letter or digit?
    fn has_alphanumeric(&self) -> (r: bool)
        ensures
            r == spec_has_alphanumeric(self.group_model()),
    ;

    /// Does the string contain any Unicode letter?
    fn has_alphabetic(&self) -> (r: bool)
        ensures
            r == spec_has_alphabetic(self.group_model()),
    ;

    /// Is every character a decimal digit? (Vacuously true of the empty
    /// string.)
    fn is_digits_only(&self) -> (r: bool)
        ensures
            r == spec_all_digits(self.group_model()),
    ;

    /// Is every character a digit of the given radix (at most 36)?
    fn is_digits_only_radix(&self, radix: u8) -> (r: bool)
        requires
            radix <= 36,
        ensures
            r == spec_all_digits_radix(self.group_model(), radix as int),
    ;
}

impl CharGroupMatch for str {
    open spec fn group_model(&self) -> Seq<char> {
        self@
    }

    fn has_digits(&self) -> (r: bool) {
        let v = charseq::to_chars(self);
        has_digit_vec(&v)
    }

    fn has_digits_radix(&self, radix: u8) -> (r: bool) {
        let v = charseq::to_chars(self);
        let mut i: usize = 0;
        while i < v.len()
            invariant
                0 <= i <= v@.len(),
                v@ == self@,
                radix <= 36,
                forall|j: int| 0 <= j < i ==> !spec_is_digit_radix(v@[j], radix as int),
            decreases v@.len() - i,
        {
            if is_digit_radix_char(v[i], radix) {
                proof {
                    assert(spec_is_digit_radix(v@[i as int], radix as int));
                }
                return true;
            }
            i += 1;
        }
        false
    }

    fn has_alphanumeric(&self) -> (r: bool) {
        let v = charseq::to_chars(self);
        let mut i: usize = 0;
        while i < v.len()
            invariant
                0 <= i <= v@.len(),
                v@ == self@,
                forall|j: int| 0 <= j < i ==> !engine::alphanumeric_char(v@[j]),
            decreases v@.len() - i,
        {
            if engine::is_alphanumeric_char(v[i]) {
                proof {
                    assert(engine::alphanumeric_char(v@[i as int]));
                }
                return true;
            }
            i += 1;
        }
        false
    }

    fn has_alphabetic(&self) -> (r: bool) {
        let v = charseq::to_chars(self);
        let mut i: usize = 0;
        while i < v.len()
            invariant
                0 <= i <= v@.len(),
                v@ == self@,
                forall|j: int| 0 <= j < i ==> !engine::alphabetic_char(v@[j]),
            decreases v@.len() - i,
        {
            if engine::is_alphabetic_char(v[i]) {
                proof {
                    assert(engine::alphabetic_char(v@[i as int]));
                }
                return true;
            }
            i += 1;
        }
        false
    }

    fn is_digits_only(&self) -> (r: bool) {
        let v = charseq::to_chars(self);
        let mut i: usize = 0;
        while i < v.len()
            invariant
                0 <= i <= v@.len(),
                v@ == self@,
                forall|j: int| 0 <= j < i ==> spec_is_digit(#[trigger] v@[j]),
            decreases v@.len() - i,
        {
            if !charseq::is_digit_char(v[i]) {
                proof {
                    assert(!spec_is_digit(v@[i as int]));
                }
                return false;
            }
            i += 1;
        }
        true
    }

    fn is_digits_only_radix(&self, radix: u8) -> (r: bool) {
        let v = charseq::to_chars(self);
        let mut i: usize = 0;
        while i < v.len()
            invariant
                0 <= i <= v@.len(),
                v@ == self@,
                radix <= 36,
                forall|j: int| 0 <= j < i ==> spec_is_digit_radix(#[trigger] v@[j], radix as int),
            decreases v@.len() - i,
        {
            if !is_digit_radix_char(v[i], radix) {
                proof {
                    assert(!spec_is_digit_radix(v@[i as int], radix as int));
                }
                return false;
            }
            i += 1;
        }
        true
    }
}

/// Trimming leaves no trailing separator behind.
proof fn lemma_trim_no_trailing(s: Seq<char>)
    ensures
        spec_trim_seps(s).len() > 0 ==> !(spec_trim_seps(s).last() == '.' || spec_trim_seps(
            s,
        ).last() == ','),
    decreases s.len(),
{
    if s.len() > 0 && (s.last() == '.' || s.last() == ',') {
        lemma_trim_no_trailing(s.drop_last());
    }
}

/// A string with no trailing separator is already trimmed.
proof fn lemma_trim_identity(s: Seq<char>)
    requires
        s.len() == 0 || !(s.last() == '.' || s.last() == ','),
    ensures
        spec_trim_seps(s) == s,
{
}

/// Correction is idempotent whenever the first pass leaves no comma behind,
/// and leaves no dot (in enforced-comma mode) or at most one dot
/// (otherwise): the corrected string is then a fixed point of the
/// correction. A first pass can leave several separators only when the
/// candidate mixes several dots with commas, or hides dots behind its last
/// comma; re-correcting such leftovers changes them again.
pub proof fn lemma_correct_numeric_idempotent(s: Seq<char>, enforce_comma_as_decimal: bool)
    requires
        spec_count_char(spec_correct(s, enforce_comma_as_decimal), ',') == 0,
        enforce_comma_as_decimal ==> spec_count_char(
            spec_correct(s, enforce_comma_as_decimal),
            '.',
        ) == 0,
        !enforce_comma_as_decimal ==> spec_count_char(
            spec_correct(s, enforce_comma_as_decimal),
            '.',
        ) <= 1,
    ensures
        spec_correct(spec_correct(s, enforce_comma_as_decimal), enforce_comma_as_decimal)
            == spec_correct(s, enforce_comma_as_decimal),
{
    let out = spec_correct(s, enforce_comma_as_decimal);
    charseq::lemma_count_char_zero(out, ',');
    out.index_of_last_ensures(',');
    assert(out.index_of_last(',') is None) by {
        if out.index_of_last(',') is Some {
            assert(out.contains(','));
            let w = choose|j: int| 0 <= j < out.len() && out[j] == ',';
            assert(out[w] == ',');
        }
    }
    assert(spec_last_index_or_zero(out, ',') == 0);
    out.index_of_last_ensures('.');
    assert(spec_last_index_or_zero(out, '.') >= 0);
    let core2 = spec_correct_core(out, enforce_comma_as_decimal);
    if enforce_comma_as_decimal {
        charseq::lemma_remove_char_absent(out, '.');
        assert(core2 == out);
    } else {
        assert(!(spec_count_char(out, '.') > 1));
        assert(!(spec_last_index_or_zero(out, ',') > spec_last_index_or_zero(out, '.')
            && spec_count_char(out, ',') <= 1));
        charseq::lemma_remove_char_absent(out, ',');
        assert(core2 == out);
    }
    lemma_trim_no_trailing(spec_correct_core(s, enforce_comma_as_decimal));
    lemma_trim_identity(out);
}

} // verus!
