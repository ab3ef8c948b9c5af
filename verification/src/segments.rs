use vstd::prelude::*;
use crate::charseq;

verus! {

// Separator-based segment extraction: splitting a string on an exact literal
// separator and addressing the resulting segments by position, implemented
// and verified over character sequences.

/// The parts of `s` split on every occurrence of the literal separator,
/// scanning left to right and keeping empty segments. An empty separator
/// leaves the string whole.
pub open spec fn spec_split(s: Seq<char>, sep: Seq<char>) -> Seq<Seq<char>>
    decreases s.len(),
{
    if sep.len() == 0 || s.len() == 0 {
        seq![s]
    } else if sep.len() <= s.len() && s.take(sep.len() as int) == sep {
        seq![Seq::<char>::empty()] + spec_split(s.skip(sep.len() as int), sep)
    } else {
        let rest = spec_split(s.skip(1), sep);
        seq![seq![s[0]] + rest[0]] + rest.skip(1)
    }
}

/// The parts joined back with the separator between consecutive parts.
pub open spec fn spec_join(parts: Seq<Seq<char>>, sep: Seq<char>) -> Seq<char>
    decreases parts.len(),
{
    if parts.len() == 0 {
        Seq::empty()
    } else if parts.len() == 1 {
        parts[0]
    } else {
        parts[0] + sep + spec_join(parts.skip(1), sep)
    }
}

/// Splitting always yields at least one part.
pub proof fn lemma_split_len(s: Seq<char>, sep: Seq<char>)
    ensures
        spec_split(s, sep).len() >= 1,
    decreases s.len(),
{
    if sep.len() == 0 || s.len() == 0 {
    } else if sep.len() <= s.len() && s.take(sep.len() as int) == sep {
        lemma_split_len(s.skip(sep.len() as int), sep);
    } else {
        lemma_split_len(s.skip(1), sep);
    }
}

/// Joining the parts of a split with the same separator restores the
/// original string, for every string and every literal separator.
pub proof fn lemma_split_join_round_trip(s: Seq<char>, sep: Seq<char>)
    ensures
        spec_join(spec_split(s, sep), sep) == s,
    decreases s.len(),
{
    if sep.len() == 0 || s.len() == 0 {
    } else if sep.len() <= s.len() && s.take(sep.len() as int) == sep {
        let tail = s.skip(sep.len() as int);
        lemma_split_join_round_trip(tail, sep);
        lemma_split_len(tail, sep);
        let parts = seq![Seq::<char>::empty()] + spec_split(tail, sep);
        assert(parts.len() >= 2);
        assert(parts.skip(1) =~= spec_split(tail, sep));
        assert(spec_join(parts, sep) =~= Seq::<char>::empty() + sep + s.skip(sep.len() as int));
        assert(Seq::<char>::empty() + sep + s.skip(sep.len() as int) =~= s);
    } else {
        let rest = spec_split(s.skip(1), sep);
        lemma_split_join_round_trip(s.skip(1), sep);
        lemma_split_len(s.skip(1), sep);
        let parts = seq![seq![s[0]] + rest[0]] + rest.skip(1);
        if rest.len() == 1 {
            assert(parts.len() == 1);
            assert(spec_join(rest, sep) == rest[0]);
            assert(spec_join(parts, sep) == seq![s[0]] + rest[0]);
            assert(seq![s[0]] + rest[0] =~= s);
        } else {
            assert(parts.len() >= 2);
            assert(parts.skip(1) =~= rest.skip(1));
            assert(spec_join(parts, sep) == parts[0] + sep + spec_join(rest.skip(1), sep));
            assert(spec_join(rest, sep) == rest[0] + sep + spec_join(rest.skip(1), sep));
            assert(parts[0] + sep + spec_join(rest.skip(1), sep) =~= seq![s[0]] + (rest[0] + sep
                + spec_join(rest.skip(1), sep)));
            assert(seq![s[0]] + spec_join(rest, sep) =~= s);
        }
    }
}

/// Split a character vector on every occurrence of the separator, keeping
/// empty segments.
fn split_chars(s: &Vec<char>, sep: &Vec<char>) -> (r: Vec<Vec<char>>)
    ensures
        r.deep_view() == spec_split(s@, sep@),
{
    if sep.len() == 0 || s.len() == 0 {
        let mut out: Vec<Vec<char>> = Vec::new();
        let mut whole: Vec<char> = Vec::new();
        let mut i: usize = 0;
        while i < s.len()
            invariant
                0 <= i <= s@.len(),
                whole@ =~= s@.take(i as int),
            decreases s@.len() - i,
        {
            whole.push(s[i]);
            proof {
                assert(s@.take(i + 1 as int) =~= s@.take(i as int).push(s@[i as int]));
            }
            i += 1;
        }
        proof {
            assert(s@.take(s@.len() as int) =~= s@);
        }
        out.push(whole);
        proof {
            assert(out.deep_view() =~~= spec_split(s@, sep@));
        }
        return out;
    }
    let mut out: Vec<Vec<char>> = Vec::new();
    let mut cur: Vec<char> = Vec::new();
    proof {
        lemma_split_len(s@, sep@);
        assert(s@.skip(0) =~= s@);
        assert(Seq::<char>::empty() + spec_split(s@, sep@)[0] =~= spec_split(s@, sep@)[0]);
        assert(spec_split(s@, sep@) =~~= Seq::<Seq<char>>::empty() + seq![spec_split(s@, sep@)[0]]
            + spec_split(s@, sep@).skip(1));
    }
    let mut i: usize = 0;
    while i < s.len()
        invariant
            0 <= i <= s@.len(),
            sep@.len() >= 1,
            s@.len() >= 1,
            spec_split(s@, sep@) =~~= out.deep_view() + seq![cur@ + spec_split(
                s@.skip(i as int),
                sep@,
            )[0]] + spec_split(s@.skip(i as int), sep@).skip(1),
        decreases s@.len() - i,
    {
        proof {
            lemma_split_len(s@.skip(i as int), sep@);
        }
        if charseq::occurs_at(s, sep, i) {
            proof {
                let suffix = s@.skip(i as int);
                assert(suffix.take(sep@.len() as int) =~= s@.subrange(
                    i as int,
                    i + sep@.len(),
                ));
                assert(suffix.len() >= sep@.len());
                assert(spec_split(suffix, sep@) == seq![Seq::<char>::empty()] + spec_split(
                    suffix.skip(sep@.len() as int),
                    sep@,
                ));
                assert(suffix.skip(sep@.len() as int) =~= s@.skip(i + sep@.len()));
            }
            let ghost old_out = out.deep_view();
            let ghost old_cur = cur@;
            out.push(cur);
            cur = Vec::new();
            proof {
                let next = s@.skip(i + sep@.len());
                lemma_split_len(next, sep@);
                assert(out.deep_view() =~~= old_out.push(old_cur));
                assert(spec_split(s@.skip(i as int), sep@).skip(1) =~= spec_split(next, sep@));
                assert(old_cur + Seq::<char>::empty() =~= old_cur);
                assert(spec_split(s@, sep@) =~~= out.deep_view() + seq![cur@ + spec_split(
                    next,
                    sep@,
                )[0]] + spec_split(next, sep@).skip(1));
            }
            i += sep.len();
        } else {
            proof {
                let suffix = s@.skip(i as int);
                if sep@.len() <= suffix.len() {
                    assert(suffix.take(sep@.len() as int) =~= s@.subrange(
                        i as int,
                        i + sep@.len(),
                    ));
                    assert(suffix.take(sep@.len() as int) != sep@);
                }
                let rest = spec_split(suffix.skip(1), sep@);
                assert(suffix.len() >= 1);
                assert(spec_split(suffix, sep@) == seq![seq![suffix[0]] + rest[0]] + rest.skip(
                    1,
                ));
                assert(suffix.skip(1) =~= s@.skip(i + 1));
                assert(suffix[0] == s@[i as int]);
            }
            let ghost old_cur = cur@;
            cur.push(s[i]);
            proof {
                let next = s@.skip(i + 1);
                lemma_split_len(next, sep@);
                assert(cur@ =~= old_cur.push(s@[i as int]));
                assert(cur@ + spec_split(next, sep@)[0] =~= old_cur + (seq![s@[i as int]]
                    + spec_split(next, sep@)[0]));
                assert(spec_split(s@.skip(i as int), sep@).skip(1) =~= spec_split(
                    next,
                    sep@,
                ).skip(1));
                assert(spec_split(s@, sep@) =~~= out.deep_view() + seq![cur@ + spec_split(
                    next,
                    sep@,
                )[0]] + spec_split(next, sep@).skip(1));
            }
            i += 1;
        }
    }
    proof {
        let suffix = s@.skip(s@.len() as int);
        assert(suffix.len() == 0);
        assert(spec_split(suffix, sep@) == seq![suffix]);
        assert(spec_split(suffix, sep@)[0] =~= Seq::<char>::empty());
        assert(spec_split(suffix, sep@).skip(1) =~= Seq::<Seq<char>>::empty());
        assert(cur@ + Seq::<char>::empty() =~= cur@);
    }
    out.push(cur);
    proof {
        assert(out.deep_view() =~~= spec_split(s@, sep@));
    }
    out
}

/// Join character-vector parts with a separator.
pub(crate) fn join_chars(parts: &Vec<Vec<char>>, sep: &Vec<char>) -> (r: Vec<char>)
    ensures
        r@ == spec_join(parts.deep_view(), sep@),
{
    let mut out: Vec<char> = Vec::new();
    if parts.len() == 0 {
        return out;
    }
    let mut k: usize = 0;
    while k < parts.len()
        invariant
            0 <= k <= parts@.len(),
            parts@.len() >= 1,
            k >= 1 ==> out@ =~= spec_join(parts.deep_view().take(k as int), sep@),
            k == 0 ==> out@.len() == 0,
        decreases parts@.len() - k,
    {
        if k > 0 {
            let mut j: usize = 0;
            let ghost before = out@;
            while j < sep.len()
                invariant
                    0 <= j <= sep@.len(),
                    out@ =~= before + sep@.take(j as int),
                decreases sep@.len() - j,
            {
                out.push(sep[j]);
                proof {
                    assert(sep@.take(j + 1 as int) =~= sep@.take(j as int).push(sep@[j as int]));
                }
                j += 1;
            }
            proof {
                assert(sep@.take(sep@.len() as int) =~= sep@);
            }
        }
        let part = &parts[k];
        let mut j: usize = 0;
        let ghost before = out@;
        while j < part.len()
            invariant
                0 <= j <= part@.len(),
                out@ =~= before + part@.take(j as int),
            decreases part@.len() - j,
        {
            out.push(part[j]);
            proof {
                assert(part@.take(j + 1 as int) =~= part@.take(j as int).push(part@[j as int]));
            }
            j += 1;
        }
        proof {
            assert(part@.take(part@.len() as int) =~= part@);
            lemma_join_take_step(parts.deep_view(), sep@, k as int);
        }
        k += 1;
    }
    proof {
        assert(parts.deep_view().take(parts@.len() as int) =~= parts.deep_view());
    }
    out
}

/// Unfolds one step of joining a prefix of the parts.
proof fn lemma_join_take_step(parts: Seq<Seq<char>>, sep: Seq<char>, k: int)
    requires
        0 <= k < parts.len(),
    ensures
        k == 0 ==> spec_join(parts.take(1), sep) == parts[0],
        k >= 1 ==> spec_join(parts.take(k + 1), sep) == spec_join(parts.take(k), sep) + sep
            + parts[k],
    decreases k,
{
    if k == 0 {
        assert(parts.take(1).len() == 1);
        assert(parts.take(1)[0] == parts[0]);
    } else {
        lemma_join_take_step(parts.skip(1), sep, k - 1);
        let a = parts.take(k + 1);
        assert(a.len() >= 2);
        assert(spec_join(a, sep) == a[0] + sep + spec_join(a.skip(1), sep));
        assert(a.skip(1) =~= parts.skip(1).take(k));
        let b = parts.take(k);
        assert(spec_join(b, sep) == b[0] + sep + spec_join(b.skip(1), sep) || b.len() == 1);
        if k == 1 {
            assert(spec_join(b, sep) == b[0]);
            assert(parts.skip(1).take(1) =~= seq![parts[1]]);
            assert(spec_join(parts.skip(1).take(1), sep) == parts[1]);
            assert(spec_join(a, sep) =~= spec_join(b, sep) + sep + parts[k]);
        } else {
            assert(b.len() >= 2);
            assert(b.skip(1) =~= parts.skip(1).take(k - 1));
            assert(spec_join(parts.skip(1).take(k), sep) == spec_join(
                parts.skip(1).take(k - 1),
                sep,
            ) + sep + parts.skip(1)[k - 1]);
            assert(parts.skip(1)[k - 1] == parts[k]);
            assert(spec_join(a, sep) =~= spec_join(b, sep) + sep + parts[k]);
        }
    }
}


/// The non-empty segments of a split: leading, trailing and doubled
/// separators yield no segments.
pub open spec fn spec_segments(s: Seq<char>, sep: Seq<char>) -> Seq<Seq<char>> {
    spec_split(s, sep).filter(|p: Seq<char>| p.len() != 0)
}

/// Which segment a possibly negative index addresses: a negative index
/// counts back from the end.
pub open spec fn spec_segment_index(num_parts: int, index: int) -> Option<int> {
    if index >= 0 {
        if index < num_parts {
            Some(index)
        } else {
            None
        }
    } else {
        if num_parts + index >= 0 {
            Some(num_parts + index)
        } else {
            None
        }
    }
}

/// The segment addressed by `index` among the non-empty segments of `s`.
pub open spec fn spec_to_segment(s: Seq<char>, sep: Seq<char>, index: int) -> Option<Seq<char>> {
    let segs = spec_segments(s, sep);
    match spec_segment_index(segs.len() as int, index) {
        Some(i) => Some(segs[i]),
        None => None,
    }
}

/// One step of nested-segment addressing: while the current text is
/// non-empty, address the next group's segment in it; an empty current text
/// leaves the state untouched.
pub open spec fn spec_inner_step(
    state: (Option<Seq<char>>, Seq<char>),
    sep: Seq<char>,
    index: int,
) -> (Option<Seq<char>>, Seq<char>) {
    if state.1.len() > 0 {
        let m = spec_to_segment(state.1, sep, index);
        match m {
            Some(t) => (Some(t), t),
            None => (None, Seq::empty()),
        }
    } else {
        state
    }
}

/// The parts of a split joined back except the first.
pub open spec fn spec_tail(s: Seq<char>, sep: Seq<char>) -> Seq<char> {
    spec_join(spec_split(s, sep).skip(1), sep)
}

/// Methods to split a string on an exact separator and address the
/// resulting segments: head/tail, first/last, indexed and nested segments.
/// Some methods keep empty segments and some skip them; each contract says
/// which.
pub trait ToSegments {
    spec fn seg_model(&self) -> Seq<char>;

    /// All parts of the split, keeping empty segments.
    fn to_parts(&self, separator: &str) -> (r: Vec<String>)
        ensures
            r.deep_view() == spec_split(self.seg_model(), separator@),
    ;

    /// The non-empty segments of the split.
    fn to_segments(&self, separator: &str) -> (r: Vec<String>)
        ensures
            r.deep_view() == spec_segments(self.seg_model(), separator@),
    ;

    /// Everything before the first separator, or the whole text if the
    /// separator is absent.
    fn to_head(&self, separator: &str) -> (r: String)
        ensures
            r@ == spec_split(self.seg_model(), separator@)[0],
    ;

    /// The first segment, ignoring one leading separator.
    fn to_first(&self, separator: &str) -> (r: String)
        ensures
            r@ == ({
                let s = self.seg_model();
                let sep = separator@;
                if s.len() > sep.len() && sep.len() > 0 && s.take(sep.len() as int) == sep {
                    spec_split(s.skip(sep.len() as int), sep)[0]
                } else {
                    spec_split(s, sep)[0]
                }
            }),
    ;

    /// Everything after the first separator, ignoring one leading separator.
    fn to_remainder_end(&self, separator: &str) -> (r: String)
        ensures
            r@ == ({
                let s = self.seg_model();
                let sep = separator@;
                if s.len() > sep.len() && sep.len() > 0 && s.take(sep.len() as int) == sep {
                    spec_tail(s.skip(sep.len() as int), sep)
                } else {
                    spec_tail(s, sep)
                }
            }),
    ;

    /// The last segment, ignoring one trailing separator.
    fn to_last(&self, separator: &str) -> (r: String)
        ensures
            r@ == ({
                let s = self.seg_model();
                let sep = separator@;
                if s.len() > sep.len() && sep.len() > 0 && s.skip(s.len() - sep.len()) == sep {
                    spec_split(s.take(s.len() - sep.len()), sep).last()
                } else {
                    spec_split(s, sep).last()
                }
            }),
    ;

    /// Everything after the first part, ignoring one trailing separator.
    fn to_remainder_start(&self, separator: &str) -> (r: String)
        ensures
            r@ == ({
                let s = self.seg_model();
                let sep = separator@;
                if s.len() > sep.len() && sep.len() > 0 && s.skip(s.len() - sep.len()) == sep {
                    spec_tail(s.take(s.len() - sep.len()), sep)
                } else {
                    spec_tail(s, sep)
                }
            }),
    ;

    /// The last part of the split, empty segments included.
    fn to_end(&self, separator: &str) -> (r: String)
        ensures
            r@ == spec_split(self.seg_model(), separator@).last(),
    ;

    /// The non-empty segment addressed by `index`; a negative index counts
    /// from the end.
    fn to_segment(&self, separator: &str, index: i32) -> (r: Option<String>)
        ensures
            match r {
                Some(seg) => spec_to_segment(self.seg_model(), separator@, index as int)
                    == Some(seg@),
                None => spec_to_segment(self.seg_model(), separator@, index as int) is None,
            },
    ;

    /// Nested segment addressing: apply each (separator, index) pair in turn
    /// to the segment found so far.
    fn to_inner_segment(&self, groups: &[(&str, i32)]) -> (r: Option<String>)
        ensures
            ({
                let final_state = groups.deep_view().fold_left(
                    (None::<Seq<char>>, self.seg_model()),
                    |st: (Option<Seq<char>>, Seq<char>), g: (Seq<char>, i32)|
                        spec_inner_step(st, g.0, g.1 as int),
                );
                if groups.deep_view().len() > 0 {
                    match r {
                        Some(t) => final_state.0 == Some(t@),
                        None => final_state.0 is None,
                    }
                } else {
                    r is None
                }
            }),
    ;

    /// Everything after the first part, joined back with the separator.
    fn to_tail(&self, separator: &str) -> (r: String)
        ensures
            r@ == spec_tail(self.seg_model(), separator@),
    ;

    /// Head and tail around the first separator; the head is empty when the
    /// separator is absent.
    fn to_head_tail(&self, separator: &str) -> (r: (String, String))
        ensures
            ({
                let parts = spec_split(self.seg_model(), separator@);
                if parts.len() >= 2 {
                    r.0@ == parts[0] && r.1@ == spec_join(parts.skip(1), separator@)
                } else {
                    r.0@.len() == 0 && r.1@ == self.seg_model()
                }
            }),
    ;

    /// Start and end around the last separator; the end is empty when the
    /// separator is absent.
    fn to_start_end(&self, separator: &str) -> (r: (String, String))
        ensures
            ({
                let parts = spec_split(self.seg_model(), separator@);
                if parts.len() >= 2 {
                    r.0@ == spec_join(parts.take(parts.len() - 1), separator@) && r.1@
                        == parts.last()
                } else {
                    r.0@ == self.seg_model() && r.1@.len() == 0
                }
            }),
    ;
}

/// Turn split parts back into owned strings.
fn parts_to_strings(parts: &Vec<Vec<char>>) -> (r: Vec<String>)
    ensures
        r.deep_view() == parts.deep_view(),
{
    let mut out: Vec<String> = Vec::new();
    let mut i: usize = 0;
    while i < parts.len()
        invariant
            0 <= i <= parts@.len(),
            out.deep_view() =~~= parts.deep_view().take(i as int),
        decreases parts@.len() - i,
    {
        proof {
            assert(out.deep_view().len() == i);
            assert(out@.len() == i);
        }
        let part_string = charseq::chars_to_string(&parts[i]);
        out.push(part_string);
        proof {
            assert(out.deep_view() =~~= parts.deep_view().take(i + 1 as int));
        }
        i += 1;
    }
    proof {
        assert(out.deep_view() =~~= parts.deep_view());
    }
    out
}

/// Keep only the non-empty parts.
fn filter_nonempty(parts: &Vec<Vec<char>>) -> (r: Vec<Vec<char>>)
    ensures
        r.deep_view() == parts.deep_view().filter(|p: Seq<char>| p.len() != 0),
{
    proof {
        reveal(Seq::filter);
    }
    let mut out: Vec<Vec<char>> = Vec::new();
    let mut i: usize = 0;
    while i < parts.len()
        invariant
            0 <= i <= parts@.len(),
            out.deep_view() =~~= parts.deep_view().take(i as int).filter(
                |p: Seq<char>| p.len() != 0,
            ),
        decreases parts@.len() - i,
    {
        proof {
            reveal(Seq::filter);
            let dv = parts.deep_view();
            assert(dv.take(i + 1 as int).drop_last() =~~= dv.take(i as int));
            assert(dv.take(i + 1 as int).last() == dv[i as int]);
            assert(dv.take(i + 1 as int).len() == i + 1);
        }
        if parts[i].len() > 0 {
            out.push(charseq::subvec(&parts[i], 0, parts[i].len()));
            proof {
                reveal(Seq::filter);
                assert(parts@[i as int]@.subrange(0, parts@[i as int]@.len() as int) =~= parts@[
                    i as int
                ]@);
                assert(out.deep_view() =~~= parts.deep_view().take(i + 1 as int).filter(
                    |p: Seq<char>| p.len() != 0,
                ));
            }
        } else {
            proof {
                reveal(Seq::filter);
                assert(out.deep_view() =~~= parts.deep_view().take(i + 1 as int).filter(
                    |p: Seq<char>| p.len() != 0,
                ));
            }
        }
        i += 1;
    }
    proof {
        reveal(Seq::filter);
        assert(parts.deep_view().take(parts@.len() as int) =~~= parts.deep_view());
        assert(out.deep_view() =~~= parts.deep_view().filter(|p: Seq<char>| p.len() != 0));
    }
    out
}

/// A copy of the parts from `from` (inclusive) to `to` (exclusive).
fn slice_parts(parts: &Vec<Vec<char>>, from: usize, to: usize) -> (r: Vec<Vec<char>>)
    requires
        0 <= from <= to <= parts@.len(),
    ensures
        r.deep_view() == parts.deep_view().subrange(from as int, to as int),
{
    let mut out: Vec<Vec<char>> = Vec::new();
    let mut i: usize = from;
    while i < to
        invariant
            from <= i <= to <= parts@.len(),
            out.deep_view() =~~= parts.deep_view().subrange(from as int, i as int),
        decreases to - i,
    {
        proof {
            assert(out.deep_view().len() == i - from);
            assert(out@.len() == i - from);
        }
        let part_copy = charseq::subvec(&parts[i], 0, parts[i].len());
        out.push(part_copy);
        proof {
            assert(parts@[i as int]@.subrange(0, parts@[i as int]@.len() as int) =~= parts@[
                i as int
            ]@);
            assert(out.deep_view() =~~= parts.deep_view().subrange(from as int, i + 1 as int));
        }
        i += 1;
    }
    out
}


impl ToSegments for str {
    open spec fn seg_model(&self) -> Seq<char> {
        self@
    }

    fn to_parts(&self, separator: &str) -> (r: Vec<String>) {
        let s = charseq::to_chars(self);
        let sep = charseq::to_chars(separator);
        let parts = split_chars(&s, &sep);
        parts_to_strings(&parts)
    }

    fn to_segments(&self, separator: &str) -> (r: Vec<String>) {
        let s = charseq::to_chars(self);
        let sep = charseq::to_chars(separator);
        let parts = split_chars(&s, &sep);
        let kept = filter_nonempty(&parts);
        parts_to_strings(&kept)
    }

    fn to_head(&self, separator: &str) -> (r: String) {
        let s = charseq::to_chars(self);
        let sep = charseq::to_chars(separator);
        let parts = split_chars(&s, &sep);
        proof {
            lemma_split_len(self@, separator@);
        }
        charseq::chars_to_string(&parts[0])
    }

    fn to_first(&self, separator: &str) -> (r: String) {
        let s = charseq::to_chars(self);
        let sep = charseq::to_chars(separator);
        if s.len() > sep.len() && sep.len() > 0 && charseq::occurs_at(&s, &sep, 0) {
            proof {
                assert(self@.subrange(0, separator@.len() as int) =~= self@.take(
                    separator@.len() as int,
                ));
                lemma_split_len(self@.skip(separator@.len() as int), separator@);
            }
            let rest = charseq::subvec(&s, sep.len(), s.len());
            proof {
                assert(rest@ =~= self@.skip(separator@.len() as int));
            }
            let parts = split_chars(&rest, &sep);
            charseq::chars_to_string(&parts[0])
        } else {
            proof {
                if sep@.len() > 0 && s@.len() > sep@.len() {
                    assert(self@.subrange(0, separator@.len() as int) =~= self@.take(
                        separator@.len() as int,
                    ));
                }
                lemma_split_len(self@, separator@);
            }
            let parts = split_chars(&s, &sep);
            charseq::chars_to_string(&parts[0])
        }
    }

    fn to_remainder_end(&self, separator: &str) -> (r: String) {
        let s = charseq::to_chars(self);
        let sep = charseq::to_chars(separator);
        if s.len() > sep.len() && sep.len() > 0 && charseq::occurs_at(&s, &sep, 0) {
            proof {
                assert(self@.subrange(0, separator@.len() as int) =~= self@.take(
                    separator@.len() as int,
                ));
                lemma_split_len(self@.skip(separator@.len() as int), separator@);
            }
            let rest = charseq::subvec(&s, sep.len(), s.len());
            proof {
                assert(rest@ =~= self@.skip(separator@.len() as int));
            }
            let parts = split_chars(&rest, &sep);
            let tail = slice_parts(&parts, 1, parts.len());
            proof {
                assert(tail.deep_view() =~~= spec_split(rest@, sep@).skip(1));
            }
            charseq::chars_to_string(&join_chars(&tail, &sep))
        } else {
            proof {
                if sep@.len() > 0 && s@.len() > sep@.len() {
                    assert(self@.subrange(0, separator@.len() as int) =~= self@.take(
                        separator@.len() as int,
                    ));
                }
                lemma_split_len(self@, separator@);
            }
            let parts = split_chars(&s, &sep);
            let tail = slice_parts(&parts, 1, parts.len());
            proof {
                assert(tail.deep_view() =~~= spec_split(self@, separator@).skip(1));
            }
            charseq::chars_to_string(&join_chars(&tail, &sep))
        }
    }

    fn to_last(&self, separator: &str) -> (r: String) {
        let s = charseq::to_chars(self);
        let sep = charseq::to_chars(separator);
        if s.len() > sep.len() && sep.len() > 0 && charseq::occurs_at(&s, &sep, s.len()
            - sep.len()) {
            proof {
                assert(self@.subrange(
                    self@.len() - separator@.len(),
                    self@.len() as int,
                ) =~= self@.skip(self@.len() - separator@.len()));
                lemma_split_len(self@.take(self@.len() - separator@.len()), separator@);
            }
            let head = charseq::subvec(&s, 0, s.len() - sep.len());
            proof {
                assert(head@ =~= self@.take(self@.len() - separator@.len()));
            }
            let parts = split_chars(&head, &sep);
            charseq::chars_to_string(&parts[parts.len() - 1])
        } else {
            proof {
                if sep@.len() > 0 && s@.len() > sep@.len() {
                    assert(self@.subrange(
                        self@.len() - separator@.len(),
                        self@.len() as int,
                    ) =~= self@.skip(self@.len() - separator@.len()));
                }
                lemma_split_len(self@, separator@);
            }
            let parts = split_chars(&s, &sep);
            charseq::chars_to_string(&parts[parts.len() - 1])
        }
    }

    fn to_remainder_start(&self, separator: &str) -> (r: String) {
        let s = charseq::to_chars(self);
        let sep = charseq::to_chars(separator);
        if s.len() > sep.len() && sep.len() > 0 && charseq::occurs_at(&s, &sep, s.len()
            - sep.len()) {
            proof {
                assert(self@.subrange(
                    self@.len() - separator@.len(),
                    self@.len() as int,
                ) =~= self@.skip(self@.len() - separator@.len()));
                lemma_split_len(self@.take(self@.len() - separator@.len()), separator@);
            }
            let head = charseq::subvec(&s, 0, s.len() - sep.len());
            proof {
                assert(head@ =~= self@.take(self@.len() - separator@.len()));
            }
            let parts = split_chars(&head, &sep);
            let tail = slice_parts(&parts, 1, parts.len());
            proof {
                assert(tail.deep_view() =~~= spec_split(head@, sep@).skip(1));
            }
            charseq::chars_to_string(&join_chars(&tail, &sep))
        } else {
            proof {
                if sep@.len() > 0 && s@.len() > sep@.len() {
                    assert(self@.subrange(
                        self@.len() - separator@.len(),
                        self@.len() as int,
                    ) =~= self@.skip(self@.len() - separator@.len()));
                }
                lemma_split_len(self@, separator@);
            }
            let parts = split_chars(&s, &sep);
            let tail = slice_parts(&parts, 1, parts.len());
            proof {
                assert(tail.deep_view() =~~= spec_split(self@, separator@).skip(1));
            }
            charseq::chars_to_string(&join_chars(&tail, &sep))
        }
    }

    fn to_end(&self, separator: &str) -> (r: String) {
        let s = charseq::to_chars(self);
        let sep = charseq::to_chars(separator);
        let parts = split_chars(&s, &sep);
        proof {
            lemma_split_len(self@, separator@);
        }
        charseq::chars_to_string(&parts[parts.len() - 1])
    }

    fn to_segment(&self, separator: &str, index: i32) -> (r: Option<String>) {
        let s = charseq::to_chars(self);
        let sep = charseq::to_chars(separator);
        let parts = split_chars(&s, &sep);
        let segs = filter_nonempty(&parts);
        let n = segs.len();
        if index >= 0 {
            let idx = index as usize;
            if idx < n {
                Some(charseq::chars_to_string(&segs[idx]))
            } else {
                None
            }
        } else {
            let neg = (-(index as i64)) as usize;
            if neg <= n {
                Some(charseq::chars_to_string(&segs[n - neg]))
            } else {
                None
            }
        }
    }

    fn to_inner_segment(&self, groups: &[(&str, i32)]) -> (r: Option<String>) {
        if groups.len() == 0 {
            return None;
        }
        let mut matched: Option<String> = None;
        let mut current: String = self.to_owned();
        let ghost step = |st: (Option<Seq<char>>, Seq<char>), g: (Seq<char>, i32)|
            spec_inner_step(st, g.0, g.1 as int);
        let ghost init = (None::<Seq<char>>, self@);
        let mut k: usize = 0;
        while k < groups.len()
            invariant
                0 <= k <= groups@.len(),
                step == (|st: (Option<Seq<char>>, Seq<char>), g: (Seq<char>, i32)|
                    spec_inner_step(st, g.0, g.1 as int)),
                init == (None::<Seq<char>>, self@),
                groups.deep_view().take(k as int).fold_left(init, step) == (
                    match matched {
                        Some(m) => Some(m@),
                        None => None::<Seq<char>>,
                    },
                    current@,
                ),
            decreases groups@.len() - k,
        {
            let ghost pre_state = groups.deep_view().take(k as int).fold_left(init, step);
            proof {
                assert(groups.deep_view().take(k + 1 as int).drop_last() =~~=
                    groups.deep_view().take(k as int));
                assert(groups.deep_view().take(k + 1 as int).last() == groups.deep_view()[
                    k as int
                ]);
                assert(groups.deep_view().take(k + 1 as int).fold_left(init, step) == step(
                    pre_state,
                    groups.deep_view()[k as int],
                ));
            }
            if current.as_str().unicode_len() > 0 {
                let (sep, idx) = groups[k];
                matched = current.as_str().to_segment(sep, idx);
                proof {
                    assert(groups.deep_view()[k as int].0 == groups@[k as int].0@);
                    assert(groups.deep_view()[k as int].1 == groups@[k as int].1);
                }
                match &matched {
                    Some(m) => {
                        current = m.clone();
                    },
                    _ => {
                        current = String::new();
                    },
                }
            }
            k += 1;
        }
        proof {
            assert(groups.deep_view().take(groups@.len() as int) =~~= groups.deep_view());
        }
        matched
    }

    fn to_tail(&self, separator: &str) -> (r: String) {
        let s = charseq::to_chars(self);
        let sep = charseq::to_chars(separator);
        let parts = split_chars(&s, &sep);
        proof {
            lemma_split_len(self@, separator@);
        }
        let tail = slice_parts(&parts, 1, parts.len());
        proof {
            assert(tail.deep_view() =~~= spec_split(self@, separator@).skip(1));
        }
        charseq::chars_to_string(&join_chars(&tail, &sep))
    }

    fn to_head_tail(&self, separator: &str) -> (r: (String, String)) {
        let s = charseq::to_chars(self);
        let sep = charseq::to_chars(separator);
        let parts = split_chars(&s, &sep);
        if parts.len() >= 2 {
            let head = charseq::chars_to_string(&parts[0]);
            let tail = slice_parts(&parts, 1, parts.len());
            proof {
                assert(tail.deep_view() =~~= spec_split(self@, separator@).skip(1));
            }
            let joined = charseq::chars_to_string(&join_chars(&tail, &sep));
            (head, joined)
        } else {
            (String::new(), self.to_owned())
        }
    }

    fn to_start_end(&self, separator: &str) -> (r: (String, String)) {
        let s = charseq::to_chars(self);
        let sep = charseq::to_chars(separator);
        let parts = split_chars(&s, &sep);
        proof {
            lemma_split_len(self@, separator@);
        }
        if parts.len() >= 2 {
            let front = slice_parts(&parts, 0, parts.len() - 1);
            proof {
                assert(front.deep_view() =~~= spec_split(self@, separator@).take(
                    spec_split(self@, separator@).len() - 1,
                ));
            }
            let start = charseq::chars_to_string(&join_chars(&front, &sep));
            let end = charseq::chars_to_string(&parts[parts.len() - 1]);
            (start, end)
        } else {
            (self.to_owned(), String::new())
        }
    }
}

} // verus!
