use vstd::prelude::*;
use crate::engine;

verus! {

// Verified character-sequence utilities shared by the pattern, segment and
// numeric modules. Exec functions work on `Vec<char>` snapshots of a string
// so that every position is addressable; `&str` values are converted at the
// boundary.

/// Decimal digit in the ASCII range.
pub open spec fn spec_is_digit(c: char) -> bool {
    '0' <= c && c <= '9'
}

/// Decimal digit in the ASCII range.
pub fn is_digit_char(c: char) -> (r: bool)
    ensures
        r == spec_is_digit(c),
{
    c >= '0' && c <= '9'
}

/// Every character of `s` collected into a vector, in order.
pub fn to_chars(s: &str) -> (r: Vec<char>)
    ensures
        r@ == s@,
{
    let n = s.unicode_len();
    let mut out: Vec<char> = Vec::new();
    let mut i: usize = 0;
    while i < n
        invariant
            0 <= i <= n,
            n == s@.len(),
            out@ =~= s@.take(i as int),
        decreases n - i,
    {
        out.push(s.get_char(i));
        proof {
            assert(s@.take(i + 1 as int) =~= s@.take(i as int).push(s@[i as int]));
        }
        i += 1;
    }
    proof {
        assert(s@.take(n as int) =~= s@);
    }
    out
}

/// A string holding exactly the characters of `v`, in order.
pub fn chars_to_string(v: &Vec<char>) -> (r: String)
    ensures
        r@ == v@,
{
    let mut out = String::new();
    let mut i: usize = 0;
    while i < v.len()
        invariant
            0 <= i <= v@.len(),
            out@ =~= v@.take(i as int),
        decreases v@.len() - i,
    {
        engine::push_char(&mut out, v[i]);
        proof {
            assert(v@.take(i + 1 as int) =~= v@.take(i as int).push(v@[i as int]));
        }
        i += 1;
    }
    proof {
        assert(v@.take(v@.len() as int) =~= v@);
    }
    out
}

/// `s` with every occurrence of `c` removed.
pub open spec fn spec_remove_char(s: Seq<char>, c: char) -> Seq<char> {
    s.filter(|x: char| x != c)
}

/// Number of occurrences of `c` in `s`.
pub open spec fn spec_count_char(s: Seq<char>, c: char) -> int {
    s.filter(|x: char| x == c).len() as int
}

/// Index of the last occurrence of `c` in `s`, or 0 when `c` is absent.
pub open spec fn spec_last_index_or_zero(s: Seq<char>, c: char) -> int {
    match s.index_of_last(c) {
        Some(i) => i,
        None => 0,
    }
}

/// Whether `needle` occurs in `hay` starting at position `at`.
pub open spec fn spec_occurs_at(hay: Seq<char>, needle: Seq<char>, at: int) -> bool {
    0 <= at && at + needle.len() <= hay.len() && hay.subrange(at, at + needle.len()) == needle
}

/// Whether `needle` occurs anywhere in `hay`.
pub open spec fn spec_contains_seq(hay: Seq<char>, needle: Seq<char>) -> bool {
    exists|at: int| spec_occurs_at(hay, needle, at)
}

/// The characters of `v` between positions `from` and `to`.
pub fn subvec(v: &Vec<char>, from: usize, to: usize) -> (r: Vec<char>)
    requires
        0 <= from <= to <= v@.len(),
    ensures
        r@ == v@.subrange(from as int, to as int),
{
    let mut out: Vec<char> = Vec::new();
    let mut i: usize = from;
    while i < to
        invariant
            from <= i <= to <= v@.len(),
            out@ =~= v@.subrange(from as int, i as int),
        decreases to - i,
    {
        out.push(v[i]);
        proof {
            assert(v@.subrange(from as int, i + 1 as int) =~= v@.subrange(
                from as int,
                i as int,
            ).push(v@[i as int]));
        }
        i += 1;
    }
    out
}

/// Whether `needle` occurs in `hay` at position `at`.
pub fn occurs_at(hay: &Vec<char>, needle: &Vec<char>, at: usize) -> (r: bool)
    ensures
        r == spec_occurs_at(hay@, needle@, at as int),
{
    if at > hay.len() || needle.len() > hay.len() - at {
        proof {
            assert(!spec_occurs_at(hay@, needle@, at as int));
        }
        return false;
    }
    let mut i: usize = 0;
    while i < needle.len()
        invariant
            0 <= i <= needle@.len(),
            at + needle@.len() <= hay@.len(),
            hay@.len() <= usize::MAX,
            forall|j: int| 0 <= j < i ==> hay@[at + j] == needle@[j],
        decreases needle@.len() - i,
    {
        proof {
            assert(at + i < hay@.len());
        }
        if hay[at + i] != needle[i] {
            proof {
                assert(hay@.subrange(at as int, at + needle@.len())[i as int] == hay@[at + i]);
                assert(hay@.subrange(at as int, at + needle@.len()) != needle@);
            }
            return false;
        }
        i += 1;
    }
    proof {
        assert(hay@.subrange(at as int, at + needle@.len()) =~= needle@);
    }
    true
}

/// Smallest position at or after `from` where `needle` occurs in `hay`, if any.
pub fn find_from(hay: &Vec<char>, needle: &Vec<char>, from: usize) -> (r: Option<usize>)
    requires
        from <= hay@.len(),
    ensures
        match r {
            Some(at) => from <= at && spec_occurs_at(hay@, needle@, at as int) && forall|j: int|
                from <= j < at ==> !spec_occurs_at(hay@, needle@, j),
            None => forall|j: int| from <= j ==> !spec_occurs_at(hay@, needle@, j),
        },
{
    if needle.len() == 0 {
        proof {
            assert(hay@.subrange(from as int, from as int) =~= needle@);
        }
        return Some(from);
    }
    if needle.len() > hay.len() - from {
        proof {
            assert forall|j: int| from <= j implies !spec_occurs_at(hay@, needle@, j) by {}
        }
        return None;
    }
    let last_start: usize = hay.len() - needle.len();
    let mut at: usize = from;
    while at <= last_start
        invariant
            from <= at <= last_start + 1,
            last_start == hay@.len() - needle@.len(),
            needle@.len() >= 1,
            needle@.len() <= hay@.len(),
            hay@.len() <= usize::MAX,
            forall|j: int| from <= j < at ==> !spec_occurs_at(hay@, needle@, j),
        decreases last_start + 1 - at,
    {
        if occurs_at(hay, needle, at) {
            return Some(at);
        }
        at += 1;
    }
    proof {
        assert forall|j: int| from <= j implies !spec_occurs_at(hay@, needle@, j) by {
            if j <= last_start {
                assert(!spec_occurs_at(hay@, needle@, j));
            }
        }
    }
    None
}


/// Appending one character changes the count of `c` by one exactly when that
/// character is `c`.
pub proof fn lemma_count_char_push(s: Seq<char>, x: char, c: char)
    ensures
        spec_count_char(s.push(x), c) == spec_count_char(s, c) + (if x == c {
            1int
        } else {
            0int
        }),
{
    reveal(Seq::filter);
    assert(s.push(x).drop_last() =~= s);
    assert(s.push(x).last() == x);
}

/// A count of zero means the character occurs nowhere.
pub proof fn lemma_count_char_zero(s: Seq<char>, c: char)
    ensures
        (spec_count_char(s, c) == 0) <==> (forall|i: int| 0 <= i < s.len() ==> s[i] != c),
    decreases s.len(),
{
    reveal(Seq::filter);
    if s.len() > 0 {
        lemma_count_char_zero(s.drop_last(), c);
        assert(forall|i: int| 0 <= i < s.len() - 1 ==> s[i] == s.drop_last()[i]);
        if spec_count_char(s, c) == 0 {
            assert(s.last() != c);
        }
        if forall|i: int| 0 <= i < s.len() ==> s[i] != c {
            assert(s.last() != c);
        }
    }
}

/// Removing an absent character changes nothing.
pub proof fn lemma_remove_char_absent(s: Seq<char>, c: char)
    requires
        spec_count_char(s, c) == 0,
    ensures
        spec_remove_char(s, c) == s,
    decreases s.len(),
{
    reveal(Seq::filter);
    lemma_count_char_zero(s, c);
    if s.len() > 0 {
        lemma_count_char_zero(s.drop_last(), c);
        assert(forall|i: int| 0 <= i < s.len() - 1 ==> s.drop_last()[i] == s[i]);
        assert(spec_count_char(s.drop_last(), c) == 0) by {
            lemma_count_char_push(s.drop_last(), s.last(), c);
            assert(s.drop_last().push(s.last()) =~= s);
        }
        lemma_remove_char_absent(s.drop_last(), c);
        assert(spec_remove_char(s, c) =~= s);
    }
}

/// Count the occurrences of `c` in `v` and find the last position holding
/// one, or 0 when there is none.
pub fn count_and_last(v: &Vec<char>, c: char) -> (r: (usize, usize))
    ensures
        r.0 as int == spec_count_char(v@, c),
        r.1 as int == spec_last_index_or_zero(v@, c),
{
    let mut cnt: usize = 0;
    let mut last: usize = 0;
    let mut found = false;
    let mut i: usize = 0;
    while i < v.len()
        invariant
            0 <= i <= v@.len(),
            cnt as int == spec_count_char(v@.take(i as int), c),
            cnt <= i,
            found <==> exists|j: int| 0 <= j < i && v@[j] == c,
            found ==> last < i && v@[last as int] == c && (forall|j: int|
                last < j < i ==> v@[j] != c),
            !found ==> last == 0,
        decreases v@.len() - i,
    {
        proof {
            lemma_count_char_push(v@.take(i as int), v@[i as int], c);
            assert(v@.take(i + 1 as int) =~= v@.take(i as int).push(v@[i as int]));
        }
        if v[i] == c {
            cnt += 1;
            last = i;
            found = true;
        }
        i += 1;
    }
    proof {
        assert(v@.take(v@.len() as int) =~= v@);
        v@.index_of_last_ensures(c);
        if found {
            assert(v@.contains(c));
            match v@.index_of_last(c) {
                Some(k) => {
                    assert(v@[k] == c);
                    assert(forall|j: int| k < j < v@.len() ==> v@[j] != c);
                    assert(!(last < k)) by {
                        if last < k {
                            assert(v@[k] != c);
                        }
                    }
                    assert(!(k < last)) by {
                        if k < last {
                            assert(v@[last as int] != c);
                        }
                    }
                    assert(k == last as int);
                },
                None => {
                    assert(false);
                },
            }
        } else {
            assert(!v@.contains(c)) by {
                if v@.contains(c) {
                    let w = choose|j: int| 0 <= j < v@.len() && v@[j] == c;
                    assert(v@[w] == c);
                }
            }
        }
    }
    (cnt, last)
}

/// Removing a character distributes over appending one element.
pub proof fn lemma_remove_char_push(s: Seq<char>, x: char, c: char)
    ensures
        spec_remove_char(s.push(x), c) == if x != c {
            spec_remove_char(s, c).push(x)
        } else {
            spec_remove_char(s, c)
        },
{
    reveal(Seq::filter);
    assert(s.push(x).drop_last() =~= s);
    assert(s.push(x).last() == x);
}

/// `v` with every occurrence of `c` removed.
pub fn remove_char_vec(v: &Vec<char>, c: char) -> (r: Vec<char>)
    ensures
        r@ == spec_remove_char(v@, c),
{
    let mut out: Vec<char> = Vec::new();
    let mut i: usize = 0;
    while i < v.len()
        invariant
            0 <= i <= v@.len(),
            out@ == spec_remove_char(v@.take(i as int), c),
        decreases v@.len() - i,
    {
        proof {
            lemma_remove_char_push(v@.take(i as int), v@[i as int], c);
            assert(v@.take(i + 1 as int) =~= v@.take(i as int).push(v@[i as int]));
        }
        if v[i] != c {
            out.push(v[i]);
        }
        i += 1;
    }
    proof {
        assert(v@.take(v@.len() as int) =~= v@);
    }
    out
}


/// Whether `p` is a prefix of `s`.
pub open spec fn spec_starts_with(s: Seq<char>, p: Seq<char>) -> bool {
    spec_occurs_at(s, p, 0)
}

/// Whether `p` is a suffix of `s`.
pub open spec fn spec_ends_with(s: Seq<char>, p: Seq<char>) -> bool {
    p.len() <= s.len() && spec_occurs_at(s, p, s.len() - p.len())
}

/// Whether `p` is a prefix of `s`.
pub fn starts_with_chars(s: &Vec<char>, p: &Vec<char>) -> (r: bool)
    ensures
        r == spec_starts_with(s@, p@),
{
    occurs_at(s, p, 0)
}

/// Whether `p` is a suffix of `s`.
pub fn ends_with_chars(s: &Vec<char>, p: &Vec<char>) -> (r: bool)
    ensures
        r == spec_ends_with(s@, p@),
{
    if p.len() > s.len() {
        false
    } else {
        occurs_at(s, p, s.len() - p.len())
    }
}

/// Whether `p` occurs anywhere in `s`.
pub fn contains_chars(s: &Vec<char>, p: &Vec<char>) -> (r: bool)
    ensures
        r == spec_contains_seq(s@, p@),
{
    match find_from(s, p, 0) {
        Some(at) => {
            proof {
                assert(spec_occurs_at(s@, p@, at as int));
            }
            true
        },
        None => {
            proof {
                assert(!spec_contains_seq(s@, p@)) by {
                    if spec_contains_seq(s@, p@) {
                        let w = choose|at: int| spec_occurs_at(s@, p@, at);
                        assert(!spec_occurs_at(s@, p@, w));
                    }
                }
            }
            false
        },
    }
}


/// Interleave gap parts with one piece per match: `parts[0]`, then piece 0,
/// then `parts[1]`, and so on; meaningful when there is exactly one part
/// more than there are pieces.
pub open spec fn spec_interleave(parts: Seq<Seq<char>>, pieces: Seq<Seq<char>>) -> Seq<char>
    decreases pieces.len(),
{
    if pieces.len() == 0 {
        if parts.len() > 0 {
            parts[0]
        } else {
            Seq::empty()
        }
    } else {
        spec_interleave(parts.drop_last(), pieces.drop_last()) + pieces.last() + (
        if parts.len() > 0 {
            parts.last()
        } else {
            Seq::empty()
        })
    }
}

} // verus!
