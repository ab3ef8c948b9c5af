use vstd::prelude::*;

verus! {

/// Declares which side(s) of a word pattern receive a zero-width
/// word-boundary anchor.
#[derive(Clone, Copy)]
pub enum WordBounds {
    Neither,
    Start,
    End,
    Both,
}

/// The pattern produced by wrapping `word` with word-boundary anchors on the
/// side(s) a `WordBounds` variant calls for.
pub open spec fn spec_word_bounds_pattern(bounds: WordBounds, word: Seq<char>) -> Seq<char> {
    match bounds {
        WordBounds::Start => seq!['\\', 'b'] + word,
        WordBounds::End => word + seq!['\\', 'b'],
        WordBounds::Both => seq!['\\', 'b'] + word + seq!['\\', 'b'],
        WordBounds::Neither => word,
    }
}

impl WordBounds {
    /// Wrap `word` with a word-boundary anchor on the side(s) this variant
    /// declares; `None` returns the word unchanged.
    pub fn to_pattern(&self, word: &str) -> (r: String)
        ensures
            r@ == spec_word_bounds_pattern(*self, word@),
    {
        match self {
            WordBounds::Start => {
                let mut out = String::from_str("\\b");
                out.append(word);
                proof {
                    reveal_strlit("\\b");
                    assert("\\b"@ =~= seq!['\\', 'b']);
                }
                out
            },
            WordBounds::End => {
                let mut out = String::from_str(word);
                out.append("\\b");
                proof {
                    reveal_strlit("\\b");
                    assert("\\b"@ =~= seq!['\\', 'b']);
                }
                out
            },
            WordBounds::Both => {
                let mut out = String::from_str("\\b");
                out.append(word);
                out.append("\\b");
                proof {
                    reveal_strlit("\\b");
                    assert("\\b"@ =~= seq!['\\', 'b']);
                }
                out
            },
            WordBounds::Neither => word.to_owned(),
        }
    }
}

/// One simple (non-regex) string-containment test: a position rule, the
/// literal pattern text, a polarity (must / must not hold) and a case policy.
#[derive(Clone, Copy)]
pub enum StringBounds<'a> {
    /// (pattern, is_positive, case_insensitive)
    StartsWith(&'a str, bool, bool),
    /// (pattern, is_positive, case_insensitive)
    EndsWith(&'a str, bool, bool),
    /// (pattern, is_positive, case_insensitive)
    Contains(&'a str, bool, bool),
}

impl<'a> StringBounds<'a> {
    pub open spec fn spec_pattern(self) -> Seq<char> {
        match self {
            StringBounds::StartsWith(p, _, _) => p@,
            StringBounds::EndsWith(p, _, _) => p@,
            StringBounds::Contains(p, _, _) => p@,
        }
    }

    pub open spec fn spec_is_positive(self) -> bool {
        match self {
            StringBounds::StartsWith(_, pos, _) => pos,
            StringBounds::EndsWith(_, pos, _) => pos,
            StringBounds::Contains(_, pos, _) => pos,
        }
    }

    pub open spec fn spec_case_insensitive(self) -> bool {
        match self {
            StringBounds::StartsWith(_, _, ci) => ci,
            StringBounds::EndsWith(_, _, ci) => ci,
            StringBounds::Contains(_, _, ci) => ci,
        }
    }

    /// The literal pattern text carried by this rule.
    pub fn pattern(&self) -> (r: &'a str)
        ensures
            r@ == self.spec_pattern(),
    {
        match self {
            StringBounds::StartsWith(p, _, _) => p,
            StringBounds::EndsWith(p, _, _) => p,
            StringBounds::Contains(p, _, _) => p,
        }
    }

    /// Whether the rule demands the test to succeed (true) or to fail (false).
    pub fn is_positive(&self) -> (r: bool)
        ensures
            r == self.spec_is_positive(),
    {
        match self {
            StringBounds::StartsWith(_, pos, _) => *pos,
            StringBounds::EndsWith(_, pos, _) => *pos,
            StringBounds::Contains(_, pos, _) => *pos,
        }
    }

    /// Whether the test is applied case-insensitively.
    pub fn case_insensitive(&self) -> (r: bool)
        ensures
            r == self.spec_case_insensitive(),
    {
        match self {
            StringBounds::StartsWith(_, _, ci) => *ci,
            StringBounds::EndsWith(_, _, ci) => *ci,
            StringBounds::Contains(_, _, ci) => *ci,
        }
    }

    pub fn starts_with(&self) -> (r: bool)
        ensures
            r == (self is StartsWith),
    {
        matches!(self, StringBounds::StartsWith(_, _, _))
    }

    pub fn ends_with(&self) -> (r: bool)
        ensures
            r == (self is EndsWith),
    {
        matches!(self, StringBounds::EndsWith(_, _, _))
    }
}

} // verus!
