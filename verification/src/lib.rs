//! Text-pattern toolkit: regular-expression matching, replacement, splitting
//! and capturing with case-sensitivity control and graceful degradation on
//! invalid patterns; whole-word and word-proximity matching; look-around
//! match sets emulated over plain matches; separator-based segment
//! extraction; and locale-aware numeric-token extraction that disambiguates
//! decimal and thousands separators.
//!
//! The regular-expression engine itself (the `regex` crate) is an external
//! collaborator reached through the small trusted interface in `engine`;
//! everything layered on top of it is verified.

pub mod alphanumeric;
pub mod charseq;
pub mod engine;
pub mod enums;
pub mod pattern_capture;
pub mod pattern_filter;
pub mod pattern_many;
pub mod pattern_match;
pub mod pattern_replace;
pub mod pattern_sets;
pub mod pattern_split;
pub mod segments;
pub mod simple_match;
pub mod utils;
pub mod words;

pub use crate::alphanumeric::CharGroupMatch;
pub use crate::alphanumeric::IsNumeric;
pub use crate::alphanumeric::StripCharacters;
pub use crate::enums::StringBounds;
pub use crate::enums::WordBounds;
pub use crate::pattern_capture::find_matches_within_haystack;
pub use crate::pattern_capture::MatchSpan;
pub use crate::pattern_capture::PatternCapture;
pub use crate::pattern_filter::PatternFilter;
pub use crate::pattern_many::PatternMatchMany;
pub use crate::pattern_many::PatternMatchesMany;
pub use crate::pattern_many::PatternReplaceMany;
pub use crate::pattern_match::PatternMatch;
pub use crate::pattern_match::PatternMatches;
pub use crate::pattern_replace::PatternReplace;
pub use crate::pattern_sets::MatchSet;
pub use crate::pattern_sets::PatternSet;
pub use crate::pattern_split::PatternSplit;
pub use crate::segments::ToSegments;
pub use crate::simple_match::MatchOccurrences;
pub use crate::simple_match::SimpleFilterAll;
pub use crate::simple_match::SimpleMatch;
pub use crate::simple_match::SimpleMatchAll;
pub use crate::simple_match::SimpleMatchesMany;
pub use crate::simple_match::ToStrings;
pub use crate::utils::build_regex;
pub use crate::utils::PatternError;
pub use crate::words::MatchWord;
pub use crate::words::ReplaceWord;
