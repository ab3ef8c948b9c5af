use string_patterns::CharGroupMatch;
use string_patterns::IsNumeric;
use string_patterns::MatchOccurrences;
use string_patterns::MatchSet;
use string_patterns::MatchWord;
use string_patterns::PatternError;
use string_patterns::PatternMatch;
use string_patterns::PatternMatches;
use string_patterns::PatternReplace;
use string_patterns::PatternSplit;
use string_patterns::PatternSet;
use string_patterns::MatchSpan;
use string_patterns::SimpleFilterAll;
use string_patterns::SimpleMatch;
use string_patterns::SimpleMatchAll;
use string_patterns::SimpleMatchesMany;
use string_patterns::StringBounds;
use string_patterns::StripCharacters;
use string_patterns::ToSegments;
use string_patterns::ToStrings;
use string_patterns::WordBounds;

#[test]
fn test_word_boundary_blocks_partial_words() {
    assert_eq!("cats".match_word("cat", true), false);
    assert!("cats".match_word("cats?", true));
}

#[test]
fn test_numeric_disambiguation_default_mode() {
    let first: Option<f64> = "1.999,50€".to_first_number();
    assert_eq!(first, Some(1999.50));
}

#[test]
fn test_numeric_disambiguation_euro_mode() {
    let first: Option<f64> = "1.500kg".to_first_number_euro();
    assert_eq!(first, Some(1500.0));
    let anglo: Option<f64> = "1.5km".to_first_number();
    assert_eq!(anglo, Some(1.5));
}

#[test]
fn test_numeric_token_sequence() {
    let tokens = "I spent £9999.99 on 2 motorbikes at the age of 72.".to_numeric_strings();
    assert_eq!(tokens, vec!["9999.99".to_string(), "2".to_string(), "72".to_string()]);
}

#[test]
fn test_correct_numeric_string_stable() {
    let once = "1.999,50".correct_numeric_string(false);
    assert_eq!(once, "1999.50");
    assert_eq!(once.correct_numeric_string(false), once);
    let euro_once = "1.500".correct_numeric_string(true);
    assert_eq!(euro_once, "1500");
    assert_eq!(euro_once.correct_numeric_string(true), euro_once);
}

#[test]
fn test_correct_numeric_string_unstable_mix() {
    // A candidate mixing a comma with a dot after it is rewritten twice:
    // enforced-comma mode first promotes the comma, then strips the dots.
    assert_eq!("1,2.3".correct_numeric_string(true), "1.2.3");
    assert_eq!("1.2.3".correct_numeric_string(true), "123");
}

#[test]
fn test_trailing_separator_trimmed() {
    assert_eq!("12.".correct_numeric_string(false), "12");
    let tokens = "worth 12. in total".to_numeric_strings();
    assert_eq!(tokens, vec!["12".to_string()]);
}

#[test]
fn test_batch_and_single_match_agree() {
    let samples = vec!["BAG", "dog", "frog", "leg", "twig", "brag"];
    let batch = samples.pattern_matches_ci("[ao]g");
    assert_eq!(batch, vec![true, true, true, false, false, true]);
    for (i, sample) in samples.iter().enumerate() {
        assert_eq!(batch[i], sample.pattern_match_ci("[ao]g"));
    }
}

#[test]
fn test_split_join_round_trip() {
    let text = "a,b,,c";
    let parts = text.to_parts(",");
    assert_eq!(parts, vec!["a".to_string(), "b".to_string(), "".to_string(), "c".to_string()]);
    assert_eq!(parts.join(","), text);
    let dashed = "-lead-and-trail-";
    assert_eq!(dashed.to_parts("-").join("-"), dashed);
}

#[test]
fn test_proximity_within_and_out_of_range() {
    let text = "Lions hunt, but cats nap.";
    assert!(text.match_words_by_proximity("lions", "cats", -20, 20, true));
    let mut far_text = String::from("lions");
    for _ in 0..1000 {
        far_text.push(' ');
    }
    far_text.push_str("cats");
    assert_eq!(far_text.match_words_by_proximity("lions", "cats", -20, 20, true), false);
}

#[test]
fn test_proximity_reversed_order() {
    let text = "cats met the lions today";
    assert!(text.match_words_by_proximity("lions", "cats", -100, 100, true));
}

#[test]
fn test_compile_failure_degradation() {
    let text = "some sample text";
    assert_eq!(text.pattern_match("(unterminated", true), false);
    assert!(text.pattern_match_result("(unterminated", true).is_err());
    match text.pattern_match_result("(unterminated", true) {
        Err(PatternError::Syntax(msg)) => assert!(msg.len() > 0),
        _ => panic!("expected a syntax error"),
    }
    assert_eq!(text.to_string().pattern_replace("(bad", "x", true), text.to_string());
    assert_eq!(text.pattern_split("(bad", true).len(), 0);
}

#[test]
fn test_look_around_conjunction_and_flips() {
    let haystack = "alpha beta gamma";
    let both_positive = MatchSet::new_ci("beta").look_behind("alpha", true).look_ahead(
        "gamma", true,
    );
    assert_eq!(both_positive.matches_result(haystack).unwrap(), true);
    let behind_flipped = MatchSet::new_ci("beta").look_behind("alpha", false).look_ahead(
        "gamma", true,
    );
    assert_eq!(behind_flipped.matches_result(haystack).unwrap(), false);
    let ahead_flipped = MatchSet::new_ci("beta").look_behind("alpha", true).look_ahead(
        "gamma", false,
    );
    assert_eq!(ahead_flipped.matches_result(haystack).unwrap(), false);
}

#[test]
fn test_match_set_empty_core_is_error() {
    let empty = MatchSet::empty();
    match empty.matches_result("anything") {
        Err(PatternError::EmptyCore) => {},
        _ => panic!("expected a configuration error"),
    }
    let with_clause = MatchSet::empty().look_behind("x", true);
    assert!(with_clause.matches_result("anything").is_err());
    assert_eq!("anything".pattern_set_match(&empty), false);
}

#[test]
fn test_match_set_vec_and_replace() {
    // The positive look-behind keeps only matches strictly after the
    // located "big " span: the second cat, not the one it touches.
    let haystack = "a big cat and a cat";
    let set = MatchSet::new_cs("cat").look_behind("big ", true);
    let spans = set.matched_vec(haystack);
    assert_eq!(spans.len(), 1);
    assert_eq!(spans[0].start(), 16);
    assert_eq!(spans[0].as_str(), "cat");
    assert_eq!(set.replace(haystack, "dog"), "a big cat and a dog".to_string());
    let plain = MatchSet::new_cs("cat");
    assert_eq!(plain.replace(haystack, "dog"), "a big dog and a dog".to_string());
}

#[test]
fn test_match_set_replace_keeps_haystack_on_bad_core() {
    let set = MatchSet::new_cs("(broken");
    assert_eq!(set.replace("text stays", "x"), "text stays".to_string());
    assert_eq!(set.matched_vec("text stays").len(), 0);
}

#[test]
fn test_segments_addressing() {
    let path = "10/11/2024";
    assert_eq!(path.to_segment("/", 1), Some("11".to_string()));
    assert_eq!(path.to_segment("/", -1), Some("2024".to_string()));
    assert_eq!(path.to_segment("/", 5), None);
    assert_eq!(path.to_segment("/", -5), None);
    let nested = "pictures/holiday-france-1983/originals";
    assert_eq!(nested.to_inner_segment(&[("/", 1), ("-", 2)]), Some("1983".to_string()));
    assert_eq!(nested.to_inner_segment(&[]), None);
}

#[test]
fn test_segments_head_and_tail() {
    let text = "first,second,third";
    assert_eq!(text.to_head(","), "first".to_string());
    assert_eq!(text.to_tail(","), "second,third".to_string());
    assert_eq!(text.to_end(","), "third".to_string());
    assert_eq!(text.to_head_tail(","), ("first".to_string(), "second,third".to_string()));
    assert_eq!(text.to_start_end(","), ("first,second".to_string(), "third".to_string()));
    assert_eq!("/a//b/".to_segments("/"), vec!["a".to_string(), "b".to_string()]);
    assert_eq!("/lead/x".to_first("/"), "lead".to_string());
    assert_eq!("x/trail/".to_last("/"), "trail".to_string());
    assert_eq!("/a/b/c".to_remainder_end("/"), "b/c".to_string());
    assert_eq!("a/b/c/".to_remainder_start("/"), "b/c".to_string());
}

#[test]
fn test_is_numeric_strictness() {
    assert!("12345".is_numeric());
    assert!("-12.5".is_numeric());
    assert_eq!("1.2.3".is_numeric(), false);
    assert_eq!("12,000".is_numeric(), false);
    assert_eq!("abc".is_numeric(), false);
    assert_eq!("".is_numeric(), false);
    assert_eq!("12.".is_numeric(), false);
}

#[test]
fn test_char_group_checks() {
    assert!("year 2024".has_digits());
    assert_eq!("no digits here".has_digits(), false);
    assert!("f00d".has_digits_radix(16));
    assert_eq!("zz".has_digits_radix(16), false);
    assert!("abc123".has_alphanumeric());
    assert_eq!("...".has_alphanumeric(), false);
    assert!("abc".has_alphabetic());
    assert_eq!("123".has_alphabetic(), false);
    assert!("123".is_digits_only());
    assert_eq!("12a".is_digits_only(), false);
    assert!("ff".is_digits_only_radix(16));
    assert_eq!("fg".is_digits_only_radix(16), false);
}

#[test]
fn test_strip_character_classes() {
    assert_eq!("a-b c9!".strip_non_alphanum(), "abc9".to_string());
    assert_eq!("a-b c9!".strip_non_digits(), "9".to_string());
    assert_eq!("I spent £9999.99 on 2 motorbikes".strip_non_numeric(), "9999.99 2".to_string());
}

#[test]
fn test_simple_case_insensitive_matching() {
    assert!("Dogcatcher".starts_with_ci("dog"));
    assert_eq!("Dogcatcher".starts_with_ci("cat"), false);
    assert!("Dogcatcher".ends_with_ci("CATCHER"));
    assert!("Dogcatcher".contains_ci("gCaT"));
    assert!("The dog-catcher".contains_ci_alphanum("DOGCATCHER"));
}

#[test]
fn test_simple_conditional_bounds() {
    let sample = "Le chat noir";
    let rules = [
        StringBounds::StartsWith("le ", true, true),
        StringBounds::EndsWith("noir", true, false),
        StringBounds::Contains("chien", false, true),
    ];
    assert_eq!(sample.matched_conditional(&rules), vec![true, true, true]);
    assert!(sample.match_all_conditional(&rules));
    assert_eq!(sample.contains_conditional_ci(&["chat", "noir"]), vec![true, true]);
    let phrases = ["Blackberries", "White board", "Blackbirds"];
    let berry_rules = [StringBounds::Contains("black", true, true)];
    assert_eq!(
        phrases.filter_all_conditional(&berry_rules),
        vec!["Blackberries".to_string(), "Blackbirds".to_string()]
    );
}

#[test]
fn test_find_matched_indices() {
    assert_eq!("a,b,c".find_matched_indices(","), vec![1, 3]);
    assert_eq!("aaa".find_matched_indices("aa"), vec![0]);
    assert_eq!("abc".find_matched_indices(""), Vec::<usize>::new());
}

#[test]
fn test_to_strings_conversion() {
    let strs = ["one", "two"];
    assert_eq!(strs.to_strings(), vec!["one".to_string(), "two".to_string()]);
    let owned = ["one".to_string(), "two".to_string()];
    assert_eq!(owned.to_strings(), vec!["one".to_string(), "two".to_string()]);
}

#[test]
fn test_word_bounds_patterns() {
    assert_eq!(WordBounds::Both.to_pattern("cat"), "\\bcat\\b".to_string());
    assert_eq!(WordBounds::Start.to_pattern("cat"), "\\bcat".to_string());
    assert_eq!(WordBounds::End.to_pattern("cat"), "cat\\b".to_string());
    assert_eq!(WordBounds::Neither.to_pattern("cat"), "cat".to_string());
}

#[test]
fn test_word_sets_conditional() {
    let sample = "The cat chased a mouse";
    assert!(sample.match_words_sets_conditional(&[(true, "cats?", true), (false, "dogs?", true)]));
    assert_eq!(
        sample.match_words_sets_conditional(&[(true, "cats?", true), (true, "dogs?", true)]),
        false
    );
    assert!(sample.match_words_sets_conditional_ci(&[(true, "mouse"), (false, "dog")]));
    assert_eq!(sample.count_matched_words_bounds(&["cat", "mouse", "dog"], WordBounds::Both, true), 2);
}

#[test]
fn test_inline_flag_pattern_not_double_annotated() {
    // A pattern that already opens an inline flag group keeps its own case
    // policy even when the case-insensitive flag is set.
    assert!("HELLO".pattern_match("(?i)hello", true));
    assert_eq!("HELLO".pattern_match("(?-i:hello)", true), false);
    assert!("hello".pattern_match("(?-i:hello)", true));
}

#[test]
fn test_split_pair_without_match() {
    let (head, tail) = "abc".pattern_split_pair("x", false);
    assert_eq!(head, "abc".to_string());
    assert_eq!(tail, "".to_string());
}

#[test]
fn test_integer_extraction() {
    let numbers: Vec<i64> = "range 3 to 5".to_numbers();
    assert_eq!(numbers, vec![3, 5]);
    let none: Option<i64> = "no digits".to_first_number();
    assert_eq!(none, None);
    let negative: Option<i64> = "drops to -7 degrees".to_first_number();
    assert_eq!(negative, Some(-7));
}

#[test]
fn test_negative_look_behind_selects_other_matches() {
    // The negative look-behind keeps only matches NOT strictly after the
    // located "big " span: the first cat.
    let haystack = "a big cat and a cat";
    let set = MatchSet::new_cs("cat").look_behind("big ", false);
    let spans: Vec<MatchSpan> = haystack.pattern_set_matches(&set);
    assert_eq!(spans.len(), 1);
    assert_eq!(spans[0].start(), 6);
    assert_eq!(haystack.pattern_set_replace(&set, "dog"), "a big dog and a cat".to_string());
}

#[test]
fn test_look_ahead_per_match_filtering() {
    // Only the first cat lies strictly before the located ahead span.
    let haystack = "one cat sat; a cat, the end";
    let set = MatchSet::new_cs("cat").look_ahead(", the end", true);
    let spans = set.matched_vec(haystack);
    assert_eq!(spans.len(), 1);
    assert_eq!(spans[0].start(), 4);
}

#[test]
fn test_split_pair_reconstructs_input() {
    let sample = "one;two;three";
    let (head, tail) = sample.pattern_split_pair(";", false);
    assert_eq!(format!("{};{}", head, tail), sample);
    assert_eq!(head, "one".to_string());
    assert_eq!(tail, "two;three".to_string());
}

#[test]
fn test_replace_unchanged_when_no_span_accepted() {
    // "big " is located after every match, so no span lies strictly after
    // it and the positive look-behind rejects them all.
    let haystack = "a cat and another cat, then big dog";
    let set = MatchSet::new_cs("cat").look_behind("big ", true);
    assert_eq!(set.matched_vec(haystack).len(), 0);
    assert_eq!(set.replace(haystack, "dog"), haystack.to_string());
    let unmatched = MatchSet::new_cs("zebra");
    assert_eq!(unmatched.replace(haystack, "dog"), haystack.to_string());
}

#[test]
fn test_look_around_result_surfaces_syntax_errors() {
    let bad_core = MatchSet::new_ci("(broken").look_ahead("x", true);
    assert!(matches!(bad_core.matches_result("some text"), Err(PatternError::Syntax(_))));
    let bad_clause = MatchSet::new_ci("cat").look_behind("(broken", true);
    assert!(matches!(bad_clause.matches_result("a cat"), Err(PatternError::Syntax(_))));
    // the best-effort form still degrades to false
    assert_eq!("a cat".pattern_set_match(&bad_clause), false);
}

#[test]
fn test_unlocated_clause_counts_against_positive() {
    // A configured clause whose own pattern finds nothing has a false
    // outcome: a positive clause fails, a negative one holds.
    let positive = MatchSet::new_cs("cat").look_behind("zebra", true);
    assert_eq!(positive.matches_result("a cat sat").unwrap(), false);
    let negative = MatchSet::new_cs("cat").look_behind("zebra", false);
    assert_eq!(negative.matches_result("a cat sat").unwrap(), true);
}

#[test]
fn test_reversed_proximity_in_range() {
    // Forward distance out of the 16-bit range; the reversed distance
    // (end of the second word's last occurrence to start of the first
    // word's first occurrence) is in range and in the interval.
    let mut text = String::from("beta");
    for _ in 0..32762 {
        text.push(' ');
    }
    text.push_str("alpha");
    assert!(text.match_words_by_proximity("alpha", "beta", -32768, 32767, true));
}

#[test]
fn test_reversed_proximity_pairs_first_with_last() {
    // The reversed fallback pairs the first word's FIRST occurrence with
    // the second word's LAST occurrence; here both distances are out of
    // range even though the last "alpha" sits near the "beta".
    let mut text = String::from("alpha");
    for _ in 0..32995 {
        text.push(' ');
    }
    text.push_str("beta alpha");
    assert_eq!(text.match_words_by_proximity("alpha", "beta", -32768, 32767, true), false);
}
