use anymock::error::InvalidInput;
use anymock::matchers::{
    text_any, text_contains, text_eq, text_fn, text_len_eq, text_len_gt, text_len_lt, text_none,
    text_not_contains, text_regex, TextMatcher,
};

#[test]
fn should_text_eq_returns_expected_scores() {
    let matcher = text_eq("Hello");

    assert!(matcher.score(Some(&String::from("Hello"))) > 0);
    assert_eq!(0, matcher.score(Some(&String::from("Hell"))));
    assert_eq!(0, matcher.score(None));
}

#[test]
fn should_text_contains_returns_expected_scores() {
    let matcher = text_contains("ell");

    assert!(matcher.score(Some(&String::from("Hello"))) > 0);
    assert_eq!(0, matcher.score(Some(&String::from("Helo"))));
    assert_eq!(0, matcher.score(None));
}

#[test]
fn should_text_not_contains_returns_expected_scores() {
    let matcher = text_not_contains("xyz");

    assert!(matcher.score(Some(&String::from("Hello"))) > 0);
    assert_eq!(0, matcher.score(Some(&String::from("Hello xyz"))));
    assert_eq!(0, matcher.score(None));
}

#[test]
fn should_text_regex_returns_expected_scores() {
    let matcher = match text_regex("^Hello$") {
        Ok(m) => m,
        Err(err) => panic!("Regex should compile: {err:?}"),
    };

    assert!(matcher.score(Some(&String::from("Hello"))) > 0);
    assert_eq!(0, matcher.score(Some(&String::from("Hell"))));
    assert_eq!(0, matcher.score(None));
}

#[test]
fn should_text_len_eq_returns_expected_scores() {
    let matcher = text_len_eq(5);

    assert!(matcher.score(Some(&String::from("Hello"))) > 0);
    assert_eq!(0, matcher.score(Some(&String::from("Hell"))));
    assert_eq!(0, matcher.score(None));
}

#[test]
fn should_text_len_gt_returns_expected_scores() {
    let matcher = text_len_gt(3);

    assert!(matcher.score(Some(&String::from("Hello"))) > 0);
    assert_eq!(0, matcher.score(Some(&String::from("Hi"))));
    assert_eq!(0, matcher.score(None));
}

#[test]
fn should_text_len_lt_returns_expected_scores() {
    let matcher = text_len_lt(5);

    assert!(matcher.score(Some(&String::from("Hell"))) > 0);
    assert_eq!(0, matcher.score(Some(&String::from("Hello"))));
    assert_eq!(0, matcher.score(None));
}

#[test]
fn should_text_any_returns_expected_scores() {
    let matcher = text_any();

    assert!(matcher.score(Some(&String::from("Hello"))) > 0);
    assert!(matcher.score(Some(&String::from(""))) > 0);
    assert_eq!(0, matcher.score(None));
}

#[test]
fn should_text_none_returns_expected_scores() {
    let matcher = text_none();

    assert!(matcher.score(None) > 0);
    assert_eq!(0, matcher.score(Some(&String::from("Hello"))));
}

#[test]
fn should_text_fn_delegate_returns_expected_scores() {
    let matcher = text_fn(|value: Option<&String>| if value.is_none() { 1 } else { 0 });

    assert_eq!(1, matcher.score(None));
    assert_eq!(0, matcher.score(Some(&String::from("Hell"))));
}

#[test]
fn should_preserve_text_matcher_priority_order() {
    let value = String::from("Hello");

    let eq_score = text_eq("Hello").score(Some(&value));
    let regex_score = text_regex("^Hello$").unwrap().score(Some(&value));
    let contains_score = text_contains("ell").score(Some(&value));
    let not_contains_score = text_not_contains("xyz").score(Some(&value));
    let len_eq_score = text_len_eq(5).score(Some(&value));
    let len_gt_score = text_len_gt(3).score(Some(&value));
    let len_lt_score = text_len_lt(10).score(Some(&value));
    let any_score = text_any().score(Some(&value));
    let none_score = text_none().score(None);

    assert!(
        eq_score > regex_score
            && regex_score > contains_score
            && contains_score > not_contains_score
            && not_contains_score > len_eq_score
            && len_eq_score > len_gt_score
            && len_gt_score >= len_lt_score
            && len_lt_score > none_score
            && none_score > any_score
    );
}

#[test]
fn text_tests_score_their_fixed_ranks() {
    let value = String::from("Hello");

    assert_eq!(8, text_eq("Hello").score(Some(&value)));
    assert_eq!(7, text_regex("l+o").unwrap().score(Some(&value)));
    assert_eq!(6, text_contains("ell").score(Some(&value)));
    assert_eq!(5, text_not_contains("xyz").score(Some(&value)));
    assert_eq!(4, text_len_eq(5).score(Some(&value)));
    assert_eq!(3, text_len_gt(4).score(Some(&value)));
    assert_eq!(3, text_len_lt(6).score(Some(&value)));
    assert_eq!(2, text_none().score(None));
    assert_eq!(1, text_any().score(Some(&value)));
}

#[test]
fn regex_rank_is_seven_on_a_match_and_zero_without() {
    assert_eq!(7, TextMatcher::regex_rank(true));
    assert_eq!(0, TextMatcher::regex_rank(false));
}

#[test]
fn text_regex_refuses_a_pattern_that_does_not_compile() {
    match text_regex("foo(bar") {
        Err(refusal) => assert_eq!(InvalidInput::Pattern, refusal),
        Ok(_) => panic!("an unclosed group compiles"),
    }
}

#[test]
fn text_regex_keeps_the_pattern_it_was_given() {
    match text_regex("^a+b$").unwrap() {
        TextMatcher::Regex(re) => assert_eq!("^a+b$", re.as_str()),
        _ => panic!("not an expression test"),
    }
}

#[test]
fn text_lengths_count_bytes() {
    let value = String::from("héllo");

    assert_eq!(4, text_len_eq(6).score(Some(&value)));
    assert_eq!(0, text_len_eq(5).score(Some(&value)));
}

#[test]
fn text_contains_holds_of_the_empty_text() {
    assert_eq!(6, text_contains("").score(Some(&String::from("Hello"))));
    assert_eq!(6, text_contains("").score(Some(&String::new())));
    assert_eq!(0, text_not_contains("").score(Some(&String::from("Hello"))));
}

#[test]
fn text_contains_finds_a_part_at_either_end() {
    let value = String::from("Hello");

    assert_eq!(6, text_contains("He").score(Some(&value)));
    assert_eq!(6, text_contains("lo").score(Some(&value)));
    assert_eq!(6, text_contains("Hello").score(Some(&value)));
    assert_eq!(0, text_contains("Hello!").score(Some(&value)));
    assert_eq!(0, text_contains("lol").score(Some(&value)));
}

#[test]
fn text_fn_passes_the_value_on() {
    let matcher = text_fn(|value: Option<&String>| match value {
        Some(text) => text.len() as u16,
        None => 99,
    });

    assert_eq!(5, matcher.score(Some(&String::from("Hello"))));
    assert_eq!(99, matcher.score(None));
}
