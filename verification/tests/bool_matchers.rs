use anymock::matchers::{bool_any, bool_eq, bool_none};

#[test]
fn should_bool_eq_returns_expected_scores() {
    assert!(bool_eq(true).score(Some(&true)) > 0);
    assert!(bool_eq(false).score(Some(&false)) > 0);

    assert_eq!(0, bool_eq(true).score(Some(&false)));
    assert_eq!(0, bool_eq(false).score(Some(&true)));
}

#[test]
fn should_bool_any_returns_expected_scores() {
    let matcher = bool_any();

    assert!(matcher.score(Some(&true)) > 0);
    assert!(matcher.score(Some(&false)) > 0);
}

#[test]
fn should_bool_none_returns_expected_scores() {
    let matcher = bool_none();

    assert_eq!(0, matcher.score(Some(&true)));
    assert_eq!(0, matcher.score(Some(&false)));
}

#[test]
fn should_preserve_bool_matcher_priority_order() {
    let eq_score = bool_eq(true).score(Some(&true));
    let any_score = bool_any().score(Some(&true));
    let none_score = bool_none().score(None);

    assert!(eq_score > none_score && none_score > any_score);
}

#[test]
fn bool_tests_score_their_fixed_ranks() {
    assert_eq!(3, bool_eq(true).score(Some(&true)));
    assert_eq!(2, bool_none().score(None));
    assert_eq!(1, bool_any().score(Some(&false)));
    assert_eq!(0, bool_any().score(None));
    assert_eq!(0, bool_eq(true).score(None));
}
