use anymock::error::InvalidInput;
use anymock::float::Float;
use anymock::json::{JsonValue, GREATEST_INT, LEAST_INT};
use anymock::matchers::{
    bool_eq, float_gt, int_eq, int_gt, int_lt, json_fn, json_list, json_object, text_any, text_eq,
    text_none, Body, BodyMatcher, JsonMatcher, MatcherFn,
};

fn number(value: f64) -> serde_json::Number {
    serde_json::Number::from_f64(value).unwrap()
}

fn member<'a>(value: &'a JsonValue, key: &str) -> &'a JsonValue {
    match value {
        JsonValue::Object(members) => {
            anymock::entries::lookup(members, &key.to_string()).expect("no such member")
        }
        _ => panic!("not an object"),
    }
}

#[test]
fn try_from_reads_every_kind_of_value() {
    let value =
        JsonValue::try_from(r#"{"n":null,"b":true,"s":"hi","i":-3,"f":1.5,"l":[1,"a"],"o":{}}"#)
            .unwrap();

    assert!(matches!(member(&value, "n"), JsonValue::Null));
    assert!(matches!(member(&value, "b"), JsonValue::Bool(true)));
    assert!(matches!(member(&value, "s"), JsonValue::Str(s) if s == "hi"));
    assert!(matches!(member(&value, "i"), JsonValue::Int(-3)));
    assert!(matches!(member(&value, "f"), JsonValue::Float(n) if n.as_f64() == Some(1.5)));
    match member(&value, "l") {
        JsonValue::List(items) => {
            assert_eq!(2, items.len());
            assert!(matches!(&items[0], JsonValue::Int(1)));
            assert!(matches!(&items[1], JsonValue::Str(s) if s == "a"));
        }
        _ => panic!("not a list"),
    }
    assert!(matches!(member(&value, "o"), JsonValue::Object(members) if members.is_empty()));
}

#[test]
fn try_from_refuses_what_is_no_document() {
    for text in ["", "{", "[1,", "nul", "{\"a\" 1}", "Just works!"] {
        match JsonValue::try_from(text) {
            Err(refusal) => assert_eq!(InvalidInput::Json, refusal),
            Ok(value) => panic!("{text:?} read as {value:?}"),
        }
    }
}

#[test]
fn integers_are_read_over_the_whole_range_of_a_document() {
    assert!(matches!(
        JsonValue::try_from("-9223372036854775808").unwrap(),
        JsonValue::Int(LEAST_INT)
    ));
    assert!(matches!(
        JsonValue::try_from("18446744073709551615").unwrap(),
        JsonValue::Int(GREATEST_INT)
    ));
    assert!(matches!(
        JsonValue::try_from("9223372036854775808").unwrap(),
        JsonValue::Int(9223372036854775808)
    ));
    assert!(matches!(JsonValue::try_from("0").unwrap(), JsonValue::Int(0)));
    assert!(matches!(JsonValue::try_from("18446744073709551616").unwrap(), JsonValue::Float(_)));
    assert!(matches!(JsonValue::try_from("1e2").unwrap(), JsonValue::Float(_)));
}

#[test]
fn from_number_sorts_integers_from_doubles() {
    assert!(matches!(
        JsonValue::from_number(&serde_json::Number::from(-7i64)),
        JsonValue::Int(-7)
    ));
    assert!(matches!(
        JsonValue::from_number(&serde_json::Number::from(u64::MAX)),
        JsonValue::Int(GREATEST_INT)
    ));
    assert!(matches!(
        JsonValue::from_number(&number(2.5)),
        JsonValue::Float(n) if n.as_f64() == Some(2.5)
    ));
}

#[test]
fn to_text_writes_the_compact_notation() {
    let value = JsonValue::Object(vec![
        ("name".to_string(), JsonValue::Str("John".to_string())),
        ("age".to_string(), JsonValue::Int(30)),
        (
            "tags".to_string(),
            JsonValue::List(vec![JsonValue::Str("dev".to_string()), JsonValue::Null]),
        ),
        ("ok".to_string(), JsonValue::Bool(false)),
        ("ratio".to_string(), JsonValue::Float(number(0.5))),
    ]);

    assert!(value.is_encodable());
    assert_eq!(
        r#"{"age":30,"name":"John","ok":false,"ratio":0.5,"tags":["dev",null]}"#,
        value.to_text()
    );
}

#[test]
fn to_text_and_try_from_bring_a_value_back() {
    for text in [
        "null",
        "true",
        "-12",
        "18446744073709551615",
        "1.25",
        r#""a \"quoted\" text""#,
        "[]",
        "{}",
        r#"[1,[2,[3,{"k":[null]}]]]"#,
        r#"{"a":{"b":{"c":"d"}},"e":[true,false]}"#,
    ] {
        let value = JsonValue::try_from(text).unwrap();
        assert!(value.is_encodable());
        let written = value.to_text();
        assert_eq!(text, written);
        let again = JsonValue::try_from(written.as_str()).unwrap();
        assert_eq!(written, again.to_text());
    }
}

#[test]
fn to_value_and_from_value_bring_a_value_back() {
    let value = JsonValue::Object(vec![
        ("b".to_string(), JsonValue::Int(LEAST_INT)),
        ("a".to_string(), JsonValue::List(vec![JsonValue::Int(GREATEST_INT)])),
    ]);

    let document = value.to_value();
    assert_eq!(Some(i64::MIN), document["b"].as_i64());
    assert_eq!(Some(u64::MAX), document["a"][0].as_u64());

    let again = JsonValue::from_value(&document);
    assert!(matches!(member(&again, "b"), JsonValue::Int(LEAST_INT)));
    assert!(matches!(
        member(&again, "a"),
        JsonValue::List(items) if matches!(&items[0], JsonValue::Int(GREATEST_INT))
    ));
}

#[test]
fn encodable_asks_for_integers_in_range_and_distinct_keys() {
    assert!(JsonValue::Int(LEAST_INT).is_encodable());
    assert!(JsonValue::Int(GREATEST_INT).is_encodable());
    assert!(!JsonValue::Int(LEAST_INT - 1).is_encodable());
    assert!(!JsonValue::Int(GREATEST_INT + 1).is_encodable());
    assert!(!JsonValue::List(vec![JsonValue::Null, JsonValue::Int(i128::MAX)]).is_encodable());
    assert!(JsonValue::Object(vec![
        ("a".to_string(), JsonValue::Null),
        ("b".to_string(), JsonValue::Null),
    ])
    .is_encodable());
    assert!(!JsonValue::Object(vec![
        ("a".to_string(), JsonValue::Null),
        ("b".to_string(), JsonValue::Null),
        ("a".to_string(), JsonValue::Bool(true)),
    ])
    .is_encodable());
    assert!(!JsonValue::Object(vec![("a".to_string(), JsonValue::Int(i128::MIN))]).is_encodable());
    assert!(JsonValue::Float(number(1.0e300)).is_encodable());
}

#[test]
fn json_scalars_are_scored_by_their_tests() {
    assert_eq!(1, JsonMatcher::Null.score(Some(&JsonValue::Null)));
    assert_eq!(0, JsonMatcher::Null.score(Some(&JsonValue::Bool(false))));
    assert_eq!(0, JsonMatcher::Null.score(None));
    assert_eq!(3, JsonMatcher::Bool(bool_eq(true)).score(Some(&JsonValue::Bool(true))));
    assert_eq!(
        8,
        JsonMatcher::Str(text_eq("a")).score(Some(&JsonValue::Str("a".to_string())))
    );
    assert_eq!(4, JsonMatcher::Int(int_eq(5)).score(Some(&JsonValue::Int(5))));
    assert_eq!(
        3,
        JsonMatcher::Float(float_gt(Float::from_bits(1.0f64.to_bits())))
            .score(Some(&JsonValue::Float(number(1.5))))
    );
    assert_eq!(
        0,
        JsonMatcher::Float(float_gt(Float::from_bits(2.0f64.to_bits())))
            .score(Some(&JsonValue::Float(number(1.5))))
    );
}

#[test]
fn json_tests_of_one_kind_score_zero_on_another() {
    assert_eq!(0, JsonMatcher::Int(int_eq(5)).score(Some(&JsonValue::Str("5".to_string()))));
    assert_eq!(0, JsonMatcher::Str(text_any()).score(Some(&JsonValue::Int(5))));
    assert_eq!(0, JsonMatcher::Int(int_eq(5)).score(Some(&JsonValue::Float(number(5.0)))));
    assert_eq!(0, JsonMatcher::List(vec![]).score(Some(&JsonValue::Object(vec![]))));
    assert_eq!(0, JsonMatcher::Str(text_none()).score(None));
}

#[test]
fn json_lists_sum_the_pairs_as_far_as_the_shorter_goes() {
    let values = JsonValue::List(vec![JsonValue::Int(1), JsonValue::Int(2), JsonValue::Int(3)]);

    let two = JsonMatcher::List(vec![JsonMatcher::Int(int_eq(1)), JsonMatcher::Int(int_gt(0))]);
    assert_eq!(7, two.score(Some(&values)));

    let four = JsonMatcher::List(vec![
        JsonMatcher::Int(int_eq(1)),
        JsonMatcher::Int(int_eq(2)),
        JsonMatcher::Int(int_eq(3)),
        JsonMatcher::Int(int_eq(4)),
    ]);
    assert_eq!(12, four.score(Some(&values)));

    let miss = JsonMatcher::List(vec![JsonMatcher::Int(int_eq(1)), JsonMatcher::Int(int_eq(9))]);
    assert_eq!(0, miss.score(Some(&values)));

    assert_eq!(0, JsonMatcher::List(vec![]).score(Some(&values)));
}

#[test]
fn json_objects_sum_the_members_their_keys_stand_for() {
    let value = JsonValue::try_from(r#"{"name":"John","age":30,"extra":true}"#).unwrap();

    let like = JsonMatcher::Object(vec![
        ("name".to_string(), JsonMatcher::Str(text_eq("John"))),
        ("age".to_string(), JsonMatcher::Int(int_gt(20))),
    ]);
    assert_eq!(11, like.score(Some(&value)));

    let missing = JsonMatcher::Object(vec![
        ("name".to_string(), JsonMatcher::Str(text_eq("John"))),
        ("nick".to_string(), JsonMatcher::Str(text_none())),
    ]);
    assert_eq!(0, missing.score(Some(&value)));

    let wrong = JsonMatcher::Object(vec![("age".to_string(), JsonMatcher::Int(int_eq(31)))]);
    assert_eq!(0, wrong.score(Some(&value)));
}

#[test]
fn json_fn_scores_as_the_function_says() {
    let matcher = json_fn(|value: Option<&JsonValue>| match value {
        Some(JsonValue::List(items)) => items.len() as u16,
        Some(_) => 1,
        None => 40,
    });

    assert_eq!(2, matcher.score(Some(&JsonValue::List(vec![JsonValue::Null, JsonValue::Null]))));
    assert_eq!(1, matcher.score(Some(&JsonValue::Null)));
    assert_eq!(40, matcher.score(None));

    let object = JsonMatcher::Object(vec![("absent".to_string(), matcher)]);
    assert_eq!(40, object.score(Some(&JsonValue::Object(vec![]))));
}

#[test]
fn json_sums_stop_at_the_largest_score() {
    let big = || json_fn(|_: Option<&JsonValue>| 40_000);
    let values = JsonValue::List(vec![JsonValue::Null, JsonValue::Null]);

    assert_eq!(40_000, JsonMatcher::List(vec![big()]).score(Some(&values)));
    assert_eq!(u16::MAX, JsonMatcher::List(vec![big(), big()]).score(Some(&values)));
}

#[test]
fn exactly_asks_for_the_value_itself() {
    let value = JsonValue::try_from(r#"{"a":[1,"x",true,null,2.5],"b":{"c":-1}}"#).unwrap();
    let matcher = JsonMatcher::exactly(&value);

    assert_eq!(4 + 8 + 3 + 1 + 4 + 4, matcher.score(Some(&value)));

    let other = JsonValue::try_from(r#"{"a":[1,"x",true,null,2.5],"b":{"c":-2}}"#).unwrap();
    assert_eq!(0, matcher.score(Some(&other)));

    let reordered = JsonValue::try_from(r#"{"b":{"c":-1},"a":[1,"x",true,null,2.5]}"#).unwrap();
    assert_eq!(24, matcher.score(Some(&reordered)));
}

#[test]
fn json_matchers_are_read_from_text() {
    let matcher = JsonMatcher::try_from(r#"{"age":30}"#).unwrap();
    let value = JsonValue::try_from(r#"{"age":30,"name":"John"}"#).unwrap();

    assert_eq!(4, matcher.score(Some(&value)));

    match JsonMatcher::try_from("{") {
        Err(refusal) => assert_eq!(InvalidInput::Json, refusal),
        Ok(_) => panic!("an open brace read as JSON"),
    }

    let document: serde_json::Value = serde_json::from_str("[true]").unwrap();
    let matcher = JsonMatcher::from_document(&document);
    assert_eq!(3, matcher.score(Some(&JsonValue::List(vec![JsonValue::Bool(true)]))));
}

#[test]
fn bodies_are_scored_by_tests_of_their_kind() {
    let json = Body::Json(JsonValue::Int(1));
    let text = Body::PlainText("1".to_string());
    let bytes = Body::Binary(vec![1]);

    let on_json = BodyMatcher::Json(JsonMatcher::Int(int_eq(1)));
    let on_text = BodyMatcher::PlainText(text_eq("1"));
    let on_bytes = BodyMatcher::Binary(anymock::matchers::binary_eq(vec![1]));

    assert_eq!(4, on_json.score(Some(&json)));
    assert_eq!(0, on_json.score(Some(&text)));
    assert_eq!(0, on_json.score(Some(&bytes)));
    assert_eq!(0, on_json.score(None));
    assert_eq!(8, on_text.score(Some(&text)));
    assert_eq!(0, on_text.score(Some(&json)));
    assert_eq!(4, on_bytes.score(Some(&bytes)));
    assert_eq!(0, on_bytes.score(Some(&text)));
    assert_eq!(0, BodyMatcher::PlainText(text_none()).score(None));
}

#[test]
fn json_object_keeps_the_last_test_under_a_key() {
    let matcher = json_object(vec![
        ("age".to_string(), JsonMatcher::from(int_eq(1))),
        ("name".to_string(), JsonMatcher::from(text_eq("John"))),
        ("age".to_string(), JsonMatcher::from(int_gt(20))),
    ]);

    match &matcher {
        JsonMatcher::Object(tests) => {
            assert_eq!(2, tests.len());
            assert_eq!("age", tests[0].0);
            assert_eq!("name", tests[1].0);
        }
        _ => panic!("not an object of tests"),
    }
    let value = JsonValue::try_from(r#"{"name":"John","age":30}"#).unwrap();
    assert_eq!(3 + 8, matcher.score(Some(&value)));
    assert!(matches!(json_object(Vec::new()), JsonMatcher::Object(tests) if tests.is_empty()));
}

#[test]
fn json_list_keeps_its_tests_in_order() {
    let matcher = json_list(vec![JsonMatcher::from(int_eq(1)), JsonMatcher::from(int_lt(5))]);
    let values = JsonValue::List(vec![JsonValue::Int(1), JsonValue::Int(2)]);
    let swapped = JsonValue::List(vec![JsonValue::Int(2), JsonValue::Int(1)]);

    assert_eq!(7, matcher.score(Some(&values)));
    assert_eq!(0, matcher.score(Some(&swapped)));
}

#[test]
fn a_value_read_from_json_passes_its_own_matcher() {
    for text in [
        "null",
        "true",
        "-12",
        "1.25",
        "1e300",
        "-0.0",
        r#""text""#,
        r#"[1,[2,[3,{"k":[null]}]]]"#,
        r#"{"a":{"b":{"c":"d"}},"e":[true,false,0.5]}"#,
    ] {
        let value = JsonValue::try_from(text).unwrap();
        let again = JsonValue::try_from(text).unwrap();
        assert!(JsonMatcher::exactly(&value).score(Some(&again)) > 0, "{text}");
        assert!(JsonMatcher::from(value).score(Some(&again)) > 0, "{text}");
    }
}

#[test]
fn through_document_brings_the_value_back() {
    let value = JsonValue::try_from(r#"{"b":[1,2.5,"x",null],"a":{"c":true}}"#).unwrap();
    let back = value.through_document();

    assert_eq!(value.to_text(), back.to_text());
    assert!(JsonMatcher::exactly(&value).score(Some(&back)) > 0);
}

struct Counting(std::sync::atomic::AtomicU16);

impl MatcherFn<JsonValue> for Counting {
    fn score(&self, _value: Option<&JsonValue>) -> u16 {
        self.0.fetch_add(1, std::sync::atomic::Ordering::SeqCst)
    }
}

#[test]
fn a_scoring_function_of_the_user_may_answer_as_it_likes() {
    let matcher = JsonMatcher::Fn(Box::new(Counting(std::sync::atomic::AtomicU16::new(0))));

    assert_eq!(0, matcher.score(None));
    assert_eq!(1, matcher.score(None));
    assert_eq!(2, matcher.score(Some(&JsonValue::Null)));
}
