//! Matchers: predicates that score a value.
//!
//! A matcher looks at an optional value of its kind and answers with a score:
//! 0 when it does not match, and otherwise a rank fixed by the kind of test,
//! so that a more specific test outranks a looser one.

use vstd::prelude::*;
use vstd::utf8::encode_utf8;
use core::marker::PhantomData;
use crate::document::{json_parse, number_bits, number_double, read, value_model};
use crate::entries::{
    collect,
    collected,
    contains_window,
    distinct_keys,
    has_window,
    lemma_position_is,
    lookup,
    value_of,
};
use crate::error::InvalidInput;
use crate::float::Float;
use crate::json::JsonValue;
use crate::pattern::{compile, is_match, regex_accepts, regex_compiles, regex_source};

verus! {

/// A scoring function supplied by the user of the mock.
///
/// What an implementation answers is its own affair: it may give any score to
/// any value, and need not give the same score twice. A matcher says nothing
/// of the score of a part that is such a function.
pub trait MatcherFn<T>: Send + Sync {
    /// Scores `value`.
    fn score(&self, value: Option<&T>) -> (score: u16);
}

/// A closure of the user's as a scoring function. The closure can be called
/// on every value: that is asked of it where it is taken in.
pub struct Scorer<T, F> where F: Fn(Option<&T>) -> u16 {
    scorer: F,
    value: PhantomData<T>,
}

impl<T, F> Scorer<T, F> where F: Fn(Option<&T>) -> u16 {
    #[verifier::type_invariant]
    spec fn total(self) -> bool {
        forall|value: Option<&T>| call_requires(self.scorer, (value,))
    }

    /// The closure that was taken in.
    pub closed spec fn held(self) -> F {
        self.scorer
    }

    /// Takes a closure in.
    pub fn new(scorer: F) -> (made: Self)
        requires
            forall|value: Option<&T>| call_requires(scorer, (value,)),
        ensures
            made.held() == scorer,
    {
        Scorer { scorer, value: PhantomData }
    }
}

impl<T, F> MatcherFn<T> for Scorer<T, F> where
    T: Send + Sync,
    F: Fn(Option<&T>) -> u16 + Send + Sync,
 {
    /// Calls the closure on `value`: the score is one that the closure gives
    /// to the value.
    fn score(&self, value: Option<&T>) -> (score: u16)
        ensures
            call_ensures(self.held(), (value,), score),
    {
        proof {
            use_type_invariant(self);
        }
        (self.scorer)(value)
    }
}

// Text

/// The rank of each text test.
pub const TEXT_EQ: u16 = 8;
pub const TEXT_REGEX: u16 = 7;
pub const TEXT_CONTAINS: u16 = 6;
pub const TEXT_NOT_CONTAINS: u16 = 5;
pub const TEXT_LEN_EQ: u16 = 4;
pub const TEXT_LEN_GREATER: u16 = 3;
pub const TEXT_LEN_LESS: u16 = 3;

/// The rank of the tests every family shares: equality and order of scalars,
/// containment of bytes, absence and presence.
pub const SCALAR_EQ: u16 = 4;
pub const SCALAR_ORDER: u16 = 3;
pub const BINARY_CONTAINS: u16 = 3;
pub const BOOL_EQ: u16 = 3;
pub const ABSENT: u16 = 2;
pub const ANY: u16 = 1;

/// The bytes of a text in UTF-8, which is how lengths and containment are taken.
pub open spec fn utf8(text: &String) -> Seq<u8> {
    encode_utf8(text@)
}

/// A test on a text.
pub enum TextMatcher {
    /// A function of the user's.
    Fn(Box<dyn MatcherFn<String>>),
    /// The text is this one.
    Eq(String),
    /// The expression matches somewhere in the text.
    Regex(regex::Regex),
    /// The text contains this one.
    Contains(String),
    /// The text does not contain this one.
    NotContains(String),
    /// The text is this many bytes long.
    LenEq(usize),
    /// The text is longer than this many bytes.
    LenGreaterThan(usize),
    /// The text is shorter than this many bytes.
    LenLessThan(usize),
    /// There is a text.
    Any,
    /// There is no text.
    Absent,
}

impl TextMatcher {
    /// The test is one of the library's, not a function of the user's.
    pub open spec fn plain(&self) -> bool {
        !(self is Fn)
    }

    /// The score of `value`: the rank of the test where it holds, else 0. Of a
    /// function of the user's the rank says nothing: it scores as it likes.
    pub open spec fn rank(&self, value: Option<&String>) -> nat {
        match (self, value) {
            (TextMatcher::Eq(part), Some(v)) => if v@ == part@ {
                TEXT_EQ as nat
            } else {
                0
            },
            (TextMatcher::Regex(re), Some(v)) => Self::regex_rank(regex_accepts(*re, v@)) as nat,
            (TextMatcher::Contains(part), Some(v)) => if has_window(utf8(v), utf8(part)) {
                TEXT_CONTAINS as nat
            } else {
                0
            },
            (TextMatcher::NotContains(part), Some(v)) => if !has_window(utf8(v), utf8(part)) {
                TEXT_NOT_CONTAINS as nat
            } else {
                0
            },
            (TextMatcher::LenEq(len), Some(v)) => if utf8(v).len() == *len {
                TEXT_LEN_EQ as nat
            } else {
                0
            },
            (TextMatcher::LenGreaterThan(len), Some(v)) => if utf8(v).len() > *len {
                TEXT_LEN_GREATER as nat
            } else {
                0
            },
            (TextMatcher::LenLessThan(len), Some(v)) => if utf8(v).len() < *len {
                TEXT_LEN_LESS as nat
            } else {
                0
            },
            (TextMatcher::Absent, None) => ABSENT as nat,
            (TextMatcher::Any, Some(_)) => ANY as nat,
            _ => 0,
        }
    }

    /// The score of an expression test, given whether the expression matched.
    #[verifier::when_used_as_spec(spec_regex_rank)]
    pub fn regex_rank(matched: bool) -> (score: u16)
        ensures
            score == Self::spec_regex_rank(matched),
    {
        if matched {
            TEXT_REGEX
        } else {
            0
        }
    }

    /// The score of an expression test, given whether the expression matched.
    pub open spec fn spec_regex_rank(matched: bool) -> u16 {
        if matched {
            TEXT_REGEX
        } else {
            0
        }
    }

    /// Scores `value`.
    pub fn score(&self, value: Option<&String>) -> (score: u16)
        ensures
            self.plain() ==> score == self.rank(value),
    {
        match (self, value) {
            (TextMatcher::Fn(f), v) => f.score(v),
            (TextMatcher::Eq(part), Some(v)) => if *v == *part {
                TEXT_EQ
            } else {
                0
            },
            (TextMatcher::Regex(re), Some(v)) => Self::regex_rank(is_match(re, v.as_str())),
            (TextMatcher::Contains(part), Some(v)) => if contains_window(
                v.as_str().as_bytes(),
                part.as_str().as_bytes(),
            ) {
                TEXT_CONTAINS
            } else {
                0
            },
            (TextMatcher::NotContains(part), Some(v)) => if !contains_window(
                v.as_str().as_bytes(),
                part.as_str().as_bytes(),
            ) {
                TEXT_NOT_CONTAINS
            } else {
                0
            },
            (TextMatcher::LenEq(len), Some(v)) => if v.as_str().as_bytes().len() == *len {
                TEXT_LEN_EQ
            } else {
                0
            },
            (TextMatcher::LenGreaterThan(len), Some(v)) => if v.as_str().as_bytes().len() > *len {
                TEXT_LEN_GREATER
            } else {
                0
            },
            (TextMatcher::LenLessThan(len), Some(v)) => if v.as_str().as_bytes().len() < *len {
                TEXT_LEN_LESS
            } else {
                0
            },
            (TextMatcher::Absent, None) => ABSENT,
            (TextMatcher::Any, Some(_)) => ANY,
            _ => 0,
        }
    }
}

impl TextMatcher {
    /// The expression test for what the engine made of a pattern, or the
    /// refusal where it made nothing.
    pub fn from_compiled(compiled: Result<regex::Regex, regex::Error>) -> (made: Result<
        TextMatcher,
        InvalidInput,
    >)
        ensures
            match compiled {
                Ok(re) => made == Ok::<TextMatcher, InvalidInput>(TextMatcher::Regex(re)),
                Err(_) => made == Err::<TextMatcher, InvalidInput>(InvalidInput::Pattern),
            },
    {
        match compiled {
            Ok(re) => Ok(TextMatcher::Regex(re)),
            Err(_) => Err(InvalidInput::Pattern),
        }
    }
}

/// The text is `text`.
pub fn text_eq(text: &str) -> (matcher: TextMatcher)
    ensures
        matcher matches TextMatcher::Eq(part) && part@ == text@,
{
    TextMatcher::Eq(text.to_owned())
}

/// The text contains `text`.
pub fn text_contains(text: &str) -> (matcher: TextMatcher)
    ensures
        matcher matches TextMatcher::Contains(part) && part@ == text@,
{
    TextMatcher::Contains(text.to_owned())
}

/// The text does not contain `text`.
pub fn text_not_contains(text: &str) -> (matcher: TextMatcher)
    ensures
        matcher matches TextMatcher::NotContains(part) && part@ == text@,
{
    TextMatcher::NotContains(text.to_owned())
}

/// The expression `pattern` matches somewhere in the text. The pattern is
/// compiled here: one that the engine refuses is refused as
/// [`InvalidInput::Pattern`].
pub fn text_regex(pattern: &str) -> (made: Result<TextMatcher, InvalidInput>)
    ensures
        made is Ok <==> regex_compiles(pattern@),
        made matches Ok(matcher) ==> matcher matches TextMatcher::Regex(re) && regex_source(re)
            == pattern@,
        made matches Err(refusal) ==> refusal == InvalidInput::Pattern,
{
    TextMatcher::from_compiled(compile(pattern))
}

/// The text is `len` bytes long.
pub fn text_len_eq(len: usize) -> (matcher: TextMatcher)
    ensures
        matcher == TextMatcher::LenEq(len),
{
    TextMatcher::LenEq(len)
}

/// The text is longer than `len` bytes.
pub fn text_len_gt(len: usize) -> (matcher: TextMatcher)
    ensures
        matcher == TextMatcher::LenGreaterThan(len),
{
    TextMatcher::LenGreaterThan(len)
}

/// The text is shorter than `len` bytes.
pub fn text_len_lt(len: usize) -> (matcher: TextMatcher)
    ensures
        matcher == TextMatcher::LenLessThan(len),
{
    TextMatcher::LenLessThan(len)
}

/// There is a text.
pub fn text_any() -> (matcher: TextMatcher)
    ensures
        matcher == TextMatcher::Any,
{
    TextMatcher::Any
}

/// There is no text.
pub fn text_none() -> (matcher: TextMatcher)
    ensures
        matcher == TextMatcher::Absent,
{
    TextMatcher::Absent
}

/// The score is what `matcher` answers, whatever that is. The closure must
/// take every value, present or not.
pub fn text_fn<F>(matcher: F) -> (made: TextMatcher) where
    F: Fn(Option<&String>) -> u16 + Send + Sync + 'static,

    requires
        forall|value: Option<&String>| call_requires(matcher, (value,)),
    ensures
        made is Fn,
{
    TextMatcher::Fn(Box::new(Scorer::new(matcher)))
}

// Binary

/// A test on a byte string.
pub enum BinaryMatcher {
    /// A function of the user's.
    Fn(Box<dyn MatcherFn<Vec<u8>>>),
    /// The bytes are these.
    Eq(Vec<u8>),
    /// These bytes occur in the value, one after the other.
    Contains(Vec<u8>),
    /// There is a value.
    Any,
    /// There is no value.
    Absent,
}

impl BinaryMatcher {
    /// The test is one of the library's, not a function of the user's.
    pub open spec fn plain(&self) -> bool {
        !(self is Fn)
    }

    /// The score of `value`: the rank of the test where it holds, else 0. Of a
    /// function of the user's the rank says nothing: it scores as it likes.
    pub open spec fn rank(&self, value: Option<&Vec<u8>>) -> nat {
        match (self, value) {
            (BinaryMatcher::Eq(part), Some(v)) => if v@ == part@ {
                SCALAR_EQ as nat
            } else {
                0
            },
            (BinaryMatcher::Contains(part), Some(v)) => if has_window(v@, part@) {
                BINARY_CONTAINS as nat
            } else {
                0
            },
            (BinaryMatcher::Absent, None) => ABSENT as nat,
            (BinaryMatcher::Any, Some(_)) => ANY as nat,
            _ => 0,
        }
    }

    /// Scores `value`.
    pub fn score(&self, value: Option<&Vec<u8>>) -> (score: u16)
        ensures
            self.plain() ==> score == self.rank(value),
    {
        match (self, value) {
            (BinaryMatcher::Fn(f), v) => f.score(v),
            (BinaryMatcher::Eq(part), Some(v)) => if same_bytes(v.as_slice(), part.as_slice()) {
                SCALAR_EQ
            } else {
                0
            },
            (BinaryMatcher::Contains(part), Some(v)) => if contains_window(
                v.as_slice(),
                part.as_slice(),
            ) {
                BINARY_CONTAINS
            } else {
                0
            },
            (BinaryMatcher::Absent, None) => ABSENT,
            (BinaryMatcher::Any, Some(_)) => ANY,
            _ => 0,
        }
    }
}

/// Whether two byte strings are the same.
pub fn same_bytes(left: &[u8], right: &[u8]) -> (same: bool)
    ensures
        same == (left@ == right@),
{
    if left.len() != right.len() {
        return false;
    }
    let mut i: usize = 0;
    while i < left.len()
        invariant
            left.len() == right.len(),
            i <= left.len(),
            forall|j: int| 0 <= j < i ==> left@[j] == right@[j],
        decreases left.len() - i,
    {
        if left[i] != right[i] {
            return false;
        }
        i += 1;
    }
    proof {
        assert(left@ =~= right@);
    }
    true
}

/// The bytes are `buff`.
pub fn binary_eq(buff: Vec<u8>) -> (matcher: BinaryMatcher)
    ensures
        matcher == BinaryMatcher::Eq(buff),
{
    BinaryMatcher::Eq(buff)
}

/// The bytes of `buff` occur in the value, one after the other.
pub fn binary_contains(buff: Vec<u8>) -> (matcher: BinaryMatcher)
    ensures
        matcher == BinaryMatcher::Contains(buff),
{
    BinaryMatcher::Contains(buff)
}

/// There is a value.
pub fn binary_any() -> (matcher: BinaryMatcher)
    ensures
        matcher == BinaryMatcher::Any,
{
    BinaryMatcher::Any
}

/// There is no value.
pub fn binary_none() -> (matcher: BinaryMatcher)
    ensures
        matcher == BinaryMatcher::Absent,
{
    BinaryMatcher::Absent
}

/// The score is what `matcher` answers, whatever that is. The closure must
/// take every value, present or not.
pub fn binary_fn<F>(matcher: F) -> (made: BinaryMatcher) where
    F: Fn(Option<&Vec<u8>>) -> u16 + Send + Sync + 'static,

    requires
        forall|value: Option<&Vec<u8>>| call_requires(matcher, (value,)),
    ensures
        made is Fn,
{
    BinaryMatcher::Fn(Box::new(Scorer::new(matcher)))
}

// Numbers

/// A test on an integer.
pub enum IntMatcher {
    /// A function of the user's.
    Fn(Box<dyn MatcherFn<i128>>),
    /// The number is this one.
    Eq(i128),
    /// The number is below this one.
    LessThan(i128),
    /// The number is above this one.
    GreaterThan(i128),
    /// There is a number.
    Any,
    /// There is no number.
    Absent,
}

impl IntMatcher {
    /// The test is one of the library's, not a function of the user's.
    pub open spec fn plain(&self) -> bool {
        !(self is Fn)
    }

    /// The score of `value`: the rank of the test where it holds, else 0. Of a
    /// function of the user's the rank says nothing: it scores as it likes.
    pub open spec fn rank(&self, value: Option<&i128>) -> nat {
        match (self, value) {
            (IntMatcher::Eq(m), Some(v)) => if *v == *m {
                SCALAR_EQ as nat
            } else {
                0
            },
            (IntMatcher::LessThan(m), Some(v)) => if *v < *m {
                SCALAR_ORDER as nat
            } else {
                0
            },
            (IntMatcher::GreaterThan(m), Some(v)) => if *v > *m {
                SCALAR_ORDER as nat
            } else {
                0
            },
            (IntMatcher::Absent, None) => ABSENT as nat,
            (IntMatcher::Any, Some(_)) => ANY as nat,
            _ => 0,
        }
    }

    /// Scores `value`.
    pub fn score(&self, value: Option<&i128>) -> (score: u16)
        ensures
            self.plain() ==> score == self.rank(value),
    {
        match (self, value) {
            (IntMatcher::Fn(f), v) => f.score(v),
            (IntMatcher::Eq(m), Some(v)) => if *v == *m {
                SCALAR_EQ
            } else {
                0
            },
            (IntMatcher::LessThan(m), Some(v)) => if *v < *m {
                SCALAR_ORDER
            } else {
                0
            },
            (IntMatcher::GreaterThan(m), Some(v)) => if *v > *m {
                SCALAR_ORDER
            } else {
                0
            },
            (IntMatcher::Absent, None) => ABSENT,
            (IntMatcher::Any, Some(_)) => ANY,
            _ => 0,
        }
    }
}

/// The number is `num`.
pub fn int_eq(num: i128) -> (matcher: IntMatcher)
    ensures
        matcher == IntMatcher::Eq(num),
{
    IntMatcher::Eq(num)
}

/// The number is below `num`.
pub fn int_lt(num: i128) -> (matcher: IntMatcher)
    ensures
        matcher == IntMatcher::LessThan(num),
{
    IntMatcher::LessThan(num)
}

/// The number is above `num`.
pub fn int_gt(num: i128) -> (matcher: IntMatcher)
    ensures
        matcher == IntMatcher::GreaterThan(num),
{
    IntMatcher::GreaterThan(num)
}

/// There is a number.
pub fn int_any() -> (matcher: IntMatcher)
    ensures
        matcher == IntMatcher::Any,
{
    IntMatcher::Any
}

/// There is no number.
pub fn int_none() -> (matcher: IntMatcher)
    ensures
        matcher == IntMatcher::Absent,
{
    IntMatcher::Absent
}

/// The score is what `matcher` answers, whatever that is. The closure must
/// take every value, present or not.
pub fn int_fn<F>(matcher: F) -> (made: IntMatcher) where
    F: Fn(Option<&i128>) -> u16 + Send + Sync + 'static,

    requires
        forall|value: Option<&i128>| call_requires(matcher, (value,)),
    ensures
        made is Fn,
{
    IntMatcher::Fn(Box::new(Scorer::new(matcher)))
}

/// A test on a double.
pub enum FloatMatcher {
    /// A function of the user's.
    Fn(Box<dyn MatcherFn<Float>>),
    /// The number equals this one.
    Eq(Float),
    /// The number is below this one.
    LessThan(Float),
    /// The number is above this one.
    GreaterThan(Float),
    /// There is a number.
    Any,
    /// There is no number.
    Absent,
}

impl FloatMatcher {
    /// The test is one of the library's, not a function of the user's.
    pub open spec fn plain(&self) -> bool {
        !(self is Fn)
    }

    /// The score of `value`: the rank of the test where it holds, else 0. Of a
    /// function of the user's the rank says nothing: it scores as it likes.
    /// Numbers compare as IEEE-754 has it: no test but `Any` holds of a NaN.
    pub open spec fn rank(&self, value: Option<&Float>) -> nat {
        match (self, value) {
            (FloatMatcher::Eq(m), Some(v)) => if v.same(*m) {
                SCALAR_EQ as nat
            } else {
                0
            },
            (FloatMatcher::LessThan(m), Some(v)) => if v.below(*m) {
                SCALAR_ORDER as nat
            } else {
                0
            },
            (FloatMatcher::GreaterThan(m), Some(v)) => if m.below(*v) {
                SCALAR_ORDER as nat
            } else {
                0
            },
            (FloatMatcher::Absent, None) => ABSENT as nat,
            (FloatMatcher::Any, Some(_)) => ANY as nat,
            _ => 0,
        }
    }

    /// Scores `value`.
    pub fn score(&self, value: Option<&Float>) -> (score: u16)
        ensures
            self.plain() ==> score == self.rank(value),
    {
        match (self, value) {
            (FloatMatcher::Fn(f), v) => f.score(v),
            (FloatMatcher::Eq(m), Some(v)) => if v.equals(m) {
                SCALAR_EQ
            } else {
                0
            },
            (FloatMatcher::LessThan(m), Some(v)) => if v.less_than(m) {
                SCALAR_ORDER
            } else {
                0
            },
            (FloatMatcher::GreaterThan(m), Some(v)) => if v.greater_than(m) {
                SCALAR_ORDER
            } else {
                0
            },
            (FloatMatcher::Absent, None) => ABSENT,
            (FloatMatcher::Any, Some(_)) => ANY,
            _ => 0,
        }
    }
}

/// The number equals `num`.
pub fn float_eq(num: Float) -> (matcher: FloatMatcher)
    ensures
        matcher == FloatMatcher::Eq(num),
{
    FloatMatcher::Eq(num)
}

/// The number is below `num`.
pub fn float_lt(num: Float) -> (matcher: FloatMatcher)
    ensures
        matcher == FloatMatcher::LessThan(num),
{
    FloatMatcher::LessThan(num)
}

/// The number is above `num`.
pub fn float_gt(num: Float) -> (matcher: FloatMatcher)
    ensures
        matcher == FloatMatcher::GreaterThan(num),
{
    FloatMatcher::GreaterThan(num)
}

/// There is a number.
pub fn float_any() -> (matcher: FloatMatcher)
    ensures
        matcher == FloatMatcher::Any,
{
    FloatMatcher::Any
}

/// There is no number.
pub fn float_none() -> (matcher: FloatMatcher)
    ensures
        matcher == FloatMatcher::Absent,
{
    FloatMatcher::Absent
}

/// The score is what `matcher` answers, whatever that is. The closure must
/// take every value, present or not.
pub fn float_fn<F>(matcher: F) -> (made: FloatMatcher) where
    F: Fn(Option<&Float>) -> u16 + Send + Sync + 'static,

    requires
        forall|value: Option<&Float>| call_requires(matcher, (value,)),
    ensures
        made is Fn,
{
    FloatMatcher::Fn(Box::new(Scorer::new(matcher)))
}

// Bool

/// A test on a truth value.
pub enum BoolMatcher {
    /// The value is this one.
    Eq(bool),
    /// There is a value.
    Any,
    /// There is no value.
    Absent,
}

impl BoolMatcher {
    /// The score of `value`: the rank of the test where it holds, else 0.
    pub open spec fn rank(&self, value: Option<&bool>) -> nat {
        match (self, value) {
            (BoolMatcher::Eq(b), Some(v)) => if *b == *v {
                BOOL_EQ as nat
            } else {
                0
            },
            (BoolMatcher::Absent, None) => ABSENT as nat,
            (BoolMatcher::Any, Some(_)) => ANY as nat,
            _ => 0,
        }
    }

    /// Scores `value`.
    pub fn score(&self, value: Option<&bool>) -> (score: u16)
        ensures
            score == self.rank(value),
    {
        match (self, value) {
            (BoolMatcher::Eq(b), Some(v)) => if *b == *v {
                BOOL_EQ
            } else {
                0
            },
            (BoolMatcher::Absent, None) => ABSENT,
            (BoolMatcher::Any, Some(_)) => ANY,
            _ => 0,
        }
    }
}

/// The value is `value`.
pub fn bool_eq(value: bool) -> (matcher: BoolMatcher)
    ensures
        matcher == BoolMatcher::Eq(value),
{
    BoolMatcher::Eq(value)
}

/// There is a value.
pub fn bool_any() -> (matcher: BoolMatcher)
    ensures
        matcher == BoolMatcher::Any,
{
    BoolMatcher::Any
}

/// There is no value.
pub fn bool_none() -> (matcher: BoolMatcher)
    ensures
        matcher == BoolMatcher::Absent,
{
    BoolMatcher::Absent
}

// Json - composition of matchers

/// The largest score: sums stop there.
pub open spec fn clamp(score: nat) -> u16 {
    if score > u16::MAX {
        u16::MAX
    } else {
        score as u16
    }
}

/// The sum of `scores`.
pub open spec fn total(scores: Seq<nat>) -> nat
    decreases scores.len(),
{
    if scores.len() == 0 {
        0
    } else {
        total(scores.drop_last()) + scores.last()
    }
}

/// No score is 0: every test passed.
pub open spec fn all_pass(scores: Seq<nat>) -> bool {
    forall|i: int| 0 <= i < scores.len() ==> scores[i] > 0
}

/// What a composite makes of the scores of its parts: their sum, and 0 as soon
/// as one of them is 0.
pub open spec fn sum_if_all(scores: Seq<nat>) -> nat {
    if all_pass(scores) {
        total(scores)
    } else {
        0
    }
}

/// Adds two scores, stopping at the largest.
pub fn add_scores(left: u16, right: u16) -> (sum: u16)
    ensures
        sum == clamp((left + right) as nat),
{
    if left > u16::MAX - right {
        u16::MAX
    } else {
        left + right
    }
}

/// A test on a JSON value: a scalar test on a scalar, or tests on the parts of
/// a list or an object.
pub enum JsonMatcher {
    /// A function of the user's.
    Fn(Box<dyn MatcherFn<JsonValue>>),
    /// The value is `null`.
    Null,
    /// The value is a truth value that passes the test.
    Bool(BoolMatcher),
    /// The value is a text that passes the test.
    Str(TextMatcher),
    /// The value is an integer that passes the test.
    Int(IntMatcher),
    /// The value is a double that passes the test.
    Float(FloatMatcher),
    /// The value is a list whose items pass the tests, each its own, as far as
    /// both lists go.
    List(Vec<JsonMatcher>),
    /// The value is an object in which every key named here passes its test.
    Object(Vec<(String, JsonMatcher)>),
}

impl JsonMatcher {
    /// The scores that the tests of a list give to the items of a list, pair by
    /// pair, as far as the shorter list goes.
    pub open spec fn item_ranks(matchers: Seq<JsonMatcher>, items: Seq<JsonValue>) -> Seq<nat>
        decreases matchers, 0nat,
    {
        Seq::new(
            if matchers.len() <= items.len() {
                matchers.len()
            } else {
                items.len()
            },
            |i: int|
                if 0 <= i < matchers.len() && 0 <= i < items.len() {
                    matchers[i].rank(Some(&items[i]))
                } else {
                    0
                },
        )
    }

    /// The scores that the tests of an object give to the members that their
    /// keys stand for.
    pub open spec fn member_ranks(
        matchers: Seq<(String, JsonMatcher)>,
        members: Seq<(String, JsonValue)>,
    ) -> Seq<nat>
        decreases matchers, 0nat,
    {
        Seq::new(
            matchers.len(),
            |i: int|
                if 0 <= i < matchers.len() {
                    matchers[i].1.rank(Self::member(members, matchers[i].0@))
                } else {
                    0
                },
        )
    }

    /// The member that `key` stands for.
    pub open spec fn member<'a>(members: Seq<(String, JsonValue)>, key: Seq<char>) -> Option<
        &'a JsonValue,
    > {
        match value_of(members, key) {
            Some(v) => Some(&v),
            None => None,
        }
    }

    /// The score of `value`. A scalar test scores a scalar of its kind, a list
    /// of tests a list and an object of tests an object; the sum of the parts
    /// is the score of a composite, unless a part scores 0; every other pair,
    /// and every absent value, scores 0. Of a function of the user's the rank
    /// says nothing: it scores as it likes.
    pub open spec fn rank(&self, value: Option<&JsonValue>) -> nat
        decreases self, 1nat,
    {
        match (value, self) {
            (Some(JsonValue::Null), JsonMatcher::Null) => 1,
            (Some(JsonValue::Bool(v)), JsonMatcher::Bool(matcher)) => matcher.rank(Some(v)),
            (Some(JsonValue::Str(v)), JsonMatcher::Str(matcher)) => matcher.rank(Some(v)),
            (Some(JsonValue::Float(v)), JsonMatcher::Float(matcher)) => matcher.rank(
                Some(&Float { bits: number_double(*v) }),
            ),
            (Some(JsonValue::Int(v)), JsonMatcher::Int(matcher)) => matcher.rank(Some(v)),
            (Some(JsonValue::List(items)), JsonMatcher::List(matchers)) => sum_if_all(
                Self::item_ranks(matchers@, items@),
            ),
            (Some(JsonValue::Object(members)), JsonMatcher::Object(matchers)) => sum_if_all(
                Self::member_ranks(matchers@, members@),
            ),
            _ => 0,
        }
    }
}

/// Scores that all pass, and are not none, sum to more than 0.
pub proof fn lemma_total_positive(scores: Seq<nat>)
    requires
        scores.len() > 0,
        all_pass(scores),
    ensures
        total(scores) > 0,
        sum_if_all(scores) > 0,
    decreases scores.len(),
{
    assert(scores.last() == scores[scores.len() - 1]);
}

/// Taking one more score adds it to the sum.
pub proof fn lemma_total_step(scores: Seq<nat>, upto: int)
    requires
        0 <= upto < scores.len(),
    ensures
        total(scores.take(upto + 1)) == total(scores.take(upto)) + scores[upto],
{
    assert(scores.take(upto + 1).drop_last() =~= scores.take(upto));
}

impl JsonMatcher {
    /// No part of the test is a function of the user's.
    pub open spec fn plain(&self) -> bool
        decreases self,
    {
        match self {
            JsonMatcher::Fn(_) => false,
            JsonMatcher::Null => true,
            JsonMatcher::Bool(_) => true,
            JsonMatcher::Str(matcher) => matcher.plain(),
            JsonMatcher::Int(matcher) => matcher.plain(),
            JsonMatcher::Float(matcher) => matcher.plain(),
            JsonMatcher::List(matchers) => forall|i: int|
                0 <= i < matchers.len() ==> (#[trigger] matchers[i]).plain(),
            JsonMatcher::Object(matchers) => forall|i: int|
                0 <= i < matchers.len() ==> (#[trigger] matchers[i]).1.plain(),
        }
    }

    /// Scores `value`. A test without a function of the user's in it gives
    /// the rank, or the largest score where the rank is beyond it. With such a
    /// function in it the score is made in the same way of whatever the
    /// function answers.
    #[verifier::loop_isolation(false)]
    pub fn score(&self, value: Option<&JsonValue>) -> (score: u16)
        ensures
            self.plain() ==> score == clamp(self.rank(value)),
        decreases self,
    {
        match (value, self) {
            (v, JsonMatcher::Fn(f)) => f.score(v),
            (Some(JsonValue::Null), JsonMatcher::Null) => 1,
            (Some(JsonValue::Bool(v)), JsonMatcher::Bool(matcher)) => matcher.score(Some(v)),
            (Some(JsonValue::Str(v)), JsonMatcher::Str(matcher)) => matcher.score(Some(v)),
            (Some(JsonValue::Float(v)), JsonMatcher::Float(matcher)) => match number_bits(v) {
                Some(bits) => matcher.score(Some(&Float::from_bits(bits))),
                None => 0,
            },
            (Some(JsonValue::Int(v)), JsonMatcher::Int(matcher)) => matcher.score(Some(v)),
            (Some(JsonValue::List(items)), JsonMatcher::List(matchers)) => {
                let ghost ranks = Self::item_ranks(matchers@, items@);
                let count: usize = if matchers.len() <= items.len() {
                    matchers.len()
                } else {
                    items.len()
                };
                let mut total_score: u16 = 0;
                let mut i: usize = 0;
                while i < count
                    invariant
                        i <= count,
                        count == ranks.len(),
                        count <= matchers.len(),
                        count <= items.len(),
                        ranks == Self::item_ranks(matchers@, items@),
                        self.plain() ==> total_score == clamp(total(ranks.take(i as int))),
                        self.plain() ==> forall|j: int| 0 <= j < i ==> ranks[j] > 0,
                    decreases count - i,
                {
                    let part: u16 = matchers[i].score(Some(&items[i]));
                    if part == 0 {
                        assert(self.plain() ==> matchers[i as int].plain() && ranks[i as int] == 0);
                        return 0;
                    }
                    proof {
                        lemma_total_step(ranks, i as int);
                        assert(self.plain() ==> matchers[i as int].plain());
                    }
                    total_score = add_scores(total_score, part);
                    i += 1;
                }
                proof {
                    assert(ranks.take(count as int) =~= ranks);
                }
                total_score
            },
            (Some(JsonValue::Object(members)), JsonMatcher::Object(matchers)) => {
                let ghost ranks = Self::member_ranks(matchers@, members@);
                let mut total_score: u16 = 0;
                let mut i: usize = 0;
                while i < matchers.len()
                    invariant
                        i <= matchers.len(),
                        matchers.len() == ranks.len(),
                        ranks == Self::member_ranks(matchers@, members@),
                        self.plain() ==> total_score == clamp(total(ranks.take(i as int))),
                        self.plain() ==> forall|j: int| 0 <= j < i ==> ranks[j] > 0,
                    decreases matchers.len() - i,
                {
                    let part: u16 = matchers[i].1.score(lookup(members, &matchers[i].0));
                    if part == 0 {
                        assert(self.plain() ==> matchers[i as int].1.plain() && ranks[i as int]
                            == 0);
                        return 0;
                    }
                    proof {
                        lemma_total_step(ranks, i as int);
                        assert(self.plain() ==> matchers[i as int].1.plain());
                    }
                    total_score = add_scores(total_score, part);
                    i += 1;
                }
                proof {
                    assert(ranks.take(matchers.len() as int) =~= ranks);
                }
                total_score
            },
            _ => 0,
        }
    }
}

/// The score is what `matcher` answers, whatever that is. The closure must
/// take every value, present or not.
pub fn json_fn<F>(matcher: F) -> (made: JsonMatcher) where
    F: Fn(Option<&JsonValue>) -> u16 + Send + Sync + 'static,

    requires
        forall|value: Option<&JsonValue>| call_requires(matcher, (value,)),
    ensures
        made is Fn,
{
    JsonMatcher::Fn(Box::new(Scorer::new(matcher)))
}

/// A test on a JSON object: each key with the test of its member. A later
/// test under a key takes the place of an earlier one.
pub fn json_object(members: Vec<(String, JsonMatcher)>) -> (made: JsonMatcher)
    ensures
        made matches JsonMatcher::Object(tests) && tests@ == collected(members@) && distinct_keys(
            tests@,
        ),
{
    JsonMatcher::Object(collect(members))
}

/// A test on a JSON list: the tests of its items, in order.
pub fn json_list(items: Vec<JsonMatcher>) -> (made: JsonMatcher)
    ensures
        made == JsonMatcher::List(items),
{
    JsonMatcher::List(items)
}

impl JsonMatcher {
    /// Whether the matcher is the one that asks for `value` itself: equality at
    /// every scalar, and the same shape above them.
    pub open spec fn mirrors(&self, value: &JsonValue) -> bool
        decreases self,
    {
        match (value, self) {
            (JsonValue::Null, JsonMatcher::Null) => true,
            (JsonValue::Bool(v), JsonMatcher::Bool(BoolMatcher::Eq(m))) => m == v,
            (JsonValue::Str(v), JsonMatcher::Str(TextMatcher::Eq(m))) => m@ == v@,
            (JsonValue::Float(v), JsonMatcher::Float(FloatMatcher::Eq(m))) => m.bits
                == number_double(*v) && m.finite(),
            (JsonValue::Int(v), JsonMatcher::Int(IntMatcher::Eq(m))) => m == v,
            (JsonValue::List(items), JsonMatcher::List(matchers)) => {
                &&& matchers.len() == items.len()
                &&& forall|i: int|
                    0 <= i < matchers.len() && 0 <= i < items.len() ==> (
                    #[trigger] matchers[i]).mirrors(&items[i])
            },
            (JsonValue::Object(members), JsonMatcher::Object(matchers)) => {
                &&& matchers.len() == members.len()
                &&& forall|i: int|
                    0 <= i < matchers.len() && 0 <= i < members.len() ==> {
                        &&& (#[trigger] matchers[i]).0@ == members[i].0@
                        &&& matchers[i].1.mirrors(&members[i].1)
                    }
            },
            _ => false,
        }
    }

    /// A value passes the matcher that asks for it: the rank is above 0, and so
    /// is the score, where the value has no empty list or object in it and no
    /// object with two members under one key. Every value read from a JSON
    /// text keeps its keys apart.
    pub proof fn lemma_mirror_matches(&self, value: &JsonValue)
        requires
            self.mirrors(value),
            value.filled(),
            value.encodable(),
        ensures
            self.plain(),
            self.rank(Some(value)) > 0,
            clamp(self.rank(Some(value))) > 0,
        decreases self,
    {
        match (value, self) {
            (JsonValue::List(items), JsonMatcher::List(matchers)) => {
                let ranks = Self::item_ranks(matchers@, items@);
                assert forall|i: int| 0 <= i < ranks.len() implies ranks[i] > 0 && (
                #[trigger] matchers[i]).plain() by {
                    assert(matchers[i].mirrors(&items[i]));
                    assert(items[i].filled());
                    assert(items[i].encodable());
                    matchers[i].lemma_mirror_matches(&items[i]);
                }
                lemma_total_positive(ranks);
            },
            (JsonValue::Object(members), JsonMatcher::Object(matchers)) => {
                let ranks = Self::member_ranks(matchers@, members@);
                assert forall|i: int| 0 <= i < ranks.len() implies ranks[i] > 0 && (
                #[trigger] matchers[i]).1.plain() by {
                    assert(matchers[i].0@ == members[i].0@);
                    assert(matchers[i].1.mirrors(&members[i].1));
                    assert(members[i].1.filled());
                    assert(members[i].1.encodable());
                    assert forall|j: int| 0 <= j < i implies (#[trigger] members@[j]).0@
                        != members[i].0@ by {
                        assert(members@[j].0@ != members@[i].0@);
                    }
                    lemma_position_is(members@, members[i].0@, i);
                    matchers[i].1.lemma_mirror_matches(&members[i].1);
                }
                lemma_total_positive(ranks);
            },
            _ => {},
        }
    }

    /// The matcher that asks for `value` itself.
    #[verifier::loop_isolation(false)]
    pub fn exactly(value: &JsonValue) -> (made: JsonMatcher)
        ensures
            made.mirrors(value),
            value.filled() && value.encodable() ==> made.plain() && made.rank(Some(value)) > 0,
        decreases value,
    {
        let made = match value {
            JsonValue::Null => JsonMatcher::Null,
            JsonValue::Bool(v) => JsonMatcher::Bool(BoolMatcher::Eq(*v)),
            JsonValue::Str(v) => JsonMatcher::Str(TextMatcher::Eq(v.clone())),
            JsonValue::Float(v) => match number_bits(v) {
                Some(bits) => JsonMatcher::Float(FloatMatcher::Eq(Float::from_bits(bits))),
                None => JsonMatcher::Float(FloatMatcher::Eq(Float::from_bits(0))),
            },
            JsonValue::Int(v) => JsonMatcher::Int(IntMatcher::Eq(*v)),
            JsonValue::List(items) => {
                let mut matchers: Vec<JsonMatcher> = Vec::new();
                let mut i: usize = 0;
                while i < items.len()
                    invariant
                        i <= items.len(),
                        matchers.len() == i,
                        forall|j: int| 0 <= j < i ==> (#[trigger] matchers[j]).mirrors(&items[j]),
                    decreases items.len() - i,
                {
                    matchers.push(Self::exactly(&items[i]));
                    i += 1;
                }
                JsonMatcher::List(matchers)
            },
            JsonValue::Object(members) => {
                let mut matchers: Vec<(String, JsonMatcher)> = Vec::new();
                let mut i: usize = 0;
                while i < members.len()
                    invariant
                        i <= members.len(),
                        matchers.len() == i,
                        forall|j: int|
                            0 <= j < i ==> {
                                &&& (#[trigger] matchers[j]).0@ == members[j].0@
                                &&& matchers[j].1.mirrors(&members[j].1)
                            },
                    decreases members.len() - i,
                {
                    matchers.push((members[i].0.clone(), Self::exactly(&members[i].1)));
                    i += 1;
                }
                JsonMatcher::Object(matchers)
            },
        };
        proof {
            if value.filled() && value.encodable() {
                made.lemma_mirror_matches(value);
            }
        }
        made
    }
}


// Bodies

/// What a frame carries, read or to be written.
pub enum Body {
    /// A text frame that is a JSON document.
    Json(JsonValue),
    /// A binary frame.
    Binary(Vec<u8>),
    /// A text frame.
    PlainText(String),
}

/// A test on a body: one on the JSON, the bytes or the text it carries.
pub enum BodyMatcher {
    Json(JsonMatcher),
    Binary(BinaryMatcher),
    PlainText(TextMatcher),
}

impl BodyMatcher {
    /// The score of `body`: that of what it carries where the test is of that
    /// kind, and 0 for a body of another kind and for none.
    pub open spec fn rank(&self, body: Option<&Body>) -> nat {
        match (body, self) {
            (Some(Body::Json(json)), BodyMatcher::Json(matcher)) => matcher.rank(Some(json)),
            (Some(Body::PlainText(part)), BodyMatcher::PlainText(matcher)) => matcher.rank(
                Some(part),
            ),
            (Some(Body::Binary(part)), BodyMatcher::Binary(matcher)) => matcher.rank(Some(part)),
            _ => 0,
        }
    }

    /// No part of the test is a function of the user's.
    pub open spec fn plain(&self) -> bool {
        match self {
            BodyMatcher::Json(matcher) => matcher.plain(),
            BodyMatcher::Binary(matcher) => matcher.plain(),
            BodyMatcher::PlainText(matcher) => matcher.plain(),
        }
    }

    /// Scores `body`. A test without a function of the user's in it gives the
    /// rank, or the largest score where the rank is beyond it.
    pub fn score(&self, body: Option<&Body>) -> (score: u16)
        ensures
            self.plain() ==> score == clamp(self.rank(body)),
    {
        match (body, self) {
            (Some(Body::Json(json)), BodyMatcher::Json(matcher)) => matcher.score(Some(json)),
            (Some(Body::PlainText(part)), BodyMatcher::PlainText(matcher)) => matcher.score(
                Some(part),
            ),
            (Some(Body::Binary(part)), BodyMatcher::Binary(matcher)) => matcher.score(Some(part)),
            _ => 0,
        }
    }
}

// Conversions

impl From<TextMatcher> for JsonMatcher {
    fn from(value: TextMatcher) -> (made: Self) {
        JsonMatcher::Str(value)
    }
}

impl vstd::std_specs::convert::FromSpecImpl<TextMatcher> for JsonMatcher {
    open spec fn obeys_from_spec() -> bool {
        true
    }

    open spec fn from_spec(value: TextMatcher) -> Self {
        JsonMatcher::Str(value)
    }
}

impl From<IntMatcher> for JsonMatcher {
    fn from(value: IntMatcher) -> (made: Self) {
        JsonMatcher::Int(value)
    }
}

impl vstd::std_specs::convert::FromSpecImpl<IntMatcher> for JsonMatcher {
    open spec fn obeys_from_spec() -> bool {
        true
    }

    open spec fn from_spec(value: IntMatcher) -> Self {
        JsonMatcher::Int(value)
    }
}

impl From<FloatMatcher> for JsonMatcher {
    fn from(value: FloatMatcher) -> (made: Self) {
        JsonMatcher::Float(value)
    }
}

impl vstd::std_specs::convert::FromSpecImpl<FloatMatcher> for JsonMatcher {
    open spec fn obeys_from_spec() -> bool {
        true
    }

    open spec fn from_spec(value: FloatMatcher) -> Self {
        JsonMatcher::Float(value)
    }
}

impl From<JsonValue> for JsonMatcher {
    /// The matcher that asks for `value` itself.
    fn from(value: JsonValue) -> (made: Self)
        ensures
            made.mirrors(&value),
            value.filled() && value.encodable() ==> made.plain() && made.rank(Some(&value)) > 0,
    {
        JsonMatcher::exactly(&value)
    }
}

/// What `from` makes is stated where it is made, by [`JsonMatcher::mirrors`]:
/// no matcher is named here.
impl vstd::std_specs::convert::FromSpecImpl<JsonValue> for JsonMatcher {
    open spec fn obeys_from_spec() -> bool {
        false
    }

    open spec fn from_spec(value: JsonValue) -> Self {
        JsonMatcher::Null
    }
}

impl From<serde_json::Value> for JsonMatcher {
    /// The matcher that asks for the value that `document` holds.
    fn from(document: serde_json::Value) -> (made: Self)
        ensures
            exists|value: JsonValue|
                value@ == value_model(document) && #[trigger] made.mirrors(&value),
    {
        JsonMatcher::from_document(&document)
    }
}

/// What `from` makes is stated where it is made, by [`JsonMatcher::mirrors`]:
/// no matcher is named here.
impl vstd::std_specs::convert::FromSpecImpl<serde_json::Value> for JsonMatcher {
    open spec fn obeys_from_spec() -> bool {
        false
    }

    open spec fn from_spec(document: serde_json::Value) -> Self {
        JsonMatcher::Null
    }
}

impl JsonMatcher {
    /// The matcher that asks for the value that `document` holds.
    pub fn from_document(document: &serde_json::Value) -> (made: JsonMatcher)
        ensures
            exists|value: JsonValue|
                value@ == value_model(*document) && #[trigger] made.mirrors(&value),
    {
        let value = JsonValue::from_value(document);
        Self::exactly(&value)
    }

    /// What reading a text came to: the matcher that asks for the value read,
    /// or the refusal where there was none.
    pub fn from_read(document: Result<serde_json::Value, serde_json::Error>) -> (made: Result<
        JsonMatcher,
        InvalidInput,
    >)
        ensures
            match document {
                Ok(v) => made matches Ok(matcher) && exists|value: JsonValue|
                    value@ == value_model(v) && #[trigger] matcher.mirrors(&value),
                Err(_) => made matches Err(refusal) && refusal == InvalidInput::Json,
            },
    {
        match document {
            Ok(v) => Ok(Self::from_document(&v)),
            Err(_) => Err(InvalidInput::Json),
        }
    }

    /// Reads a text as JSON and asks for the value it holds; a text that is
    /// no JSON document is refused as [`InvalidInput::Json`].
    pub fn try_from(text: &str) -> (made: Result<JsonMatcher, InvalidInput>)
        ensures
            match json_parse(text@) {
                Some(document) => made matches Ok(matcher) && exists|value: JsonValue|
                    value@ == document && #[trigger] matcher.mirrors(&value),
                None => made matches Err(refusal) && refusal == InvalidInput::Json,
            },
    {
        Self::from_read(read(text))
    }
}

// The order of the tests

impl TextMatcher {
    /// Where the test stands in the order of its family: equality, expression,
    /// containment, its negation, length, longer or shorter, absence, presence.
    /// A lower place is a more specific test.
    pub open spec fn tier(&self) -> nat {
        match self {
            TextMatcher::Fn(_) => 0,
            TextMatcher::Eq(_) => 1,
            TextMatcher::Regex(_) => 2,
            TextMatcher::Contains(_) => 3,
            TextMatcher::NotContains(_) => 4,
            TextMatcher::LenEq(_) => 5,
            TextMatcher::LenGreaterThan(_) => 6,
            TextMatcher::LenLessThan(_) => 6,
            TextMatcher::Absent => 7,
            TextMatcher::Any => 8,
        }
    }

    /// The score of the test where it holds.
    pub open spec fn strength(&self) -> nat {
        match self {
            TextMatcher::Fn(_) => 0,
            TextMatcher::Eq(_) => TEXT_EQ as nat,
            TextMatcher::Regex(_) => TEXT_REGEX as nat,
            TextMatcher::Contains(_) => TEXT_CONTAINS as nat,
            TextMatcher::NotContains(_) => TEXT_NOT_CONTAINS as nat,
            TextMatcher::LenEq(_) => TEXT_LEN_EQ as nat,
            TextMatcher::LenGreaterThan(_) => TEXT_LEN_GREATER as nat,
            TextMatcher::LenLessThan(_) => TEXT_LEN_LESS as nat,
            TextMatcher::Absent => ABSENT as nat,
            TextMatcher::Any => ANY as nat,
        }
    }

    /// A test scores 0 or its strength, whatever the value; a test that
    /// stands before another is stronger, and tests of one place are equally
    /// strong. Functions of the user stand outside the order.
    pub proof fn lemma_rank_order(&self, other: &TextMatcher, value: Option<&String>)
        requires
            !(self is Fn) && !(other is Fn),
        ensures
            self.rank(value) == 0 || self.rank(value) == self.strength(),
            self.strength() > 0,
            self.tier() < other.tier() ==> self.strength() > other.strength(),
            self.tier() == other.tier() ==> self.strength() == other.strength(),
    {
    }
}

impl BinaryMatcher {
    /// Where the test stands in the order of its family: equality,
    /// containment, absence, presence. A lower place is a more specific test.
    pub open spec fn tier(&self) -> nat {
        match self {
            BinaryMatcher::Fn(_) => 0,
            BinaryMatcher::Eq(_) => 1,
            BinaryMatcher::Contains(_) => 2,
            BinaryMatcher::Absent => 3,
            BinaryMatcher::Any => 4,
        }
    }

    /// The score of the test where it holds.
    pub open spec fn strength(&self) -> nat {
        match self {
            BinaryMatcher::Fn(_) => 0,
            BinaryMatcher::Eq(_) => SCALAR_EQ as nat,
            BinaryMatcher::Contains(_) => BINARY_CONTAINS as nat,
            BinaryMatcher::Absent => ABSENT as nat,
            BinaryMatcher::Any => ANY as nat,
        }
    }

    /// A test scores 0 or its strength, whatever the value; a test that
    /// stands before another is stronger, and tests of one place are equally
    /// strong. Functions of the user stand outside the order.
    pub proof fn lemma_rank_order(&self, other: &BinaryMatcher, value: Option<&Vec<u8>>)
        requires
            !(self is Fn) && !(other is Fn),
        ensures
            self.rank(value) == 0 || self.rank(value) == self.strength(),
            self.strength() > 0,
            self.tier() < other.tier() ==> self.strength() > other.strength(),
            self.tier() == other.tier() ==> self.strength() == other.strength(),
    {
    }
}

impl IntMatcher {
    /// Where the test stands in the order of its family: equality, below or
    /// above, absence, presence. A lower place is a more specific test.
    pub open spec fn tier(&self) -> nat {
        match self {
            IntMatcher::Fn(_) => 0,
            IntMatcher::Eq(_) => 1,
            IntMatcher::LessThan(_) => 2,
            IntMatcher::GreaterThan(_) => 2,
            IntMatcher::Absent => 3,
            IntMatcher::Any => 4,
        }
    }

    /// The score of the test where it holds.
    pub open spec fn strength(&self) -> nat {
        match self {
            IntMatcher::Fn(_) => 0,
            IntMatcher::Eq(_) => SCALAR_EQ as nat,
            IntMatcher::LessThan(_) => SCALAR_ORDER as nat,
            IntMatcher::GreaterThan(_) => SCALAR_ORDER as nat,
            IntMatcher::Absent => ABSENT as nat,
            IntMatcher::Any => ANY as nat,
        }
    }

    /// A test scores 0 or its strength, whatever the value; a test that
    /// stands before another is stronger, and tests of one place are equally
    /// strong. Functions of the user stand outside the order.
    pub proof fn lemma_rank_order(&self, other: &IntMatcher, value: Option<&i128>)
        requires
            !(self is Fn) && !(other is Fn),
        ensures
            self.rank(value) == 0 || self.rank(value) == self.strength(),
            self.strength() > 0,
            self.tier() < other.tier() ==> self.strength() > other.strength(),
            self.tier() == other.tier() ==> self.strength() == other.strength(),
    {
    }
}

impl FloatMatcher {
    /// Where the test stands in the order of its family: equality, below or
    /// above, absence, presence. A lower place is a more specific test.
    pub open spec fn tier(&self) -> nat {
        match self {
            FloatMatcher::Fn(_) => 0,
            FloatMatcher::Eq(_) => 1,
            FloatMatcher::LessThan(_) => 2,
            FloatMatcher::GreaterThan(_) => 2,
            FloatMatcher::Absent => 3,
            FloatMatcher::Any => 4,
        }
    }

    /// The score of the test where it holds.
    pub open spec fn strength(&self) -> nat {
        match self {
            FloatMatcher::Fn(_) => 0,
            FloatMatcher::Eq(_) => SCALAR_EQ as nat,
            FloatMatcher::LessThan(_) => SCALAR_ORDER as nat,
            FloatMatcher::GreaterThan(_) => SCALAR_ORDER as nat,
            FloatMatcher::Absent => ABSENT as nat,
            FloatMatcher::Any => ANY as nat,
        }
    }

    /// A test scores 0 or its strength, whatever the value; a test that
    /// stands before another is stronger, and tests of one place are equally
    /// strong. Functions of the user stand outside the order.
    pub proof fn lemma_rank_order(&self, other: &FloatMatcher, value: Option<&Float>)
        requires
            !(self is Fn) && !(other is Fn),
        ensures
            self.rank(value) == 0 || self.rank(value) == self.strength(),
            self.strength() > 0,
            self.tier() < other.tier() ==> self.strength() > other.strength(),
            self.tier() == other.tier() ==> self.strength() == other.strength(),
    {
    }
}

impl BoolMatcher {
    /// Where the test stands in the order of its family: equality, absence, presence. A lower place
    /// is a more specific test.
    pub open spec fn tier(&self) -> nat {
        match self {
            BoolMatcher::Eq(_) => 1,
            BoolMatcher::Absent => 2,
            BoolMatcher::Any => 3,
        }
    }

    /// The score of the test where it holds.
    pub open spec fn strength(&self) -> nat {
        match self {
            BoolMatcher::Eq(_) => BOOL_EQ as nat,
            BoolMatcher::Absent => ABSENT as nat,
            BoolMatcher::Any => ANY as nat,
        }
    }

    /// A test scores 0 or its strength, whatever the value; a test that
    /// stands before another is stronger, and tests of one place are equally
    /// strong. Functions of the user stand outside the order.
    pub proof fn lemma_rank_order(&self, other: &BoolMatcher, value: Option<&bool>)
        requires
            true,
        ensures
            self.rank(value) == 0 || self.rank(value) == self.strength(),
            self.strength() > 0,
            self.tier() < other.tier() ==> self.strength() > other.strength(),
            self.tier() == other.tier() ==> self.strength() == other.strength(),
    {
    }
}

} // verus!
