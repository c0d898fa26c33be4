//! Builders of stubs.
//!
//! A builder collects what a stub asks of an event and ends in the stub when
//! it is told what to answer. A feed takes one or more answers and is then
//! built.

use vstd::prelude::*;
use core::marker::PhantomData;
use core::time::Duration;
use crate::chance::{alphanumeric, draw_text};
use crate::clock::duration_nanos;
use crate::entries::{has_key, position, upsert};
use crate::json::JsonValue;
use crate::matchers::{Body, BodyMatcher, JsonMatcher, TextMatcher};
use crate::ws::stubs::{Delay, RequestMatcher, Stub};

verus! {

/// How many characters the name of a feed has when the mock picks it.
pub const DRAWN_ID_LEN: usize = 16;

/// The header tests of a builder after one more: the test under `key` is
/// `matcher`, in the place of the test that was there or behind the others.
pub open spec fn with_test(
    tests: Option<Vec<(String, TextMatcher)>>,
    key: String,
    matcher: TextMatcher,
) -> Seq<(String, TextMatcher)> {
    match tests {
        Some(tests) => if has_key(tests@, key@) {
            tests@.update(position(tests@, key@), (key, matcher))
        } else {
            tests@.push((key, matcher))
        },
        None => seq![(key, matcher)],
    }
}

/// Adds a header test to those of a builder.
fn add_test(tests: Option<Vec<(String, TextMatcher)>>, key: &str, matcher: TextMatcher) -> (made:
    Option<Vec<(String, TextMatcher)>>)
    ensures
        made matches Some(now) && exists|owned: String|
            owned@ == key@ && now@ == #[trigger] with_test(tests, owned, matcher),
{
    let owned = key.to_owned();
    let mut headers: Vec<(String, TextMatcher)> = match tests {
        Some(headers) => headers,
        None => Vec::new(),
    };
    let ghost name = owned;
    proof {
        if tests is None {
            assert(!has_key(headers@, name@));
            assert(headers@.push((name, matcher)) =~= seq![(name, matcher)]);
        }
    }
    upsert(&mut headers, owned, matcher);
    proof {
        assert(headers@ == with_test(tests, name, matcher));
    }
    Some(headers)
}

/// The delay that an interval between two spans stands for: the span itself
/// where they are the same, and else the interval from the shorter to the
/// longer.
pub open spec fn interval(lower: u128, upper: u128) -> Delay {
    if lower == upper {
        Delay::Fixed(lower)
    } else if lower > upper {
        Delay::Interval(upper, lower)
    } else {
        Delay::Interval(lower, upper)
    }
}

/// The delay that an interval between two spans stands for.
pub fn interval_of(lower: u128, upper: u128) -> (delay: Delay)
    ensures
        delay == interval(lower, upper),
{
    if lower == upper {
        Delay::Fixed(lower)
    } else if lower > upper {
        Delay::Interval(upper, lower)
    } else {
        Delay::Interval(lower, upper)
    }
}

/// The delay of a builder, which is none where it was told none.
pub open spec fn delay_or_none(delay: Option<Delay>) -> Delay {
    match delay {
        Some(delay) => delay,
        None => Delay::Fixed(0),
    }
}

// Connect

/// Starts a stub that answers a new connection.
pub fn on_connect() -> (builder: OnConnectBuilder)
    ensures
        builder.headers is None,
{
    OnConnectBuilder::default()
}

/// A stub that answers a new connection, in the making.
pub struct OnConnectBuilder {
    pub headers: Option<Vec<(String, TextMatcher)>>,
}

impl Default for OnConnectBuilder {
    fn default() -> (builder: Self)
        ensures
            builder.headers is None,
    {
        OnConnectBuilder { headers: None }
    }
}

impl OnConnectBuilder {
    /// Asks that the header `key` of the connection pass `matcher`. A later
    /// test under the same key takes the place of an earlier one.
    pub fn with_header(self, key: &str, matcher: TextMatcher) -> (made: Self)
        ensures
            made.headers matches Some(tests) && exists|owned: String|
                owned@ == key@ && tests@ == #[trigger] with_test(self.headers, owned, matcher),
    {
        OnConnectBuilder { headers: add_test(self.headers, key, matcher) }
    }

    /// Ends in the stub that answers with `text`.
    pub fn returning_text(self, text: &str) -> (stub: Stub)
        ensures
            stub matches Stub::Connect { headers, response: Body::PlainText(answer) } && headers
                == self.headers && answer@ == text@,
    {
        self.build(Body::PlainText(text.to_owned()))
    }

    /// Ends in the stub that answers with `json`, as text.
    pub fn returning_json(self, json: JsonValue) -> (stub: Stub)
        ensures
            stub == (Stub::Connect { headers: self.headers, response: Body::Json(json) }),
    {
        self.build(Body::Json(json))
    }

    /// Ends in the stub that answers with the bytes of `buff`.
    pub fn returning_binary(self, buff: Vec<u8>) -> (stub: Stub)
        ensures
            stub == (Stub::Connect { headers: self.headers, response: Body::Binary(buff) }),
    {
        self.build(Body::Binary(buff))
    }

    fn build(self, body: Body) -> (stub: Stub)
        ensures
            stub == (Stub::Connect { headers: self.headers, response: body }),
    {
        Stub::Connect { headers: self.headers, response: body }
    }
}

// Message

/// Starts a stub that answers a message.
pub fn on_message() -> (builder: OnMessageBuilder)
    ensures
        builder.headers is None,
        builder.delay is None,
        builder.payload is None,
{
    OnMessageBuilder::default()
}

/// A stub that answers a message, in the making.
pub struct OnMessageBuilder {
    pub headers: Option<Vec<(String, TextMatcher)>>,
    pub delay: Option<Delay>,
    pub payload: Option<BodyMatcher>,
}

impl Default for OnMessageBuilder {
    fn default() -> (builder: Self)
        ensures
            builder.headers is None,
            builder.delay is None,
            builder.payload is None,
    {
        OnMessageBuilder { headers: None, delay: None, payload: None }
    }
}

impl OnMessageBuilder {
    /// Asks that the header `key` of the connection pass `matcher`. A later
    /// test under the same key takes the place of an earlier one.
    pub fn with_header(self, key: &str, matcher: TextMatcher) -> (made: Self)
        ensures
            made.headers matches Some(tests) && exists|owned: String|
                owned@ == key@ && tests@ == #[trigger] with_test(self.headers, owned, matcher),
            made.delay == self.delay,
            made.payload == self.payload,
    {
        OnMessageBuilder {
            headers: add_test(self.headers, key, matcher),
            delay: self.delay,
            payload: self.payload,
        }
    }

    /// Answers after a span drawn between `lower` and `upper`, whichever way
    /// round they are given, and after the span itself where they are the same.
    pub fn with_delay_interval_in(self, lower: Duration, upper: Duration) -> (made: Self)
        ensures
            made.delay == Some(interval(duration_nanos(lower), duration_nanos(upper))),
            made.headers == self.headers,
            made.payload == self.payload,
    {
        OnMessageBuilder {
            headers: self.headers,
            delay: Some(interval_of(lower.as_nanos(), upper.as_nanos())),
            payload: self.payload,
        }
    }

    /// Answers after `delay`.
    pub fn with_fixed_delay(self, delay: Duration) -> (made: Self)
        ensures
            made.delay == Some(Delay::Fixed(duration_nanos(delay))),
            made.headers == self.headers,
            made.payload == self.payload,
    {
        OnMessageBuilder {
            headers: self.headers,
            delay: Some(Delay::Fixed(delay.as_nanos())),
            payload: self.payload,
        }
    }

    /// Asks for a text message that passes `body`.
    pub fn with_text_like(self, body: TextMatcher) -> (made: Self)
        ensures
            made.payload == Some(BodyMatcher::PlainText(body)),
            made.headers == self.headers,
            made.delay == self.delay,
    {
        OnMessageBuilder {
            headers: self.headers,
            delay: self.delay,
            payload: Some(BodyMatcher::PlainText(body)),
        }
    }

    /// Asks for a JSON message that is `body`.
    pub fn with_json_body_eq(self, body: JsonValue) -> (made: Self)
        ensures
            made.payload matches Some(BodyMatcher::Json(matcher)) && matcher.mirrors(&body),
            made.headers == self.headers,
            made.delay == self.delay,
    {
        OnMessageBuilder {
            headers: self.headers,
            delay: self.delay,
            payload: Some(BodyMatcher::Json(JsonMatcher::exactly(&body))),
        }
    }

    /// Asks for a JSON message that passes `matcher`.
    pub fn with_json_body_like(self, matcher: JsonMatcher) -> (made: Self)
        ensures
            made.payload == Some(BodyMatcher::Json(matcher)),
            made.headers == self.headers,
            made.delay == self.delay,
    {
        OnMessageBuilder {
            headers: self.headers,
            delay: self.delay,
            payload: Some(BodyMatcher::Json(matcher)),
        }
    }

    /// Ends in the stub that answers with `text`.
    pub fn returning_text(self, text: &str) -> (stub: Stub)
        ensures
            stub matches Stub::Message { request, delay, response: Body::PlainText(answer) }
                && request.headers == self.headers && request.payload == self.payload && delay
                == delay_or_none(self.delay) && answer@ == text@,
    {
        self.build(Body::PlainText(text.to_owned()))
    }

    /// Ends in the stub that answers with `json`, as text.
    pub fn returning_json(self, json: JsonValue) -> (stub: Stub)
        ensures
            stub == (Stub::Message {
                request: RequestMatcher { headers: self.headers, payload: self.payload },
                delay: delay_or_none(self.delay),
                response: Body::Json(json),
            }),
    {
        self.build(Body::Json(json))
    }

    /// Ends in the stub that answers with the bytes of `buff`.
    pub fn returning_binary(self, buff: Vec<u8>) -> (stub: Stub)
        ensures
            stub == (Stub::Message {
                request: RequestMatcher { headers: self.headers, payload: self.payload },
                delay: delay_or_none(self.delay),
                response: Body::Binary(buff),
            }),
    {
        self.build(Body::Binary(buff))
    }

    fn build(self, body: Body) -> (stub: Stub)
        ensures
            stub == (Stub::Message {
                request: RequestMatcher { headers: self.headers, payload: self.payload },
                delay: delay_or_none(self.delay),
                response: body,
            }),
    {
        let delay = match self.delay {
            Some(delay) => delay,
            None => Delay::Fixed(0),
        };
        Stub::Message {
            request: RequestMatcher { headers: self.headers, payload: self.payload },
            delay,
            response: body,
        }
    }
}

// Periodical message

/// Starts a feed: a stub that sends a connection its answers, one after the
/// other.
pub fn on_periodical() -> (builder: OnPeriodicalBuilder<NeedsBody>)
    ensures
        builder.id is None,
        builder.headers is None,
        builder.delay is None,
        builder.responses@.len() == 0,
{
    OnPeriodicalBuilder::<NeedsBody> {
        _phantom_data: PhantomData::<NeedsBody>,
        id: None,
        headers: None,
        delay: None,
        responses: Vec::new(),
    }
}

/// The state of a feed in the making that has no answer yet.
pub struct NeedsBody;

/// The state of a feed in the making that has an answer and can be built.
pub struct Ready;

/// A feed in the making.
pub struct OnPeriodicalBuilder<T> {
    pub id: Option<String>,
    pub headers: Option<Vec<(String, TextMatcher)>>,
    pub delay: Option<Delay>,
    pub responses: Vec<Body>,
    pub _phantom_data: PhantomData<T>,
}

impl<T> OnPeriodicalBuilder<T> {
    /// Names the feed. Sessions count the answers of a feed under its name.
    pub fn with_id(self, id: &str) -> (made: Self)
        ensures
            made.id matches Some(name) && name@ == id@,
            made.headers == self.headers,
            made.delay == self.delay,
            made.responses == self.responses,
    {
        OnPeriodicalBuilder {
            id: Some(id.to_owned()),
            headers: self.headers,
            delay: self.delay,
            responses: self.responses,
            _phantom_data: self._phantom_data,
        }
    }

    /// Asks that the header `key` of the connection pass `matcher`. A later
    /// test under the same key takes the place of an earlier one.
    pub fn with_header(self, key: &str, matcher: TextMatcher) -> (made: Self)
        ensures
            made.headers matches Some(tests) && exists|owned: String|
                owned@ == key@ && tests@ == #[trigger] with_test(self.headers, owned, matcher),
            made.id == self.id,
            made.delay == self.delay,
            made.responses == self.responses,
    {
        OnPeriodicalBuilder {
            id: self.id,
            headers: add_test(self.headers, key, matcher),
            delay: self.delay,
            responses: self.responses,
            _phantom_data: self._phantom_data,
        }
    }

    /// Answers after a span drawn between `lower` and `upper`, whichever way
    /// round they are given, and after the span itself where they are the same.
    pub fn with_delay_interval_in(self, lower: Duration, upper: Duration) -> (made: Self)
        ensures
            made.delay == Some(interval(duration_nanos(lower), duration_nanos(upper))),
            made.id == self.id,
            made.headers == self.headers,
            made.responses == self.responses,
    {
        OnPeriodicalBuilder {
            id: self.id,
            headers: self.headers,
            delay: Some(interval_of(lower.as_nanos(), upper.as_nanos())),
            responses: self.responses,
            _phantom_data: self._phantom_data,
        }
    }

    /// Answers after `delay`.
    pub fn with_fixed_delay(self, delay: Duration) -> (made: Self)
        ensures
            made.delay == Some(Delay::Fixed(duration_nanos(delay))),
            made.id == self.id,
            made.headers == self.headers,
            made.responses == self.responses,
    {
        OnPeriodicalBuilder {
            id: self.id,
            headers: self.headers,
            delay: Some(Delay::Fixed(delay.as_nanos())),
            responses: self.responses,
            _phantom_data: self._phantom_data,
        }
    }

    /// Adds `text` to the answers of the feed.
    pub fn returning_text(self, text: &str) -> (made: OnPeriodicalBuilder<Ready>)
        ensures
            made.responses@.len() == self.responses@.len() + 1,
            made.responses@.drop_last() == self.responses@,
            made.responses@.last() matches Body::PlainText(answer) && answer@ == text@,
            made.id == self.id,
            made.headers == self.headers,
            made.delay == self.delay,
    {
        let mut made = self;
        made.responses.push(Body::PlainText(text.to_owned()));
        proof {
            assert(made.responses@.drop_last() =~= self.responses@);
        }
        made.into_ready()
    }

    /// Adds `json`, as text, to the answers of the feed.
    pub fn returning_json(self, json: JsonValue) -> (made: OnPeriodicalBuilder<Ready>)
        ensures
            made.responses@ == self.responses@.push(Body::Json(json)),
            made.id == self.id,
            made.headers == self.headers,
            made.delay == self.delay,
    {
        let mut made = self;
        made.responses.push(Body::Json(json));
        made.into_ready()
    }

    /// Adds the bytes of `buff` to the answers of the feed.
    pub fn returning_binary(self, buff: Vec<u8>) -> (made: OnPeriodicalBuilder<Ready>)
        ensures
            made.responses@ == self.responses@.push(Body::Binary(buff)),
            made.id == self.id,
            made.headers == self.headers,
            made.delay == self.delay,
    {
        let mut made = self;
        made.responses.push(Body::Binary(buff));
        made.into_ready()
    }

    fn into_ready(self) -> (made: OnPeriodicalBuilder<Ready>)
        ensures
            made.id == self.id,
            made.headers == self.headers,
            made.delay == self.delay,
            made.responses == self.responses,
    {
        OnPeriodicalBuilder {
            id: self.id,
            headers: self.headers,
            delay: self.delay,
            responses: self.responses,
            _phantom_data: PhantomData::<Ready>,
        }
    }
}

impl OnPeriodicalBuilder<Ready> {
    /// The feed under the name it was given, or under `drawn` where it was
    /// given none.
    pub fn build_as(self, drawn: String) -> (stub: Stub)
        ensures
            stub == (Stub::Periodical {
                id: match self.id {
                    Some(id) => id,
                    None => drawn,
                },
                headers: self.headers,
                delay: delay_or_none(self.delay),
                responses: self.responses,
            }),
    {
        let id = match self.id {
            Some(id) => id,
            None => drawn,
        };
        let delay = match self.delay {
            Some(delay) => delay,
            None => Delay::Fixed(0),
        };
        Stub::Periodical { id, headers: self.headers, delay, responses: self.responses }
    }

    /// The feed. Where it was given no name it gets one drawn here, of
    /// [`DRAWN_ID_LEN`] letters and digits.
    pub fn build(self) -> (stub: Stub)
        ensures
            stub matches Stub::Periodical { id, headers, delay, responses } && headers
                == self.headers && delay == delay_or_none(self.delay) && responses
                == self.responses && match self.id {
                Some(name) => id == name,
                None => id@.len() == DRAWN_ID_LEN && forall|i: int|
                    0 <= i < id@.len() ==> alphanumeric(#[trigger] id@[i]),
            },
    {
        let drawn = match &self.id {
            Some(_) => String::new(),
            None => draw_text(DRAWN_ID_LEN),
        };
        self.build_as(drawn)
    }
}

} // verus!
