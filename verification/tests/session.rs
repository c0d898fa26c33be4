use std::time::Duration;

use anymock::json::JsonValue;
use anymock::matchers::{binary_eq, int_eq, text_eq, Body, BodyMatcher, JsonMatcher};
use anymock::ws::builders::{on_connect, on_message, on_periodical};
use anymock::ws::stubs::{Frame, Msg, RequestMatcher, Stub, StubsHandle, Delay};
use anymock::ws::{inbound_body, push, Flow, Inbound, Session, IDLE_WAIT};

const MILLI: u128 = 1_000_000;

fn msg(text: &str, at: u128) -> Msg {
    Msg(Frame::Text(text.to_string()), at)
}

fn echo_after(text: &str, millis: u64) -> Stub {
    on_message()
        .with_text_like(text_eq(text))
        .with_fixed_delay(Duration::from_millis(millis))
        .returning_text(text)
}

#[test]
fn push_keeps_deadlines_in_order_and_arrivals_among_equals() {
    let mut queue: Vec<Msg> = Vec::new();
    push(&mut queue, msg("b", 20));
    push(&mut queue, msg("d", 40));
    push(&mut queue, msg("a", 10));
    push(&mut queue, msg("c", 20));
    push(&mut queue, msg("e", 40));
    push(&mut queue, msg("c2", 20));

    assert_eq!(
        vec![
            msg("a", 10),
            msg("b", 20),
            msg("c", 20),
            msg("c2", 20),
            msg("d", 40),
            msg("e", 40)
        ],
        queue
    );
}

#[test]
fn start_queues_the_first_answer_and_the_feeds() {
    let session = Session::start(
        vec![("k".to_string(), "v".to_string())],
        vec![("f".to_string(), 2)],
        7,
        Some(msg("hello", 7)),
        Some(vec![msg("late", 30), msg("soon", 10), msg("also now", 7)]),
    );

    assert_eq!(vec![("k".to_string(), "v".to_string())], session.headers);
    assert_eq!(vec![("f".to_string(), 2)], session.cursors);
    assert_eq!(7, session.clock);
    assert_eq!(
        vec![msg("hello", 7), msg("also now", 7), msg("soon", 10), msg("late", 30)],
        session.queue
    );

    let idle = Session::start(Vec::new(), Vec::new(), 0, None, None);
    assert!(idle.queue.is_empty());
    let only_first = Session::start(Vec::new(), Vec::new(), 0, Some(msg("x", 0)), None);
    assert_eq!(vec![msg("x", 0)], only_first.queue);
}

#[test]
fn flush_hands_out_what_is_due_and_keeps_the_rest() {
    let mut session = Session::start(
        Vec::new(),
        Vec::new(),
        0,
        None,
        Some(vec![msg("a", 10), msg("b", 20), msg("c", 20), msg("d", 30)]),
    );

    assert!(session.flush(9).is_empty());
    assert_eq!(9, session.clock);
    assert_eq!(vec![msg("a", 10)], session.flush(10));
    assert_eq!(vec![msg("b", 20), msg("c", 20)], session.flush(29));
    assert_eq!(vec![msg("d", 30)], session.queue);
    assert_eq!(vec![msg("d", 30)], session.flush(u128::MAX));
    assert!(session.flush(u128::MAX).is_empty());
}

#[test]
fn time_does_not_run_backwards() {
    let mut session =
        Session::start(Vec::new(), Vec::new(), 100, None, Some(vec![msg("a", 150)]));

    assert!(session.flush(120).is_empty());
    assert_eq!(120, session.clock);
    assert!(session.flush(50).is_empty());
    assert_eq!(120, session.clock);
    assert_eq!(30, session.read_timeout(50));

    let mut handle = StubsHandle::new();
    handle.register(on_message().returning_text("now"));
    session.receive(&handle, Inbound::Text("x".to_string()), 60);
    assert_eq!(vec![msg("now", 120), msg("a", 150)], session.queue);
}

#[test]
fn read_timeout_is_the_time_to_the_next_deadline() {
    let idle = Session::start(Vec::new(), Vec::new(), 0, None, None);
    assert_eq!(IDLE_WAIT, idle.read_timeout(0));
    assert_eq!(1_000_000_000, idle.read_timeout(123));

    let owing = Session::start(Vec::new(), Vec::new(), 0, None, Some(vec![msg("a", 500)]));
    assert_eq!(500, owing.read_timeout(0));
    assert_eq!(1, owing.read_timeout(499));
    assert_eq!(0, owing.read_timeout(500));
    assert_eq!(0, owing.read_timeout(900));
}

#[test]
fn open_owes_the_connection_answer_and_the_feeds() {
    let mut handle = StubsHandle::new();
    handle.register(on_connect().returning_text("welcome"));
    handle.register(
        on_periodical()
            .with_fixed_delay(Duration::from_millis(3))
            .returning_text("tick 1")
            .returning_text("tick 2")
            .build(),
    );
    handle.register(on_periodical().with_id("now").returning_binary(vec![1]).build());

    let mut session = Session::open(&handle, Vec::new(), 1_000);

    assert_eq!(1_000, session.clock);
    assert_eq!(1, anymock::ws::stubs::used(&session.cursors, &"now".to_string()));
    assert_eq!(
        vec![Msg(Frame::Text("welcome".to_string()), 1_000), Msg(Frame::Binary(vec![1]), 1_000)],
        session.flush(1_000)
    );
    assert_eq!(3 * MILLI, session.read_timeout(1_000));
    assert_eq!(
        vec![msg("tick 1", 1_000 + 3 * MILLI), msg("tick 2", 1_000 + 3 * MILLI)],
        session.flush(1_000 + 3 * MILLI)
    );
    assert_eq!(IDLE_WAIT, session.read_timeout(1_000 + 3 * MILLI));

    let silent = Session::open(&StubsHandle::new(), Vec::new(), 5);
    assert!(silent.queue.is_empty());
    assert!(silent.cursors.is_empty());
}

#[test]
fn a_stub_registered_after_the_start_answers_later_messages_only() {
    let mut handle = StubsHandle::new();
    let mut session = Session::open(&handle, Vec::new(), 0);

    handle.register(on_connect().returning_text("too late"));
    handle.register(on_periodical().returning_text("too late").build());
    handle.register(on_message().returning_text("in time"));

    assert!(session.flush(10).is_empty());
    session.receive(&handle, Inbound::Binary(vec![0]), 10);
    assert_eq!(vec![msg("in time", 10)], session.flush(10));
}

#[test]
fn a_later_message_with_a_shorter_delay_is_answered_first() {
    let mut handle = StubsHandle::new();
    handle.register(echo_after("slow", 300));
    handle.register(echo_after("fast", 100));
    let mut session = Session::open(&handle, Vec::new(), 0);

    session.receive(&handle, Inbound::Text("slow".to_string()), 0);
    session.receive(&handle, Inbound::Text("fast".to_string()), 50 * MILLI);

    assert_eq!(100 * MILLI, session.read_timeout(50 * MILLI));
    assert_eq!(vec![msg("fast", 150 * MILLI)], session.flush(200 * MILLI));
    assert_eq!(100 * MILLI, session.read_timeout(200 * MILLI));
    assert_eq!(vec![msg("slow", 300 * MILLI)], session.flush(300 * MILLI));
}

#[test]
fn outbound_deadlines_never_decrease() {
    let mut handle = StubsHandle::new();
    handle.register(on_connect().returning_text("c"));
    handle.register(echo_after("a", 7));
    handle.register(echo_after("b", 2));
    handle.register(echo_after("c", 0));
    handle.register(on_periodical().with_fixed_delay(Duration::from_millis(4)).returning_text("p").build());
    let mut session = Session::open(&handle, Vec::new(), 0);

    let mut sent: Vec<u128> = Vec::new();
    let script = ["a", "b", "c", "b", "a", "c", "c", "b", "a", "a", "b", "c"];
    for (tick, text) in script.iter().enumerate() {
        let now = tick as u128 * MILLI;
        for out in session.flush(now) {
            assert!(out.1 <= now);
            sent.push(out.1);
        }
        session.receive(&handle, Inbound::Text(text.to_string()), now);
    }
    for out in session.flush(u128::MAX) {
        sent.push(out.1);
    }

    assert_eq!(script.len() + 2, sent.len());
    assert!(sent.windows(2).all(|pair| pair[0] <= pair[1]), "{sent:?}");
}

#[test]
fn tick_sends_what_is_due_and_waits_for_the_next() {
    let mut session = Session::start(
        Vec::new(),
        Vec::new(),
        0,
        None,
        Some(vec![msg("a", 10), msg("b", 25)]),
    );

    assert_eq!((Vec::new(), 10), session.tick(0));
    assert_eq!((vec![msg("a", 10)], 15), session.tick(10));
    assert_eq!((Vec::new(), 1), session.tick(24));
    assert_eq!((vec![msg("b", 25)], IDLE_WAIT), session.tick(30));
    assert_eq!((Vec::new(), IDLE_WAIT), session.tick(31));
}

#[test]
fn receive_goes_on_unless_the_connection_failed() {
    let mut handle = StubsHandle::new();
    handle.register(on_message().returning_text("ok"));
    let mut session = Session::open(&handle, Vec::new(), 0);

    assert_eq!(Flow::Continue, session.receive(&handle, Inbound::Other, 1));
    assert_eq!(Flow::Continue, session.receive(&handle, Inbound::TimedOut, 2));
    assert!(session.queue.is_empty());
    assert_eq!(Flow::Stop, session.receive(&handle, Inbound::Failed, 3));
    assert!(session.queue.is_empty());
    assert_eq!(Flow::Continue, session.receive(&handle, Inbound::Text("x".to_string()), 4));
    assert_eq!(Flow::Continue, session.receive(&handle, Inbound::Binary(vec![1]), 5));
    assert_eq!(vec![msg("ok", 4), msg("ok", 5)], session.queue);
}

#[test]
fn a_text_frame_is_json_exactly_when_it_reads_as_json() {
    assert!(matches!(inbound_body("{\"a\":1}".to_string()), Body::Json(JsonValue::Object(_))));
    assert!(matches!(inbound_body("30".to_string()), Body::Json(JsonValue::Int(30))));
    assert!(matches!(inbound_body("\"text\"".to_string()), Body::Json(JsonValue::Str(_))));
    assert!(matches!(inbound_body(" null ".to_string()), Body::Json(JsonValue::Null)));
    assert!(matches!(inbound_body("{\"a\":1".to_string()), Body::PlainText(t) if t == "{\"a\":1"));
    assert!(matches!(inbound_body("Just works!".to_string()), Body::PlainText(t) if t == "Just works!"));
    assert!(matches!(inbound_body(String::new()), Body::PlainText(t) if t.is_empty()));

    assert!(matches!(Session::payload_of(Inbound::Text("[1]".to_string())), Some(Body::Json(_))));
    assert!(matches!(Session::payload_of(Inbound::Text("[1".to_string())), Some(Body::PlainText(_))));
    assert!(matches!(Session::payload_of(Inbound::Binary(vec![91, 49, 93])), Some(Body::Binary(_))));
    assert!(Session::payload_of(Inbound::Other).is_none());
    assert!(Session::payload_of(Inbound::TimedOut).is_none());
    assert!(Session::payload_of(Inbound::Failed).is_none());
}

#[test]
fn a_message_is_matched_as_what_its_frame_carries() {
    let mut handle = StubsHandle::new();
    handle.register(on_message().with_text_like(text_eq("30")).returning_text("text"));
    handle.register(on_message().with_json_body_like(JsonMatcher::Int(int_eq(30))).returning_text("json"));
    handle.register(Stub::Message {
        request: RequestMatcher {
            headers: None,
            payload: Some(BodyMatcher::Binary(binary_eq(vec![51, 48]))),
        },
        delay: Delay::Fixed(0),
        response: Body::PlainText("bytes".to_string()),
    });
    let mut session = Session::open(&handle, Vec::new(), 0);

    session.receive(&handle, Inbound::Text("30".to_string()), 0);
    session.receive(&handle, Inbound::Binary(vec![51, 48]), 0);
    session.receive(&handle, Inbound::Text("30 ".to_string()), 0);
    session.receive(&handle, Inbound::Text("thirty".to_string()), 0);

    assert_eq!(vec![msg("json", 0), msg("bytes", 0), msg("json", 0)], session.flush(0));
}

#[test]
fn answer_uses_the_headers_of_the_session() {
    let mut handle = StubsHandle::new();
    handle.register(on_message().with_header("room", text_eq("7")).returning_text("seven"));
    let mut inside = Session::open(&handle, vec![("room".to_string(), "7".to_string())], 0);
    let mut outside = Session::open(&handle, vec![("room".to_string(), "8".to_string())], 0);

    inside.answer(&handle, Body::PlainText("hi".to_string()), 3);
    outside.answer(&handle, Body::PlainText("hi".to_string()), 3);

    assert_eq!(vec![msg("seven", 3)], inside.queue);
    assert!(outside.queue.is_empty());
    assert_eq!(3, outside.clock);
}
