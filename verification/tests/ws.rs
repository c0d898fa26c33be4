use std::time::Duration;

use anymock::json::JsonValue;
use anymock::matchers::{int_gt, text_contains, text_eq, text_len_eq, JsonMatcher};
use anymock::ws::builders::{on_connect, on_message, on_periodical};
use anymock::ws::stubs::{Frame, Msg, StubsHandle};
use anymock::ws::{Flow, Inbound, Session};

const SECOND: u128 = 1_000_000_000;
const MILLI: u128 = 1_000_000;

fn listen() -> StubsHandle {
    StubsHandle::new()
}

fn connect(handle: &StubsHandle, now: u128) -> Session {
    connect_hdr(handle, Vec::new(), now)
}

fn connect_hdr(handle: &StubsHandle, headers: Vec<(&str, &str)>, now: u128) -> Session {
    let mut seen: Vec<(String, String)> = Vec::new();
    for (k, v) in headers {
        anymock::entries::upsert(&mut seen, k.to_lowercase(), v.to_string());
    }
    Session::open(handle, seen, now)
}

fn send(session: &mut Session, handle: &StubsHandle, text: &str, now: u128) {
    let flow = session.receive(handle, Inbound::Text(text.to_string()), now);
    assert_eq!(Flow::Continue, flow);
}

fn read(session: &mut Session, now: u128) -> Msg {
    let mut due = session.flush(now);
    assert_eq!(1, due.len(), "one frame is due at {now}");
    due.remove(0)
}

fn text_of(msg: Msg) -> String {
    match msg.0 {
        Frame::Text(text) => text,
        Frame::Binary(_) => panic!("a binary frame"),
    }
}

#[test]
fn should_returns_on_connect_when_no_headers_matchers_defined() {
    const OUTPUT_MESSAGE: &str = "Just works!";

    let mut handle = listen();

    handle.register(on_connect().returning_text(OUTPUT_MESSAGE));

    let mut client = connect(&handle, 0);
    let msg = read(&mut client, 0);
    assert!(matches!(msg.0, Frame::Text(_)));
    assert_eq!(text_of(msg), OUTPUT_MESSAGE);
}

#[test]
fn should_returns_on_connect_when_headers_matchers_defined() {
    const OUTPUT_MESSAGE: &str = "Just works with headers informed!";

    let mut handle = listen();

    handle.register(
        on_connect()
            .with_header("authorization", text_eq("AAABBBCCCDDD"))
            .returning_text(OUTPUT_MESSAGE),
    );

    let mut client = connect_hdr(&handle, vec![("Authorization", "AAABBBCCCDDD")], 0);

    let msg = read(&mut client, 0);
    assert!(matches!(msg.0, Frame::Text(_)));
    assert_eq!(text_of(msg), OUTPUT_MESSAGE);
}

#[test]
fn should_returns_on_connect_message_with_highest_priority() {
    const OUTPUT_MESSAGE: &str = "Lower priority stub";
    const OUTPUT_MESSAGE_2: &str = "Middle priority stub";
    const OUTPUT_MESSAGE_3: &str = "Higher priority stub";

    let mut handle = listen();

    handle.register(
        on_connect()
            .with_header("authorization", text_eq("AAABBBCCCDDD"))
            .returning_text(OUTPUT_MESSAGE),
    );

    handle.register(
        on_connect()
            .with_header("authorization", text_eq("AAABBBCCCDDD"))
            .with_header("dummy-header", text_contains("mm"))
            .returning_text(OUTPUT_MESSAGE_2),
    );

    handle.register(
        on_connect()
            .with_header("authorization", text_eq("AAABBBCCCDDD"))
            .with_header("dummy-header", text_eq("Dummy"))
            .returning_text(OUTPUT_MESSAGE_3),
    );

    let mut client = connect_hdr(
        &handle,
        vec![("Authorization", "AAABBBCCCDDD"), ("Dummy-Header", "Dummy")],
        0,
    );

    let msg = read(&mut client, 0);
    assert!(matches!(msg.0, Frame::Text(_)));
    assert_eq!(text_of(msg), OUTPUT_MESSAGE_3);
    assert!(client.queue.is_empty());
}

#[test]
fn should_returns_on_message_when_json_body_eq() {
    const OUTPUT_MESSAGE: &str = "Just works!";
    const JSON: &str = r#"
{
  "name": "John",
  "age": 30,
  "tags": ["dev", "rust", "json"]
}
"#;

    let mut handle = listen();

    handle.register(
        on_message()
            .with_json_body_eq(JsonValue::try_from(JSON).unwrap())
            .returning_text(OUTPUT_MESSAGE),
    );

    let mut client = connect(&handle, 0);

    send(&mut client, &handle, JSON, 0);
    let msg = read(&mut client, 0);
    assert!(matches!(msg.0, Frame::Text(_)));
    assert_eq!(text_of(msg), OUTPUT_MESSAGE);
}

#[test]
fn should_returns_on_message_when_json_body_like() {
    const OUTPUT_MESSAGE: &str = "Just works!";
    const JSON: &str = r#"
{
  "name": "John",
  "age": 30,
  "tags": ["dev", "rust", "json"]
}
"#;

    let mut handle = listen();

    handle.register(
        on_message()
            .with_json_body_like(JsonMatcher::Object(vec![
                ("name".to_string(), JsonMatcher::from(text_len_eq(4))),
                ("age".to_string(), JsonMatcher::from(int_gt(20))),
            ]))
            .returning_text(OUTPUT_MESSAGE),
    );

    let mut client = connect(&handle, 0);

    send(&mut client, &handle, JSON, 0);
    let msg = read(&mut client, 0);
    assert!(matches!(msg.0, Frame::Text(_)));
    assert_eq!(text_of(msg), OUTPUT_MESSAGE);
}

#[test]
fn should_returns_on_message_when_fixed_delay_applied() {
    const LOWER_DELAY_MESSAGE: &str = "Just works with lower delay!";
    const HIGHER_DELAY_MESSAGE: &str = "Just works with higher delay!";

    let now: u128 = 5 * SECOND;
    let lower_delay = Duration::from_secs(1);
    let higher_delay = Duration::from_secs(3);
    let mut handle = listen();

    handle.register(
        on_message()
            .with_text_like(text_eq(LOWER_DELAY_MESSAGE))
            .with_fixed_delay(lower_delay)
            .returning_text(LOWER_DELAY_MESSAGE),
    );

    handle.register(
        on_message()
            .with_text_like(text_eq(HIGHER_DELAY_MESSAGE))
            .with_fixed_delay(higher_delay)
            .returning_text(HIGHER_DELAY_MESSAGE),
    );

    let mut client = connect(&handle, now);

    send(&mut client, &handle, LOWER_DELAY_MESSAGE, now);
    send(&mut client, &handle, HIGHER_DELAY_MESSAGE, now);

    assert!(client.flush(now).is_empty());
    assert_eq!(SECOND, client.read_timeout(now));
    assert!(client.flush(now + SECOND - 1).is_empty());

    let msg = read(&mut client, now + SECOND);
    assert!(now + lower_delay.as_nanos() <= msg.1);
    assert_eq!(now + SECOND, msg.1);
    assert!(matches!(msg.0, Frame::Text(_)));
    assert_eq!(text_of(msg), LOWER_DELAY_MESSAGE);

    assert!(client.flush(now + 3 * SECOND - 1).is_empty());
    assert_eq!(1, client.read_timeout(now + 3 * SECOND - 1));

    let msg = read(&mut client, now + 3 * SECOND);
    assert!(now + higher_delay.as_nanos() <= msg.1);
    assert_eq!(now + 3 * SECOND, msg.1);
    assert!(matches!(msg.0, Frame::Text(_)));
    assert_eq!(text_of(msg), HIGHER_DELAY_MESSAGE);
}

#[test]
fn should_returns_on_periodical() {
    const MESSAGE_1: &str = "Just works with first message!";
    const MESSAGE_2: &str = "Just works with second message!";

    let mut handle = listen();

    handle.register(
        on_periodical()
            .with_fixed_delay(Duration::from_millis(200))
            .returning_text(MESSAGE_1)
            .returning_text(MESSAGE_2)
            .build(),
    );

    let mut client_1 = connect(&handle, 0);
    let mut client_2 = connect(&handle, 10 * MILLI);

    assert!(client_1.flush(200 * MILLI - 1).is_empty());

    let mut due = client_1.flush(200 * MILLI);
    assert_eq!(2, due.len());

    let msg = due.remove(0);
    assert_eq!(200 * MILLI, msg.1);
    assert!(matches!(msg.0, Frame::Text(_)));
    assert_eq!(text_of(msg), MESSAGE_1);

    let msg = due.remove(0);
    assert!(matches!(msg.0, Frame::Text(_)));
    assert_eq!(text_of(msg), MESSAGE_2);

    assert!(client_2.flush(200 * MILLI).is_empty());
    let mut due = client_2.flush(210 * MILLI);
    assert_eq!(2, due.len());

    let msg = due.remove(0);
    assert_eq!(210 * MILLI, msg.1);
    assert!(matches!(msg.0, Frame::Text(_)));
    assert_eq!(text_of(msg), MESSAGE_1);

    let msg = due.remove(0);
    assert!(matches!(msg.0, Frame::Text(_)));
    assert_eq!(text_of(msg), MESSAGE_2);

    assert!(client_1.queue.is_empty());
    assert!(client_2.queue.is_empty());
}
