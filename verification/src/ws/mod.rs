//! The WebSocket mock: stubs, their registry and the scheduler of a session.
//!
//! A session is one accepted connection. Its scheduler keeps the answers that
//! are not due yet in the order of their deadlines. The server that owns the
//! socket drives it: it asks what is due and for how long to wait, sends and
//! reads, and hands in what it read. No answer goes out before its deadline,
//! and the deadlines of what goes out never decrease.

pub mod builders;
pub mod stubs;

use vstd::prelude::*;
use crate::clock::NANOS_PER_SECOND;
use crate::document::{json_parse, read};
use crate::json::JsonValue;
use crate::matchers::Body;
use crate::ws::stubs::{
    all_plain,
    feed,
    frame_of,
    lemma_winner,
    scores,
    settled,
    voiced,
    winner,
    Msg,
    StubsHandle,
};

verus! {

/// How long a session waits for a frame when it owes nothing: one second.
pub const IDLE_WAIT: u128 = NANOS_PER_SECOND;

/// The deadlines do not decrease along the queue.
pub open spec fn in_order(queue: Seq<Msg>) -> bool {
    forall|i: int, j: int| 0 <= i <= j < queue.len() ==> queue[i].1 <= queue[j].1
}

/// How many answers at the head of a queue are due at `now`.
pub open spec fn due_count(queue: Seq<Msg>, now: u128) -> int
    decreases queue.len(),
{
    if queue.len() > 0 && queue[0].1 <= now {
        1 + due_count(queue.drop_first(), now)
    } else {
        0
    }
}

/// The answers at the head of an ordered queue that are due are all that are
/// due, and no other.
pub proof fn lemma_due_count(queue: Seq<Msg>, now: u128)
    requires
        in_order(queue),
    ensures
        0 <= due_count(queue, now) <= queue.len(),
        forall|i: int| 0 <= i < due_count(queue, now) ==> (#[trigger] queue[i]).1 <= now,
        forall|i: int| due_count(queue, now) <= i < queue.len() ==> (#[trigger] queue[i]).1 > now,
    decreases queue.len(),
{
    if queue.len() > 0 {
        let rest = queue.drop_first();
        assert(in_order(rest)) by {
            assert forall|i: int, j: int| 0 <= i <= j < rest.len() implies rest[i].1
                <= rest[j].1 by {
                assert(queue[i + 1].1 <= queue[j + 1].1);
            }
        }
        lemma_due_count(rest, now);
        if queue[0].1 <= now {
            assert forall|i: int| 0 <= i < due_count(queue, now) implies (#[trigger] queue[i]).1
                <= now by {
                if i > 0 {
                    assert(rest[i - 1].1 <= now);
                }
            }
            assert forall|i: int| due_count(queue, now) <= i < queue.len() implies (
            #[trigger] queue[i]).1 > now by {
                assert(rest[i - 1].1 > now);
            }
        } else {
            assert forall|i: int| 0 <= i < queue.len() implies (#[trigger] queue[i]).1 > now by {
                assert(queue[0].1 <= queue[i].1);
            }
        }
    }
}

/// Where an answer goes into a queue: behind every answer that is due no
/// later than it, so that answers with one deadline keep the order in which
/// they came.
pub open spec fn slot(queue: Seq<Msg>, deadline: u128) -> int {
    due_count(queue, deadline)
}

/// The queue with one more answer.
pub open spec fn enqueue(queue: Seq<Msg>, msg: Msg) -> Seq<Msg> {
    queue.insert(slot(queue, msg.1), msg)
}

/// The queue with more answers, put in one after the other.
pub open spec fn enqueue_all(queue: Seq<Msg>, msgs: Seq<Msg>) -> Seq<Msg>
    decreases msgs.len(),
{
    if msgs.len() == 0 {
        queue
    } else {
        enqueue(enqueue_all(queue, msgs.drop_last()), msgs.last())
    }
}

/// No answer of the queue is due before `floor`.
pub open spec fn none_before(queue: Seq<Msg>, floor: u128) -> bool {
    forall|i: int| 0 <= i < queue.len() ==> floor <= (#[trigger] queue[i]).1
}

/// An ordered queue stays ordered with one more answer, and no answer in it is
/// due before a floor that the queue and the new answer kept.
pub proof fn lemma_enqueue(queue: Seq<Msg>, msg: Msg, floor: u128)
    requires
        in_order(queue),
    ensures
        in_order(enqueue(queue, msg)),
        none_before(queue, floor) && floor <= msg.1 ==> none_before(enqueue(queue, msg), floor),
{
    lemma_due_count(queue, msg.1);
    let at = slot(queue, msg.1);
    let after = enqueue(queue, msg);
    assert forall|i: int, j: int| 0 <= i <= j < after.len() implies after[i].1 <= after[j].1 by {
        if i < at && j > at {
            assert(queue[i].1 <= msg.1);
            assert(queue[j - 1].1 > msg.1);
        }
    }
}

/// Answers that come in the order of their deadlines are queued in the
/// order in which they come: answers with one deadline keep their order.
pub proof fn lemma_enqueue_all_in_order(msgs: Seq<Msg>)
    requires
        in_order(msgs),
    ensures
        enqueue_all(Seq::empty(), msgs) == msgs,
    decreases msgs.len(),
{
    if msgs.len() > 0 {
        let front = msgs.drop_last();
        let last = msgs.last();
        assert(in_order(front)) by {
            assert forall|i: int, j: int| 0 <= i <= j < front.len() implies front[i].1
                <= front[j].1 by {
                assert(msgs[i].1 <= msgs[j].1);
            }
        }
        lemma_enqueue_all_in_order(front);
        lemma_due_count(front, last.1);
        let at = due_count(front, last.1);
        if at < front.len() {
            assert(front[at].1 > last.1);
            assert(msgs[at].1 <= msgs[msgs.len() - 1].1);
        }
        assert(front.insert(front.len() as int, last) =~= msgs);
    }
}

/// Whether the queue `after` is the queue `before`, or `before` with one more
/// answer that is due at `now` or later.
pub open spec fn takes(before: Seq<Msg>, after: Seq<Msg>, now: u128) -> bool {
    after == before || exists|msg: Msg| msg.1 >= now && after == #[trigger] enqueue(before, msg)
}

/// Puts an answer into the queue.
pub fn push(queue: &mut Vec<Msg>, msg: Msg)
    requires
        in_order(old(queue)@),
    ensures
        final(queue)@ == enqueue(old(queue)@, msg),
        in_order(final(queue)@),
{
    proof {
        lemma_due_count(queue@, msg.1);
        lemma_enqueue(queue@, msg, 0);
    }
    let mut at: usize = 0;
    while at < queue.len() && queue[at].1 <= msg.1
        invariant
            at <= queue.len(),
            forall|i: int| 0 <= i < at ==> (#[trigger] queue@[i]).1 <= msg.1,
        decreases queue.len() - at,
    {
        at += 1;
    }
    queue.insert(at, msg);
}

/// What a session read from its socket, or why it read nothing.
pub enum Inbound {
    /// A text frame.
    Text(String),
    /// A binary frame.
    Binary(Vec<u8>),
    /// A frame of another kind: a ping, a pong, a close.
    Other,
    /// Nothing came within the wait.
    TimedOut,
    /// The connection is closed or broke the protocol.
    Failed,
}

/// Whether a session goes on.
#[derive(Clone, Copy, Debug, PartialEq, Eq, Structural)]
pub enum Flow {
    Continue,
    Stop,
}

/// The body that a text frame carries: JSON where the text is a JSON
/// document, and the text itself where it is none.
pub fn inbound_body(text: String) -> (body: Body)
    ensures
        match json_parse(text@) {
            Some(document) => body matches Body::Json(json) && json@ == document
                && json.encodable(),
            None => body == Body::PlainText(text),
        },
{
    match JsonValue::from_read(read(text.as_str())) {
        Ok(json) => Body::Json(json),
        Err(_) => Body::PlainText(text),
    }
}

/// The later of two instants.
pub open spec fn later(a: u128, b: u128) -> u128 {
    if a >= b {
        a
    } else {
        b
    }
}

/// The deadlines of answers, in their order.
pub open spec fn deadlines(msgs: Seq<Msg>) -> Seq<u128> {
    Seq::new(msgs.len(), |i: int| msgs[i].1)
}

/// The answer to a connection, as a list of one or none.
pub open spec fn one(first: Option<Msg>) -> Seq<Msg> {
    match first {
        Some(msg) => seq![msg],
        None => Seq::empty(),
    }
}

/// The answers of the feeds, as a list.
pub open spec fn many(feeds: Option<Vec<Msg>>) -> Seq<Msg> {
    match feeds {
        Some(msgs) => msgs@,
        None => Seq::empty(),
    }
}

/// One accepted connection: its headers, the answers it still owes, how far
/// it has come in each feed, and the latest instant it has seen.
pub struct Session {
    /// The headers of the handshake.
    pub headers: Vec<(String, String)>,
    /// The answers that are owed, by deadline, and by arrival where deadlines
    /// are the same.
    pub queue: Vec<Msg>,
    /// How many responses of each feed have been used.
    pub cursors: Vec<(String, usize)>,
    /// The latest instant the session has seen.
    pub clock: u128,
    /// The deadlines of the answers handed out for sending, in that order.
    pub sent: Ghost<Seq<u128>>,
}

impl Session {
    /// The queue is in order, what went out went out in order and not before
    /// its deadline, and nothing that is owed is due before anything that
    /// went out.
    pub open spec fn wf(&self) -> bool {
        &&& in_order(self.queue@)
        &&& forall|i: int, j: int| 0 <= i <= j < self.sent@.len() ==> self.sent@[i] <= self.sent@[j]
        &&& forall|i: int| 0 <= i < self.sent@.len() ==> self.sent@[i] <= self.clock
        &&& forall|i: int|
            0 <= i < self.sent@.len() ==> none_before(self.queue@, #[trigger] self.sent@[i])
    }

    /// The deadlines of what a session hands out for sending never decrease.
    pub proof fn lemma_outbound_in_order(&self, earlier: int, later: int)
        requires
            self.wf(),
            0 <= earlier <= later < self.sent@.len(),
        ensures
            self.sent@[earlier] <= self.sent@[later],
    {
    }

    /// The instant that counts as now: the one handed in, unless the session
    /// has seen a later one. Time does not run backwards.
    pub open spec fn now(&self, now: u128) -> u128 {
        later(now, self.clock)
    }

    /// A session at its start, owing the answers to the connection.
    pub fn start(
        headers: Vec<(String, String)>,
        cursors: Vec<(String, usize)>,
        now: u128,
        first: Option<Msg>,
        feeds: Option<Vec<Msg>>,
    ) -> (session: Session)
        ensures
            session.wf(),
            session.headers == headers,
            session.cursors == cursors,
            session.clock == now,
            session.sent@ == Seq::<u128>::empty(),
            session.queue@ == enqueue_all(Seq::empty(), one(first) + many(feeds)),
    {
        let ghost head = one(first);
        let ghost tail = many(feeds);
        let mut queue: Vec<Msg> = Vec::new();
        if let Some(msg) = first {
            proof {
                assert(head.drop_last() =~= Seq::<Msg>::empty());
                assert(enqueue_all(Seq::empty(), head.drop_last()) == Seq::<Msg>::empty());
            }
            push(&mut queue, msg);
        }
        assert(queue@ == enqueue_all(Seq::empty(), head));
        if let Some(msgs) = feeds {
            let mut rest: Vec<Msg> = msgs;
            let ghost mut done: int = 0;
            while rest.len() > 0
                invariant
                    0 <= done <= tail.len(),
                    rest@ == tail.skip(done),
                    in_order(queue@),
                    queue@ == enqueue_all(Seq::empty(), head + tail.take(done)),
                decreases rest.len(),
            {
                let msg = rest.remove(0);
                proof {
                    assert(msg == tail[done]);
                    assert((head + tail.take(done + 1)).drop_last() =~= head + tail.take(done));
                    assert(tail.skip(done).remove(0) =~= tail.skip(done + 1));
                    done = done + 1;
                }
                push(&mut queue, msg);
            }
            proof {
                assert(tail.take(done) =~= tail);
            }
        } else {
            proof {
                assert(head + tail =~= head);
            }
        }
        Session { headers, queue, cursors, clock: now, sent: Ghost(Seq::empty()) }
    }
}

/// Whether `body` is what a text frame carries: the JSON of the document
/// where the text is one, and the text itself where it is none.
pub open spec fn text_body(text: String, body: Body) -> bool {
    match json_parse(text@) {
        Some(document) => body matches Body::Json(json) && json@ == document && json.encodable(),
        None => body == Body::PlainText(text),
    }
}

impl StubsHandle {
    /// Whether `answers` are what the registry owes a connection at its start:
    /// the answer of the best connection stub, if one fits, due at once, and
    /// then the answers of the feeds, in the order of [`feed`].
    pub open spec fn opens(
        &self,
        headers: Seq<(String, String)>,
        now: u128,
        answers: Seq<Msg>,
    ) -> bool {
        let first = winner(scores(self.on_connect@, None, headers, Seq::empty()));
        let owed = feed(self.on_periodical@, headers, Seq::empty());
        let lead: int = if first is Some {
            1
        } else {
            0
        };
        &&& answers.len() == lead + owed.len()
        &&& first matches Some(at) ==> answers[0].0@ == frame_of(
            self.on_connect[at].response(Seq::empty()),
        ) && answers[0].1 == now
        &&& forall|k: int|
            0 <= k < owed.len() ==> self.on_periodical[(#[trigger] owed[k]).0].answers(
                owed[k].1,
                now,
                answers[lead + k],
            )
    }

    /// Whether the queue `after` is the queue `before` with the answer of the
    /// registry to a message: that of the best message stub where one fits,
    /// put in by its deadline, and nothing where none fits.
    pub open spec fn replies(
        &self,
        headers: Seq<(String, String)>,
        payload: Body,
        now: u128,
        before: Seq<Msg>,
        after: Seq<Msg>,
    ) -> bool {
        match winner(scores(self.on_message@, Some(&payload), headers, Seq::empty())) {
            Some(at) => exists|msg: Msg| #[trigger]
                self.on_message[at].answers(Seq::empty(), now, msg) && after == enqueue(
                    before,
                    msg,
                ),
            None => after == before,
        }
    }
}

impl Session {
    /// Opens a session on a connection with the given headers. Where the
    /// stubs for connections and the feeds are made of tests of the library's
    /// own, it owes what [`StubsHandle::opens`] says, its cursors are those
    /// that the feeds settle on, and no feed scores above 0 on them. Whatever
    /// functions of the user answer, the session owes answers that are due at
    /// `now` or later.
    pub fn open(registry: &StubsHandle, headers: Vec<(String, String)>, now: u128) -> (session:
        Session)
        requires
            registry.wf(),
        ensures
            session.wf(),
            session.headers == headers,
            session.clock == now,
            session.sent@ == Seq::<u128>::empty(),
            all_plain(registry.on_connect@) && all_plain(registry.on_periodical@) ==> {
                &&& exists|answers: Seq<Msg>| #[trigger]
                    registry.opens(headers@, now, answers) && session.queue@ == enqueue_all(
                        Seq::empty(),
                        answers,
                    )
                &&& session.cursors@ == settled(registry.on_periodical@, headers@, Seq::empty())
                &&& winner(
                    scores(registry.on_periodical@, None, headers@, session.cursors@),
                ) is None
            },
            exists|answers: Seq<Msg>|
                none_before(answers, now) && session.queue@ == #[trigger] enqueue_all(
                    Seq::empty(),
                    answers,
                ),
    {
        let first = registry.on_connect(&headers, now);
        let mut cursors: Vec<(String, usize)> = Vec::new();
        let feeds = registry.on_periodical(&headers, now, &mut cursors);
        proof {
            let answers = one(first) + many(feeds);
            lemma_winner(scores(registry.on_connect@, None, headers@, Seq::empty()));
            if all_plain(registry.on_connect@) && all_plain(registry.on_periodical@) {
                assert(registry.opens(headers@, now, answers));
            }
            assert(none_before(answers, now)) by {
                assert forall|i: int| 0 <= i < answers.len() implies now <= (
                #[trigger] answers[i]).1 by {
                    if first is Some && i == 0 {
                    } else {
                        let k = i - one(first).len();
                        let msg = many(feeds)[k];
                        assert(answers[i] == msg);
                        assert(voiced(registry.on_periodical@, headers@, now, msg));
                    }
                }
            }
        }
        Session::start(headers, cursors, now, first, feeds)
    }

    /// Hands out the answers that are due at `now`, in the order of the
    /// queue, and keeps the rest. What is handed out is all that is due and
    /// nothing else.
    pub fn flush(&mut self, now: u128) -> (due: Vec<Msg>)
        requires
            old(self).wf(),
        ensures
            final(self).wf(),
            due@ == old(self).queue@.take(due_count(old(self).queue@, old(self).now(now))),
            final(self).queue@ == old(self).queue@.skip(
                due_count(old(self).queue@, old(self).now(now)),
            ),
            forall|i: int| 0 <= i < due@.len() ==> (#[trigger] due@[i]).1 <= old(self).now(now),
            forall|i: int|
                0 <= i < final(self).queue@.len() ==> (#[trigger] final(self).queue@[i]).1 > old(
                    self,
                ).now(now),
            final(self).sent@ == old(self).sent@ + deadlines(due@),
            final(self).clock == old(self).now(now),
            final(self).headers == old(self).headers,
            final(self).cursors == old(self).cursors,
    {
        let at: u128 = if now >= self.clock {
            now
        } else {
            self.clock
        };
        let ghost before = self.queue@;
        let ghost count = due_count(before, at);
        proof {
            lemma_due_count(before, at);
        }
        let mut due: Vec<Msg> = Vec::new();
        while self.queue.len() > 0 && self.queue[0].1 <= at
            invariant
                due@.len() <= count <= before.len(),
                due@ == before.take(due@.len() as int),
                self.queue@ == before.skip(due@.len() as int),
                forall|i: int| 0 <= i < count ==> (#[trigger] before[i]).1 <= at,
                forall|i: int| count <= i < before.len() ==> (#[trigger] before[i]).1 > at,
                self.headers == old(self).headers,
                self.cursors == old(self).cursors,
                self.sent == old(self).sent,
                self.clock == old(self).clock,
            decreases self.queue.len(),
        {
            proof {
                assert(self.queue@[0] == before[due@.len() as int]);
            }
            let msg = self.queue.remove(0);
            proof {
                let out = due@.len() as int;
                assert(before.skip(out).remove(0) =~= before.skip(out + 1));
                assert(before.take(out).push(msg) =~= before.take(out + 1));
            }
            due.push(msg);
        }
        proof {
            if due@.len() < count {
                assert(self.queue@[0] == before[due@.len() as int]);
            }
            assert(due@.len() == count);
            let sent = self.sent@ + deadlines(due@);
            assert forall|i: int, j: int| 0 <= i <= j < sent.len() implies sent[i] <= sent[j] by {
                if i >= self.sent@.len() {
                    assert(sent[i] == before[i - self.sent@.len()].1);
                    assert(sent[j] == before[j - self.sent@.len()].1);
                } else if j >= self.sent@.len() {
                    assert(sent[j] == before[j - self.sent@.len()].1);
                    assert(none_before(before, self.sent@[i]));
                }
            }
            assert forall|i: int| 0 <= i < sent.len() implies sent[i] <= at by {
                if i >= self.sent@.len() {
                    assert(sent[i] == before[i - self.sent@.len()].1);
                }
            }
            assert forall|i: int| 0 <= i < sent.len() implies none_before(
                self.queue@,
                #[trigger] sent[i],
            ) by {
                assert forall|k: int| 0 <= k < self.queue@.len() implies sent[i] <= (
                #[trigger] self.queue@[k]).1 by {
                    assert(self.queue@[k] == before[count + k]);
                }
            }
            assert(in_order(self.queue@)) by {
                let rest = self.queue@;
                assert forall|i: int, j: int| 0 <= i <= j < rest.len() implies rest[i].1
                    <= rest[j].1 by {
                    assert(before[count + i].1 <= before[count + j].1);
                }
            }
        }
        self.sent = Ghost(self.sent@ + deadlines(due@));
        self.clock = at;
        due
    }

    /// How long to wait for a frame at `now`: until the next answer is due,
    /// and [`IDLE_WAIT`] where none is owed.
    pub fn read_timeout(&self, now: u128) -> (wait: u128)
        ensures
            wait == if self.queue@.len() == 0 {
                IDLE_WAIT
            } else if self.queue@[0].1 > self.now(now) {
                (self.queue@[0].1 - self.now(now)) as u128
            } else {
                0
            },
    {
        let at: u128 = if now >= self.clock {
            now
        } else {
            self.clock
        };
        if self.queue.len() == 0 {
            IDLE_WAIT
        } else if self.queue[0].1 > at {
            self.queue[0].1 - at
        } else {
            0
        }
    }

    /// One turn of the scheduler at `now`, before the socket is read: the
    /// answers to send, which are all that are due, and how long to wait for a
    /// frame, which is until the next answer is due and never nothing.
    pub fn tick(&mut self, now: u128) -> (turn: (Vec<Msg>, u128))
        requires
            old(self).wf(),
        ensures
            final(self).wf(),
            turn.0@ == old(self).queue@.take(due_count(old(self).queue@, old(self).now(now))),
            final(self).queue@ == old(self).queue@.skip(
                due_count(old(self).queue@, old(self).now(now)),
            ),
            forall|i: int|
                0 <= i < turn.0@.len() ==> (#[trigger] turn.0@[i]).1 <= old(self).now(now),
            turn.1 > 0,
            turn.1 == if final(self).queue@.len() == 0 {
                IDLE_WAIT
            } else {
                (final(self).queue@[0].1 - old(self).now(now)) as u128
            },
            final(self).sent@ == old(self).sent@ + deadlines(turn.0@),
            final(self).clock == old(self).now(now),
            final(self).headers == old(self).headers,
            final(self).cursors == old(self).cursors,
    {
        let due = self.flush(now);
        let wait = self.read_timeout(now);
        (due, wait)
    }

    /// The body that a frame carries, if it is a frame that carries one.
    pub fn payload_of(inbound: Inbound) -> (payload: Option<Body>)
        ensures
            match inbound {
                Inbound::Text(text) => payload matches Some(body) && text_body(text, body),
                Inbound::Binary(bytes) => payload == Some(Body::Binary(bytes)),
                _ => payload is None,
            },
    {
        match inbound {
            Inbound::Text(text) => Some(inbound_body(text)),
            Inbound::Binary(bytes) => Some(Body::Binary(bytes)),
            _ => None,
        }
    }

    /// Takes a message that was read at `now`: the session owes the answer of
    /// the registry to it, if the registry has one. Where the stubs for
    /// messages are made of tests of the library's own, that is the answer of
    /// the best of them. Whatever functions of the user answer, the queue
    /// takes in at most one answer, due at `now` or later.
    pub fn answer(&mut self, registry: &StubsHandle, payload: Body, now: u128)
        requires
            old(self).wf(),
            registry.wf(),
        ensures
            final(self).wf(),
            all_plain(registry.on_message@) ==> registry.replies(
                old(self).headers@,
                payload,
                old(self).now(now),
                old(self).queue@,
                final(self).queue@,
            ),
            takes(old(self).queue@, final(self).queue@, old(self).now(now)),
            final(self).clock == old(self).now(now),
            final(self).sent == old(self).sent,
            final(self).headers == old(self).headers,
            final(self).cursors == old(self).cursors,
    {
        let at: u128 = if now >= self.clock {
            now
        } else {
            self.clock
        };
        let ghost before = self.queue@;
        let ghost chosen = winner(
            scores(registry.on_message@, Some(&payload), self.headers@, Seq::empty()),
        );
        self.clock = at;
        match registry.on_message(&self.headers, payload, at) {
            Some(msg) => {
                proof {
                    if all_plain(registry.on_message@) {
                        let stub = registry.on_message[chosen->0];
                        assert(stub.answers(Seq::empty(), at, msg));
                    }
                    assert(msg.1 >= at);
                    assert forall|i: int| 0 <= i < self.sent@.len() implies none_before(
                        enqueue(before, msg),
                        #[trigger] self.sent@[i],
                    ) by {
                        lemma_enqueue(before, msg, self.sent@[i]);
                    }
                }
                push(&mut self.queue, msg);
            },
            None => {},
        }
    }

    /// Takes what was read from the socket at `now`. A frame that carries a
    /// body is answered as [`answer`] has it, and the session has then seen
    /// `now`; a frame of another kind and a wait that ran out change nothing;
    /// a failure ends the session and changes nothing.
    ///
    /// [`answer`]: Session::answer
    pub fn receive(&mut self, registry: &StubsHandle, inbound: Inbound, now: u128) -> (flow: Flow)
        requires
            old(self).wf(),
            registry.wf(),
        ensures
            final(self).wf(),
            flow == Flow::Stop <==> inbound is Failed,
            match inbound {
                Inbound::Text(text) => all_plain(registry.on_message@) ==> exists|body: Body|
                    #[trigger] text_body(text, body) && registry.replies(
                        old(self).headers@,
                        body,
                        old(self).now(now),
                        old(self).queue@,
                        final(self).queue@,
                    ),
                Inbound::Binary(bytes) => all_plain(registry.on_message@) ==> registry.replies(
                    old(self).headers@,
                    Body::Binary(bytes),
                    old(self).now(now),
                    old(self).queue@,
                    final(self).queue@,
                ),
                _ => final(self).queue@ == old(self).queue@,
            },
            takes(old(self).queue@, final(self).queue@, old(self).now(now)),
            final(self).clock == if inbound is Text || inbound is Binary {
                old(self).now(now)
            } else {
                old(self).clock
            },
            final(self).sent == old(self).sent,
            final(self).headers == old(self).headers,
            final(self).cursors == old(self).cursors,
    {
        if let Inbound::Failed = inbound {
            return Flow::Stop;
        }
        match Self::payload_of(inbound) {
            Some(payload) => {
                self.answer(registry, payload, now);
            },
            None => {},
        }
        Flow::Continue
    }
}

} // verus!
