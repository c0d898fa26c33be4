//! Stubs and their registry.
//!
//! A stub binds a trigger (a connection, a message read, a periodic feed) to
//! what the mock answers and when. Its score says how well it fits an event;
//! the registry answers an event with the best stub it holds.

use vstd::prelude::*;
use crate::chance::draw_between;
use crate::document::json_text;
use crate::entries::{
    has_key,
    lemma_position_from,
    lemma_position_is,
    lookup,
    position,
    upsert,
    value_of,
};
use crate::matchers::{
    add_scores,
    all_pass,
    clamp,
    lemma_total_step,
    total,
    Body,
    BodyMatcher,
    TextMatcher,
};

verus! {

/// How long after the trigger an answer is due.
#[derive(Clone, Copy, Debug, PartialEq, Eq)]
pub enum Delay {
    /// This many nanoseconds.
    Fixed(u128),
    /// A span drawn anew for each answer, from the first span up to but not
    /// including the second, both in nanoseconds.
    Interval(u128, u128),
}

/// The tests a message has to pass: on the headers of its connection and on
/// what it carries.
pub struct RequestMatcher {
    pub headers: Option<Vec<(String, TextMatcher)>>,
    pub payload: Option<BodyMatcher>,
}

/// A rule of the mock.
pub enum Stub {
    /// Answers a new connection.
    Connect { headers: Option<Vec<(String, TextMatcher)>>, response: Body },
    /// Answers a message.
    Message { request: RequestMatcher, delay: Delay, response: Body },
    /// Feeds a connection with its responses, one after the other.
    Periodical {
        id: String,
        headers: Option<Vec<(String, TextMatcher)>>,
        delay: Delay,
        responses: Vec<Body>,
    },
}

/// The header that `key` stands for.
pub open spec fn header<'a>(headers: Seq<(String, String)>, key: Seq<char>) -> Option<&'a String> {
    match value_of(headers, key) {
        Some(v) => Some(&v),
        None => None,
    }
}

/// The scores that header tests give to the headers of a connection, test by
/// test: each looks at the header of its key, present or not.
pub open spec fn header_ranks(
    matchers: Seq<(String, TextMatcher)>,
    headers: Seq<(String, String)>,
) -> Seq<nat> {
    Seq::new(matchers.len(), |i: int| matchers[i].1.rank(header(headers, matchers[i].0@)))
}

/// No header test is a function of the user's.
pub open spec fn plain_tests(matchers: Seq<(String, TextMatcher)>) -> bool {
    forall|i: int| 0 <= i < matchers.len() ==> (#[trigger] matchers[i]).1.plain()
}

/// Every header test of the library's own passes on the headers of a
/// connection.
pub open spec fn plain_pass(
    matchers: Seq<(String, TextMatcher)>,
    headers: Seq<(String, String)>,
) -> bool {
    forall|i: int|
        0 <= i < matchers.len() && (#[trigger] matchers[i]).1.plain() ==> matchers[i].1.rank(
            header(headers, matchers[i].0@),
        ) > 0
}

/// How many responses of the feed `id` a session has used up.
pub open spec fn invocations(cursors: Seq<(String, usize)>, id: Seq<char>) -> nat {
    match value_of(cursors, id) {
        Some(used) => used as nat,
        None => 0,
    }
}

impl Stub {
    /// The header tests of the stub, none where it has none.
    pub open spec fn header_matchers(&self) -> Seq<(String, TextMatcher)> {
        let tests = match self {
            Stub::Connect { headers, .. } => *headers,
            Stub::Message { request, .. } => request.headers,
            Stub::Periodical { headers, .. } => *headers,
        };
        match tests {
            Some(tests) => tests@,
            None => Seq::empty(),
        }
    }

    /// The score of the payload test: that of `payload` where a message stub
    /// has a test, and none where there is nothing to pass.
    pub open spec fn payload_rank(&self, payload: Option<&Body>) -> Option<nat> {
        match self {
            Stub::Message { request, .. } => match request.payload {
                Some(matcher) => Some(matcher.rank(payload)),
                None => None,
            },
            _ => None,
        }
    }

    /// Whether the stub still has something to say to a session: always, but
    /// for a feed whose responses the session has used up.
    pub open spec fn available(&self, cursors: Seq<(String, usize)>) -> bool {
        match self {
            Stub::Periodical { id, responses, .. } => invocations(cursors, id@) < responses.len(),
            _ => true,
        }
    }

    /// No test of the stub is, or holds, a function of the user's.
    pub open spec fn plain(&self) -> bool {
        &&& plain_tests(self.header_matchers())
        &&& match self {
            Stub::Message { request, .. } => match request.payload {
                Some(matcher) => matcher.plain(),
                None => true,
            },
            _ => true,
        }
    }

    /// What a score above 0 owes, whatever the functions of the user answer:
    /// the stub has something left to say, and every test of its own passes,
    /// on the headers and on the payload.
    pub open spec fn fits(
        &self,
        payload: Option<&Body>,
        headers: Seq<(String, String)>,
        cursors: Seq<(String, usize)>,
    ) -> bool {
        &&& self.available(cursors)
        &&& plain_pass(self.header_matchers(), headers)
        &&& match self {
            Stub::Message { request, .. } => match request.payload {
                Some(matcher) => matcher.plain() ==> matcher.rank(payload) > 0,
                None => true,
            },
            _ => true,
        }
    }

    /// How well the stub fits an event: 0 where a header test or the payload
    /// test scores 0 and where the stub has nothing left to say, and otherwise
    /// 1 and the scores of all its tests. This is the score of a stub whose
    /// tests are all the library's own.
    pub open spec fn rank(
        &self,
        payload: Option<&Body>,
        headers: Seq<(String, String)>,
        cursors: Seq<(String, usize)>,
    ) -> nat {
        let by_header = header_ranks(self.header_matchers(), headers);
        if !all_pass(by_header) {
            0
        } else if !self.available(cursors) {
            0
        } else {
            match self.payload_rank(payload) {
                Some(by_payload) => if by_payload == 0 {
                    0
                } else {
                    1 + total(by_header) + by_payload
                },
                None => 1 + total(by_header),
            }
        }
    }

    /// Whether the header test at `at` scores 0 on the headers of a connection.
    pub open spec fn header_fails(&self, headers: Seq<(String, String)>, at: int) -> bool {
        &&& 0 <= at < self.header_matchers().len()
        &&& self.header_matchers()[at].1.rank(header(headers, self.header_matchers()[at].0@)) == 0
    }

    /// A test that scores 0 brings the score of the whole stub to 0: any
    /// header test, and the payload test of a message stub.
    pub proof fn lemma_zero_test_zero_stub(
        &self,
        payload: Option<&Body>,
        headers: Seq<(String, String)>,
        cursors: Seq<(String, usize)>,
    )
        requires
            (exists|at: int| self.header_fails(headers, at)) || self.payload_rank(payload) == Some(
                0nat,
            ),
        ensures
            self.rank(payload, headers, cursors) == 0,
            clamp(self.rank(payload, headers, cursors)) == 0,
    {
        let ranks = header_ranks(self.header_matchers(), headers);
        if exists|at: int| self.header_fails(headers, at) {
            let at = choose|at: int| self.header_fails(headers, at);
            assert(ranks[at] == 0);
        }
    }
}

/// Scores the headers of a connection against header tests: whether every
/// test scored above 0, and then the sum of the scores. Of tests that are all
/// the library's own the outcome is that of their ranks; of the others, a
/// pass still means that every test of the library's own passed.
fn score_headers(matchers: &Vec<(String, TextMatcher)>, headers: &Vec<(String, String)>) -> (scored:
    (bool, u16))
    ensures
        plain_tests(matchers@) ==> scored.0 == all_pass(header_ranks(matchers@, headers@)),
        plain_tests(matchers@) && scored.0 ==> scored.1 == clamp(
            total(header_ranks(matchers@, headers@)),
        ),
        scored.0 ==> plain_pass(matchers@, headers@),
{
    let ghost ranks = header_ranks(matchers@, headers@);
    let ghost plain = plain_tests(matchers@);
    let mut sum: u16 = 0;
    let mut i: usize = 0;
    while i < matchers.len()
        invariant
            i <= matchers.len(),
            ranks == header_ranks(matchers@, headers@),
            plain == plain_tests(matchers@),
            plain ==> sum == clamp(total(ranks.take(i as int))),
            forall|j: int| 0 <= j < i && (#[trigger] matchers@[j]).1.plain() ==> ranks[j] > 0,
        decreases matchers.len() - i,
    {
        let part: u16 = matchers[i].1.score(lookup(headers, &matchers[i].0));
        if part == 0 {
            assert(plain ==> matchers@[i as int].1.plain() && ranks[i as int] == 0);
            return (false, 0);
        }
        proof {
            lemma_total_step(ranks, i as int);
            assert(plain ==> matchers@[i as int].1.plain());
            assert(matchers@[i as int].1.plain() ==> ranks[i as int] == part);
        }
        sum = add_scores(sum, part);
        i += 1;
    }
    proof {
        assert(ranks.take(matchers.len() as int) =~= ranks);
        assert(plain ==> forall|j: int| 0 <= j < ranks.len() ==> ranks[j] > 0) by {
            if plain {
                assert forall|j: int| 0 <= j < ranks.len() implies ranks[j] > 0 by {
                    assert(matchers@[j].1.plain());
                }
            }
        }
    }
    (true, sum)
}

/// How many responses of the feed `id` a session has used up.
pub fn used(cursors: &Vec<(String, usize)>, id: &String) -> (count: usize)
    ensures
        count == invocations(cursors@, id@),
{
    match lookup(cursors, id) {
        Some(count) => *count,
        None => 0,
    }
}

impl Stub {
    /// Scores the stub against an event: the payload, if the event has one,
    /// the headers of the connection and what the session has used up of the
    /// feeds. Of a stub whose tests are all the library's own the score is
    /// the rank, or the largest score where the rank is beyond it. Where a
    /// test is a function of the user's, the score is made in the same way of
    /// whatever the function answers, and a score above 0 still means that the
    /// stub has something left to say and that the library's own tests passed.
    pub fn score(
        &self,
        payload: Option<&Body>,
        session_headers: &Vec<(String, String)>,
        cursors: &Vec<(String, usize)>,
    ) -> (score: u16)
        ensures
            self.plain() ==> score == clamp(self.rank(payload, session_headers@, cursors@)),
            score > 0 ==> self.fits(payload, session_headers@, cursors@),
    {
        let tests = match self {
            Stub::Connect { headers, .. } => headers,
            Stub::Message { request, .. } => &request.headers,
            Stub::Periodical { headers, .. } => headers,
        };
        let mut score: u16 = 1;
        if let Some(header_matchers) = tests {
            let (passed, sum) = score_headers(header_matchers, session_headers);
            if !passed {
                return 0;
            }
            score = add_scores(score, sum);
        } else {
            assert(header_ranks(self.header_matchers(), session_headers@) =~= Seq::empty());
        }
        assert(score >= 1);
        match self {
            Stub::Connect { .. } => score,
            Stub::Message { request, .. } => {
                if let Some(payload_matcher) = &request.payload {
                    let payload_score: u16 = payload_matcher.score(payload);
                    if payload_score == 0 {
                        return 0;
                    }
                    score = add_scores(score, payload_score);
                }
                score
            },
            Stub::Periodical { id, responses, .. } => {
                if used(cursors, id) >= responses.len() {
                    return 0;
                }
                score
            },
        }
    }
}

// Selection

/// The scores of `stubs` against one event, stub by stub.
pub open spec fn scores(
    stubs: Seq<Stub>,
    payload: Option<&Body>,
    headers: Seq<(String, String)>,
    cursors: Seq<(String, usize)>,
) -> Seq<u16> {
    Seq::new(stubs.len(), |i: int| clamp(stubs[i].rank(payload, headers, cursors)))
}

/// Whether the score at `at` wins: it is above 0, no score is higher, and
/// every score before it is lower.
pub open spec fn leads(scores: Seq<u16>, at: int) -> bool {
    &&& 0 <= at < scores.len()
    &&& scores[at] > 0
    &&& forall|j: int| 0 <= j < scores.len() ==> scores[j] <= scores[at]
    &&& forall|j: int| 0 <= j < at ==> scores[j] < scores[at]
}

/// The place of the winning score: the first of the highest, unless all are 0.
pub open spec fn winner(scores: Seq<u16>) -> Option<int> {
    if exists|at: int| leads(scores, at) {
        Some(choose|at: int| leads(scores, at))
    } else {
        None
    }
}

/// At most one score wins, and one does unless all are 0.
pub proof fn lemma_winner(scores: Seq<u16>)
    ensures
        forall|at: int| leads(scores, at) ==> winner(scores) == Some(at),
        winner(scores) matches Some(at) ==> leads(scores, at),
        winner(scores) is None <==> forall|j: int| 0 <= j < scores.len() ==> scores[j] == 0,
{
    assert forall|at: int| leads(scores, at) implies winner(scores) == Some(at) by {
        let other = choose|at: int| leads(scores, at);
        if other < at {
            assert(scores[other] < scores[at]);
        } else if at < other {
            assert(scores[at] < scores[other]);
        }
    }
    if forall|j: int| 0 <= j < scores.len() ==> scores[j] == 0 {
        assert(winner(scores) is None);
    } else {
        lemma_some_leads(scores, scores.len() as int);
        assert(scores.take(scores.len() as int) =~= scores);
    }
}

/// Among the first `upto` scores, one wins unless all are 0.
proof fn lemma_some_leads(scores: Seq<u16>, upto: int)
    requires
        0 <= upto <= scores.len(),
    ensures
        (exists|at: int| leads(scores.take(upto), at)) || (forall|j: int|
            0 <= j < upto ==> scores[j] == 0),
    decreases upto,
{
    if upto > 0 {
        lemma_some_leads(scores, upto - 1);
        let before = scores.take(upto - 1);
        let now = scores.take(upto);
        assert(forall|j: int| 0 <= j < upto - 1 ==> before[j] == now[j]);
        if exists|at: int| leads(before, at) {
            let at = choose|at: int| leads(before, at);
            if scores[upto - 1] > before[at] {
                assert(leads(now, upto - 1));
            } else {
                assert(leads(now, at));
            }
        } else if scores[upto - 1] > 0 {
            assert(leads(now, upto - 1));
        }
    }
}

/// A score that comes behind others and lies above each of them wins,
/// whoever gave the scores.
pub proof fn lemma_higher_score_wins(scores: Seq<u16>, higher: u16)
    requires
        scores.len() > 0,
        forall|j: int| 0 <= j < scores.len() ==> (#[trigger] scores[j]) < higher,
    ensures
        winner(scores.push(higher)) == Some(scores.len() as int),
{
    let all = scores.push(higher);
    let last = scores.len() as int;
    assert(scores[0] < higher);
    assert forall|j: int| 0 <= j < last implies (#[trigger] all[j]) < all[last] by {
        assert(all[j] == scores[j]);
    }
    assert(leads(all, last));
    lemma_winner(all);
}

/// A stub that is added behind others and scores above each of them wins:
/// the law of [`lemma_higher_score_wins`] for stubs that score by their rank.
pub proof fn lemma_stricter_stub_wins(
    stubs: Seq<Stub>,
    stricter: Stub,
    payload: Option<&Body>,
    headers: Seq<(String, String)>,
    cursors: Seq<(String, usize)>,
)
    requires
        stubs.len() > 0,
        forall|j: int|
            0 <= j < stubs.len() ==> clamp((#[trigger] stubs[j]).rank(payload, headers, cursors))
                < clamp(stricter.rank(payload, headers, cursors)),
    ensures
        winner(scores(stubs.push(stricter), payload, headers, cursors)) == Some(
            stubs.len() as int,
        ),
{
    let all = scores(stubs.push(stricter), payload, headers, cursors);
    assert(clamp(stubs[0].rank(payload, headers, cursors)) < all[stubs.len() as int]);
    let last = stubs.len() as int;
    assert forall|j: int| 0 <= j < stubs.len() implies (#[trigger] all[j]) < all[last] by {
        assert(stubs.push(stricter)[j] == stubs[j]);
    }
    assert(leads(all, stubs.len() as int));
    lemma_winner(all);
}

/// The place of the winning score among `scores`: the first of the highest,
/// and none where every score is 0.
pub fn pick(scores: &Vec<u16>) -> (chosen: Option<usize>)
    ensures
        match chosen {
            Some(at) => winner(scores@) == Some(at as int),
            None => winner(scores@) is None,
        },
{
    let ghost all = scores@;
    let mut chosen: Option<usize> = None;
    let mut highest: u16 = 0;
    let mut i: usize = 0;
    while i < scores.len()
        invariant
            i <= scores.len(),
            all == scores@,
            match chosen {
                Some(at) => leads(all.take(i as int), at as int) && highest == all[at as int],
                None => highest == 0 && forall|j: int| 0 <= j < i ==> all[j] == 0,
            },
        decreases scores.len() - i,
    {
        let score: u16 = scores[i];
        let ghost before = all.take(i as int);
        let ghost after = all.take(i + 1);
        proof {
            assert(forall|j: int| 0 <= j < i ==> before[j] == after[j]);
            assert(after[i as int] == score);
        }
        if score > highest {
            highest = score;
            chosen = Some(i);
            proof {
                assert(leads(after, i as int));
            }
        } else {
            proof {
                if let Some(at) = chosen {
                    assert(leads(after, at as int));
                }
            }
        }
        i += 1;
    }
    proof {
        assert(all.take(scores.len() as int) =~= all);
        lemma_winner(all);
    }
    chosen
}

/// Every stub is made of tests of the library's own.
pub open spec fn all_plain(stubs: Seq<Stub>) -> bool {
    forall|i: int| 0 <= i < stubs.len() ==> (#[trigger] stubs[i]).plain()
}

/// Scores every stub against one event, in the order of the stubs.
pub fn score_all(
    stubs: &Vec<Stub>,
    headers: &Vec<(String, String)>,
    payload: Option<&Body>,
    cursors: &Vec<(String, usize)>,
) -> (all: Vec<u16>)
    ensures
        all@.len() == stubs@.len(),
        all_plain(stubs@) ==> all@ == scores(stubs@, payload, headers@, cursors@),
        forall|i: int|
            0 <= i < all@.len() && (#[trigger] stubs@[i]).plain() ==> all@[i] == clamp(
                stubs@[i].rank(payload, headers@, cursors@),
            ),
        forall|i: int|
            0 <= i < all@.len() && (#[trigger] all@[i]) > 0 ==> stubs@[i].fits(
                payload,
                headers@,
                cursors@,
            ),
{
    let mut all: Vec<u16> = Vec::new();
    let mut i: usize = 0;
    while i < stubs.len()
        invariant
            i <= stubs.len(),
            all@.len() == i,
            forall|j: int|
                0 <= j < i && (#[trigger] stubs@[j]).plain() ==> all@[j] == clamp(
                    stubs@[j].rank(payload, headers@, cursors@),
                ),
            forall|j: int|
                0 <= j < i && (#[trigger] all@[j]) > 0 ==> stubs@[j].fits(
                    payload,
                    headers@,
                    cursors@,
                ),
        decreases stubs.len() - i,
    {
        all.push(stubs[i].score(payload, headers, cursors));
        i += 1;
    }
    proof {
        if all_plain(stubs@) {
            assert(all@ =~= scores(stubs@, payload, headers@, cursors@));
        }
    }
    all
}

/// The place in `stubs` of the stub that answers an event: the first of those
/// that score highest, and none where every stub scores 0. Of stubs made of
/// tests of the library's own that is the winner by rank. Whatever functions
/// of the user answer, the stub chosen has something left to say and passes
/// the library's own tests.
pub fn select(
    stubs: &Vec<Stub>,
    headers: &Vec<(String, String)>,
    payload: Option<&Body>,
    cursors: &Vec<(String, usize)>,
) -> (chosen: Option<usize>)
    ensures
        all_plain(stubs@) ==> match chosen {
            Some(at) => winner(scores(stubs@, payload, headers@, cursors@)) == Some(at as int),
            None => winner(scores(stubs@, payload, headers@, cursors@)) is None,
        },
        chosen matches Some(at) ==> at < stubs@.len() && stubs@[at as int].fits(
            payload,
            headers@,
            cursors@,
        ),
{
    let all = score_all(stubs, headers, payload, cursors);
    proof {
        lemma_winner(all@);
    }
    pick(&all)
}

// Materialization

/// What goes on the wire: a text frame or a binary one.
#[derive(Clone, Debug, PartialEq, Eq)]
pub enum Frame {
    Text(String),
    Binary(Vec<u8>),
}

/// What a frame holds.
pub enum FrameView {
    Text(Seq<char>),
    Binary(Seq<u8>),
}

impl View for Frame {
    type V = FrameView;

    open spec fn view(&self) -> FrameView {
        match self {
            Frame::Text(text) => FrameView::Text(text@),
            Frame::Binary(bytes) => FrameView::Binary(bytes@),
        }
    }
}

/// A frame to send and the instant from which it may go out.
#[derive(Clone, Debug, PartialEq, Eq)]
pub struct Msg(pub Frame, pub u128);

/// The frame that carries a body: a text as it is, JSON as its text, bytes as
/// a binary frame.
pub open spec fn frame_of(body: &Body) -> FrameView {
    match body {
        Body::Json(json) => FrameView::Text(json_text(json@)),
        Body::PlainText(text) => FrameView::Text(text@),
        Body::Binary(bytes) => FrameView::Binary(bytes@),
    }
}

/// Whether a body can be framed: any text and any bytes, and the JSON that a
/// document can hold.
pub open spec fn framable(body: &Body) -> bool {
    match body {
        Body::Json(json) => json.encodable(),
        _ => true,
    }
}

/// Whether a body can be framed.
pub fn is_framable(body: &Body) -> (yes: bool)
    ensures
        yes == framable(body),
{
    match body {
        Body::Json(json) => json.is_encodable(),
        _ => true,
    }
}

/// Frames a body.
pub fn frame(body: &Body) -> (framed: Frame)
    requires
        framable(body),
    ensures
        framed@ == frame_of(body),
{
    match body {
        Body::Json(json) => Frame::Text(json.to_text()),
        Body::PlainText(text) => Frame::Text(text.clone()),
        Body::Binary(bytes) => Frame::Binary(bytes.clone()),
    }
}

/// The instant that lies `span` after `now`, and `now` itself where that is
/// beyond what an instant can count.
pub open spec fn due(now: u128, span: u128) -> u128 {
    if now + span <= u128::MAX {
        (now + span) as u128
    } else {
        now
    }
}

/// The instant that lies `span` after `now`.
pub fn due_at(now: u128, span: u128) -> (at: u128)
    ensures
        at == due(now, span),
{
    match now.checked_add(span) {
        Some(at) => at,
        None => now,
    }
}

impl Delay {
    /// Whether an interval has spans to draw from.
    pub open spec fn draws(&self) -> bool {
        match self {
            Delay::Fixed(_) => false,
            Delay::Interval(from, to) => *from < *to,
        }
    }

    /// The span of an answer, given what was drawn for it: the fixed span, the
    /// drawn span of an interval, and the start of an interval that has
    /// nothing to draw from.
    pub open spec fn span(&self, drawn: u128) -> u128 {
        match self {
            Delay::Fixed(span) => *span,
            Delay::Interval(from, to) => if self.draws() {
                drawn
            } else {
                *from
            },
        }
    }

    /// Whether `span` is one that the delay allows: the fixed span, or a span
    /// of the interval from its start up to but not including its end. An
    /// interval that ends where it starts, or before, allows its start.
    pub open spec fn admits(&self, span: u128) -> bool {
        match self {
            Delay::Fixed(fixed) => span == *fixed,
            Delay::Interval(from, to) => if self.draws() {
                *from <= span < *to
            } else {
                span == *from
            },
        }
    }

    /// The span of an answer, given what was drawn for it.
    pub fn span_of(&self, drawn: u128) -> (span: u128)
        ensures
            span == self.span(drawn),
    {
        match self {
            Delay::Fixed(span) => *span,
            Delay::Interval(from, to) => if *from < *to {
                drawn
            } else {
                *from
            },
        }
    }

    /// Draws the span of one answer. Two calls may differ: the span is one
    /// that the delay allows.
    pub fn draw(&self) -> (span: u128)
        ensures
            self.admits(span),
    {
        match self {
            Delay::Fixed(span) => *span,
            Delay::Interval(from, to) => if *from < *to {
                self.span_of(draw_between(*from, *to))
            } else {
                *from
            },
        }
    }
}

/// The cursors of a session after one more response of the feed `id`.
pub open spec fn bump(cursors: Seq<(String, usize)>, id: String) -> Seq<(String, usize)> {
    let next = (invocations(cursors, id@) + 1) as usize;
    if has_key(cursors, id@) {
        cursors.update(position(cursors, id@), (id, next))
    } else {
        cursors.push((id, next))
    }
}

impl Stub {
    /// Whether the stub can answer: every response can be framed, and a feed
    /// has at least one.
    pub open spec fn wf(&self) -> bool {
        match self {
            Stub::Connect { response, .. } => framable(response),
            Stub::Message { response, .. } => framable(response),
            Stub::Periodical { responses, .. } => {
                &&& responses.len() > 0
                &&& forall|i: int| 0 <= i < responses.len() ==> framable(#[trigger] &responses[i])
            },
        }
    }

    /// Whether the stub can answer.
    #[verifier::loop_isolation(false)]
    pub fn is_wf(&self) -> (yes: bool)
        ensures
            yes == self.wf(),
    {
        match self {
            Stub::Connect { response, .. } => is_framable(response),
            Stub::Message { response, .. } => is_framable(response),
            Stub::Periodical { responses, .. } => {
                if responses.len() == 0 {
                    return false;
                }
                let mut i: usize = 0;
                while i < responses.len()
                    invariant
                        i <= responses.len(),
                        forall|j: int| 0 <= j < i ==> framable(#[trigger] &responses[j]),
                    decreases responses.len() - i,
                {
                    if !is_framable(&responses[i]) {
                        assert(!framable(&responses[i as int]));
                        return false;
                    }
                    i += 1;
                }
                true
            },
        }
    }

    /// The response that is next for a session: the one of the stub, and of a
    /// feed the first that the session has not used yet.
    pub open spec fn response<'a>(&'a self, cursors: Seq<(String, usize)>) -> &'a Body {
        match self {
            Stub::Connect { response, .. } => response,
            Stub::Message { response, .. } => response,
            Stub::Periodical { id, responses, .. } => &responses[invocations(cursors, id@) as int],
        }
    }

    /// Whether `span` is one that the stub allows between trigger and answer:
    /// none for a connection, and what the delay allows for the others.
    pub open spec fn admits(&self, span: u128) -> bool {
        match self {
            Stub::Connect { .. } => span == 0,
            Stub::Message { delay, .. } => delay.admits(span),
            Stub::Periodical { delay, .. } => delay.admits(span),
        }
    }

    /// The cursors of a session after an answer of the stub: a feed has used
    /// one more response, and nothing else moves.
    pub open spec fn advance(&self, cursors: Seq<(String, usize)>) -> Seq<(String, usize)> {
        match self {
            Stub::Periodical { id, .. } => bump(cursors, *id),
            _ => cursors,
        }
    }

    /// Whether `msg` is an answer of the stub to a trigger at `now`: it
    /// carries the response that is next, and is due after a span that the
    /// stub allows.
    pub open spec fn answers(&self, cursors: Seq<(String, usize)>, now: u128, msg: Msg) -> bool {
        &&& msg.0@ == frame_of(self.response(cursors))
        &&& exists|span: u128| self.admits(span) && msg.1 == #[trigger] due(now, span)
    }

    /// The delay of the stub: none for a connection.
    pub open spec fn delay(&self) -> Delay {
        match self {
            Stub::Connect { .. } => Delay::Fixed(0),
            Stub::Message { delay, .. } => *delay,
            Stub::Periodical { delay, .. } => *delay,
        }
    }

    /// Every answer is due at its trigger or later, and the answer of a stub
    /// with a fixed delay is due that delay after its trigger, where that
    /// instant can be counted.
    pub proof fn lemma_deadline(&self, cursors: Seq<(String, usize)>, now: u128, msg: Msg)
        requires
            self.answers(cursors, now, msg),
        ensures
            msg.1 >= now,
            self.delay() matches Delay::Fixed(span) ==> (now + span <= u128::MAX ==> msg.1 == now
                + span),
    {
    }

    /// Draws the span between a trigger and the answer of the stub.
    pub fn draw_span(&self) -> (span: u128)
        ensures
            self.admits(span),
    {
        match self {
            Stub::Connect { .. } => 0,
            Stub::Message { delay, .. } => delay.draw(),
            Stub::Periodical { delay, .. } => delay.draw(),
        }
    }

    /// The answer of the stub to a trigger at `now`, due `span` later. A feed
    /// answers with the response that is next for the session and moves the
    /// cursor of the session past it.
    pub fn message_after(&self, now: u128, span: u128, cursors: &mut Vec<(String, usize)>) -> (msg:
        Msg)
        requires
            self.wf(),
            self.available(old(cursors)@),
        ensures
            msg.0@ == frame_of(self.response(old(cursors)@)),
            msg.1 == due(now, span),
            final(cursors)@ == self.advance(old(cursors)@),
    {
        let available_at: u128 = due_at(now, span);
        match self {
            Stub::Connect { response, .. } => Msg(frame(response), available_at),
            Stub::Message { response, .. } => Msg(frame(response), available_at),
            Stub::Periodical { id, responses, .. } => {
                let message_idx: usize = used(cursors, id);
                upsert(cursors, id.clone(), message_idx + 1);
                Msg(frame(&responses[message_idx]), available_at)
            },
        }
    }

    /// The answer of the stub to a trigger at `now`. The span to the answer is
    /// drawn here, so two calls may differ in when the answer is due.
    pub fn message(&self, now: u128, cursors: &mut Vec<(String, usize)>) -> (msg: Msg)
        requires
            self.wf(),
            self.available(old(cursors)@),
        ensures
            self.answers(old(cursors)@, now, msg),
            final(cursors)@ == self.advance(old(cursors)@),
    {
        let span: u128 = self.draw_span();
        self.message_after(now, span, cursors)
    }
}

// The registry

/// One more response of a feed moves the cursor of that feed by one and no
/// other.
pub proof fn lemma_bump(cursors: Seq<(String, usize)>, id: String)
    requires
        invocations(cursors, id@) < usize::MAX,
    ensures
        invocations(bump(cursors, id), id@) == invocations(cursors, id@) + 1,
        forall|other: Seq<char>|
            other != id@ ==> invocations(bump(cursors, id), other) == invocations(cursors, other),
{
    let after = bump(cursors, id);
    lemma_position_from(cursors, id@, 0);
    let at = position(cursors, id@);
    lemma_position_is(after, id@, at);
    assert forall|other: Seq<char>| other != id@ implies invocations(after, other) == invocations(
        cursors,
        other,
    ) by {
        lemma_position_from(cursors, other, 0);
        let p = position(cursors, other);
        if p < cursors.len() {
            lemma_position_is(after, other, p);
        } else {
            lemma_position_is(after, other, after.len() as int);
        }
    }
}

/// How many responses a stub still has for a session.
pub open spec fn left(stub: Stub, cursors: Seq<(String, usize)>) -> nat {
    match stub {
        Stub::Periodical { id, responses, .. } => if invocations(cursors, id@) < responses.len() {
            (responses.len() - invocations(cursors, id@)) as nat
        } else {
            0
        },
        _ => 0,
    }
}

/// How many responses the stubs still have for a session, all together.
pub open spec fn backlog(stubs: Seq<Stub>, cursors: Seq<(String, usize)>) -> nat
    decreases stubs.len(),
{
    if stubs.len() == 0 {
        0
    } else {
        backlog(stubs.drop_last(), cursors) + left(stubs.last(), cursors)
    }
}

/// Every stub is a feed.
pub open spec fn all_feeds(stubs: Seq<Stub>) -> bool {
    forall|i: int| 0 <= i < stubs.len() ==> (#[trigger] stubs[i]) is Periodical
}

/// An answer of a feed that has responses left takes one off the backlog, or
/// more where feeds share its name.
pub proof fn lemma_backlog_drops(stubs: Seq<Stub>, cursors: Seq<(String, usize)>, at: int)
    requires
        0 <= at < stubs.len(),
        stubs[at] is Periodical,
        stubs[at].available(cursors),
    ensures
        backlog(stubs, stubs[at].advance(cursors)) < backlog(stubs, cursors),
{
    lemma_bump(cursors, stubs[at]->id);
    lemma_backlog_upto(stubs, cursors, stubs[at]->id, stubs.len() as int, at);
    assert(stubs.take(stubs.len() as int) =~= stubs);
}

proof fn lemma_backlog_upto(
    stubs: Seq<Stub>,
    cursors: Seq<(String, usize)>,
    id: String,
    upto: int,
    at: int,
)
    requires
        0 <= upto <= stubs.len(),
        0 <= at < stubs.len(),
        stubs[at] matches Stub::Periodical { id: name, .. } && name == id,
        stubs[at].available(cursors),
        invocations(bump(cursors, id), id@) == invocations(cursors, id@) + 1,
        forall|other: Seq<char>|
            other != id@ ==> invocations(bump(cursors, id), other) == invocations(cursors, other),
    ensures
        backlog(stubs.take(upto), bump(cursors, id)) <= backlog(stubs.take(upto), cursors),
        at < upto ==> backlog(stubs.take(upto), bump(cursors, id)) < backlog(
            stubs.take(upto),
            cursors,
        ),
    decreases upto,
{
    if upto > 0 {
        lemma_backlog_upto(stubs, cursors, id, upto - 1, at);
        assert(stubs.take(upto).drop_last() =~= stubs.take(upto - 1));
        assert(stubs.take(upto).last() == stubs[upto - 1]);
        let stub = stubs[upto - 1];
        match stub {
            Stub::Periodical { id: name, .. } => {
                if name@ == id@ {
                } else {
                }
            },
            _ => {},
        }
    }
}

/// The answers that the feeds owe a session at its start, in the order in
/// which they are made: the place of the feed that answers, and the cursors
/// of the session before it does. The best feed answers, then the best of
/// what is left, until no feed scores above 0.
pub open spec fn feed(
    stubs: Seq<Stub>,
    headers: Seq<(String, String)>,
    cursors: Seq<(String, usize)>,
) -> Seq<(int, Seq<(String, usize)>)>
    decreases backlog(stubs, cursors),
    when all_feeds(stubs)
    via feed_decreases
{
    match winner(scores(stubs, None, headers, cursors)) {
        None => Seq::empty(),
        Some(at) => seq![(at, cursors)] + feed(stubs, headers, stubs[at].advance(cursors)),
    }
}

#[via_fn]
proof fn feed_decreases(
    stubs: Seq<Stub>,
    headers: Seq<(String, String)>,
    cursors: Seq<(String, usize)>,
) {
    let all = scores(stubs, None, headers, cursors);
    lemma_winner(all);
    if let Some(at) = winner(all) {
        lemma_backlog_drops(stubs, cursors, at);
    }
}

/// The cursors that the feeds leave a session with at its start: those after
/// the last step of [`feed`], and the cursors it came with where no feed has
/// anything to say.
pub open spec fn settled(
    stubs: Seq<Stub>,
    headers: Seq<(String, String)>,
    cursors: Seq<(String, usize)>,
) -> Seq<(String, usize)> {
    let owed = feed(stubs, headers, cursors);
    if owed.len() == 0 {
        cursors
    } else {
        stubs[owed.last().0].advance(owed.last().1)
    }
}

/// Whether a stub passes its header tests on the headers of a connection.
pub open spec fn heard(stub: Stub, headers: Seq<(String, String)>) -> bool {
    all_pass(header_ranks(stub.header_matchers(), headers))
}

/// One step of the feeds: where a feed wins, it answers first and the rest
/// is what the feeds owe at the cursors it leaves; where none wins, nothing is
/// owed and the cursors stay.
pub proof fn lemma_feed_step(
    stubs: Seq<Stub>,
    headers: Seq<(String, String)>,
    cursors: Seq<(String, usize)>,
)
    requires
        all_feeds(stubs),
    ensures
        match winner(scores(stubs, None, headers, cursors)) {
            Some(at) => {
                &&& 0 <= at < stubs.len()
                &&& heard(stubs[at], headers)
                &&& stubs[at].available(cursors)
                &&& feed(stubs, headers, cursors) == seq![(at, cursors)] + feed(
                    stubs,
                    headers,
                    stubs[at].advance(cursors),
                )
                &&& settled(stubs, headers, cursors) == settled(
                    stubs,
                    headers,
                    stubs[at].advance(cursors),
                )
                &&& backlog(stubs, stubs[at].advance(cursors)) < backlog(stubs, cursors)
            },
            None => {
                &&& feed(stubs, headers, cursors).len() == 0
                &&& settled(stubs, headers, cursors) == cursors
            },
        },
{
    lemma_winner(scores(stubs, None, headers, cursors));
    if let Some(at) = winner(scores(stubs, None, headers, cursors)) {
        lemma_backlog_drops(stubs, cursors, at);
        let next = stubs[at].advance(cursors);
        let rest = feed(stubs, headers, next);
        let owed = feed(stubs, headers, cursors);
        assert(owed == seq![(at, cursors)] + rest);
        if rest.len() == 0 {
            assert(owed.last() == (at, cursors));
        } else {
            assert(owed.last() == rest.last());
        }
    }
}

/// No feed scores above 0 on the cursors that the feeds settle on.
pub proof fn lemma_settled_quiet(
    stubs: Seq<Stub>,
    headers: Seq<(String, String)>,
    cursors: Seq<(String, usize)>,
)
    requires
        all_feeds(stubs),
    ensures
        winner(scores(stubs, None, headers, settled(stubs, headers, cursors))) is None,
    decreases backlog(stubs, cursors),
{
    lemma_feed_step(stubs, headers, cursors);
    if let Some(at) = winner(scores(stubs, None, headers, cursors)) {
        lemma_settled_quiet(stubs, headers, stubs[at].advance(cursors));
    }
}

/// A feed that passes its header tests has nothing left to say on the
/// cursors that the feeds settle on: its responses are used up.
pub proof fn lemma_settled_spends(
    stubs: Seq<Stub>,
    headers: Seq<(String, String)>,
    cursors: Seq<(String, usize)>,
    at: int,
)
    requires
        all_feeds(stubs),
        0 <= at < stubs.len(),
        heard(stubs[at], headers),
    ensures
        !stubs[at].available(settled(stubs, headers, cursors)),
{
    let end = settled(stubs, headers, cursors);
    lemma_settled_quiet(stubs, headers, cursors);
    lemma_winner(scores(stubs, None, headers, end));
    assert(scores(stubs, None, headers, end)[at] == 0);
}

/// The feeds leave alone the cursor of a name under which no feed passes its
/// header tests.
pub proof fn lemma_settled_leaves(
    stubs: Seq<Stub>,
    headers: Seq<(String, String)>,
    cursors: Seq<(String, usize)>,
    name: Seq<char>,
)
    requires
        all_feeds(stubs),
        forall|i: int|
            0 <= i < stubs.len() && (#[trigger] stubs[i])->id@ == name ==> !heard(
                stubs[i],
                headers,
            ),
    ensures
        invocations(settled(stubs, headers, cursors), name) == invocations(cursors, name),
    decreases backlog(stubs, cursors),
{
    lemma_feed_step(stubs, headers, cursors);
    if let Some(at) = winner(scores(stubs, None, headers, cursors)) {
        lemma_bump(cursors, stubs[at]->id);
        lemma_settled_leaves(stubs, headers, stubs[at].advance(cursors), name);
    }
}

/// How many responses the feeds that pass their header tests still have for
/// a session, all together.
pub open spec fn owing(
    stubs: Seq<Stub>,
    headers: Seq<(String, String)>,
    cursors: Seq<(String, usize)>,
) -> nat
    decreases stubs.len(),
{
    if stubs.len() == 0 {
        0
    } else {
        owing(stubs.drop_last(), headers, cursors) + if heard(stubs.last(), headers) {
            left(stubs.last(), cursors)
        } else {
            0
        }
    }
}

/// The feeds that pass their header tests carry names of their own.
pub open spec fn names_apart(stubs: Seq<Stub>, headers: Seq<(String, String)>) -> bool {
    forall|i: int, j: int|
        0 <= i < j < stubs.len() && heard(#[trigger] stubs[i], headers) && heard(
            #[trigger] stubs[j],
            headers,
        ) ==> stubs[i]->id@ != stubs[j]->id@
}

proof fn lemma_owing_none(
    stubs: Seq<Stub>,
    headers: Seq<(String, String)>,
    cursors: Seq<(String, usize)>,
    upto: int,
)
    requires
        0 <= upto <= stubs.len(),
        forall|i: int|
            0 <= i < stubs.len() && heard(#[trigger] stubs[i], headers) ==> left(stubs[i], cursors)
                == 0,
    ensures
        owing(stubs.take(upto), headers, cursors) == 0,
    decreases upto,
{
    if upto > 0 {
        lemma_owing_none(stubs, headers, cursors, upto - 1);
        assert(stubs.take(upto).drop_last() =~= stubs.take(upto - 1));
        assert(stubs.take(upto).last() == stubs[upto - 1]);
    }
}

proof fn lemma_owing_step(
    stubs: Seq<Stub>,
    headers: Seq<(String, String)>,
    cursors: Seq<(String, usize)>,
    at: int,
    upto: int,
)
    requires
        all_feeds(stubs),
        names_apart(stubs, headers),
        0 <= upto <= stubs.len(),
        0 <= at < stubs.len(),
        heard(stubs[at], headers),
        stubs[at].available(cursors),
    ensures
        owing(stubs.take(upto), headers, stubs[at].advance(cursors)) + (if at < upto {
            1nat
        } else {
            0nat
        }) == owing(stubs.take(upto), headers, cursors),
    decreases upto,
{
    if upto > 0 {
        lemma_owing_step(stubs, headers, cursors, at, upto - 1);
        lemma_bump(cursors, stubs[at]->id);
        assert(stubs.take(upto).drop_last() =~= stubs.take(upto - 1));
        assert(stubs.take(upto).last() == stubs[upto - 1]);
        let stub = stubs[upto - 1];
        if heard(stub, headers) && upto - 1 != at {
            if upto - 1 < at {
                assert(stubs[upto - 1]->id@ != stubs[at]->id@);
            } else {
                assert(stubs[at]->id@ != stubs[upto - 1]->id@);
            }
        }
    }
}

/// Where the feeds that pass their header tests carry names of their own,
/// they owe a session as many answers as they have responses left for it.
pub proof fn lemma_feed_count(
    stubs: Seq<Stub>,
    headers: Seq<(String, String)>,
    cursors: Seq<(String, usize)>,
)
    requires
        all_feeds(stubs),
        names_apart(stubs, headers),
    ensures
        feed(stubs, headers, cursors).len() == owing(stubs, headers, cursors),
    decreases backlog(stubs, cursors),
{
    lemma_feed_step(stubs, headers, cursors);
    lemma_winner(scores(stubs, None, headers, cursors));
    assert(stubs.take(stubs.len() as int) =~= stubs);
    match winner(scores(stubs, None, headers, cursors)) {
        Some(at) => {
            lemma_owing_step(stubs, headers, cursors, at, stubs.len() as int);
            lemma_feed_count(stubs, headers, stubs[at].advance(cursors));
        },
        None => {
            assert forall|i: int|
                0 <= i < stubs.len() && heard(#[trigger] stubs[i], headers) implies left(
                stubs[i],
                cursors,
            ) == 0 by {
                assert(scores(stubs, None, headers, cursors)[i] == 0);
            }
            lemma_owing_none(stubs, headers, cursors, stubs.len() as int);
        },
    }
}

/// Whether `msg` and the cursors `after` are what a stub makes of an event at
/// `now` that it fits: its answer, and the cursors moved past it.
pub open spec fn serves(
    stub: Stub,
    payload: Option<&Body>,
    headers: Seq<(String, String)>,
    before: Seq<(String, usize)>,
    now: u128,
    msg: Msg,
    after: Seq<(String, usize)>,
) -> bool {
    &&& stub.fits(payload, headers, before)
    &&& stub.answers(before, now, msg)
    &&& after == stub.advance(before)
}

/// Whether `msg` is an answer, to a trigger at `now`, of a stub that fits the
/// headers at the cursors `before`.
pub open spec fn speaks(
    stub: Stub,
    headers: Seq<(String, String)>,
    before: Seq<(String, usize)>,
    now: u128,
    msg: Msg,
) -> bool {
    stub.fits(None, headers, before) && stub.answers(before, now, msg)
}

/// Whether `msg` is an answer of one of the feeds, at some point of a session,
/// to a trigger at `now`.
pub open spec fn voiced(
    stubs: Seq<Stub>,
    headers: Seq<(String, String)>,
    now: u128,
    msg: Msg,
) -> bool {
    exists|at: int, before: Seq<(String, usize)>|
        0 <= at < stubs.len() && #[trigger] speaks(stubs[at], headers, before, now, msg)
}

/// The stubs of a mock, kept by kind in the order in which they were
/// registered.
pub struct StubsHandle {
    pub on_connect: Vec<Stub>,
    pub on_message: Vec<Stub>,
    pub on_periodical: Vec<Stub>,
}

/// Every stub can answer.
pub open spec fn all_wf(stubs: Seq<Stub>) -> bool {
    forall|i: int| 0 <= i < stubs.len() ==> (#[trigger] stubs[i]).wf()
}

impl Default for StubsHandle {
    fn default() -> (made: Self)
        ensures
            made.wf(),
            made.on_connect@.len() == 0,
            made.on_message@.len() == 0,
            made.on_periodical@.len() == 0,
    {
        StubsHandle { on_connect: Vec::new(), on_message: Vec::new(), on_periodical: Vec::new() }
    }
}

impl StubsHandle {
    /// Every stub can answer and is kept with its kind.
    pub open spec fn wf(&self) -> bool {
        &&& all_wf(self.on_connect@)
        &&& all_wf(self.on_message@)
        &&& all_wf(self.on_periodical@)
        &&& forall|i: int|
            0 <= i < self.on_connect.len() ==> (#[trigger] self.on_connect[i]) is Connect
        &&& forall|i: int|
            0 <= i < self.on_message.len() ==> (#[trigger] self.on_message[i]) is Message
        &&& all_feeds(self.on_periodical@)
    }

    /// A registry without stubs.
    pub fn new() -> (made: StubsHandle)
        ensures
            made.wf(),
            made.on_connect@.len() == 0,
            made.on_message@.len() == 0,
            made.on_periodical@.len() == 0,
    {
        StubsHandle::default()
    }

    /// Adds a stub after those of its kind. No stub that was registered moves
    /// or changes.
    pub fn register(&mut self, stub: Stub)
        requires
            old(self).wf(),
            stub.wf(),
        ensures
            final(self).wf(),
            final(self).on_connect@ == if stub is Connect {
                old(self).on_connect@.push(stub)
            } else {
                old(self).on_connect@
            },
            final(self).on_message@ == if stub is Message {
                old(self).on_message@.push(stub)
            } else {
                old(self).on_message@
            },
            final(self).on_periodical@ == if stub is Periodical {
                old(self).on_periodical@.push(stub)
            } else {
                old(self).on_periodical@
            },
    {
        match stub {
            Stub::Connect { .. } => {
                self.on_connect.push(stub);
            },
            Stub::Message { .. } => {
                self.on_message.push(stub);
            },
            Stub::Periodical { .. } => {
                self.on_periodical.push(stub);
            },
        }
    }

    /// Every stub is made of tests of the library's own.
    pub open spec fn plain(&self) -> bool {
        &&& all_plain(self.on_connect@)
        &&& all_plain(self.on_message@)
        &&& all_plain(self.on_periodical@)
    }

    /// The answer of the best of `stubs` to an event at `now`, if any scores
    /// above 0. A feed that answers moves the cursor of the session. Of stubs
    /// made of tests of the library's own the best is the winner by rank.
    /// Whatever functions of the user answer, an answer is that of a stub that
    /// has something left to say and passes the library's own tests.
    pub fn get_message(
        stubs: &Vec<Stub>,
        headers: &Vec<(String, String)>,
        payload: Option<&Body>,
        now: u128,
        cursors: &mut Vec<(String, usize)>,
    ) -> (answer: Option<Msg>)
        requires
            all_wf(stubs@),
        ensures
            all_plain(stubs@) ==> match winner(scores(stubs@, payload, headers@, old(cursors)@)) {
                Some(at) => {
                    &&& answer matches Some(msg)
                    &&& stubs[at].answers(old(cursors)@, now, msg)
                    &&& final(cursors)@ == stubs[at].advance(old(cursors)@)
                },
                None => answer is None,
            },
            match answer {
                Some(msg) => exists|at: int|
                    0 <= at < stubs@.len() && serves(
                        #[trigger] stubs@[at],
                        payload,
                        headers@,
                        old(cursors)@,
                        now,
                        msg,
                        final(cursors)@,
                    ),
                None => final(cursors)@ == old(cursors)@,
            },
    {
        proof {
            lemma_winner(scores(stubs@, payload, headers@, cursors@));
        }
        match select(stubs, headers, payload, cursors) {
            Some(at) => {
                let ghost before = cursors@;
                let msg = stubs[at].message(now, cursors);
                proof {
                    let stub = stubs@[at as int];
                    assert(serves(stub, payload, headers@, before, now, msg, cursors@));
                }
                Some(msg)
            },
            None => None,
        }
    }

    /// The answer to a new connection: that of the best connection stub, due
    /// at once, and none where no stub fits the headers. Whatever functions of
    /// the user answer, an answer is the response of a stub for connections
    /// and is due at once.
    pub fn on_connect(&self, headers: &Vec<(String, String)>, now: u128) -> (answer: Option<Msg>)
        requires
            self.wf(),
        ensures
            all_plain(self.on_connect@) ==> match winner(
                scores(self.on_connect@, None, headers@, Seq::empty()),
            ) {
                Some(at) => {
                    &&& answer matches Some(msg)
                    &&& msg.0@ == frame_of(self.on_connect[at].response(Seq::empty()))
                },
                None => answer is None,
            },
            answer matches Some(msg) ==> msg.1 == now && exists|at: int|
                0 <= at < self.on_connect@.len() && serves(
                    #[trigger] self.on_connect@[at],
                    None,
                    headers@,
                    Seq::empty(),
                    now,
                    msg,
                    Seq::empty(),
                ),
    {
        let mut cursors: Vec<(String, usize)> = Vec::new();
        Self::get_message(&self.on_connect, headers, None, now, &mut cursors)
    }

    /// The answer to a message: that of the best message stub, due after a
    /// span that the stub allows, and none where no stub fits. Whatever
    /// functions of the user answer, an answer is that of a stub for messages
    /// that passes the library's own tests.
    pub fn on_message(&self, headers: &Vec<(String, String)>, payload: Body, now: u128) -> (answer:
        Option<Msg>)
        requires
            self.wf(),
        ensures
            all_plain(self.on_message@) ==> match winner(
                scores(self.on_message@, Some(&payload), headers@, Seq::empty()),
            ) {
                Some(at) => answer matches Some(msg) && self.on_message[at].answers(
                    Seq::empty(),
                    now,
                    msg,
                ),
                None => answer is None,
            },
            answer matches Some(msg) ==> exists|at: int|
                0 <= at < self.on_message@.len() && serves(
                    #[trigger] self.on_message@[at],
                    Some(&payload),
                    headers@,
                    Seq::empty(),
                    now,
                    msg,
                    Seq::empty(),
                ),
    {
        let mut cursors: Vec<(String, usize)> = Vec::new();
        Self::get_message(&self.on_message, headers, Some(&payload), now, &mut cursors)
    }

    /// The answers that the feeds owe a session at its start. Of feeds made of
    /// tests of the library's own they come in the order of [`feed`]: each is
    /// an answer of its feed to a trigger at `now`, the cursors end where the
    /// last step of the feed leaves them, and there no feed scores above 0.
    /// Whatever functions of the user answer, every answer is that of a feed
    /// that had something left to say and passed the library's own tests.
    /// There is no list where there is no answer.
    pub fn on_periodical(
        &self,
        headers: &Vec<(String, String)>,
        now: u128,
        cursors: &mut Vec<(String, usize)>,
    ) -> (answers: Option<Vec<Msg>>)
        requires
            self.wf(),
        ensures
            all_plain(self.on_periodical@) ==> ({
                let owed = feed(self.on_periodical@, headers@, old(cursors)@);
                &&& answers is None <==> owed.len() == 0
                &&& answers matches Some(msgs) ==> {
                    &&& msgs.len() == owed.len()
                    &&& forall|k: int|
                        0 <= k < msgs.len() ==> self.on_periodical[owed[k].0].answers(
                            owed[k].1,
                            now,
                            #[trigger] msgs[k],
                        )
                }
                &&& final(cursors)@ == settled(self.on_periodical@, headers@, old(cursors)@)
                &&& winner(scores(self.on_periodical@, None, headers@, final(cursors)@)) is None
            }),
            match answers {
                Some(msgs) => msgs.len() > 0 && forall|k: int|
                    0 <= k < msgs.len() ==> voiced(
                        self.on_periodical@,
                        headers@,
                        now,
                        #[trigger] msgs[k],
                    ),
                None => final(cursors)@ == old(cursors)@,
            },
    {
        let ghost plain = all_plain(self.on_periodical@);
        let ghost owed = feed(self.on_periodical@, headers@, cursors@);
        let mut messages: Vec<Msg> = Vec::new();
        loop
            invariant
                self.wf(),
                plain == all_plain(self.on_periodical@),
                owed == feed(self.on_periodical@, headers@, old(cursors)@),
                plain ==> messages.len() <= owed.len(),
                plain ==> owed.skip(messages.len() as int) == feed(
                    self.on_periodical@,
                    headers@,
                    cursors@,
                ),
                plain ==> forall|k: int|
                    0 <= k < messages.len() ==> self.on_periodical[owed[k].0].answers(
                        owed[k].1,
                        now,
                        #[trigger] messages[k],
                    ),
                plain ==> cursors@ == if messages.len() == 0 {
                    old(cursors)@
                } else {
                    self.on_periodical[owed[messages.len() - 1].0].advance(
                        owed[messages.len() - 1].1,
                    )
                },
                messages.len() == 0 ==> cursors@ == old(cursors)@,
                forall|k: int|
                    0 <= k < messages.len() ==> voiced(
                        self.on_periodical@,
                        headers@,
                        now,
                        #[trigger] messages[k],
                    ),
            ensures
                plain ==> messages.len() == owed.len(),
                plain ==> winner(scores(self.on_periodical@, None, headers@, cursors@)) is None,
            decreases backlog(self.on_periodical@, cursors@),
        {
            let ghost before = cursors@;
            let ghost rest = feed(self.on_periodical@, headers@, before);
            proof {
                lemma_winner(scores(self.on_periodical@, None, headers@, before));
            }
            match Self::get_message(&self.on_periodical, headers, None, now, cursors) {
                Some(msg) => {
                    proof {
                        let by = choose|at: int|
                            0 <= at < self.on_periodical@.len() && serves(
                                #[trigger] self.on_periodical@[at],
                                None,
                                headers@,
                                before,
                                now,
                                msg,
                                cursors@,
                            );
                        lemma_backlog_drops(self.on_periodical@, before, by);
                        assert(voiced(self.on_periodical@, headers@, now, msg)) by {
                            assert(speaks(self.on_periodical@[by], headers@, before, now, msg));
                        }
                        if plain {
                            let at = winner(
                                scores(self.on_periodical@, None, headers@, before),
                            )->0;
                            let step = seq![(at, before)];
                            let after = feed(self.on_periodical@, headers@, cursors@);
                            assert(rest == step + after);
                            assert(rest[0] == (at, before));
                            assert(owed[messages.len() as int] == rest[0]);
                            assert(rest.skip(1) =~= after);
                            assert(owed.skip(messages.len() + 1) =~= owed.skip(
                                messages.len() as int,
                            ).skip(1));
                        }
                    }
                    messages.push(msg);
                },
                None => {
                    proof {
                        if plain {
                            assert(rest.len() == 0);
                        }
                    }
                    break ;
                },
            }
        }
        if messages.len() == 0 {
            None
        } else {
            Some(messages)
        }
    }
}

} // verus!
