//! A client session over a web socket: which frame answers which, and when a
//! silent client is dropped.

use std::time::Instant;
use vstd::prelude::*;

verus! {

/// Nanoseconds between two heartbeat ticks of a session.
pub const HEARTBEAT_INTERVAL_NANOS: u128 = 5_000_000_000;

/// Nanoseconds of silence after which a client is dropped.
pub const CLIENT_TIMEOUT_NANOS: u128 = 10_000_000_000;

/// A point in time as the system's monotonic clock gives it.
#[verifier::external_type_specification]
#[verifier::external_body]
pub struct ExInstant(Instant);

/// A text to hand to every connected client.
#[derive(Clone, Debug, PartialEq, Eq)]
pub struct BroadcastMessage(pub String);

/// A client session: the time of the last sign of life from the client.
pub struct MyWebSocket {
    hb: Instant,
}

/// A frame that arrived from the client.
#[derive(Clone, Debug, PartialEq, Eq)]
pub enum Incoming {
    Ping(Vec<u8>),
    Pong(Vec<u8>),
    Text(String),
    Binary(Vec<u8>),
    /// A close, a continuation, a no-op or a protocol error.
    Other,
}

/// What the session does in answer.
#[derive(Clone, Debug, PartialEq, Eq)]
pub enum Reaction {
    /// Send a ping.
    Ping,
    /// Answer a ping with its payload.
    Pong(Vec<u8>),
    /// Send a text frame.
    Text(String),
    /// Send a binary frame.
    Binary(Vec<u8>),
    /// Send nothing.
    Nothing,
    /// End the session.
    Stop,
}

/// A frame as contracts see it.
pub enum FrameView {
    Ping(Seq<u8>),
    Pong(Seq<u8>),
    Text(Seq<char>),
    Binary(Seq<u8>),
    Other,
}

/// A reaction as contracts see it.
pub enum ReactionView {
    Ping,
    Pong(Seq<u8>),
    Text(Seq<char>),
    Binary(Seq<u8>),
    Nothing,
    Stop,
}

impl View for Incoming {
    type V = FrameView;

    open spec fn view(&self) -> FrameView {
        match *self {
            Incoming::Ping(b) => FrameView::Ping(b@),
            Incoming::Pong(b) => FrameView::Pong(b@),
            Incoming::Text(t) => FrameView::Text(t@),
            Incoming::Binary(b) => FrameView::Binary(b@),
            Incoming::Other => FrameView::Other,
        }
    }
}

impl View for Reaction {
    type V = ReactionView;

    open spec fn view(&self) -> ReactionView {
        match *self {
            Reaction::Ping => ReactionView::Ping,
            Reaction::Pong(b) => ReactionView::Pong(b@),
            Reaction::Text(t) => ReactionView::Text(t@),
            Reaction::Binary(b) => ReactionView::Binary(b@),
            Reaction::Nothing => ReactionView::Nothing,
            Reaction::Stop => ReactionView::Stop,
        }
    }
}

/// The answer to a frame: a ping is answered with its payload, a pong with
/// nothing, text and binary frames are echoed, anything else ends the
/// session.
pub open spec fn spec_answer(frame: FrameView) -> ReactionView {
    match frame {
        FrameView::Ping(b) => ReactionView::Pong(b),
        FrameView::Pong(_) => ReactionView::Nothing,
        FrameView::Text(t) => ReactionView::Text(t),
        FrameView::Binary(b) => ReactionView::Binary(b),
        FrameView::Other => ReactionView::Stop,
    }
}

/// Whether a frame is a sign of life that resets the heartbeat.
pub open spec fn is_sign_of_life(frame: FrameView) -> bool {
    frame is Ping || frame is Pong
}

/// The verdict of a heartbeat tick on a client that has been silent for
/// `silent_nanos`: it is dropped after more than the timeout, else pinged.
pub open spec fn spec_heartbeat_verdict(silent_nanos: u128) -> ReactionView {
    if silent_nanos > 10_000_000_000 {
        ReactionView::Stop
    } else {
        ReactionView::Ping
    }
}

/// Calls `Instant::now`. Nothing is claimed of the time read.
#[verifier::external_body]
fn clock_now() -> (now: Instant) {
    Instant::now()
}

/// Calls `Instant::duration_since` and hands out the duration in whole
/// nanoseconds. Nothing is claimed of it.
#[verifier::external_body]
fn nanos_between(later: &Instant, earlier: &Instant) -> (nanos: u128) {
    later.duration_since(*earlier).as_nanos()
}

/// The verdict of a heartbeat tick on a client that has been silent for
/// `silent_nanos`.
pub fn heartbeat_verdict(silent_nanos: u128) -> (verdict: Reaction)
    ensures
        verdict@ == spec_heartbeat_verdict(silent_nanos),
{
    if silent_nanos > CLIENT_TIMEOUT_NANOS {
        Reaction::Stop
    } else {
        Reaction::Ping
    }
}

impl MyWebSocket {
    /// The time of the last sign of life.
    pub closed spec fn last_seen(&self) -> Instant {
        self.hb
    }

    /// A session that starts now: its client counts as seen when the clock is read.
    pub fn new() -> (session: MyWebSocket) {
        MyWebSocket::seen_at(clock_now())
    }

    /// One heartbeat tick: the clock is read, and the client is pinged or,
    /// after too long a silence, dropped.
    pub fn hb(&self) -> (verdict: Reaction)
        ensures
            verdict@ is Stop || verdict@ is Ping,
    {
        let now = clock_now();
        heartbeat_verdict(nanos_between(&now, &self.hb))
    }

    /// Handles a frame from the client. A ping or a pong resets the
    /// heartbeat; no other frame touches it.
    pub fn handle(&mut self, frame: Incoming) -> (reaction: Reaction)
        ensures
            reaction@ == spec_answer(frame@),
            !is_sign_of_life(frame@) ==> final(self).last_seen() == old(self).last_seen(),
    {
        match frame {
            Incoming::Ping(payload) => {
                self.hb = clock_now();
                Reaction::Pong(payload)
            },
            Incoming::Pong(_) => {
                self.hb = clock_now();
                Reaction::Nothing
            },
            Incoming::Text(text) => Reaction::Text(text),
            Incoming::Binary(payload) => Reaction::Binary(payload),
            Incoming::Other => Reaction::Stop,
        }
    }

    /// Hands a broadcast text to the client.
    pub fn broadcast(&self, msg: BroadcastMessage) -> (reaction: Reaction)
        ensures
            reaction@ == ReactionView::Text(msg.0@),
    {
        Reaction::Text(msg.0)
    }

    /// A session whose client was last seen at `instant`.
    pub fn seen_at(instant: Instant) -> (session: MyWebSocket)
        ensures
            session.last_seen() == instant,
    {
        MyWebSocket { hb: instant }
    }
}

} // verus!
