//! The decisions of one relay connection: what to do with each decoded
//! inbound frame and each message that the relay channel delivers.
use crate::b64::b64_encode;
use crate::codec::{server_line, ClientFrame, ClientFrameView, ServerFrame, ServerFrameView};
use crate::model::{ReceivedMessage, ReceivedMessageView, SentMessageView};
use vstd::prelude::*;
use vstd::utf8::encode_utf8;

verus! {

/// Identity of an accepted connection.
pub type ClientId = usize;

/// Name a connection goes by until it sends a message.
pub const DEFAULT_NAME: &'static str = "Anonymous";

/// Abstract value of a [`Session`].
pub struct SessionView {
    pub client_id: ClientId,
    pub name: Seq<char>,
    pub active: bool,
}

/// What a connection's two input sources delivered.
pub enum SessionEvent {
    /// The inbound stream decoded a frame.
    Frame(ClientFrame),
    /// The inbound stream ended, or failed to decode.
    InboundClosed,
    /// The relay delivered a message published by the given connection.
    Relayed(ClientId, ReceivedMessage),
    /// The relay dropped this many messages that this connection was too slow
    /// to read.
    Lagged(u64),
    /// The relay channel has no publisher left.
    RelayClosed,
    /// Writing to this connection's outbound stream failed.
    WriteFailed,
}

pub enum SessionEventView {
    Frame(ClientFrameView),
    InboundClosed,
    Relayed(ClientId, ReceivedMessageView),
    Lagged,
    RelayClosed,
    WriteFailed,
}

impl View for SessionEvent {
    type V = SessionEventView;

    open spec fn view(&self) -> SessionEventView {
        match self {
            SessionEvent::Frame(f) => SessionEventView::Frame(f@),
            SessionEvent::InboundClosed => SessionEventView::InboundClosed,
            SessionEvent::Relayed(id, m) => SessionEventView::Relayed(*id, m@),
            SessionEvent::Lagged(_) => SessionEventView::Lagged,
            SessionEvent::RelayClosed => SessionEventView::RelayClosed,
            SessionEvent::WriteFailed => SessionEventView::WriteFailed,
        }
    }
}

/// What the connection does in answer to an event.
pub enum SessionAction {
    /// Publish the pair to the relay.
    Publish(ClientId, ReceivedMessage),
    /// Write the frame to this connection's outbound stream.
    Forward(ServerFrame),
    /// Nothing to do.
    Nothing,
    /// Stop: no further reads from or writes to this connection.
    Close,
}

/// Abstract value of a [`SessionAction`]; a published message is given by
/// author and text, its timestamp being the relay's clock.
pub enum SessionActionView {
    Publish(ClientId, SentMessageView),
    Forward(ServerFrameView),
    Nothing,
    Close,
}

impl View for SessionAction {
    type V = SessionActionView;

    open spec fn view(&self) -> SessionActionView {
        match self {
            SessionAction::Publish(id, m) => SessionActionView::Publish(
                *id,
                SentMessageView { author: m.author@, text: m.text@ },
            ),
            SessionAction::Forward(f) => SessionActionView::Forward(f@),
            SessionAction::Nothing => SessionActionView::Nothing,
            SessionAction::Close => SessionActionView::Close,
        }
    }
}

/// The next state and the action for `e` in state `s`.
pub open spec fn session_next(s: SessionView, e: SessionEventView) -> (
    SessionView,
    SessionActionView,
) {
    if !s.active {
        (s, SessionActionView::Close)
    } else {
        match e {
            SessionEventView::Frame(ClientFrameView::Send(m)) => (
                SessionView { name: m.author, ..s },
                SessionActionView::Publish(s.client_id, m),
            ),
            SessionEventView::Frame(ClientFrameView::Leave)
            | SessionEventView::InboundClosed
            | SessionEventView::WriteFailed => (
                SessionView { active: false, ..s },
                SessionActionView::Close,
            ),
            SessionEventView::Relayed(sender, m) => if sender == s.client_id {
                (s, SessionActionView::Nothing)
            } else {
                (s, SessionActionView::Forward(ServerFrameView::Receive(m)))
            },
            SessionEventView::Lagged | SessionEventView::RelayClosed => (
                s,
                SessionActionView::Nothing,
            ),
        }
    }
}

/// The actions taken for `events` in turn, from state `s`.
pub open spec fn session_run(s: SessionView, events: Seq<SessionEventView>) -> Seq<
    SessionActionView,
>
    decreases events.len(),
{
    if events.len() == 0 {
        seq![]
    } else {
        let (t, a) = session_next(s, events[0]);
        seq![a] + session_run(t, events.drop_first())
    }
}

/// State of one accepted connection.
pub struct Session {
    client_id: ClientId,
    name: String,
    active: bool,
}

impl View for Session {
    type V = SessionView;

    closed spec fn view(&self) -> SessionView {
        SessionView { client_id: self.client_id, name: self.name@, active: self.active }
    }
}

impl Session {
    /// A fresh, active session for connection `client_id`.
    pub fn new(client_id: ClientId) -> (r: Self)
        ensures
            r@.client_id == client_id,
            r@.active,
            r@.name == DEFAULT_NAME@,
    {
        let r = Session { client_id, name: DEFAULT_NAME.to_owned(), active: true };
        assert(r@.name == DEFAULT_NAME@);
        r
    }

    pub fn client_id(&self) -> (r: ClientId)
        ensures
            r == self@.client_id,
    {
        self.client_id
    }

    /// Name taken from the last message this connection sent.
    pub fn name(&self) -> (r: String)
        ensures
            r@ == self@.name,
    {
        self.name.clone()
    }

    /// Whether the session still reads and writes.
    pub fn is_active(&self) -> (r: bool)
        ensures
            r == self@.active,
    {
        self.active
    }

    /// Handles one event. A message sent by this connection is published with
    /// the relay's timestamp; one published by this connection comes back
    /// from the relay and is dropped; one published by any other connection
    /// is forwarded; `leave`, the end of the inbound stream, or a failed write
    /// ends the session, and an ended session answers every event with `Close`.
    pub fn step(&mut self, event: SessionEvent) -> (r: SessionAction)
        ensures
            (final(self)@, r@) == session_next(old(self)@, event@),
    {
        if !self.active {
            return SessionAction::Close;
        }
        match event {
            SessionEvent::Frame(ClientFrame::Send(msg)) => {
                self.name = msg.author.clone();
                let relayed = ReceivedMessage::stamp_now(msg);
                SessionAction::Publish(self.client_id, relayed)
            },
            SessionEvent::Frame(ClientFrame::Leave)
            | SessionEvent::InboundClosed
            | SessionEvent::WriteFailed => {
                self.active = false;
                SessionAction::Close
            },
            SessionEvent::Relayed(sender, msg) => {
                if sender == self.client_id {
                    SessionAction::Nothing
                } else {
                    SessionAction::Forward(ServerFrame::Receive(msg))
                }
            },
            SessionEvent::Lagged(_) | SessionEvent::RelayClosed => SessionAction::Nothing,
        }
    }
}

/// A connection never gets its own message back from the relay, and every
/// other active connection forwards it.
pub proof fn lemma_no_self_echo(a: SessionView, b: SessionView, m: ReceivedMessageView)
    requires
        a.active,
        b.active,
        a.client_id != b.client_id,
    ensures
        session_next(a, SessionEventView::Relayed(a.client_id, m)).1 == SessionActionView::Nothing,
        session_next(b, SessionEventView::Relayed(a.client_id, m)).1
            == SessionActionView::Forward(ServerFrameView::Receive(m)),
{
}

/// A lagged signal changes nothing, and the message delivered after it is
/// forwarded as any other.
pub proof fn lemma_lag_tolerated(s: SessionView, sender: ClientId, m: ReceivedMessageView)
    requires
        s.active,
        sender != s.client_id,
    ensures
        session_next(s, SessionEventView::Lagged) == (s, SessionActionView::Nothing),
        session_run(s, seq![SessionEventView::Lagged, SessionEventView::Relayed(sender, m)])
            == seq![
            SessionActionView::Nothing,
            SessionActionView::Forward(ServerFrameView::Receive(m)),
        ],
{
    let evs = seq![SessionEventView::Lagged, SessionEventView::Relayed(sender, m)];
    let one = seq![SessionEventView::Relayed(sender, m)];
    assert(evs.drop_first() =~= one);
    assert(one.drop_first() =~= Seq::<SessionEventView>::empty());
    assert(session_run(s, Seq::<SessionEventView>::empty()) =~= seq![]);
    assert(session_run(s, one) =~= seq![SessionActionView::Forward(ServerFrameView::Receive(m))]);
}

proof fn lemma_ended_closes(s: SessionView, events: Seq<SessionEventView>)
    requires
        !s.active,
    ensures
        session_run(s, events).len() == events.len(),
        forall|i: int|
            0 <= i < events.len() ==> #[trigger] session_run(s, events)[i]
                == SessionActionView::Close,
    decreases events.len(),
{
    if events.len() > 0 {
        lemma_ended_closes(s, events.drop_first());
        assert forall|i: int| 0 <= i < events.len() implies #[trigger] session_run(s, events)[i]
            == SessionActionView::Close by {
            if i > 0 {
                assert(session_run(s, events)[i] == session_run(s, events.drop_first())[i - 1]);
            }
        }
    }
}

/// After `leave`, whatever comes next, the session only answers `Close`: it
/// neither publishes nor writes again.
pub proof fn lemma_leave_terminates(s: SessionView, later: Seq<SessionEventView>)
    ensures
        session_run(s, seq![SessionEventView::Frame(ClientFrameView::Leave)] + later)[0]
            == SessionActionView::Close,
        forall|i: int|
            0 <= i < later.len() ==> #[trigger] session_run(
                s,
                seq![SessionEventView::Frame(ClientFrameView::Leave)] + later,
            )[i + 1] == SessionActionView::Close,
{
    let evs = seq![SessionEventView::Frame(ClientFrameView::Leave)] + later;
    assert(evs.drop_first() =~= later);
    let t = session_next(s, evs[0]).0;
    lemma_ended_closes(t, later);
    assert forall|i: int| 0 <= i < later.len() implies #[trigger] session_run(s, evs)[i + 1]
        == SessionActionView::Close by {
        assert(session_run(s, evs)[i + 1] == session_run(t, later)[i]);
    }
}

/// A message with author `A` and text `b`, published by connection `a` and
/// relayed to another active connection, is forwarded there unchanged, and
/// the line written is `receive QQ== Yg== ` followed by the base64 of the
/// timestamp and a newline.
pub proof fn lemma_relayed_line(b: SessionView, a: ClientId, m: ReceivedMessageView)
    requires
        b.active,
        a != b.client_id,
        m.author == seq!['A'],
        m.text == seq!['b'],
    ensures
        session_next(b, SessionEventView::Relayed(a, m)) == (
            b,
            SessionActionView::Forward(ServerFrameView::Receive(m)),
        ),
        server_line(ServerFrameView::Receive(m)) == seq![
            114u8, 101, 99, 101, 105, 118, 101, 32, 81, 81, 61, 61, 32, 89, 103, 61, 61, 32,
        ] + b64_encode(encode_utf8(m.ts)) + seq![10u8],
{
    vstd::utf8::is_ascii_chars_encode_utf8(m.author);
    vstd::utf8::is_ascii_chars_encode_utf8(m.text);
    assert(encode_utf8(m.author) =~= seq![65u8]);
    assert(encode_utf8(m.text) =~= seq![98u8]);
    assert((65u8 >> 2u8) == 16u8 && ((65u8 & 3u8) << 4u8) == 16u8) by (bit_vector);
    assert((98u8 >> 2u8) == 24u8 && ((98u8 & 3u8) << 4u8) == 32u8) by (bit_vector);
    assert(b64_encode(seq![65u8]) =~= seq![81u8, 81, 61, 61]);
    assert(b64_encode(seq![98u8]) =~= seq![89u8, 103, 61, 61]);
    assert(server_line(ServerFrameView::Receive(m)) =~= seq![
        114u8, 101, 99, 101, 105, 118, 101, 32, 81, 81, 61, 61, 32, 89, 103, 61, 61, 32,
    ] + b64_encode(encode_utf8(m.ts)) + seq![10u8]);
}

} // verus!
