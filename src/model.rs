//! Messages as a client sends them and as the relay hands them on.
use vstd::prelude::*;

verus! {

/// Abstract value of a [`SentMessage`].
pub struct SentMessageView {
    pub author: Seq<char>,
    pub text: Seq<char>,
}

/// Abstract value of a [`ReceivedMessage`].
pub struct ReceivedMessageView {
    pub author: Seq<char>,
    pub text: Seq<char>,
    pub ts: Seq<char>,
}

/// Message as sent by a client.
#[derive(Clone, Debug, Hash, Eq, PartialEq)]
pub struct SentMessage {
    pub author: String,
    pub text: String,
}

impl View for SentMessage {
    type V = SentMessageView;

    open spec fn view(&self) -> SentMessageView {
        SentMessageView { author: self.author@, text: self.text@ }
    }
}

impl SentMessage {
    pub fn new(author: String, text: String) -> (r: Self)
        ensures
            r.author@ == author@,
            r.text@ == text@,
    {
        SentMessage { author, text }
    }
}

impl From<(String, String)> for SentMessage {
    fn from(value: (String, String)) -> (r: Self) {
        let (author, text) = value;
        SentMessage { author, text }
    }
}

impl vstd::std_specs::convert::FromSpecImpl<(String, String)> for SentMessage {
    open spec fn obeys_from_spec() -> bool {
        true
    }

    open spec fn from_spec(v: (String, String)) -> SentMessage {
        SentMessage { author: v.0, text: v.1 }
    }
}

/// Message as relayed to the other clients: the sent message with the time
/// at which the relay accepted it.
#[derive(Clone, Debug, Hash, Eq, PartialEq)]
pub struct ReceivedMessage {
    pub author: String,
    pub text: String,
    pub ts: String,
}

impl View for ReceivedMessage {
    type V = ReceivedMessageView;

    open spec fn view(&self) -> ReceivedMessageView {
        ReceivedMessageView { author: self.author@, text: self.text@, ts: self.ts@ }
    }
}

/// The RFC 3339 text of the UTC instant `unix_nanos` nanoseconds after the
/// Unix epoch, or `None` where it has none (a year outside `0..=9999`, or an
/// instant out of range).
pub uninterp spec fn rfc3339_utc(unix_nanos: int) -> Option<Seq<char>>;

/// A character RFC 3339 text of a UTC instant is made of.
pub open spec fn is_rfc3339_char(c: char) -> bool {
    ('0' <= c <= '9') || c == '-' || c == 'T' || c == ':' || c == '.' || c == 'Z'
}

/// The timestamp of a message accepted at `unix_nanos`: its RFC 3339 text, or
/// the empty string where it has none.
pub open spec fn timestamp_text(unix_nanos: int) -> Seq<char> {
    match rfc3339_utc(unix_nanos) {
        Some(s) => s,
        None => Seq::<char>::empty(),
    }
}

/// Relies on time's `OffsetDateTime::now_utc`, read as nanoseconds since the
/// Unix epoch (`unix_timestamp_nanos`); nothing is known of which instant it is.
#[verifier::external_body]
fn now_unix_nanos() -> (r: i128) {
    time::OffsetDateTime::now_utc().unix_timestamp_nanos()
}

/// Relies on time's `OffsetDateTime::from_unix_timestamp_nanos` (the instant,
/// in UTC) and `format` with `Rfc3339`. The result depends on the instant
/// alone. It is written `YYYY-MM-DDTHH:MM:SS`, then `.` and digits where the
/// second has a fraction, then `Z`; `None` where the instant is out of the
/// crate's range or its year is outside `0..=9999`.
#[verifier::external_body]
fn format_rfc3339(unix_nanos: i128) -> (r: Option<String>)
    ensures
        r matches Some(s) ==> rfc3339_utc(unix_nanos as int) == Some(s@),
        r is None ==> rfc3339_utc(unix_nanos as int) is None,
        r matches Some(s) ==> s@.len() >= 20 && s@.last() == 'Z' && forall|i: int|
            0 <= i < s@.len() ==> is_rfc3339_char(#[trigger] s@[i]),
{
    match time::OffsetDateTime::from_unix_timestamp_nanos(unix_nanos) {
        Ok(t) => t.format(&time::format_description::well_known::Rfc3339).ok(),
        Err(_) => None,
    }
}

impl ReceivedMessage {
    pub fn new(author: String, text: String, ts: String) -> (r: Self)
        ensures
            r.author@ == author@,
            r.text@ == text@,
            r.ts@ == ts@,
    {
        ReceivedMessage { author, text, ts }
    }

    /// Accepts `msg` with the timestamp `ts`, given as the formatted instant or
    /// `None` where formatting failed; a failed one becomes the empty string.
    pub fn stamp(msg: SentMessage, ts: Option<String>) -> (r: Self)
        ensures
            r.author@ == msg.author@,
            r.text@ == msg.text@,
            r.ts@ == match ts {
                Some(s) => s@,
                None => Seq::<char>::empty(),
            },
    {
        let ts = match ts {
            Some(s) => s,
            None => String::new(),
        };
        ReceivedMessage { author: msg.author, text: msg.text, ts }
    }

    /// Accepts `msg` at the instant `unix_nanos` (nanoseconds since the Unix
    /// epoch, UTC): the timestamp is that instant in RFC 3339 form, or the
    /// empty string where it has none.
    pub fn stamp_at(msg: SentMessage, unix_nanos: i128) -> (r: Self)
        ensures
            r.author@ == msg.author@,
            r.text@ == msg.text@,
            r.ts@ == timestamp_text(unix_nanos as int),
            r.ts@.len() == 0 || (r.ts@.len() >= 20 && r.ts@.last() == 'Z'),
    {
        ReceivedMessage::stamp(msg, format_rfc3339(unix_nanos))
    }

    /// Accepts `msg` now, stamping it with the current UTC instant in RFC 3339
    /// form (the empty string if that instant cannot be formatted).
    pub fn stamp_now(msg: SentMessage) -> (r: Self)
        ensures
            r.author@ == msg.author@,
            r.text@ == msg.text@,
            exists|t: int| r.ts@ == timestamp_text(t),
            r.ts@.len() == 0 || (r.ts@.len() >= 20 && r.ts@.last() == 'Z'),
    {
        ReceivedMessage::stamp_at(msg, now_unix_nanos())
    }
}

/// Accepting a sent message stamps it with the current UTC instant; which
/// instant that is depends on the clock ([`ReceivedMessage::stamp_at`] gives
/// the result for a given instant).
impl From<SentMessage> for ReceivedMessage {
    fn from(value: SentMessage) -> (r: Self)
        ensures
            r.author@ == value.author@,
            r.text@ == value.text@,
            exists|t: int| r.ts@ == timestamp_text(t),
            r.ts@.len() == 0 || (r.ts@.len() >= 20 && r.ts@.last() == 'Z'),
    {
        ReceivedMessage::stamp_now(value)
    }
}

impl vstd::std_specs::convert::FromSpecImpl<SentMessage> for ReceivedMessage {
    open spec fn obeys_from_spec() -> bool {
        false
    }

    open spec fn from_spec(v: SentMessage) -> ReceivedMessage {
        ReceivedMessage { author: v.author, text: v.text, ts: vstd::pervasive::arbitrary() }
    }
}

} // verus!
