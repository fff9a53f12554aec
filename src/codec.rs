//! Frames and their wire form: `<verb>[ <base64 argument>]*\n`, where each
//! argument is the standard padded base64 of a string's UTF-8 bytes.
use crate::b64::{b64_encode, decode_b64, encode_b64, lemma_b64_injective};
use crate::error::Error;
use crate::util::ResultExt;
use crate::model::{ReceivedMessage, ReceivedMessageView, SentMessage, SentMessageView};
use tokio_util::bytes::BytesMut;
use tokio_util::codec::{LinesCodec, LinesCodecError};
use vstd::prelude::*;
use vstd::utf8::{decode_utf8, encode_utf8, valid_utf8};

verus! {

broadcast use vstd::utf8::encode_utf8_decode_utf8, vstd::utf8::encode_utf8_valid_utf8;

/// Longest line, in bytes, that the decoders accept (640 KiB).
pub const MAX_LENGTH: usize = 655360;

// ---------------------------------------------------------------------------
// Frames
// ---------------------------------------------------------------------------

/// Abstract value of a [`ClientFrame`].
pub enum ClientFrameView {
    Send(SentMessageView),
    Leave,
}

/// Abstract value of a [`ServerFrame`].
pub enum ServerFrameView {
    Receive(ReceivedMessageView),
}

/// Messages sent from client to server.
#[derive(Clone, Debug, Hash, Eq, PartialEq)]
pub enum ClientFrame {
    Send(SentMessage),
    Leave,
}

impl View for ClientFrame {
    type V = ClientFrameView;

    open spec fn view(&self) -> ClientFrameView {
        match self {
            ClientFrame::Send(m) => ClientFrameView::Send(m@),
            ClientFrame::Leave => ClientFrameView::Leave,
        }
    }
}

impl ClientFrame {
    pub fn send(msg: SentMessage) -> (r: Self)
        ensures
            r@ == ClientFrameView::Send(msg@),
    {
        ClientFrame::Send(msg)
    }

    pub fn leave() -> (r: Self)
        ensures
            r@ == ClientFrameView::Leave,
    {
        ClientFrame::Leave
    }
}

/// Messages sent from server to client.
#[derive(Clone, Debug, Hash, Eq, PartialEq)]
pub enum ServerFrame {
    Receive(ReceivedMessage),
}

impl View for ServerFrame {
    type V = ServerFrameView;

    open spec fn view(&self) -> ServerFrameView {
        match self {
            ServerFrame::Receive(m) => ServerFrameView::Receive(m@),
        }
    }
}

impl ServerFrame {
    pub fn receive(msg: ReceivedMessage) -> (r: Self)
        ensures
            r@ == ServerFrameView::Receive(msg@),
    {
        ServerFrame::Receive(msg)
    }
}

// ---------------------------------------------------------------------------
// Wire form
// ---------------------------------------------------------------------------

/// `send`
pub open spec fn send_verb() -> Seq<u8> {
    seq![115u8, 101, 110, 100]
}

/// `leave`
pub open spec fn leave_verb() -> Seq<u8> {
    seq![108u8, 101, 97, 118, 101]
}

/// `receive`
pub open spec fn receive_verb() -> Seq<u8> {
    seq![114u8, 101, 99, 101, 105, 118, 101]
}

/// One argument on the wire: a space, then the base64 of the UTF-8 bytes.
pub open spec fn arg_field(s: Seq<char>) -> Seq<u8> {
    seq![32u8] + b64_encode(encode_utf8(s))
}

/// The encoded line of a client frame, final newline included.
pub open spec fn client_line(f: ClientFrameView) -> Seq<u8> {
    match f {
        ClientFrameView::Send(m) => send_verb() + arg_field(m.author) + arg_field(m.text) + seq![
            10u8,
        ],
        ClientFrameView::Leave => leave_verb() + seq![10u8],
    }
}

/// The encoded line of a server frame, final newline included.
pub open spec fn server_line(f: ServerFrameView) -> Seq<u8> {
    match f {
        ServerFrameView::Receive(m) => receive_verb() + arg_field(m.author) + arg_field(m.text)
            + arg_field(m.ts) + seq![10u8],
    }
}

/// Unicode `White_Space`, the characters that `str::trim` removes.
pub open spec fn is_white_space(c: char) -> bool {
    let u = c as u32;
    (9 <= u <= 13) || u == 32 || u == 0x85 || u == 0xA0 || u == 0x1680 || (0x2000 <= u <= 0x200A)
        || u == 0x2028 || u == 0x2029 || u == 0x202F || u == 0x205F || u == 0x3000
}

pub open spec fn trim_start(s: Seq<char>) -> Seq<char>
    decreases s.len(),
{
    if s.len() > 0 && is_white_space(s[0]) {
        trim_start(s.drop_first())
    } else {
        s
    }
}

pub open spec fn trim_end(s: Seq<char>) -> Seq<char>
    decreases s.len(),
{
    if s.len() > 0 && is_white_space(s.last()) {
        trim_end(s.drop_last())
    } else {
        s
    }
}

/// `s` without its leading and trailing white space.
pub open spec fn trimmed(s: Seq<char>) -> Seq<char> {
    trim_end(trim_start(s))
}

/// The pieces of `b` between single spaces, in order; empty pieces count, so
/// `n` spaces always give `n + 1` pieces.
pub open spec fn split_spaces(b: Seq<u8>) -> Seq<Seq<u8>>
    decreases b.len(),
{
    if b.len() == 0 {
        seq![seq![]]
    } else {
        let prev = split_spaces(b.drop_last());
        if b.last() == 32u8 {
            prev.push(seq![])
        } else {
            prev.update(prev.len() - 1, prev.last().push(b.last()))
        }
    }
}

/// The text an argument token stands for, if it is base64 of UTF-8.
pub open spec fn arg_text(tok: Seq<u8>) -> Option<Seq<char>> {
    if exists|s: Seq<char>| b64_encode(encode_utf8(s)) == tok {
        Some(choose|s: Seq<char>| b64_encode(encode_utf8(s)) == tok)
    } else {
        None
    }
}

/// The tokens of a received line: verb first, then the raw arguments.
pub open spec fn line_tokens(line: Seq<char>) -> Seq<Seq<u8>> {
    split_spaces(encode_utf8(trimmed(line)))
}

/// Every argument token of `toks` decodes.
pub open spec fn args_valid(toks: Seq<Seq<u8>>) -> bool {
    forall|i: int| 1 <= i < toks.len() ==> (#[trigger] arg_text(toks[i])) is Some
}

/// The decoded arguments of `toks`.
pub open spec fn arg_values(toks: Seq<Seq<u8>>) -> Seq<Seq<char>> {
    Seq::new((toks.len() - 1) as nat, |i: int| arg_text(toks[i + 1])->0)
}

/// The client frame that a line (without its newline) decodes to, or `None`
/// where it is an invalid frame.
pub open spec fn client_frame_of(line: Seq<char>) -> Option<ClientFrameView> {
    let toks = line_tokens(line);
    let args = arg_values(toks);
    if !args_valid(toks) {
        None
    } else if toks[0] == send_verb() {
        if args.len() == 2 {
            Some(ClientFrameView::Send(SentMessageView { author: args[0], text: args[1] }))
        } else {
            None
        }
    } else if toks[0] == leave_verb() {
        if args.len() == 0 {
            Some(ClientFrameView::Leave)
        } else {
            None
        }
    } else {
        None
    }
}

/// The server frame that a line (without its newline) decodes to, or `None`
/// where it is an invalid frame.
pub open spec fn server_frame_of(line: Seq<char>) -> Option<ServerFrameView> {
    let toks = line_tokens(line);
    let args = arg_values(toks);
    if !args_valid(toks) {
        None
    } else if toks[0] == receive_verb() && args.len() == 3 {
        Some(ServerFrameView::Receive(ReceivedMessageView { author: args[0], text: args[1], ts: args[2] }))
    } else {
        None
    }
}

// ---------------------------------------------------------------------------
// Trusted calls into std
// ---------------------------------------------------------------------------

/// Relies on `str::trim`: leading and trailing Unicode `White_Space` removed.
#[verifier::external_body]
fn trim_str(s: &str) -> (r: &str)
    ensures
        r@ == trimmed(s@),
{
    s.trim()
}

/// Relies on `String::from_utf8`: `Ok` exactly for valid UTF-8, holding
/// those bytes.
#[verifier::external_body]
fn string_from_utf8(v: Vec<u8>) -> (r: Option<String>)
    ensures
        r is Some <==> valid_utf8(v@),
        r matches Some(s) ==> s@ == decode_utf8(v@),
{
    String::from_utf8(v).ok()
}

// ---------------------------------------------------------------------------
// Decoding
// ---------------------------------------------------------------------------

proof fn lemma_split_nonempty(b: Seq<u8>)
    ensures
        split_spaces(b).len() >= 1,
    decreases b.len(),
{
    if b.len() > 0 {
        lemma_split_nonempty(b.drop_last());
    }
}

/// Splits `b` at every space.
fn split_at_spaces(b: &[u8]) -> (r: Vec<Vec<u8>>)
    ensures
        r@.len() == split_spaces(b@).len(),
        forall|k: int| 0 <= k < r@.len() ==> (#[trigger] r@[k])@ == split_spaces(b@)[k],
{
    let mut toks: Vec<Vec<u8>> = Vec::new();
    let mut cur: Vec<u8> = Vec::new();
    let mut i: usize = 0;
    proof {
        assert(b@.subrange(0, 0) =~= Seq::<u8>::empty());
    }
    while i < b.len()
        invariant
            i <= b@.len(),
            toks@.len() + 1 == split_spaces(b@.subrange(0, i as int)).len(),
            forall|k: int|
                0 <= k < toks@.len() ==> (#[trigger] toks@[k])@ == split_spaces(
                    b@.subrange(0, i as int),
                )[k],
            cur@ == split_spaces(b@.subrange(0, i as int)).last(),
        decreases b@.len() - i,
    {
        let c = b[i];
        proof {
            let next = b@.subrange(0, i + 1);
            assert(next.drop_last() =~= b@.subrange(0, i as int));
            lemma_split_nonempty(b@.subrange(0, i as int));
        }
        if c == 32u8 {
            toks.push(cur);
            cur = Vec::new();
        } else {
            cur.push(c);
        }
        i = i + 1;
    }
    proof {
        assert(b@.subrange(0, b@.len() as int) =~= b@);
    }
    toks.push(cur);
    toks
}

/// Decodes one argument token into its text.
fn decode_arg(tok: &[u8]) -> (r: Option<String>)
    ensures
        r is Some <==> arg_text(tok@) is Some,
        r matches Some(s) ==> arg_text(tok@) == Some(s@),
{
    match decode_b64(tok) {
        None => None,
        Some(v) => {
            let ghost vb = v@;
            let r = string_from_utf8(v);
            proof {
                match &r {
                    Some(s) => {
                        vstd::utf8::decode_utf8_encode_utf8(vb);
                        assert(b64_encode(encode_utf8(s@)) == tok@);
                        let c = choose|c: Seq<char>| b64_encode(encode_utf8(c)) == tok@;
                        lemma_b64_injective(encode_utf8(c), encode_utf8(s@));
                    },
                    None => {
                        if exists|c: Seq<char>| b64_encode(encode_utf8(c)) == tok@ {
                            let c = choose|c: Seq<char>| b64_encode(encode_utf8(c)) == tok@;
                            lemma_b64_injective(encode_utf8(c), vb);
                        }
                    },
                }
            }
            r
        },
    }
}

/// Splits a received line into its verb and decoded arguments; `None` where
/// an argument does not decode.
fn decode_frame(line: &str) -> (r: Option<(Vec<u8>, Vec<String>)>)
    ensures
        r is Some <==> args_valid(line_tokens(line@)),
        r matches Some(p) ==> {
            &&& p.0@ == line_tokens(line@)[0]
            &&& p.1@.len() == arg_values(line_tokens(line@)).len()
            &&& forall|k: int|
                0 <= k < p.1@.len() ==> (#[trigger] p.1@[k])@ == arg_values(line_tokens(line@))[k]
        },
{
    let t = trim_str(line);
    let mut toks = split_at_spaces(t.as_bytes());
    let ghost spec_toks = line_tokens(line@);
    proof {
        lemma_split_nonempty(encode_utf8(t@));
    }
    let mut args: Vec<String> = Vec::new();
    let mut i: usize = 1;
    while i < toks.len()
        invariant
            1 <= i <= toks@.len(),
            spec_toks == line_tokens(line@),
            toks@.len() == spec_toks.len(),
            forall|k: int| 0 <= k < toks@.len() ==> (#[trigger] toks@[k])@ == spec_toks[k],
            args@.len() == i - 1,
            forall|k: int| 1 <= k < i ==> (#[trigger] arg_text(spec_toks[k])) is Some,
            forall|k: int|
                0 <= k < args@.len() ==> (#[trigger] args@[k])@ == arg_text(spec_toks[k + 1])->0,
        decreases toks@.len() - i,
    {
        match decode_arg(toks[i].as_slice()) {
            None => {
                assert(toks@[i as int]@ == spec_toks[i as int]);
                assert(!args_valid(spec_toks));
                return None;
            },
            Some(s) => {
                args.push(s);
            },
        }
        i = i + 1;
    }
    let verb = toks.swap_remove(0);
    Some((verb, args))
}

/// Whether two byte strings are equal.
fn bytes_eq(a: &[u8], b: &[u8]) -> (r: bool)
    ensures
        r == (a@ == b@),
{
    if a.len() != b.len() {
        return false;
    }
    let mut i: usize = 0;
    while i < a.len()
        invariant
            a@.len() == b@.len(),
            i <= a@.len(),
            forall|k: int| 0 <= k < i ==> a@[k] == b@[k],
        decreases a@.len() - i,
    {
        if a[i] != b[i] {
            return false;
        }
        i = i + 1;
    }
    assert(a@ =~= b@);
    true
}

/// Decodes one line (without its newline) into a client frame.
pub fn decode_client_line(line: &str) -> (r: Result<ClientFrame, Error>)
    ensures
        match client_frame_of(line@) {
            Some(f) => r matches Ok(g) && g@ == f,
            None => r matches Err(Error::InvalidFrame),
        },
{
    match decode_frame(line).or_invalid_frame() {
        Err(e) => Err(e),
        Ok((verb, args)) => {
            let send: Vec<u8> = vec![115u8, 101, 110, 100];
            let leave: Vec<u8> = vec![108u8, 101, 97, 118, 101];
            assert(send@ =~= send_verb());
            assert(leave@ =~= leave_verb());
            if bytes_eq(verb.as_slice(), send.as_slice()) {
                if args.len() == 2 {
                    let mut args = args;
                    let text = args.pop().unwrap();
                    let author = args.pop().unwrap();
                    Ok(ClientFrame::Send(SentMessage { author, text }))
                } else {
                    Err(Error::InvalidFrame)
                }
            } else if bytes_eq(verb.as_slice(), leave.as_slice()) {
                if args.len() == 0 {
                    Ok(ClientFrame::Leave)
                } else {
                    Err(Error::InvalidFrame)
                }
            } else {
                Err(Error::InvalidFrame)
            }
        },
    }
}

/// Decodes one line (without its newline) into a server frame.
pub fn decode_server_line(line: &str) -> (r: Result<ServerFrame, Error>)
    ensures
        match server_frame_of(line@) {
            Some(f) => r matches Ok(g) && g@ == f,
            None => r matches Err(Error::InvalidFrame),
        },
{
    match decode_frame(line).or_invalid_frame() {
        Err(e) => Err(e),
        Ok((verb, args)) => {
            let receive: Vec<u8> = vec![114u8, 101, 99, 101, 105, 118, 101];
            assert(receive@ =~= receive_verb());
            if bytes_eq(verb.as_slice(), receive.as_slice()) && args.len() == 3 {
                let mut args = args;
                let ts = args.pop().unwrap();
                let text = args.pop().unwrap();
                let author = args.pop().unwrap();
                Ok(ServerFrame::Receive(ReceivedMessage { author, text, ts }))
            } else {
                Err(Error::InvalidFrame)
            }
        },
    }
}

// ---------------------------------------------------------------------------
// Encoding
// ---------------------------------------------------------------------------

/// Appends one argument field for `s`.
fn push_arg(dst: &mut Vec<u8>, s: &String)
    ensures
        final(dst)@ == old(dst)@ + arg_field(s@),
{
    dst.push(32u8);
    let mut e = encode_b64(s.as_str().as_bytes());
    dst.append(&mut e);
    assert(final(dst)@ =~= old(dst)@ + arg_field(s@));
}

/// The encoded line of a client frame.
pub fn encode_client_line(frame: &ClientFrame) -> (r: Vec<u8>)
    ensures
        r@ == client_line(frame@),
{
    match frame {
        ClientFrame::Send(msg) => {
            let mut out: Vec<u8> = vec![115u8, 101, 110, 100];
            push_arg(&mut out, &msg.author);
            push_arg(&mut out, &msg.text);
            out.push(10u8);
            assert(out@ =~= client_line(frame@));
            out
        },
        ClientFrame::Leave => {
            let out: Vec<u8> = vec![108u8, 101, 97, 118, 101, 10];
            assert(out@ =~= client_line(frame@));
            out
        },
    }
}

/// The encoded line of a server frame.
pub fn encode_server_line(frame: &ServerFrame) -> (r: Vec<u8>)
    ensures
        r@ == server_line(frame@),
{
    match frame {
        ServerFrame::Receive(msg) => {
            let mut out: Vec<u8> = vec![114u8, 101, 99, 101, 105, 118, 101];
            push_arg(&mut out, &msg.author);
            push_arg(&mut out, &msg.text);
            push_arg(&mut out, &msg.ts);
            out.push(10u8);
            assert(out@ =~= server_line(frame@));
            out
        },
    }
}

// ---------------------------------------------------------------------------
// Laws of the wire form
// ---------------------------------------------------------------------------

proof fn lemma_split_concat(x: Seq<u8>, y: Seq<u8>)
    ensures
        split_spaces(x + seq![32u8] + y) == split_spaces(x) + split_spaces(y),
    decreases y.len(),
{
    let xs = x + seq![32u8];
    if y.len() == 0 {
        assert((x + seq![32u8] + y).drop_last() =~= x);
        assert(x + seq![32u8] + y =~= xs);
        assert(split_spaces(x).push(seq![]) =~= split_spaces(x) + split_spaces(y));
    } else {
        let y0 = y.drop_last();
        lemma_split_concat(x, y0);
        lemma_split_nonempty(y0);
        lemma_split_nonempty(x);
        assert((x + seq![32u8] + y).drop_last() =~= x + seq![32u8] + y0);
        let p = split_spaces(x) + split_spaces(y0);
        if y.last() == 32u8 {
            assert(p.push(seq![]) =~= split_spaces(x) + split_spaces(y0).push(seq![]));
        } else {
            let q = split_spaces(y0);
            assert(p.update(p.len() - 1, p.last().push(y.last())) =~= split_spaces(x) + q.update(
                q.len() - 1,
                q.last().push(y.last()),
            ));
        }
    }
}

proof fn lemma_split_single(x: Seq<u8>)
    requires
        forall|i: int| 0 <= i < x.len() ==> x[i] != 32u8,
    ensures
        split_spaces(x) == seq![x],
    decreases x.len(),
{
    if x.len() == 0 {
        assert(x =~= seq![]);
    } else {
        lemma_split_single(x.drop_last());
        assert(x.drop_last().push(x.last()) =~= x);
        assert(seq![x.drop_last()].update(0, x.drop_last().push(x.last())) =~= seq![x]);
    }
}

/// The chars of an ASCII byte string.
spec fn ascii_chars(b: Seq<u8>) -> Seq<char> {
    Seq::new(b.len(), |i: int| b[i] as char)
}

proof fn lemma_ascii_decode(b: Seq<u8>)
    requires
        forall|i: int| 0 <= i < b.len() ==> b[i] < 128,
    ensures
        decode_utf8(b) == ascii_chars(b),
{
    let c = ascii_chars(b);
    assert(vstd::utf8::is_ascii_chars(c));
    vstd::utf8::is_ascii_chars_encode_utf8(c);
    assert(encode_utf8(c) =~= b);
}

proof fn lemma_arg_field(s: Seq<char>)
    ensures
        arg_text(b64_encode(encode_utf8(s))) == Some(s),
        forall|i: int|
            0 <= i < b64_encode(encode_utf8(s)).len() ==> crate::b64::is_b64_byte(
                #[trigger] b64_encode(encode_utf8(s))[i],
            ),
        s.len() > 0 ==> b64_encode(encode_utf8(s)).len() > 0,
{
    let t = b64_encode(encode_utf8(s));
    crate::b64::lemma_b64_shape(encode_utf8(s));
    assert(b64_encode(encode_utf8(s)) == t);
    assert(exists|c: Seq<char>| b64_encode(encode_utf8(c)) == t);
    let c = choose|c: Seq<char>| b64_encode(encode_utf8(c)) == t;
    lemma_b64_injective(encode_utf8(c), encode_utf8(s));
    assert(decode_utf8(encode_utf8(c)) == c);
    assert(decode_utf8(encode_utf8(s)) == s);
    if s.len() > 0 {
        assert(encode_utf8(s).len() > 0);
    }
}

/// Facts on a line body of verb and argument fields that the round trip needs.
proof fn lemma_body_line(body: Seq<u8>)
    requires
        body.len() > 0,
        forall|i: int| 0 <= i < body.len() ==> (#[trigger] body[i]) < 128,
        !is_white_space(body[0] as char),
        !is_white_space(body.last() as char),
    ensures
        encode_utf8(trimmed(decode_utf8(body))) == body,
        valid_utf8(body),
{
    lemma_ascii_decode(body);
    let c = ascii_chars(body);
    assert(c[0] == body[0] as char);
    assert(c.last() == body.last() as char);
    assert(trim_start(c) == c);
    assert(trim_end(c) == c);
    assert(encode_utf8(c) == body) by {
        vstd::utf8::is_ascii_chars_encode_utf8(c);
        assert(encode_utf8(c) =~= body);
    }
    assert(valid_utf8(encode_utf8(c)));
}

/// Encoding a client frame and decoding the line that the line splitter
/// hands back (the encoded bytes without their final newline) gives the
/// frame again; the encoded line ends in its only newline and holds no
/// carriage return. A `send` whose text is empty is left out: its encoded
/// line ends in a space, which decoding trims away with the empty argument.
pub proof fn lemma_client_round_trip(f: ClientFrameView)
    requires
        f matches ClientFrameView::Send(m) ==> m.text.len() > 0,
    ensures
        client_line(f).last() == 10u8,
        forall|i: int|
            0 <= i < client_line(f).len() - 1 ==> #[trigger] client_line(f)[i] != 10u8
                && client_line(f)[i] != 13u8,
        valid_utf8(client_line(f).drop_last()),
        client_frame_of(decode_utf8(client_line(f).drop_last())) == Some(f),
{
    let line = client_line(f);
    let body = line.drop_last();
    match f {
        ClientFrameView::Send(m) => {
            let a = b64_encode(encode_utf8(m.author));
            let t = b64_encode(encode_utf8(m.text));
            lemma_arg_field(m.author);
            lemma_arg_field(m.text);
            let rest = a + seq![32u8] + t;
            assert(body =~= send_verb() + seq![32u8] + rest);
            assert forall|i: int| 0 <= i < body.len() implies (#[trigger] body[i]) < 128 && body[i]
                != 10u8 && body[i] != 13u8 by {
                if i >= 6 + a.len() {
                    assert(body[i] == t[i - 6 - a.len()]);
                } else if i >= 5 && i < 5 + a.len() {
                    assert(body[i] == a[i - 5]);
                }
            }
            assert(body.last() == t.last());
            lemma_body_line(body);
            lemma_split_concat(send_verb(), rest);
            lemma_split_concat(a, t);
            lemma_split_single(send_verb());
            lemma_split_single(a);
            lemma_split_single(t);
            let toks = line_tokens(decode_utf8(body));
            assert(toks =~= seq![send_verb(), a, t]);
            assert(args_valid(toks));
            assert(arg_values(toks) =~= seq![m.author, m.text]);
        },
        ClientFrameView::Leave => {
            assert(body =~= leave_verb());
            lemma_body_line(body);
            lemma_split_single(leave_verb());
            let toks = line_tokens(decode_utf8(body));
            assert(toks =~= seq![leave_verb()]);
            assert(args_valid(toks));
            assert(arg_values(toks) =~= seq![]);
        },
    }
}

/// Encoding a server frame and decoding the line that the line splitter
/// hands back gives the frame again; the encoded line ends in its only
/// newline and holds no carriage return. A frame whose timestamp is empty is
/// left out, for the reason given for an empty `send` text.
#[verifier::rlimit(40)]
pub proof fn lemma_server_round_trip(f: ServerFrameView)
    requires
        f->Receive_0.ts.len() > 0,
    ensures
        server_line(f).last() == 10u8,
        forall|i: int|
            0 <= i < server_line(f).len() - 1 ==> #[trigger] server_line(f)[i] != 10u8
                && server_line(f)[i] != 13u8,
        valid_utf8(server_line(f).drop_last()),
        server_frame_of(decode_utf8(server_line(f).drop_last())) == Some(f),
{
    let m = f->Receive_0;
    let line = server_line(f);
    let body = line.drop_last();
    let a = b64_encode(encode_utf8(m.author));
    let t = b64_encode(encode_utf8(m.text));
    let z = b64_encode(encode_utf8(m.ts));
    lemma_arg_field(m.author);
    lemma_arg_field(m.text);
    lemma_arg_field(m.ts);
    let rest2 = t + seq![32u8] + z;
    let rest = a + seq![32u8] + rest2;
    assert(body =~= receive_verb() + seq![32u8] + rest);
    assert forall|i: int| 0 <= i < body.len() implies (#[trigger] body[i]) < 128 && body[i] != 10u8
        && body[i] != 13u8 by {
        if i >= 10 + a.len() + t.len() {
            assert(body[i] == z[i - 10 - a.len() - t.len()]);
        } else if i >= 9 + a.len() && i < 9 + a.len() + t.len() {
            assert(body[i] == t[i - 9 - a.len()]);
        } else if i >= 8 && i < 8 + a.len() {
            assert(body[i] == a[i - 8]);
        }
    }
    assert(body.last() == z.last());
    lemma_body_line(body);
    lemma_split_concat(receive_verb(), rest);
    lemma_split_concat(a, rest2);
    lemma_split_concat(t, z);
    lemma_split_single(receive_verb());
    lemma_split_single(a);
    lemma_split_single(t);
    lemma_split_single(z);
    let toks = line_tokens(decode_utf8(body));
    assert(toks =~= seq![receive_verb(), a, t, z]);
    assert(args_valid(toks));
    assert(arg_values(toks) =~= seq![m.author, m.text, m.ts]);
}

/// The first line of `line + rest` is `line` less its final newline, where
/// `line` ends in its only newline and holds no carriage return.
proof fn lemma_read_first_line(line: Seq<u8>, rest: Seq<u8>, max: nat)
    requires
        line.len() >= 2,
        line.last() == 10u8,
        forall|i: int| 0 <= i < line.len() - 1 ==> #[trigger] line[i] != 10u8 && line[i] != 13u8,
        line.len() - 1 <= max,
    ensures
        read_line(line + rest, max) == LineRead::Line(line.drop_last(), rest),
{
    let b = line + rest;
    let n = line.len() as int;
    assert(b[n - 1] == 10u8);
    assert forall|i: int| 0 <= i < n - 1 implies b[i] != 10u8 by {
        assert(b[i] == line[i]);
    }
    assert(line_end(b, n - 1));
    let p = choose|p: int| line_end(b, p) && p <= max;
    if p < n - 1 {
        assert(b[p] == line[p]);
    }
    assert(p == n - 1);
    assert(b.subrange(0, p) =~= line.drop_last());
    assert(line.drop_last().last() == line[n - 2]);
    assert(b.subrange(p + 1, b.len() as int) =~= rest);
}

/// Encoding a client frame into a buffer and decoding the buffer reads the
/// frame back, with the bytes after it left for later: the first line of
/// `client_line(f) + rest` is valid UTF-8 and decodes to `f`, given that the
/// line fits the bound. A `send` whose text is empty is left out, as above.
pub proof fn lemma_client_stream_round_trip(f: ClientFrameView, rest: Seq<u8>, max: nat)
    requires
        f matches ClientFrameView::Send(m) ==> m.text.len() > 0,
        client_line(f).len() - 1 <= max,
    ensures
        read_line(client_line(f) + rest, max) matches LineRead::Line(line, after) && after == rest
            && valid_utf8(line) && client_frame_of(decode_utf8(line)) == Some(f),
{
    lemma_client_round_trip(f);
    lemma_read_first_line(client_line(f), rest, max);
}

/// Encoding a server frame into a buffer and decoding the buffer reads the
/// frame back, with the bytes after it left for later, given that the line
/// fits the bound. A frame whose timestamp is empty is left out, as above.
pub proof fn lemma_server_stream_round_trip(f: ServerFrameView, rest: Seq<u8>, max: nat)
    requires
        f->Receive_0.ts.len() > 0,
        server_line(f).len() - 1 <= max,
    ensures
        read_line(server_line(f) + rest, max) matches LineRead::Line(line, after) && after == rest
            && valid_utf8(line) && server_frame_of(decode_utf8(line)) == Some(f),
{
    lemma_server_round_trip(f);
    lemma_read_first_line(server_line(f), rest, max);
}

/// A `send` line with any number of arguments other than two is an invalid
/// frame.
pub proof fn lemma_send_arity(line: Seq<char>)
    requires
        line_tokens(line)[0] == send_verb(),
        line_tokens(line).len() != 3,
    ensures
        client_frame_of(line) is None,
{
    lemma_split_nonempty(encode_utf8(trimmed(line)));
}

/// A line whose verb is neither `send` nor `leave` is an invalid client frame.
pub proof fn lemma_unknown_client_verb(line: Seq<char>)
    requires
        line_tokens(line)[0] != send_verb(),
        line_tokens(line)[0] != leave_verb(),
    ensures
        client_frame_of(line) is None,
{
}

/// A line whose verb is not `receive` is an invalid server frame.
pub proof fn lemma_unknown_server_verb(line: Seq<char>)
    requires
        line_tokens(line)[0] != receive_verb(),
    ensures
        server_frame_of(line) is None,
{
}

// ---------------------------------------------------------------------------
// Stream codecs
// ---------------------------------------------------------------------------

/// The bytes that a buffer holds.
pub uninterp spec fn buf_contents(b: BytesMut) -> Seq<u8>;

/// How far a line codec has already searched its buffer for a newline.
pub uninterp spec fn lines_next_index(c: LinesCodec) -> nat;

/// Whether a line codec is skipping the rest of an over-long line.
pub uninterp spec fn lines_discarding(c: LinesCodec) -> bool;

/// The longest line, in bytes without its newline, that a line codec accepts.
pub uninterp spec fn lines_max_length(c: LinesCodec) -> nat;

/// `p` is the position of the first newline in `b`.
pub open spec fn line_end(b: Seq<u8>, p: int) -> bool {
    &&& 0 <= p < b.len()
    &&& b[p] == 10u8
    &&& forall|i: int| 0 <= i < p ==> b[i] != 10u8
}

/// The line that ends at `p`: the bytes before it, less one carriage return
/// just before the newline.
pub open spec fn line_at(b: Seq<u8>, p: int) -> Seq<u8> {
    let s = b.subrange(0, p);
    if s.len() > 0 && s.last() == 13u8 {
        s.drop_last()
    } else {
        s
    }
}

/// What reading one line from a buffer gives.
pub enum LineRead {
    /// A line (its bytes, without the line end) and the bytes after it.
    Line(Seq<u8>, Seq<u8>),
    /// No newline within the bound, and more bytes than the bound.
    TooLong,
    /// No newline yet, and no more bytes than the bound.
    Pending,
}

/// Reading one line from `b`, where lines of at most `max` bytes are accepted.
pub open spec fn read_line(b: Seq<u8>, max: nat) -> LineRead {
    if exists|p: int| line_end(b, p) && p <= max {
        let p = choose|p: int| line_end(b, p) && p <= max;
        LineRead::Line(line_at(b, p), b.subrange(p + 1, b.len() as int))
    } else if b.len() > max {
        LineRead::TooLong
    } else {
        LineRead::Pending
    }
}

/// The line codec `c` may be given buffer `b`: its search position lies in
/// the buffer and within the bound, and no newline stands before it.
pub open spec fn search_ok(c: LinesCodec, b: Seq<u8>) -> bool {
    &&& lines_next_index(c) <= b.len()
    &&& lines_next_index(c) <= lines_max_length(c) + 1
    &&& forall|i: int| 0 <= i < lines_next_index(c) ==> b[i] != 10u8
}

/// Relies on `LinesCodec::new_with_max_length`: the bound recorded, the
/// search at the start, not discarding.
pub assume_specification[ LinesCodec::new_with_max_length ](max_length: usize) -> (r: LinesCodec)
    ensures
        lines_max_length(r) == max_length,
        lines_next_index(r) == 0,
        !lines_discarding(r),
;

/// Relies on `LinesCodec`'s `Decoder::decode`. When not discarding, it
/// searches the first `max + 1` bytes for a newline. If one is there, it
/// takes the bytes up to and including it, drops the newline and one `\r`
/// before it, and returns the rest as UTF-8 (an `Io` error where it is not).
/// Otherwise it fails with `MaxLineLengthExceeded` and starts discarding if
/// the buffer is longer than the bound, and returns `Ok(None)` if it is not.
/// When discarding, it drops bytes through the next newline, then reads on as
/// above.
#[verifier::external_body]
fn next_line(c: &mut LinesCodec, buf: &mut BytesMut) -> (r: Result<Option<String>, LinesCodecError>)
    requires
        search_ok(*old(c), buf_contents(*old(buf))),
    ensures
        search_ok(*final(c), buf_contents(*final(buf))),
        lines_max_length(*final(c)) == lines_max_length(*old(c)),
        !lines_discarding(*old(c)) ==> match read_line(
            buf_contents(*old(buf)),
            lines_max_length(*old(c)),
        ) {
            LineRead::Line(line, rest) => {
                &&& buf_contents(*final(buf)) == rest
                &&& !lines_discarding(*final(c))
                &&& if valid_utf8(line) {
                    r matches Ok(Some(s)) && s@ == decode_utf8(line)
                } else {
                    r matches Err(LinesCodecError::Io(_))
                }
            },
            LineRead::TooLong => {
                &&& r matches Err(LinesCodecError::MaxLineLengthExceeded)
                &&& buf_contents(*final(buf)) == buf_contents(*old(buf))
                &&& lines_discarding(*final(c))
            },
            LineRead::Pending => {
                &&& r matches Ok(None)
                &&& buf_contents(*final(buf)) == buf_contents(*old(buf))
                &&& !lines_discarding(*final(c))
            },
        },
        lines_discarding(*old(c)) ==> (r matches Ok(Some(s)) ==> exists|k: int|
            0 <= k <= buf_contents(*old(buf)).len() && (read_line(
                #[trigger] buf_contents(*old(buf)).subrange(k, buf_contents(*old(buf)).len() as int),
                lines_max_length(*old(c)),
            ) matches LineRead::Line(line, rest) && rest == buf_contents(*final(buf))
                && valid_utf8(line) && s@ == decode_utf8(line))),
{
    tokio_util::codec::Decoder::decode(c, buf)
}

/// Relies on `BufMut::put_slice` of `BytesMut`: appends the bytes.
#[verifier::external_body]
fn put_bytes(buf: &mut BytesMut, b: &[u8])
    ensures
        buf_contents(*final(buf)) == buf_contents(*old(buf)) + b@,
{
    tokio_util::bytes::BufMut::put_slice(buf, b)
}

/// Relies on `BytesMut::reserve`: makes room for more bytes, leaving the
/// contents as they are.
#[verifier::external_body]
fn reserve_bytes(buf: &mut BytesMut, additional: usize)
    ensures
        buf_contents(*final(buf)) == buf_contents(*old(buf)),
{
    buf.reserve(additional)
}

/// Codec for client frames over a byte stream.
pub struct ClientFrameCodec {
    inner: LinesCodec,
}

impl ClientFrameCodec {
    /// Longest line, without its newline, that this codec accepts.
    pub closed spec fn max_line_length(&self) -> nat {
        lines_max_length(self.inner)
    }

    /// Whether the codec is skipping the rest of an over-long line.
    pub closed spec fn discarding(&self) -> bool {
        lines_discarding(self.inner)
    }

    /// The codec may be handed a buffer holding `b`: it is the buffer (or a
    /// longer one) that the codec last read from.
    pub closed spec fn ready_for(&self, b: Seq<u8>) -> bool {
        search_ok(self.inner, b)
    }

    pub fn new() -> (r: Self)
        ensures
            r.max_line_length() == MAX_LENGTH,
            !r.discarding(),
            forall|b: Seq<u8>| r.ready_for(b),
    {
        ClientFrameCodec { inner: LinesCodec::new_with_max_length(MAX_LENGTH) }
    }

    /// A codec ready for a buffer stays ready once more bytes are appended to
    /// it, so decoding can go on as bytes arrive.
    pub proof fn lemma_ready_for_append(&self, b: Seq<u8>, more: Seq<u8>)
        requires
            self.ready_for(b),
        ensures
            self.ready_for(b + more),
    {
        assert forall|i: int| 0 <= i < lines_next_index(self.inner) implies (b + more)[i]
            != 10u8 by {
            assert((b + more)[i] == b[i]);
        }
    }

    /// Takes the next complete line out of `src` and decodes it; `Ok(None)`
    /// where no complete line is buffered yet, leaving `src` as it was.
    pub fn decode(&mut self, src: &mut BytesMut) -> (r: Result<Option<ClientFrame>, Error>)
        requires
            old(self).ready_for(buf_contents(*old(src))),
        ensures
            final(self).ready_for(buf_contents(*final(src))),
            final(self).max_line_length() == old(self).max_line_length(),
            !old(self).discarding() ==> match read_line(
                buf_contents(*old(src)),
                old(self).max_line_length(),
            ) {
                LineRead::Line(line, rest) => {
                    &&& buf_contents(*final(src)) == rest
                    &&& !final(self).discarding()
                    &&& if !valid_utf8(line) {
                        r matches Err(Error::LinesParseError(LinesCodecError::Io(_)))
                    } else {
                        match client_frame_of(decode_utf8(line)) {
                            Some(f) => r matches Ok(Some(g)) && g@ == f,
                            None => r matches Err(Error::InvalidFrame),
                        }
                    }
                },
                LineRead::TooLong => {
                    &&& r matches Err(
                        Error::LinesParseError(LinesCodecError::MaxLineLengthExceeded),
                    )
                    &&& buf_contents(*final(src)) == buf_contents(*old(src))
                    &&& final(self).discarding()
                },
                LineRead::Pending => {
                    &&& r matches Ok(None)
                    &&& buf_contents(*final(src)) == buf_contents(*old(src))
                    &&& !final(self).discarding()
                },
            },
            old(self).discarding() ==> (r matches Ok(Some(f)) ==> exists|k: int|
                0 <= k <= buf_contents(*old(src)).len() && (read_line(
                    #[trigger] buf_contents(*old(src)).subrange(k, buf_contents(*old(src)).len() as int),
                    old(self).max_line_length(),
                ) matches LineRead::Line(line, rest) && rest == buf_contents(*final(src))
                    && valid_utf8(line) && client_frame_of(decode_utf8(line)) == Some(f@))),
    {
        match next_line(&mut self.inner, src) {
            Err(e) => Err(Error::LinesParseError(e)),
            Ok(None) => Ok(None),
            Ok(Some(line)) => match decode_client_line(line.as_str()) {
                Ok(f) => Ok(Some(f)),
                Err(e) => Err(e),
            },
        }
    }

    /// Appends the encoded line of `frame` to `dst`.
    pub fn encode(&mut self, frame: ClientFrame, dst: &mut BytesMut) -> (r: Result<(), Error>)
        ensures
            r is Ok,
            *final(self) == *old(self),
            buf_contents(*final(dst)) == buf_contents(*old(dst)) + client_line(frame@),
    {
        let line = encode_client_line(&frame);
        reserve_bytes(dst, line.len());
        put_bytes(dst, line.as_slice());
        Ok(())
    }
}

impl Default for ClientFrameCodec {
    fn default() -> (r: Self)
        ensures
            r.max_line_length() == MAX_LENGTH,
            !r.discarding(),
            forall|b: Seq<u8>| r.ready_for(b),
    {
        ClientFrameCodec::new()
    }
}

/// Codec for server frames over a byte stream.
pub struct ServerFrameCodec {
    inner: LinesCodec,
}

impl ServerFrameCodec {
    /// Longest line, without its newline, that this codec accepts.
    pub closed spec fn max_line_length(&self) -> nat {
        lines_max_length(self.inner)
    }

    /// Whether the codec is skipping the rest of an over-long line.
    pub closed spec fn discarding(&self) -> bool {
        lines_discarding(self.inner)
    }

    /// The codec may be handed a buffer holding `b`: it is the buffer (or a
    /// longer one) that the codec last read from.
    pub closed spec fn ready_for(&self, b: Seq<u8>) -> bool {
        search_ok(self.inner, b)
    }

    pub fn new() -> (r: Self)
        ensures
            r.max_line_length() == MAX_LENGTH,
            !r.discarding(),
            forall|b: Seq<u8>| r.ready_for(b),
    {
        ServerFrameCodec { inner: LinesCodec::new_with_max_length(MAX_LENGTH) }
    }

    /// A codec ready for a buffer stays ready once more bytes are appended to
    /// it, so decoding can go on as bytes arrive.
    pub proof fn lemma_ready_for_append(&self, b: Seq<u8>, more: Seq<u8>)
        requires
            self.ready_for(b),
        ensures
            self.ready_for(b + more),
    {
        assert forall|i: int| 0 <= i < lines_next_index(self.inner) implies (b + more)[i]
            != 10u8 by {
            assert((b + more)[i] == b[i]);
        }
    }

    /// Takes the next complete line out of `src` and decodes it; `Ok(None)`
    /// where no complete line is buffered yet, leaving `src` as it was.
    pub fn decode(&mut self, src: &mut BytesMut) -> (r: Result<Option<ServerFrame>, Error>)
        requires
            old(self).ready_for(buf_contents(*old(src))),
        ensures
            final(self).ready_for(buf_contents(*final(src))),
            final(self).max_line_length() == old(self).max_line_length(),
            !old(self).discarding() ==> match read_line(
                buf_contents(*old(src)),
                old(self).max_line_length(),
            ) {
                LineRead::Line(line, rest) => {
                    &&& buf_contents(*final(src)) == rest
                    &&& !final(self).discarding()
                    &&& if !valid_utf8(line) {
                        r matches Err(Error::LinesParseError(LinesCodecError::Io(_)))
                    } else {
                        match server_frame_of(decode_utf8(line)) {
                            Some(f) => r matches Ok(Some(g)) && g@ == f,
                            None => r matches Err(Error::InvalidFrame),
                        }
                    }
                },
                LineRead::TooLong => {
                    &&& r matches Err(
                        Error::LinesParseError(LinesCodecError::MaxLineLengthExceeded),
                    )
                    &&& buf_contents(*final(src)) == buf_contents(*old(src))
                    &&& final(self).discarding()
                },
                LineRead::Pending => {
                    &&& r matches Ok(None)
                    &&& buf_contents(*final(src)) == buf_contents(*old(src))
                    &&& !final(self).discarding()
                },
            },
            old(self).discarding() ==> (r matches Ok(Some(f)) ==> exists|k: int|
                0 <= k <= buf_contents(*old(src)).len() && (read_line(
                    #[trigger] buf_contents(*old(src)).subrange(k, buf_contents(*old(src)).len() as int),
                    old(self).max_line_length(),
                ) matches LineRead::Line(line, rest) && rest == buf_contents(*final(src))
                    && valid_utf8(line) && server_frame_of(decode_utf8(line)) == Some(f@))),
    {
        match next_line(&mut self.inner, src) {
            Err(e) => Err(Error::LinesParseError(e)),
            Ok(None) => Ok(None),
            Ok(Some(line)) => match decode_server_line(line.as_str()) {
                Ok(f) => Ok(Some(f)),
                Err(e) => Err(e),
            },
        }
    }

    /// Appends the encoded line of `frame` to `dst`.
    pub fn encode(&mut self, frame: ServerFrame, dst: &mut BytesMut) -> (r: Result<(), Error>)
        ensures
            r is Ok,
            *final(self) == *old(self),
            buf_contents(*final(dst)) == buf_contents(*old(dst)) + server_line(frame@),
    {
        let line = encode_server_line(&frame);
        reserve_bytes(dst, line.len());
        put_bytes(dst, line.as_slice());
        Ok(())
    }
}

impl Default for ServerFrameCodec {
    fn default() -> (r: Self)
        ensures
            r.max_line_length() == MAX_LENGTH,
            !r.discarding(),
            forall|b: Seq<u8>| r.ready_for(b),
    {
        ServerFrameCodec::new()
    }
}

} // verus!
