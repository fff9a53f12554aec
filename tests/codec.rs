use simplechat::codec::{decode_client_line, decode_server_line, encode_client_line};
use simplechat::util::ResultExt;
use simplechat::{
    ClientFrame, ClientFrameCodec, Error, ReceivedMessage, SentMessage, ServerFrame,
    ServerFrameCodec,
};
use tokio_util::bytes::BytesMut;

fn sent(author: &str, text: &str) -> SentMessage {
    SentMessage::new(author.to_string(), text.to_string())
}

fn received(author: &str, text: &str, ts: &str) -> ReceivedMessage {
    ReceivedMessage::new(author.to_string(), text.to_string(), ts.to_string())
}

fn encode_client(item: ClientFrame) -> String {
    let mut output = BytesMut::new();
    ClientFrameCodec::default().encode(item, &mut output).unwrap();
    String::from_utf8(output.to_vec()).unwrap()
}

fn encode_server(item: ServerFrame) -> String {
    let mut output = BytesMut::new();
    ServerFrameCodec::default().encode(item, &mut output).unwrap();
    String::from_utf8(output.to_vec()).unwrap()
}

fn decode_client(bytes: &str) -> Result<Option<ClientFrame>, Error> {
    let mut buffer = BytesMut::from(bytes);
    ClientFrameCodec::default().decode(&mut buffer)
}

fn decode_server(bytes: &str) -> Result<Option<ServerFrame>, Error> {
    let mut buffer = BytesMut::from(bytes);
    ServerFrameCodec::default().decode(&mut buffer)
}

#[test]
fn test_client_codec() {
    let tests = vec![
        (
            ClientFrame::send(sent("The Thing", "It's Clobbering Time")),
            "send VGhlIFRoaW5n SXQncyBDbG9iYmVyaW5nIFRpbWU=\n",
        ),
        (ClientFrame::leave(), "leave\n"),
    ];
    for test in tests {
        let (item, bytes) = test;
        let encoded = encode_client(item.clone());
        assert_eq!(encoded, bytes);
        let decoded = decode_client(bytes).unwrap().unwrap();
        assert_eq!(decoded, item);
    }
}

#[test]
fn test_server_codec() {
    const TS: &str = "2000-01-01T00:00:00Z";
    let tests = vec![(
        ServerFrame::receive(received("Reed Richards", "I'm really smart", TS)),
        "receive UmVlZCBSaWNoYXJkcw== SSdtIHJlYWxseSBzbWFydA== MjAwMC0wMS0wMVQwMDowMDowMFo=\n",
    )];
    for test in tests {
        let (item, bytes) = test;
        let encoded = encode_server(item.clone());
        assert_eq!(encoded, bytes);
        let decoded = decode_server(bytes).unwrap().unwrap();
        assert_eq!(decoded, item);
    }
}

#[test]
fn round_trip_awkward_text() {
    let cases = vec![
        ("a b", "line one\nline two"),
        ("", "x"),
        ("Ünïcødé ✓", "  spaces around  "),
        ("tab\there", "\r\n"),
        ("日本語", "🎉"),
    ];
    for (author, text) in cases {
        let frame = ClientFrame::send(sent(author, text));
        let encoded = encode_client(frame.clone());
        assert_eq!(encoded.matches('\n').count(), 1);
        assert!(encoded.ends_with('\n'));
        assert_eq!(decode_client(&encoded).unwrap().unwrap(), frame);

        let frame = ServerFrame::receive(received(author, text, "2024-02-29T12:34:56.789Z"));
        let encoded = encode_server(frame.clone());
        assert_eq!(decode_server(&encoded).unwrap().unwrap(), frame);
    }
}

#[test]
fn empty_last_argument_is_trimmed_away() {
    // The trailing space before an empty last argument is trimmed, so the
    // line then carries one argument too few.
    let encoded = encode_client(ClientFrame::send(sent("A", "")));
    assert_eq!(encoded, "send QQ== \n");
    assert!(matches!(decode_client(&encoded), Err(Error::InvalidFrame)));
}

#[test]
fn send_arity_is_enforced() {
    for line in [
        "send\n",
        "send QQ==\n",
        "send QQ== Yg== Yw==\n",
        "send QQ== Yg== Yw== ZA==\n",
    ] {
        assert!(matches!(decode_client(line), Err(Error::InvalidFrame)), "{}", line);
    }
}

#[test]
fn leave_takes_no_arguments() {
    assert!(matches!(decode_client("leave QQ==\n"), Err(Error::InvalidFrame)));
    assert_eq!(decode_client("leave\n").unwrap(), Some(ClientFrame::Leave));
}

#[test]
fn unknown_verbs_are_invalid() {
    for line in ["receive QQ== Yg== Yw==\n", "SEND QQ== Yg==\n", "hello\n", "\n"] {
        assert!(matches!(decode_client(line), Err(Error::InvalidFrame)), "{}", line);
    }
    for line in ["send QQ== Yg==\n", "leave\n", "receives QQ== Yg== Yw==\n"] {
        assert!(matches!(decode_server(line), Err(Error::InvalidFrame)), "{}", line);
    }
}

#[test]
fn bad_base64_or_utf8_is_invalid() {
    // not base64, non-canonical trailing bits, missing padding, bytes that are not UTF-8
    for line in ["send QQ== Y!==\n", "send QR== Yg==\n", "send QQ Yg==\n", "send QQ== /w==\n"] {
        assert!(matches!(decode_client(line), Err(Error::InvalidFrame)), "{}", line);
    }
}

#[test]
fn surrounding_white_space_is_trimmed() {
    let frame = decode_client("  send QQ== Yg==\t\r\n").unwrap().unwrap();
    assert_eq!(frame, ClientFrame::send(sent("A", "b")));
    assert_eq!(decode_client_line(" leave ").unwrap(), ClientFrame::Leave);
}

#[test]
fn no_complete_line_yet() {
    let mut codec = ClientFrameCodec::default();
    let mut buffer = BytesMut::from("send QQ== ");
    assert!(matches!(codec.decode(&mut buffer), Ok(None)));
    buffer.extend_from_slice(b"Yg==\nleave\n");
    assert_eq!(codec.decode(&mut buffer).unwrap(), Some(ClientFrame::send(sent("A", "b"))));
    assert_eq!(codec.decode(&mut buffer).unwrap(), Some(ClientFrame::Leave));
    assert!(matches!(codec.decode(&mut buffer), Ok(None)));
}

#[test]
fn over_long_line_is_refused() {
    let mut codec = ClientFrameCodec::default();
    let mut buffer = BytesMut::from("send ");
    buffer.extend_from_slice(&vec![b'A'; 1024 * 640 + 10]);
    assert!(matches!(codec.decode(&mut buffer), Err(Error::LinesParseError(_))));
}

#[test]
fn encode_appends_to_buffer() {
    let mut out = BytesMut::from("x");
    ClientFrameCodec::default().encode(ClientFrame::leave(), &mut out).unwrap();
    ClientFrameCodec::default()
        .encode(ClientFrame::send(sent("A", "b")), &mut out)
        .unwrap();
    assert_eq!(&out[..], b"xleave\nsend QQ== Yg==\n");
}

#[test]
fn line_functions_directly() {
    assert_eq!(encode_client_line(&ClientFrame::leave()), b"leave\n".to_vec());
    let f = decode_server_line("receive QQ== Yg== Yw==").unwrap();
    assert_eq!(f, ServerFrame::receive(received("A", "b", "c")));
}

#[test]
fn or_invalid_frame_maps_missing_values() {
    assert!(matches!(None::<u8>.or_invalid_frame(), Err(Error::InvalidFrame)));
    assert_eq!(Some(3u8).or_invalid_frame().unwrap(), 3);
    let failed: Result<u8, String> = Err("boom".to_string());
    assert!(matches!(failed.or_invalid_frame(), Err(Error::InvalidFrame)));
    let fine: Result<u8, String> = Ok(4);
    assert_eq!(fine.or_invalid_frame().unwrap(), 4);
}

#[test]
fn carriage_return_before_newline_is_dropped() {
    let mut codec = ServerFrameCodec::default();
    let mut buffer = BytesMut::from("receive QQ== Yg== Yw==\r\nrest");
    let f = codec.decode(&mut buffer).unwrap().unwrap();
    assert_eq!(f, ServerFrame::receive(received("A", "b", "c")));
    assert_eq!(&buffer[..], b"rest");
}

#[test]
fn line_that_is_not_utf8_is_a_lines_error() {
    let mut codec = ClientFrameCodec::default();
    let mut buffer = BytesMut::from(&b"send \xff\nleave\n"[..]);
    assert!(matches!(codec.decode(&mut buffer), Err(Error::LinesParseError(_))));
    assert_eq!(codec.decode(&mut buffer).unwrap(), Some(ClientFrame::Leave));
}

#[test]
fn over_long_line_is_skipped_then_reading_resumes() {
    let mut codec = ClientFrameCodec::default();
    let mut buffer = BytesMut::from("send ");
    buffer.extend_from_slice(&vec![b'A'; 1024 * 640 + 10]);
    assert!(matches!(codec.decode(&mut buffer), Err(Error::LinesParseError(_))));
    buffer.extend_from_slice(b"AAAA\nleave\n");
    assert_eq!(codec.decode(&mut buffer).unwrap(), Some(ClientFrame::Leave));
}

#[test]
fn line_at_the_bound_is_accepted() {
    // a `send` line of exactly the longest accepted length
    let prefix = "  send QQ== ";
    let text_len = 1024 * 640 - prefix.len();
    let mut line = String::from(prefix);
    line.push_str(&"A".repeat(text_len - 4));
    line.push_str("AA==");
    assert_eq!(line.len(), 1024 * 640);
    line.push('\n');
    let decoded = decode_client(&line).unwrap().unwrap();
    match decoded {
        ClientFrame::Send(m) => assert_eq!(m.author, "A"),
        ClientFrame::Leave => panic!("expected a send"),
    }
}

#[test]
fn received_message_from_sent_keeps_author_and_text() {
    let r = ReceivedMessage::from(sent("A", "b"));
    assert_eq!((r.author.as_str(), r.text.as_str()), ("A", "b"));
    assert!(r.ts.ends_with('Z'));
}
