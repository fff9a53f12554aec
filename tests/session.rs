use simplechat::codec::ClientFrameCodec;
use simplechat::session::{Session, SessionAction, SessionEvent, DEFAULT_NAME};
use simplechat::{ClientFrame, ReceivedMessage, SentMessage, ServerFrame, ServerFrameCodec};
use tokio_util::bytes::BytesMut;

fn relayed(author: &str, text: &str) -> ReceivedMessage {
    ReceivedMessage::new(author.to_string(), text.to_string(), "2000-01-01T00:00:00Z".to_string())
}

#[test]
fn publishes_sent_message_under_own_id() {
    let mut s = Session::new(7);
    assert_eq!(s.name(), DEFAULT_NAME);
    let frame = ClientFrame::send(SentMessage::new("Sue".to_string(), "hi".to_string()));
    match s.step(SessionEvent::Frame(frame)) {
        SessionAction::Publish(id, msg) => {
            assert_eq!(id, 7);
            assert_eq!(msg.author, "Sue");
            assert_eq!(msg.text, "hi");
        }
        _ => panic!("expected a publish"),
    }
    assert_eq!(s.name(), "Sue");
    assert!(s.is_active());
}

#[test]
fn own_message_is_not_echoed() {
    let mut a = Session::new(1);
    let mut b = Session::new(2);
    let m = relayed("A", "b");
    assert!(matches!(a.step(SessionEvent::Relayed(1, m.clone())), SessionAction::Nothing));
    match b.step(SessionEvent::Relayed(1, m.clone())) {
        SessionAction::Forward(ServerFrame::Receive(got)) => assert_eq!(got, m),
        _ => panic!("expected a forward"),
    }
}

#[test]
fn lag_is_tolerated() {
    let mut s = Session::new(3);
    assert!(matches!(s.step(SessionEvent::Lagged(300)), SessionAction::Nothing));
    assert!(s.is_active());
    let m = relayed("B", "after the gap");
    match s.step(SessionEvent::Relayed(4, m.clone())) {
        SessionAction::Forward(ServerFrame::Receive(got)) => assert_eq!(got, m),
        _ => panic!("expected a forward"),
    }
    assert!(matches!(s.step(SessionEvent::RelayClosed), SessionAction::Nothing));
}

#[test]
fn leave_ends_the_session() {
    let mut s = Session::new(5);
    assert!(matches!(s.step(SessionEvent::Frame(ClientFrame::leave())), SessionAction::Close));
    assert!(!s.is_active());
    let send = ClientFrame::send(SentMessage::new("x".to_string(), "y".to_string()));
    assert!(matches!(s.step(SessionEvent::Frame(send)), SessionAction::Close));
    assert!(matches!(s.step(SessionEvent::Relayed(6, relayed("C", "d"))), SessionAction::Close));
    assert!(matches!(s.step(SessionEvent::Lagged(1)), SessionAction::Close));
}

#[test]
fn inbound_end_ends_the_session() {
    let mut s = Session::new(8);
    assert!(matches!(s.step(SessionEvent::InboundClosed), SessionAction::Close));
    assert!(!s.is_active());
}

#[test]
fn relay_scenario_send_to_other_client() {
    let mut inbound = BytesMut::from("send QQ== Yg==\n");
    let frame = ClientFrameCodec::default().decode(&mut inbound).unwrap().unwrap();
    let mut a = Session::new(0);
    let mut b = Session::new(1);
    let (sender, msg) = match a.step(SessionEvent::Frame(frame)) {
        SessionAction::Publish(id, msg) => (id, msg),
        _ => panic!("expected a publish"),
    };
    assert!(matches!(a.step(SessionEvent::Relayed(sender, msg.clone())), SessionAction::Nothing));
    let out = match b.step(SessionEvent::Relayed(sender, msg)) {
        SessionAction::Forward(f) => f,
        _ => panic!("expected a forward"),
    };
    let mut bytes = BytesMut::new();
    ServerFrameCodec::default().encode(out, &mut bytes).unwrap();
    let line = String::from_utf8(bytes.to_vec()).unwrap();
    assert!(line.starts_with("receive QQ== Yg== "), "{}", line);
    assert!(line.ends_with('\n'));
    let ts64 = line.trim_end().rsplit(' ').next().unwrap();
    let ts = base64::Engine::decode(&base64::engine::general_purpose::STANDARD, ts64).unwrap();
    let ts = String::from_utf8(ts).unwrap();
    assert!(ts.len() >= 20 && ts.ends_with('Z') && ts.as_bytes()[10] == b'T', "{}", ts);
}

#[test]
fn stamp_keeps_fields_and_falls_back_to_empty() {
    let m = SentMessage::new("A".to_string(), "b".to_string());
    let r = ReceivedMessage::stamp(m.clone(), Some("2000-01-01T00:00:00Z".to_string()));
    assert_eq!(r, relayed("A", "b"));
    let r = ReceivedMessage::stamp(m.clone(), None);
    assert_eq!(r.ts, "");
    let r = ReceivedMessage::stamp_now(m);
    assert_eq!((r.author.as_str(), r.text.as_str()), ("A", "b"));
    assert!(r.ts.ends_with('Z'));
}

#[test]
fn sent_message_from_pair() {
    let m = SentMessage::from(("A".to_string(), "b".to_string()));
    assert_eq!(m, SentMessage::new("A".to_string(), "b".to_string()));
}

#[test]
fn stamp_at_formats_the_given_instant() {
    let m = SentMessage::new("A".to_string(), "b".to_string());
    let r = ReceivedMessage::stamp_at(m.clone(), 946_684_800_000_000_000);
    assert_eq!(r, relayed("A", "b"));
    let r = ReceivedMessage::stamp_at(m, 946_684_800_500_000_000);
    assert_eq!(r.ts, "2000-01-01T00:00:00.5Z");
}

#[test]
fn stamp_at_falls_back_to_empty_when_unformattable() {
    let m = SentMessage::new("A".to_string(), "b".to_string());
    // a year before 0 has no RFC 3339 form
    let r = ReceivedMessage::stamp_at(m.clone(), -100_000_000_000i128 * 1_000_000_000);
    assert_eq!((r.author.as_str(), r.text.as_str(), r.ts.as_str()), ("A", "b", ""));
    // an instant out of the time crate's range
    let r = ReceivedMessage::stamp_at(m, i128::MAX);
    assert_eq!(r.ts, "");
}
