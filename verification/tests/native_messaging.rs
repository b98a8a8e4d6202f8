//! Frames and messages.
use aegis_host::ipc::native_messaging::{
    body_length, frame_body, frame_bytes, parse_body, read_frame, send_chunk_ack, send_early_block,
    send_final_verdict, send_final_verdict_with_findings, send_progress, send_verdict,
    write_message, FrameError, Outgoing, MAX_MESSAGE_BYTES,
};
use aegis_host::scanner::finding::{Finding, Severity};
use aegis_host::session;
use serde_json::Value;

#[test]
fn what_is_written_is_read_back() {
    let body = b"{\"type\":\"PING\",\"session_id\":\"\\u00e9\"}";
    let mut stream = frame_bytes(body).unwrap();
    assert_eq!(&stream[..4], &(body.len() as u32).to_le_bytes());
    let second = frame_bytes(b"[1]").unwrap();
    stream.extend(&second);
    assert_eq!(frame_body(&stream).unwrap().unwrap(), body.to_vec());
    let first = read_frame(&stream).unwrap().unwrap();
    assert_eq!(first.length, 4 + body.len());
    let m = session::incoming(&first.value);
    assert_eq!(m.kind.as_deref(), Some("PING"));
    assert_eq!(m.session_id.as_deref(), Some("\u{e9}"));
    assert_eq!(m.url, None);
    let rest = &stream[first.length..];
    assert_eq!(rest, &second[..]);
    let next = read_frame(rest).unwrap().unwrap();
    assert_eq!(session::incoming(&next.value).kind, None);
}

#[test]
fn a_message_that_is_sent_is_the_message_that_arrives() {
    let mut inner = serde_json::Map::new();
    inner.insert("empty".to_string(), Value::from(Vec::<Value>::new()));
    inner.insert("\u{e9}\n\"".to_string(), Value::Null);
    let mut outer = serde_json::Map::new();
    outer.insert("type".to_string(), Value::from("PING"));
    outer.insert("big".to_string(), Value::from(u64::MAX));
    outer.insert("small".to_string(), Value::from(i64::MIN));
    outer.insert("yes".to_string(), Value::from(true));
    outer.insert("inner".to_string(), Value::Object(inner));
    let message = Value::Object(outer);
    let mut stream = write_message(&message).unwrap();
    let length = stream.len();
    stream.extend(b"\x01");
    let frame = read_frame(&stream).unwrap().unwrap();
    assert_eq!(frame.length, length);
    assert_eq!(frame.value, message);

    let mut deep = Value::from(1);
    for _ in 0..127 {
        deep = Value::from(vec![deep]);
    }
    let stream = write_message(&deep).unwrap();
    assert_eq!(read_frame(&stream).unwrap().unwrap().value, deep);
    let stream = write_message(&Value::from(vec![deep])).unwrap();
    assert!(matches!(read_frame(&stream), Err(FrameError::NotJson(_))));
}

#[test]
fn a_message_that_is_too_long_is_not_sent() {
    let longest = "x".repeat(1_048_574);
    assert_eq!(write_message(&Value::from(longest.clone())).unwrap().len(), 1_048_580);
    let long = write_message(&Value::from(longest + "x")).unwrap_err();
    assert!(matches!(long, FrameError::OutgoingTooLong(1_048_577)));
    let unwritable = FrameError::Unwritable("why".to_string());
    assert_eq!(unwritable.message(), "Failed to serialize outgoing message: why");
}

#[test]
fn only_strings_count_as_members() {
    let value = parse_body(b"{\"type\":42,\"url\":null,\"session_id\":\"s\"}").unwrap();
    let m = session::incoming(&value);
    assert_eq!(m.kind, None);
    assert_eq!(m.url, None);
    assert_eq!(m.session_id.as_deref(), Some("s"));
}

#[test]
fn lengths_are_checked_on_the_header() {
    assert!(matches!(body_length(&[]), Ok(None)));
    assert!(matches!(body_length(&[1, 0, 0]), Ok(None)));
    assert!(matches!(body_length(&[7, 0, 0, 0]), Ok(Some(7))));
    assert!(matches!(body_length(&MAX_MESSAGE_BYTES.to_le_bytes()), Ok(Some(1_048_576))));
    assert!(matches!(body_length(&[0, 0, 0, 0]), Err(FrameError::Empty)));
    assert!(matches!(body_length(&[1, 0, 16, 0]), Err(FrameError::TooLong(1_048_577))));
}

#[test]
fn each_refusal_is_put_into_words() {
    assert_eq!(
        body_length(&[0xFF; 4]).unwrap_err().message(),
        "Incoming message length 4294967295 exceeds maximum allowed 1048576 bytes \u{2014} \
         rejecting as malformed"
    );
    assert_eq!(
        body_length(&[0; 4]).unwrap_err().message(),
        "Incoming message length is 0 \u{2014} rejecting as malformed"
    );
    let cut = match read_frame(&[9, 0, 0, 0, b'{']) {
        Err(e) => e,
        Ok(_) => panic!("a frame that is cut off"),
    };
    assert!(matches!(cut, FrameError::Truncated));
    assert_eq!(cut.message(), "Failed to read message body from stdin");
    let bad = match read_frame(&[1, 0, 0, 0, b'{']) {
        Err(e) => e,
        Ok(_) => panic!("a body that is no JSON"),
    };
    assert!(matches!(bad, FrameError::NotJson(_)));
    let words = serde_json::from_slice::<serde_json::Value>(b"{").unwrap_err().to_string();
    assert_eq!(bad.message(), format!("Failed to parse incoming message as JSON: {words}"));
    let long = frame_bytes(&vec![b' '; 1_048_577]).unwrap_err();
    assert!(matches!(long, FrameError::OutgoingTooLong(1_048_577)));
    assert_eq!(
        long.message(),
        "Outgoing message length 1048577 exceeds maximum allowed 1048576 bytes"
    );
    assert_eq!(frame_bytes(&vec![b' '; 1_048_576]).unwrap().len(), 1_048_580);
}

#[test]
fn messages_carry_what_they_are_given() {
    match send_verdict("S", "v", &Some("id".to_string())) {
        Outgoing::Verdict { status, verdict, session, released_path, findings } => {
            assert_eq!((status.as_str(), verdict.as_str()), ("S", "v"));
            assert_eq!(session.as_deref(), Some("id"));
            assert!(released_path.is_none() && findings.is_empty());
        }
        other => panic!("{other:?}"),
    }
    match send_final_verdict("id", "S", "v", &Some("/d/x".to_string())) {
        Outgoing::Verdict { released_path, findings, .. } => {
            assert_eq!(released_path.as_deref(), Some("/d/x"));
            assert!(findings.is_empty());
        }
        other => panic!("{other:?}"),
    }
    let found = [Finding::new(
        Severity::High,
        "t".to_string(),
        "d".to_string(),
        "w".to_string(),
        6_000,
    )];
    match send_final_verdict_with_findings("id", "S", "v", &None, &found) {
        Outgoing::Verdict { released_path, findings, .. } => {
            assert!(released_path.is_none());
            assert_eq!(findings.len(), 1);
            assert_eq!(findings[0].title, "t");
            assert_eq!(findings[0].risk, 6_000);
        }
        other => panic!("{other:?}"),
    }
    let ack = send_chunk_ack("id", 7);
    assert!(matches!(ack, Outgoing::ChunkAck { seq: 7, .. }));
    assert_eq!(ack.kind(), "CHUNK_ACK");
    let early = send_early_block("id", 9_000, "why");
    assert!(matches!(early, Outgoing::EarlyBlock { risk_score: 9_000, .. }));
    assert_eq!(early.kind(), "EARLY_BLOCK");
    let progress = send_progress("id", 12, 500);
    assert!(matches!(progress, Outgoing::Progress { bytes_scanned: 12, risk_score: 500, .. }));
    assert_eq!(progress.kind(), "PROGRESS");
}
