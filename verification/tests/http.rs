use drogue_endpoint::http::{
    content_type_of, publish_reply, Publish, PublishOptions, PublishOutcome, Reply,
};
use drogue_endpoint::router::CommandMessage;

#[test]
fn body_text_becomes_command() {
    assert!(CommandMessage::is_command_body(b"reboot"));
    let m = CommandMessage::from_body(b"reboot".to_vec());
    assert_eq!(m.0, "reboot");
    assert!(CommandMessage::is_command_body("grüße".as_bytes()));
    let m = CommandMessage::from_body("grüße".as_bytes().to_vec());
    assert_eq!(m.0, "grüße");
    assert!(CommandMessage::is_command_body(b""));
    let m = CommandMessage::from_body(Vec::new());
    assert_eq!(m.0, "");
}

#[test]
fn body_that_is_not_utf8_is_refused() {
    assert!(!CommandMessage::is_command_body(&[0xff, 0xfe]));
    assert!(!CommandMessage::is_command_body(&[b'a', 0xc3]));
    assert!(!CommandMessage::is_command_body(&[0xed, 0xa0, 0x80]));
    assert!(!CommandMessage::is_command_body(&[0xc0, 0x80]));
}

#[test]
fn accepted_publish_streams_command() {
    let r = publish_reply(Ok(PublishOutcome::Accepted));
    assert!(matches!(r, Reply::CommandStream));
    assert_eq!(r.status(), 200);
    assert_eq!(r.content_type(), None);
}

#[test]
fn rejected_publish_is_not_acceptable() {
    let r = publish_reply(Ok(PublishOutcome::Rejected));
    assert!(matches!(r, Reply::NotAcceptable));
    assert_eq!(r.status(), 406);
    assert_eq!(r.content_type(), None);
}

#[test]
fn failed_publish_is_internal_error_with_text() {
    let r = publish_reply(Err("kafka unreachable".to_string()));
    assert_eq!(r.status(), 500);
    assert_eq!(r.content_type().as_deref(), Some("text/plain"));
    match r {
        Reply::InternalError(body) => assert_eq!(body, "kafka unreachable"),
        _ => panic!("expected an internal error"),
    }
}

#[test]
fn publish_takes_path_query_and_header() {
    let p = Publish::for_device(
        "dev1".to_string(),
        "temp".to_string(),
        PublishOptions {
            model_id: Some("m1".to_string()),
        },
        Some(b"application/json".to_vec()),
    );
    assert_eq!(p.device_id, "dev1");
    assert_eq!(p.channel, "temp");
    assert_eq!(p.model_id.as_deref(), Some("m1"));
    assert_eq!(p.content_type.as_deref(), Some("application/json"));
}

#[test]
fn telemetry_uses_tenant_as_channel() {
    let p = Publish::telemetry("tenant1".to_string(), "dev9".to_string(), None);
    assert_eq!(p.channel, "tenant1");
    assert_eq!(p.device_id, "dev9");
    assert_eq!(p.model_id, None);
    assert_eq!(p.content_type, None);
}

#[test]
fn content_type_is_read_from_visible_ascii() {
    assert_eq!(
        content_type_of(Some(b"text/plain; charset=utf-8".to_vec())).as_deref(),
        Some("text/plain; charset=utf-8")
    );
    assert_eq!(content_type_of(Some(b"a\tb".to_vec())).as_deref(), Some("a\tb"));
    assert_eq!(content_type_of(Some(Vec::new())).as_deref(), Some(""));
    assert_eq!(content_type_of(None), None);
}

#[test]
fn content_type_with_other_bytes_is_dropped() {
    assert_eq!(content_type_of(Some(b"text/\x7f".to_vec())), None);
    assert_eq!(content_type_of(Some(b"a\nb".to_vec())), None);
    assert_eq!(content_type_of(Some("caf\u{e9}".as_bytes().to_vec())), None);
    assert_eq!(content_type_of(Some(vec![0x1f])), None);
}

#[test]
fn publish_drops_unreadable_content_type() {
    let p = Publish::for_device(
        "d".to_string(),
        "c".to_string(),
        PublishOptions { model_id: None },
        Some(vec![0xff]),
    );
    assert_eq!(p.content_type, None);
    let t = Publish::telemetry("t".to_string(), "d".to_string(), Some(b"application/cbor".to_vec()));
    assert_eq!(t.content_type.as_deref(), Some("application/cbor"));
}
