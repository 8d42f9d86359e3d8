use maelstrom_protocol::codec::{decode_message, encode_message};
use maelstrom_protocol::message::{Body, Init, Message, Payload};

fn msg(src: &str, dst: &str, id: Option<usize>, irt: Option<usize>, payload: Payload) -> Message {
    Message {
        src: src.to_string(),
        dst: dst.to_string(),
        body: Body { id, in_reply_to: irt, payload },
    }
}

#[test]
fn encode_init_ok_reply() {
    let m = msg("n1", "c1", Some(0), Some(1), Payload::InitOk);
    let line = encode_message(&m);
    assert_eq!(
        line,
        "{\"src\":\"n1\",\"dest\":\"c1\",\"body\":{\"msg_id\":0,\"in_reply_to\":1,\"type\":\"init_ok\"}}"
    );
}

#[test]
fn encode_echo_ok() {
    let m = msg("n1", "c1", Some(1), Some(2), Payload::EchoOk { echo: "hello".to_string() });
    let line = encode_message(&m);
    assert_eq!(
        line,
        "{\"src\":\"n1\",\"dest\":\"c1\",\"body\":{\"msg_id\":1,\"in_reply_to\":2,\"type\":\"echo_ok\",\"echo\":\"hello\"}}"
    );
}

#[test]
fn decode_init_request() {
    let line = "{\"src\":\"c1\",\"dest\":\"n1\",\"body\":{\"msg_id\":1,\"type\":\"init\",\"node_id\":\"n1\",\"node_ids\":[\"n1\"]}}";
    let m = decode_message(line).unwrap();
    assert_eq!(m.src, "c1");
    assert_eq!(m.dst, "n1");
    assert_eq!(m.body.id, Some(1));
    assert_eq!(m.body.in_reply_to, None);
    match &m.body.payload {
        Payload::Init(init) => {
            assert_eq!(init.node_id, "n1");
            assert_eq!(init.node_ids, vec!["n1".to_string()]);
        },
        _ => panic!("expected an init payload"),
    }
}

#[test]
fn decode_init_with_several_peers() {
    let line = "{\"src\":\"c1\",\"dest\":\"n2\",\"body\":{\"msg_id\":1,\"type\":\"init\",\"node_id\":\"n2\",\"node_ids\":[\"n1\",\"n2\",\"n3\"]}}";
    let m = decode_message(line).unwrap();
    match &m.body.payload {
        Payload::Init(init) => {
            assert_eq!(init.node_id, "n2");
            assert_eq!(
                init.node_ids,
                vec!["n1".to_string(), "n2".to_string(), "n3".to_string()]
            );
        },
        _ => panic!("expected an init payload"),
    }
}

#[test]
fn round_trip_preserves_every_observable_field() {
    let cases = vec![
        msg("c1", "n1", Some(7), None, Payload::Echo { echo: "some text".to_string() }),
        msg("n1", "c1", Some(3), Some(7), Payload::EchoOk { echo: "".to_string() }),
        msg("c2", "n3", None, None, Payload::Generate),
        msg("n3", "c2", Some(1), Some(2), Payload::GenerateOk { guid: "n3-1".to_string() }),
        msg("c0", "n0", Some(0), None, Payload::InitOk),
        msg(
            "c1",
            "n1",
            Some(usize::MAX),
            Some(0),
            Payload::Init(Init { node_id: "n1".to_string(), node_ids: vec![] }),
        ),
    ];
    for m in cases {
        let line = encode_message(&m);
        let back = decode_message(line.as_str()).unwrap();
        assert_eq!(back.src, m.src);
        assert_eq!(back.dst, m.dst);
        assert_eq!(back.body.id, m.body.id);
        assert_eq!(back.body.in_reply_to, m.body.in_reply_to);
        match (&back.body.payload, &m.body.payload) {
            (Payload::Echo { echo: a }, Payload::Echo { echo: b }) => assert_eq!(a, b),
            (Payload::EchoOk { echo: a }, Payload::EchoOk { echo: b }) => assert_eq!(a, b),
            (Payload::Generate, Payload::Generate) => {},
            (Payload::GenerateOk { guid: a }, Payload::GenerateOk { guid: b }) => assert_eq!(a, b),
            (Payload::InitOk, Payload::InitOk) => {},
            (Payload::Init(a), Payload::Init(b)) => {
                assert_eq!(a.node_id, b.node_id);
                assert_eq!(a.node_ids, b.node_ids);
            },
            _ => panic!("payload variant changed in the round trip"),
        }
    }
}

#[test]
fn decode_rejects_invalid_input() {
    let bad = vec![
        "",
        "not json",
        "{\"src\":\"c1\"}",
        "{\"src\":\"c1\",\"dest\":\"n1\",\"body\":{\"type\":\"frobnicate\"}}",
        // leading zero in a sequence number is not canonical
        "{\"src\":\"c1\",\"dest\":\"n1\",\"body\":{\"msg_id\":01,\"type\":\"init_ok\"}}",
        // trailing text after the envelope
        "{\"src\":\"c1\",\"dest\":\"n1\",\"body\":{\"msg_id\":1,\"type\":\"init_ok\"}}x",
    ];
    for line in bad {
        let e = decode_message(line).unwrap_err();
        assert_eq!(e.raw, line);
    }
}

#[test]
fn decode_accepts_omitted_sequence_fields() {
    let line = "{\"src\":\"c1\",\"dest\":\"n1\",\"body\":{\"type\":\"generate\"}}";
    let m = decode_message(line).unwrap();
    assert_eq!(m.body.id, None);
    assert_eq!(m.body.in_reply_to, None);
    assert!(matches!(m.body.payload, Payload::Generate));
}

#[test]
fn round_trip_with_an_empty_membership_list() {
    let m = msg(
        "c1",
        "n1",
        Some(1),
        None,
        Payload::Init(Init { node_id: "n1".to_string(), node_ids: vec![] }),
    );
    let line = encode_message(&m);
    assert_eq!(
        line,
        "{\"src\":\"c1\",\"dest\":\"n1\",\"body\":{\"msg_id\":1,\"type\":\"init\",\"node_id\":\"n1\",\"node_ids\":[]}}"
    );
    let back = decode_message(line.as_str()).unwrap();
    match &back.body.payload {
        Payload::Init(init) => assert!(init.node_ids.is_empty()),
        _ => panic!("expected an init payload"),
    }
}

#[test]
fn round_trip_carries_non_ascii_text_verbatim() {
    let m = msg("c1", "n1", Some(2), None, Payload::Echo { echo: "héllo ✓ world".to_string() });
    let line = encode_message(&m);
    let back = decode_message(line.as_str()).unwrap();
    match &back.body.payload {
        Payload::Echo { echo } => assert_eq!(echo, "héllo ✓ world"),
        _ => panic!("expected an echo payload"),
    }
}

#[test]
fn decode_accepts_insignificant_whitespace() {
    let line = " { \"src\" : \"c1\" ,\t\"dest\": \"n1\", \"body\" : { \"msg_id\" : 1 , \"type\" : \"echo\" , \"echo\" : \"hi\" } } ";
    let m = decode_message(line).unwrap();
    assert_eq!(m.src, "c1");
    assert_eq!(m.dst, "n1");
    assert_eq!(m.body.id, Some(1));
    match &m.body.payload {
        Payload::Echo { echo } => assert_eq!(echo, "hi"),
        _ => panic!("expected an echo payload"),
    }
}

#[test]
fn decode_accepts_members_in_any_order() {
    let line = "{\"body\":{\"type\":\"init\",\"node_ids\":[\"n1\",\"n2\"],\"node_id\":\"n1\",\"msg_id\":1},\"dest\":\"n1\",\"src\":\"c1\"}";
    let m = decode_message(line).unwrap();
    assert_eq!(m.src, "c1");
    assert_eq!(m.dst, "n1");
    assert_eq!(m.body.id, Some(1));
    match &m.body.payload {
        Payload::Init(init) => {
            assert_eq!(init.node_id, "n1");
            assert_eq!(init.node_ids, vec!["n1".to_string(), "n2".to_string()]);
        },
        _ => panic!("expected an init payload"),
    }
}

#[test]
fn decode_accepts_string_escapes() {
    let line = "{\"src\":\"c1\",\"dest\":\"n1\",\"body\":{\"msg_id\":2,\"type\":\"echo\",\"echo\":\"say \\\"hi\\\" \\\\ \\n \\t \\u0041\"}}";
    let m = decode_message(line).unwrap();
    match &m.body.payload {
        Payload::Echo { echo } => assert_eq!(echo, "say \"hi\" \\ \n \t A"),
        _ => panic!("expected an echo payload"),
    }
}

#[test]
fn decode_rejects_duplicate_and_unknown_members() {
    let dup = "{\"src\":\"c1\",\"src\":\"c2\",\"dest\":\"n1\",\"body\":{\"type\":\"generate\"}}";
    assert!(decode_message(dup).is_err());
    let unk = "{\"src\":\"c1\",\"dest\":\"n1\",\"extra\":\"x\",\"body\":{\"type\":\"generate\"}}";
    assert!(decode_message(unk).is_err());
    let mixed = "{\"src\":\"c1\",\"dest\":\"n1\",\"body\":{\"type\":\"generate\",\"echo\":\"x\"}}";
    assert!(decode_message(mixed).is_err());
}

#[test]
fn encode_escapes_strings() {
    let m = msg(
        "n1",
        "c1",
        Some(1),
        Some(2),
        Payload::EchoOk { echo: "say \"hi\" \\ here\n".to_string() },
    );
    let line = encode_message(&m);
    assert_eq!(
        line,
        "{\"src\":\"n1\",\"dest\":\"c1\",\"body\":{\"msg_id\":1,\"in_reply_to\":2,\"type\":\"echo_ok\",\"echo\":\"say \\\"hi\\\" \\\\ here\\u000a\"}}"
    );
    let back = decode_message(line.as_str()).unwrap();
    match &back.body.payload {
        Payload::EchoOk { echo } => assert_eq!(echo, "say \"hi\" \\ here\n"),
        _ => panic!("expected an echo_ok payload"),
    }
}
