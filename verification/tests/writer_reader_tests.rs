use maelstrom_protocol::codec::decode_message;
use maelstrom_protocol::message::{Body, Message, Payload};
use maelstrom_protocol::receiver::MessageReceiver;
use maelstrom_protocol::sender::MessageSender;

fn msg(src: &str, dst: &str, id: Option<usize>, irt: Option<usize>, payload: Payload) -> Message {
    Message {
        src: src.to_string(),
        dst: dst.to_string(),
        body: Body { id, in_reply_to: irt, payload },
    }
}

#[test]
fn writer_assigns_sequential_ids_starting_at_zero() {
    let mut sender = MessageSender::new();
    for k in 0..4usize {
        // the envelope's own id is overwritten on send, whatever it was
        let m = msg("n1", "c1", Some(99), Some(k), Payload::Echo { echo: format!("m{}", k) });
        sender.send(m).unwrap();
    }
    let lines = sender.lines_from(0);
    assert_eq!(lines.len(), 4);
    for (k, line) in lines.iter().enumerate() {
        let back = decode_message(line.as_str()).unwrap();
        assert_eq!(back.body.id, Some(k));
    }
}

#[test]
fn writer_encodes_any_string_payload() {
    let mut sender = MessageSender::new();
    let tricky = msg("n1", "c1", None, None, Payload::Echo { echo: "a \"quote\"".to_string() });
    sender.send(tricky).unwrap();
    let lines = sender.lines_from(0);
    assert_eq!(lines.len(), 1);
    let back = decode_message(lines[0].as_str()).unwrap();
    assert_eq!(back.body.id, Some(0));
    match &back.body.payload {
        Payload::Echo { echo } => assert_eq!(echo, "a \"quote\""),
        _ => panic!("expected an echo payload"),
    }
}

#[test]
fn reply_swaps_endpoints_and_correlates() {
    let m = msg("c1", "n1", Some(41), None, Payload::Echo { echo: "ping".to_string() });
    let r = m.into_reply(Payload::EchoOk { echo: "ping".to_string() });
    assert_eq!(r.src, "n1");
    assert_eq!(r.dst, "c1");
    assert_eq!(r.body.in_reply_to, Some(41));
    assert_eq!(r.body.id, None);
}

#[test]
fn reply_to_an_uncorrelated_message_is_uncorrelated() {
    let m = msg("c1", "n1", None, None, Payload::Generate);
    let r = m.into_reply(Payload::GenerateOk { guid: "n1-1".to_string() });
    assert_eq!(r.body.in_reply_to, None);
}

#[test]
fn reader_yields_each_unit_once_then_end() {
    let input = vec![
        "{\"src\":\"c1\",\"dest\":\"n1\",\"body\":{\"msg_id\":1,\"type\":\"init_ok\"}}".to_string(),
        "{\"src\":\"c1\",\"dest\":\"n1\",\"body\":{\"msg_id\":2,\"type\":\"generate\"}}".to_string(),
    ];
    let mut recver = MessageReceiver::new(input);
    let first = recver.recv().unwrap().unwrap();
    assert_eq!(first.body.id, Some(1));
    let second = recver.recv().unwrap().unwrap();
    assert_eq!(second.body.id, Some(2));
    assert!(recver.recv().is_none());
    assert!(recver.recv().is_none());
}

#[test]
fn reader_reports_a_decode_failure_with_the_raw_text() {
    let input = vec!["nonsense".to_string()];
    let mut recver = MessageReceiver::new(input);
    match recver.recv() {
        Some(Err(e)) => assert_eq!(e.raw, "nonsense"),
        _ => panic!("expected a decode failure"),
    }
}

#[test]
fn reader_iterator_round_trips_through_into_inner() {
    let input = vec![
        "{\"src\":\"c1\",\"dest\":\"n1\",\"body\":{\"type\":\"generate\"}}".to_string(),
        "{\"src\":\"c2\",\"dest\":\"n1\",\"body\":{\"type\":\"generate\"}}".to_string(),
    ];
    let recver = MessageReceiver::new(input);
    let mut it = recver.into_iter();
    let first = it.next().unwrap().unwrap();
    assert_eq!(first.src, "c1");
    let mut recver = it.into_inner();
    let second = recver.recv().unwrap().unwrap();
    assert_eq!(second.src, "c2");
    assert!(recver.recv().is_none());
}
