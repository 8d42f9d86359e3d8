use maelstrom_protocol::echo::EchoNode;
use maelstrom_protocol::node::{Node, NodeError};
use maelstrom_protocol::unique_ids::UniqueIdsNode;

const INIT_N1: &str = "{\"src\":\"c1\",\"dest\":\"n1\",\"body\":{\"msg_id\":1,\"type\":\"init\",\"node_id\":\"n1\",\"node_ids\":[\"n1\"]}}";
const INIT_N3: &str = "{\"src\":\"c1\",\"dest\":\"n3\",\"body\":{\"msg_id\":1,\"type\":\"init\",\"node_id\":\"n3\",\"node_ids\":[\"n1\",\"n2\",\"n3\"]}}";

fn lines(xs: &[&str]) -> Vec<String> {
    xs.iter().map(|s| s.to_string()).collect()
}

#[test]
fn init_handshake_replies_init_ok() {
    let mut node: Node<EchoNode> = Node::new();
    let (out, res) = node.run(&lines(&[INIT_N1]));
    assert!(res.is_ok());
    assert_eq!(
        out,
        vec!["{\"src\":\"n1\",\"dest\":\"c1\",\"body\":{\"msg_id\":0,\"in_reply_to\":1,\"type\":\"init_ok\"}}".to_string()]
    );
    assert_eq!(node.id, "n1");
    assert_eq!(node.connected_nodes, vec!["n1".to_string()]);
}

#[test]
fn echo_request_gets_echo_ok() {
    let mut node: Node<EchoNode> = Node::new();
    let echo = "{\"src\":\"c1\",\"dest\":\"n1\",\"body\":{\"msg_id\":2,\"type\":\"echo\",\"echo\":\"hello\"}}";
    let (out, res) = node.run(&lines(&[INIT_N1, echo]));
    assert!(res.is_ok());
    assert_eq!(out.len(), 2);
    assert_eq!(
        out[1],
        "{\"src\":\"n1\",\"dest\":\"c1\",\"body\":{\"msg_id\":1,\"in_reply_to\":2,\"type\":\"echo_ok\",\"echo\":\"hello\"}}"
    );
}

#[test]
fn unique_ids_issues_node_scoped_counter_ids() {
    let mut node: Node<UniqueIdsNode> = Node::new();
    let gen1 = "{\"src\":\"c1\",\"dest\":\"n3\",\"body\":{\"msg_id\":2,\"type\":\"generate\"}}";
    let gen2 = "{\"src\":\"c1\",\"dest\":\"n3\",\"body\":{\"msg_id\":9,\"type\":\"generate\"}}";
    let (out, res) = node.run(&lines(&[INIT_N3, gen1, gen2]));
    assert!(res.is_ok());
    assert_eq!(out.len(), 3);
    assert_eq!(
        out[1],
        "{\"src\":\"n3\",\"dest\":\"c1\",\"body\":{\"msg_id\":1,\"in_reply_to\":2,\"type\":\"generate_ok\",\"id\":\"n3-1\"}}"
    );
    assert_eq!(
        out[2],
        "{\"src\":\"n3\",\"dest\":\"c1\",\"body\":{\"msg_id\":2,\"in_reply_to\":9,\"type\":\"generate_ok\",\"id\":\"n3-2\"}}"
    );
}

#[test]
fn malformed_line_after_init_is_fatal_with_no_output_for_it() {
    let mut node: Node<EchoNode> = Node::new();
    let (out, res) = node.run(&lines(&[INIT_N1, "not json"]));
    match res {
        Err(NodeError::Decode(raw)) => assert_eq!(raw, "not json"),
        _ => panic!("expected a decode failure"),
    }
    // only the handshake reply was written; nothing for the bad line
    assert_eq!(out.len(), 1);
}

#[test]
fn decode_failure_stops_later_units() {
    let mut node: Node<EchoNode> = Node::new();
    let echo = "{\"src\":\"c1\",\"dest\":\"n1\",\"body\":{\"msg_id\":2,\"type\":\"echo\",\"echo\":\"hi\"}}";
    let (out, res) = node.run(&lines(&[INIT_N1, "garbage", echo]));
    assert!(matches!(res, Err(NodeError::Decode(_))));
    // the echo after the bad unit was never dispatched: no reply for it
    assert_eq!(out.len(), 1);
}

#[test]
fn empty_input_means_no_init() {
    let mut node: Node<EchoNode> = Node::new();
    let (out, res) = node.run(&lines(&[]));
    assert!(matches!(res, Err(NodeError::NoInit)));
    assert!(out.is_empty());
}

#[test]
fn first_unit_must_be_init() {
    let mut node: Node<EchoNode> = Node::new();
    let echo = "{\"src\":\"c1\",\"dest\":\"n1\",\"body\":{\"msg_id\":1,\"type\":\"echo\",\"echo\":\"hi\"}}";
    let (out, res) = node.run(&lines(&[echo]));
    assert!(matches!(res, Err(NodeError::NotInit)));
    assert!(out.is_empty());
}

#[test]
fn second_init_is_rejected() {
    let mut node: Node<EchoNode> = Node::new();
    let (out, res) = node.run(&lines(&[INIT_N1, INIT_N1]));
    assert!(matches!(res, Err(NodeError::DuplicateInit)));
    assert_eq!(out.len(), 1);
}

#[test]
fn stray_init_ok_is_ignored_while_running() {
    let mut node: Node<EchoNode> = Node::new();
    let stray = "{\"src\":\"c9\",\"dest\":\"n1\",\"body\":{\"type\":\"init_ok\"}}";
    let echo = "{\"src\":\"c1\",\"dest\":\"n1\",\"body\":{\"msg_id\":2,\"type\":\"echo\",\"echo\":\"x\"}}";
    let (out, res) = node.run(&lines(&[INIT_N1, stray, echo]));
    assert!(res.is_ok());
    assert_eq!(out.len(), 2);
}

#[test]
fn unanswered_variants_are_no_ops() {
    // an echo node receiving payloads it does not originate replies for
    let mut node: Node<EchoNode> = Node::new();
    let gen = "{\"src\":\"c1\",\"dest\":\"n1\",\"body\":{\"msg_id\":2,\"type\":\"generate\"}}";
    let ok = "{\"src\":\"c1\",\"dest\":\"n1\",\"body\":{\"msg_id\":3,\"type\":\"echo_ok\",\"echo\":\"y\"}}";
    let (out, res) = node.run(&lines(&[INIT_N1, gen, ok]));
    assert!(res.is_ok());
    assert_eq!(out.len(), 1);
}

#[test]
fn per_unit_driving_matches_batch() {
    let mut node: Node<EchoNode> = Node::new();
    let echo = "{\"src\":\"c1\",\"dest\":\"n1\",\"body\":{\"msg_id\":2,\"type\":\"echo\",\"echo\":\"hello\"}}";
    let (out1, r1) = node.handle_unit(INIT_N1);
    assert!(r1.is_ok());
    assert_eq!(out1.len(), 1);
    let (out2, r2) = node.handle_unit(echo);
    assert!(r2.is_ok());
    assert_eq!(
        out2,
        vec!["{\"src\":\"n1\",\"dest\":\"c1\",\"body\":{\"msg_id\":1,\"in_reply_to\":2,\"type\":\"echo_ok\",\"echo\":\"hello\"}}".to_string()]
    );
    assert!(node.handle_eof().is_ok());
}
