use tcpros::header::{from_bytes, ConnectionHeader};
use tcpros::publication::{retain_successful, Publication};
use tcpros::subscription::{broadcast_payload, parse_topic_response, Subscription};
use tcpros::RosError;

const MD5: &str = "992ce8a1687cec8cc3e73d85c3bbb9e4";

fn chatter_publication() -> Publication {
    Publication::new(
        "/test_node",
        false,
        "/chatter",
        12345,
        10,
        "string data",
        MD5,
        "std_msgs/String",
    )
}

fn subscriber_request(md5: &str) -> Vec<u8> {
    let h = ConnectionHeader {
        caller_id: "/client".to_string(),
        latching: false,
        msg_definition: String::new(),
        md5sum: md5.to_string(),
        topic: "/chatter".to_string(),
        topic_type: "std_msgs/String".to_string(),
        tcp_nodelay: false,
    };
    h.to_bytes(false)
}

#[test]
fn loopback_handshake_answers_with_topic_and_md5() {
    let publication = chatter_publication();
    assert_eq!(publication.port(), 12345);
    assert_eq!(publication.topic_type(), "std_msgs/String");
    let response = publication
        .handle_subscriber_handshake(&subscriber_request(MD5))
        .unwrap();
    let decoded = from_bytes(&response).unwrap();
    assert_eq!(decoded.topic, "/chatter");
    assert_eq!(decoded.md5sum, MD5);
    assert_eq!(decoded.msg_definition, "string data");
}

#[test]
fn md5_mismatch_gets_no_response() {
    let publication = chatter_publication();
    let r = publication.handle_subscriber_handshake(&subscriber_request("deadbeefdeadbeefdeadbeefdeadbeef"));
    assert!(matches!(r, Err(RosError::HandshakeError)));
}

#[test]
fn garbage_handshake_is_malformed() {
    let publication = chatter_publication();
    let r = publication.handle_subscriber_handshake(&[1, 2, 3]);
    assert!(matches!(r, Err(RosError::MalformedHeader)));
}

#[test]
fn fan_out_reaches_every_subscriber() {
    // Two attached subscribers both see the payload bytes unchanged at the
    // head of their stream.
    let payload = vec![0x01u8, 0x02, 0x03];
    let mut received: Vec<Vec<u8>> = Vec::new();
    for _ in 0..2 {
        received.push(broadcast_payload(&payload).unwrap());
    }
    assert_eq!(received[0][..3], [0x01, 0x02, 0x03]);
    assert_eq!(received[1][..3], [0x01, 0x02, 0x03]);
}

#[test]
fn peer_failure_is_isolated() {
    // Subscriber A's socket is gone; submitting 100 payloads leaves B with
    // all 100 in order and the peer set with exactly one entry.
    let mut peers: Vec<&str> = vec!["a", "b"];
    let mut b_stream: Vec<u8> = Vec::new();
    let mut expected: Vec<u8> = Vec::new();
    retain_successful(&mut peers, &vec![false, true]);
    assert_eq!(peers, vec!["b"]);
    for i in 0..100u8 {
        let payload = vec![i, i, i];
        for _peer in &peers {
            b_stream.extend_from_slice(&broadcast_payload(&payload).unwrap());
        }
        expected.extend_from_slice(&payload);
    }
    assert_eq!(b_stream, expected);
}

#[test]
fn retain_keeps_survivor_order() {
    let mut peers: Vec<u32> = vec![10, 20, 30, 40, 50];
    retain_successful(&mut peers, &vec![true, false, true, false, true]);
    assert_eq!(peers, vec![10, 30, 50]);
}

#[test]
fn subscription_dedup_dials_once() {
    let mut sub = Subscription::new(
        "/test_node",
        "/chatter",
        "std_msgs/String",
        10,
        "string data".to_string(),
        MD5.to_string(),
    );
    let uri = "http://p:11311";
    let mut dials = 0;
    for _ in 0..5 {
        if sub.add_publisher_source(uri) {
            dials += 1;
            // the stub accepts the one requestTopic call; handshake succeeds
            sub.record_publisher(uri);
        }
    }
    assert_eq!(dials, 1);
}

#[test]
fn failed_connection_leaves_slot_free() {
    let sub = Subscription::new(
        "/test_node",
        "/chatter",
        "std_msgs/String",
        10,
        String::new(),
        MD5.to_string(),
    );
    // first attempt starts a reader but the handshake fails: nothing recorded
    assert!(sub.add_publisher_source("http://p:11311"));
    // a later call may retry the same URI
    assert!(sub.add_publisher_source("http://p:11311"));
}

#[test]
fn subscriber_validates_publisher_md5() {
    let sub = Subscription::new(
        "/test_node",
        "/chatter",
        "std_msgs/String",
        10,
        String::new(),
        MD5.to_string(),
    );
    let good = chatter_publication()
        .handle_subscriber_handshake(&sub.request_header_bytes())
        .unwrap();
    assert!(sub.validate_publisher_header(&good).is_ok());
    let bad = ConnectionHeader {
        caller_id: "/pub".to_string(),
        latching: false,
        msg_definition: String::new(),
        md5sum: "deadbeefdeadbeefdeadbeefdeadbeef".to_string(),
        topic: "/chatter".to_string(),
        topic_type: "std_msgs/String".to_string(),
        tcp_nodelay: false,
    };
    assert!(matches!(
        sub.validate_publisher_header(&bad.to_bytes(true)),
        Err(RosError::HandshakeError)
    ));
}

#[test]
fn empty_read_closes_the_stream() {
    assert!(broadcast_payload(&Vec::new()).is_none());
}

fn response_body(protocol: &str, host: &str, port: i32) -> String {
    serde_xmlrpc::response_to_string(
        vec![serde_xmlrpc::Value::Array(vec![
            serde_xmlrpc::Value::Int(1),
            serde_xmlrpc::Value::String("ok".to_string()),
            serde_xmlrpc::Value::Array(vec![
                serde_xmlrpc::Value::String(protocol.to_string()),
                serde_xmlrpc::Value::String(host.to_string()),
                serde_xmlrpc::Value::Int(port),
            ]),
        ])]
        .into_iter(),
    )
    .unwrap()
}

#[test]
fn unsupported_protocol_is_refused() {
    let body = response_body("UDPROS", "h", 7400);
    assert!(matches!(parse_topic_response(&body), Err(RosError::Unsupported)));
}

#[test]
fn tcpros_endpoint_is_taken() {
    let body = response_body("TCPROS", "h", 7400);
    let ep = parse_topic_response(&body).unwrap();
    assert_eq!(ep.host, "h");
    assert_eq!(ep.port, 7400);
}

#[test]
fn unparsable_response_is_an_rpc_error() {
    assert!(matches!(parse_topic_response("not xml at all"), Err(RosError::RpcError)));
}

#[test]
fn request_body_is_a_well_formed_xmlrpc_call() {
    let sub = Subscription::new(
        "/test_node",
        "/chatter",
        "std_msgs/String",
        10,
        String::new(),
        MD5.to_string(),
    );
    let body = sub.topic_request_body().unwrap();
    let (method, params) = serde_xmlrpc::request_from_str(&body).unwrap();
    assert_eq!(method, "requestTopic");
    assert_eq!(params.len(), 3);
    assert_eq!(params[0], serde_xmlrpc::Value::String("/test_node".to_string()));
    assert_eq!(params[1], serde_xmlrpc::Value::String("/chatter".to_string()));
}
