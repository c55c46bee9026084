use tcpros::header::{from_bytes, ConnectionHeader};
use tcpros::RosError;

fn header(md5: &str) -> ConnectionHeader {
    ConnectionHeader {
        caller_id: "/test_node".to_string(),
        latching: true,
        msg_definition: "string data".to_string(),
        md5sum: md5.to_string(),
        topic: "/chatter".to_string(),
        topic_type: "std_msgs/String".to_string(),
        tcp_nodelay: false,
    }
}

fn entry(payload: &str) -> Vec<u8> {
    let mut v = (payload.len() as u32).to_le_bytes().to_vec();
    v.extend_from_slice(payload.as_bytes());
    v
}

#[test]
fn encode_produces_the_documented_wire_form() {
    let h = header("992ce8a1687cec8cc3e73d85c3bbb9e4");
    let mut body = Vec::new();
    body.extend_from_slice(&entry("caller_id=/test_node"));
    body.extend_from_slice(&entry("topic=/chatter"));
    body.extend_from_slice(&entry("topic_type=std_msgs/String"));
    body.extend_from_slice(&entry("md5sum=992ce8a1687cec8cc3e73d85c3bbb9e4"));
    body.extend_from_slice(&entry("message_definition=string data"));
    body.extend_from_slice(&entry("latching=1"));
    body.extend_from_slice(&entry("tcp_nodelay=0"));
    let mut expected = (body.len() as u32).to_le_bytes().to_vec();
    expected.extend_from_slice(&body);
    assert_eq!(h.to_bytes(true), expected);
}

#[test]
fn encode_without_definition_omits_two_fields() {
    let h = header("992ce8a1687cec8cc3e73d85c3bbb9e4");
    let bytes = h.to_bytes(false);
    let text = String::from_utf8_lossy(&bytes).into_owned();
    assert!(!text.contains("message_definition"));
    assert!(!text.contains("latching"));
    assert!(text.contains("caller_id=/test_node"));
}

#[test]
fn round_trip_with_definition_and_latching() {
    let h = header("992ce8a1687cec8cc3e73d85c3bbb9e4");
    let decoded = from_bytes(&h.to_bytes(true)).unwrap();
    assert_eq!(decoded.caller_id, h.caller_id);
    assert_eq!(decoded.latching, h.latching);
    assert_eq!(decoded.msg_definition, h.msg_definition);
    assert_eq!(decoded.md5sum, h.md5sum);
    assert_eq!(decoded.topic, h.topic);
    assert_eq!(decoded.topic_type, h.topic_type);
    assert_eq!(decoded.tcp_nodelay, h.tcp_nodelay);
}

#[test]
fn round_trip_without_definition_strips_two_fields() {
    let h = header("992ce8a1687cec8cc3e73d85c3bbb9e4");
    let decoded = from_bytes(&h.to_bytes(false)).unwrap();
    assert_eq!(decoded.caller_id, h.caller_id);
    assert_eq!(decoded.md5sum, h.md5sum);
    assert_eq!(decoded.topic, h.topic);
    assert_eq!(decoded.topic_type, h.topic_type);
    assert_eq!(decoded.msg_definition, "");
    assert!(!decoded.latching);
}

#[test]
fn decode_tolerates_unknown_keys() {
    let mut body = entry("extra=whatever");
    body.extend_from_slice(&entry("caller_id=/n"));
    body.extend_from_slice(&entry("topic=/t"));
    body.extend_from_slice(&entry("topic_type=std_msgs/String"));
    body.extend_from_slice(&entry("md5sum=abc"));
    let mut data = (body.len() as u32).to_le_bytes().to_vec();
    data.extend_from_slice(&body);
    let decoded = from_bytes(&data).unwrap();
    assert_eq!(decoded.caller_id, "/n");
    assert_eq!(decoded.md5sum, "abc");
}

#[test]
fn decode_rejects_truncation() {
    let h = header("992ce8a1687cec8cc3e73d85c3bbb9e4");
    let bytes = h.to_bytes(true);
    assert!(matches!(from_bytes(&bytes[..bytes.len() - 1]), Err(RosError::MalformedHeader)));
    assert!(matches!(from_bytes(&bytes[..2]), Err(RosError::MalformedHeader)));
}

#[test]
fn decode_rejects_missing_required_key() {
    let mut body = entry("caller_id=/n");
    body.extend_from_slice(&entry("topic=/t"));
    body.extend_from_slice(&entry("topic_type=std_msgs/String"));
    let mut data = (body.len() as u32).to_le_bytes().to_vec();
    data.extend_from_slice(&body);
    assert!(matches!(from_bytes(&data), Err(RosError::MalformedHeader)));
}

#[test]
fn decode_rejects_entry_without_separator() {
    let mut body = entry("caller_id");
    let mut data = (body.len() as u32).to_le_bytes().to_vec();
    data.extend_from_slice(&mut body);
    assert!(matches!(from_bytes(&data), Err(RosError::MalformedHeader)));
}
