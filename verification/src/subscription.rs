//! The subscriber side of one topic: publisher discovery over XMLRPC, the
//! dialing handshake, idempotent publisher registration, and the read loop's
//! broadcast step.
//!
//! The HTTP POST, the TCP dial and the reader tasks live in the I/O layer; it
//! asks this module for the `requestTopic` call body, hands the response body
//! to [`parse_topic_response`], writes [`Subscription::request_header_bytes`]
//! on the fresh stream, gates it with
//! [`Subscription::validate_publisher_header`], and then feeds every socket
//! read through [`broadcast_payload`].

use vstd::prelude::*;
use vstd::slice::slice_to_vec;
use crate::RosError;
use crate::header::{ConnectionHeader, HeaderModel, spec_encode, spec_header_body, str_eq};
use crate::publication::spec_handshake_check;

verus! {

/// The mathematical value of a `Subscription`: its request header, the set of
/// publisher URIs with a successfully established reader, and the broadcast
/// queue capacity.
pub struct SubscriptionModel {
    pub header: HeaderModel,
    pub known_publishers: Seq<Seq<char>>,
    pub queue_size: usize,
}

/// One topic's subscriber endpoint. Creation opens no sockets; publishers are
/// attached one URI at a time by the I/O layer.
pub struct Subscription {
    connection_header: ConnectionHeader,
    known_publishers: Vec<String>,
    queue_size: usize,
}

impl View for Subscription {
    type V = SubscriptionModel;

    closed spec fn view(&self) -> SubscriptionModel {
        SubscriptionModel {
            header: self.connection_header@,
            known_publishers: self.known_publishers@.map_values(|s: String| s@),
            queue_size: self.queue_size,
        }
    }
}

impl Subscription {
    /// The request header always fits its wire encoding.
    pub open spec fn wf(&self) -> bool {
        spec_header_body(self@.header, false).len() + 4 <= u32::MAX
    }

    /// Creates the subscription record: no sockets yet, no known publishers.
    /// `queue_size` is the capacity of the broadcast queue the I/O layer
    /// creates for it.
    pub fn new(
        node_name: &str,
        topic_name: &str,
        topic_type: &str,
        queue_size: usize,
        msg_definition: String,
        md5sum: String,
    ) -> (r: Subscription)
        ensures
            r@.header == (HeaderModel {
                caller_id: node_name@,
                latching: false,
                msg_definition: msg_definition@,
                md5sum: md5sum@,
                topic: topic_name@,
                topic_type: topic_type@,
                tcp_nodelay: false,
            }),
            r@.known_publishers == Seq::<Seq<char>>::empty(),
            r@.queue_size == queue_size,
    {
        let r = Subscription {
            connection_header: ConnectionHeader {
                caller_id: node_name.to_owned(),
                latching: false,
                msg_definition: msg_definition,
                md5sum: md5sum,
                topic: topic_name.to_owned(),
                topic_type: topic_type.to_owned(),
                tcp_nodelay: false,
            },
            known_publishers: Vec::new(),
            queue_size: queue_size,
        };
        proof {
            assert(r@.known_publishers =~= Seq::<Seq<char>>::empty());
        }
        r
    }

    /// The fully qualified name of the topic's message type.
    pub fn topic_type(&self) -> (r: &str)
        ensures
            r@ == self@.header.topic_type,
    {
        self.connection_header.topic_type.as_str()
    }

    /// The capacity of the broadcast queue.
    pub fn queue_size(&self) -> (r: usize)
        ensures
            r == self@.queue_size,
    {
        self.queue_size
    }

    /// The header this subscription writes first on a freshly dialed stream:
    /// its own header, without the definition and latching fields.
    pub fn request_header_bytes(&self) -> (r: Vec<u8>)
        requires
            self.wf(),
        ensures
            r@ == spec_encode(self@.header, false),
    {
        self.connection_header.to_bytes(false)
    }

    /// The membership check that starts `add_publisher_source`: true exactly
    /// when the URI is not yet known, in which case the I/O layer spawns a
    /// reader for it. A URI already known needs no new work, so a repeated
    /// call is a no-op; the set itself grows only through
    /// [`Subscription::record_publisher`], after a handshake succeeds, so a
    /// failed connection leaves the slot free for a later retry.
    pub fn add_publisher_source(&self, publisher_uri: &str) -> (start: bool)
        ensures
            start == !self@.known_publishers.contains(publisher_uri@),
    {
        let mut i: usize = 0;
        while i < self.known_publishers.len()
            invariant
                i <= self.known_publishers@.len(),
                forall|j: int| 0 <= j < i ==> self.known_publishers@[j]@ != publisher_uri@,
            decreases self.known_publishers@.len() - i,
        {
            if str_eq(self.known_publishers[i].as_str(), publisher_uri) {
                proof {
                    assert(self@.known_publishers[i as int] == publisher_uri@);
                }
                return false;
            }
            i = i + 1;
        }
        proof {
            assert forall|j: int| 0 <= j < self@.known_publishers.len() implies self@.known_publishers[j]
                != publisher_uri@ by {
                assert(self@.known_publishers[j] == self.known_publishers@[j]@);
            }
        }
        true
    }

    /// Records a publisher URI once its handshake has succeeded; from then on
    /// `add_publisher_source` refuses to start a second reader for it.
    pub fn record_publisher(&mut self, publisher_uri: &str)
        ensures
            final(self)@.known_publishers == old(self)@.known_publishers.push(publisher_uri@),
            final(self)@.header == old(self)@.header,
            final(self)@.queue_size == old(self)@.queue_size,
    {
        self.known_publishers.push(publisher_uri.to_owned());
        proof {
            assert(self@.known_publishers =~= old(self)@.known_publishers.push(publisher_uri@));
        }
    }

    /// The dialing side of the handshake gate: decode the publisher's response
    /// header and reject the stream unless its md5sum equals ours.
    pub fn validate_publisher_header(&self, response: &[u8]) -> (r: Result<(), RosError>)
        ensures
            r == spec_handshake_check(self@.header.md5sum, response@),
    {
        match crate::header::from_bytes(response) {
            Err(e) => Err(e),
            Ok(h) => {
                if h.md5sum == self.connection_header.md5sum {
                    Ok(())
                } else {
                    Err(RosError::HandshakeError)
                }
            },
        }
    }

    /// Builds the body of the XMLRPC `requestTopic(caller_id, topic,
    /// [["TCPROS"]])` call this subscription sends to a candidate publisher.
    pub fn topic_request_body(&self) -> (r: Result<String, RosError>)
        ensures
            (r is Ok) == (xmlrpc_request_of("requestTopic"@, self@.header.caller_id, self@.header.topic, "TCPROS"@)
                is Some),
            r matches Ok(s) ==> Some(s@) == xmlrpc_request_of(
                "requestTopic"@,
                self@.header.caller_id,
                self@.header.topic,
                "TCPROS"@,
            ),
            r matches Err(e) ==> e == RosError::RpcError,
    {
        match xmlrpc_request_string(
            "requestTopic",
            self.connection_header.caller_id.as_str(),
            self.connection_header.topic.as_str(),
            "TCPROS",
        ) {
            Ok(s) => Ok(s),
            Err(_) => Err(RosError::RpcError),
        }
    }
}

/// What `serde_xmlrpc::request_to_string` returns for a one-protocol
/// `requestTopic`-shaped call: a function of the method name and the three
/// positional arguments alone, `None` where the builder fails.
pub uninterp spec fn xmlrpc_request_of(method: Seq<char>, caller_id: Seq<char>, topic: Seq<char>, protocol: Seq<char>) -> Option<Seq<char>>;

/// What `serde_xmlrpc::response_from_str` parses out of an XMLRPC method
/// response holding a `(code, status message, (protocol, host, port))` triple:
/// a function of the body text alone, `None` where the parse fails.
pub uninterp spec fn xmlrpc_topic_response_of(body: Seq<char>) -> Option<(i8, Seq<char>, (Seq<char>, Seq<char>, u16))>;

#[verifier::external_type_specification]
#[verifier::external_body]
pub struct ExXmlRpcError(serde_xmlrpc::Error);

/// Relies on `serde_xmlrpc::request_to_string`: the call body it renders
/// depends on the method name and the argument values alone.
#[verifier::external_body]
fn xmlrpc_request_string(method: &str, caller_id: &str, topic: &str, protocol: &str) -> (r: Result<
    String,
    serde_xmlrpc::Error,
>)
    ensures
        (r is Ok) == (xmlrpc_request_of(method@, caller_id@, topic@, protocol@) is Some),
        r matches Ok(s) ==> Some(s@) == xmlrpc_request_of(method@, caller_id@, topic@, protocol@),
{
    serde_xmlrpc::request_to_string(
        method,
        vec![
            serde_xmlrpc::Value::String(caller_id.to_owned()),
            serde_xmlrpc::Value::String(topic.to_owned()),
            serde_xmlrpc::Value::Array(
                vec![serde_xmlrpc::Value::Array(vec![serde_xmlrpc::Value::String(protocol.to_owned())])],
            ),
        ],
    )
}

/// Relies on `serde_xmlrpc::response_from_str`: what it parses depends on the
/// response body alone.
#[verifier::external_body]
fn xmlrpc_parse_topic_response(body: &str) -> (r: Result<(i8, String, (String, String, u16)), serde_xmlrpc::Error>)
    ensures
        (r is Ok) == (xmlrpc_topic_response_of(body@) is Some),
        r matches Ok(t) ==> Some((t.0, t.1@, (t.2.0@, t.2.1@, t.2.2))) == xmlrpc_topic_response_of(body@),
{
    serde_xmlrpc::response_from_str::<(i8, String, (String, String, u16))>(body)
}

/// A TCPROS endpoint a publisher offered back: dial `host:port`.
pub struct TcpEndpoint {
    pub host: String,
    pub port: u16,
}

/// The decision on a `requestTopic` response body: a body that does not parse
/// is an `RpcError`; a parsed triple offering a protocol other than `TCPROS`
/// is `Unsupported` and nothing is dialed; otherwise the offered host and port
/// are returned. The response's code and status message are not consulted.
pub fn parse_topic_response(body: &str) -> (r: Result<TcpEndpoint, RosError>)
    ensures
        match xmlrpc_topic_response_of(body@) {
            None => r == Err::<TcpEndpoint, RosError>(RosError::RpcError),
            Some(t) => if t.2.0 == "TCPROS"@ {
                r matches Ok(ep) && ep.host@ == t.2.1 && ep.port == t.2.2
            } else {
                r == Err::<TcpEndpoint, RosError>(RosError::Unsupported)
            },
        },
{
    match xmlrpc_parse_topic_response(body) {
        Err(_) => Err(RosError::RpcError),
        Ok((_code, _description, (protocol, hostname, port))) => {
            if str_eq(protocol.as_str(), "TCPROS") {
                Ok(TcpEndpoint { host: hostname, port: port })
            } else {
                Err(RosError::Unsupported)
            }
        },
    }
}

/// The read loop's step: a non-empty read is broadcast as one payload,
/// byte for byte; a zero-byte read means the stream is done and is closed.
pub fn broadcast_payload(read_buffer: &Vec<u8>) -> (r: Option<Vec<u8>>)
    ensures
        read_buffer@.len() == 0 ==> r is None,
        read_buffer@.len() > 0 ==> r is Some,
        r matches Some(v) ==> v@ == read_buffer@,
{
    if read_buffer.len() == 0 {
        None
    } else {
        Some(slice_to_vec(read_buffer.as_slice()))
    }
}

/// Publisher registration is idempotent: once a URI is recorded it is known,
/// every other known URI stays known, and `add_publisher_source` starts no
/// reader for a known URI (its result is the negation of membership).
pub proof fn lemma_publisher_dedup(known: Seq<Seq<char>>, uri: Seq<char>)
    ensures
        known.push(uri).contains(uri),
        forall|v: Seq<char>| known.contains(v) ==> #[trigger] known.push(uri).contains(v),
{
    assert(known.push(uri)[known.len() as int] == uri);
    assert forall|v: Seq<char>| known.contains(v) implies #[trigger] known.push(uri).contains(v) by {
        let i = choose|i: int| 0 <= i < known.len() && known[i] == v;
        assert(known.push(uri)[i] == v);
    }
}

} // verus!
