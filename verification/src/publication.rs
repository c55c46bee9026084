//! The publisher side of one topic: the acceptor's handshake decision and the
//! fan-out bookkeeping over the set of accepted peer streams.
//!
//! The listener socket, the accept loop and the bounded submit queue live in
//! the I/O layer; it feeds each subscriber's handshake bytes to
//! [`Publication::handle_subscriber_handshake`], writes every submitted
//! payload to every peer, and hands the per-peer write results to
//! [`retain_successful`].

use vstd::prelude::*;
use crate::RosError;
use crate::header::{ConnectionHeader, HeaderModel, spec_decode, spec_encode, spec_header_body};

verus! {

/// The acceptor's gate on a peer header: the bytes must decode, and the peer's
/// md5sum must equal ours; any mismatch forbids data flow on that stream.
pub open spec fn spec_handshake_check(expected_md5: Seq<char>, peer: Seq<u8>) -> Result<(), RosError> {
    match spec_decode(peer) {
        None => Err(RosError::MalformedHeader),
        Some(h) => if h.md5sum == expected_md5 {
            Ok(())
        } else {
            Err(RosError::HandshakeError)
        },
    }
}

/// An md5 mismatch (or an undecodable header) on either side never passes the
/// handshake gate, so no data byte of such a peer reaches the peer set or the
/// broadcast queue.
pub proof fn lemma_md5_mismatch_rejected(expected_md5: Seq<char>, peer: Seq<u8>)
    requires
        match spec_decode(peer) {
            Some(h) => h.md5sum != expected_md5,
            None => true,
        },
    ensures
        spec_handshake_check(expected_md5, peer) is Err,
{
}

/// The mathematical value of a `Publication`: the response header it answers
/// subscribers with, and the port its listener was bound to.
pub struct PublicationModel {
    pub response: HeaderModel,
    pub port: u16,
    pub queue_size: usize,
}

/// One topic's publisher endpoint. Created once the I/O layer has bound a
/// listener; the port never changes afterwards.
pub struct Publication {
    header: ConnectionHeader,
    listener_port: u16,
    queue_size: usize,
}

impl View for Publication {
    type V = PublicationModel;

    closed spec fn view(&self) -> PublicationModel {
        PublicationModel { response: self.header@, port: self.listener_port, queue_size: self.queue_size }
    }
}

impl Publication {
    /// The response header always fits its wire encoding.
    pub open spec fn wf(&self) -> bool {
        spec_header_body(self@.response, true).len() + 4 <= u32::MAX
    }

    /// Records a created publication. The listener has already been bound by
    /// the I/O layer on the requested host with port 0; the port the system
    /// assigned comes in as `listener_port` and is fixed for the lifetime of
    /// the value. `queue_size` is the capacity of the bounded submit queue.
    pub fn new(
        node_name: &str,
        latching: bool,
        topic_name: &str,
        listener_port: u16,
        queue_size: usize,
        msg_definition: &str,
        md5sum: &str,
        topic_type: &str,
    ) -> (r: Publication)
        requires
            spec_header_body(
                (HeaderModel {
                    caller_id: node_name@,
                    latching: latching,
                    msg_definition: msg_definition@,
                    md5sum: md5sum@,
                    topic: topic_name@,
                    topic_type: topic_type@,
                    tcp_nodelay: false,
                }),
                true,
            ).len() + 4 <= u32::MAX,
        ensures
            r@.response == (HeaderModel {
                caller_id: node_name@,
                latching: latching,
                msg_definition: msg_definition@,
                md5sum: md5sum@,
                topic: topic_name@,
                topic_type: topic_type@,
                tcp_nodelay: false,
            }),
            r@.port == listener_port,
            r@.queue_size == queue_size,
            r.wf(),
    {
        Publication {
            header: ConnectionHeader {
                caller_id: node_name.to_owned(),
                latching: latching,
                msg_definition: msg_definition.to_owned(),
                md5sum: md5sum.to_owned(),
                topic: topic_name.to_owned(),
                topic_type: topic_type.to_owned(),
                tcp_nodelay: false,
            },
            listener_port: listener_port,
            queue_size: queue_size,
        }
    }

    /// The port assigned at creation.
    pub fn port(&self) -> (r: u16)
        ensures
            r == self@.port,
    {
        self.listener_port
    }

    /// The fully qualified name of the topic's message type.
    pub fn topic_type(&self) -> (r: &str)
        ensures
            r@ == self@.response.topic_type,
    {
        self.header.topic_type.as_str()
    }

    /// The capacity of the bounded submit queue.
    pub fn queue_size(&self) -> (r: usize)
        ensures
            r == self@.queue_size,
    {
        self.queue_size
    }

    /// The acceptor's decision on one subscriber dial: decode the peer's
    /// header, compare md5sums, and on agreement answer with this
    /// publication's own header (definition and latching included) so the
    /// I/O layer can write it back and insert the stream into the peer set.
    /// On any failure the stream is dropped without a response.
    pub fn handle_subscriber_handshake(&self, request: &[u8]) -> (r: Result<Vec<u8>, RosError>)
        requires
            self.wf(),
        ensures
            (r is Ok) == (spec_handshake_check(self@.response.md5sum, request@) is Ok),
            r matches Ok(resp) ==> resp@ == spec_encode(self@.response, true),
            r matches Err(e) ==> spec_handshake_check(self@.response.md5sum, request@) == Err::<(), RosError>(e),
    {
        match crate::header::from_bytes(request) {
            Err(e) => Err(e),
            Ok(h) => {
                if h.md5sum == self.header.md5sum {
                    Ok(self.header.to_bytes(true))
                } else {
                    Err(RosError::HandshakeError)
                }
            },
        }
    }
}

/// The response a publication answers an accepted subscriber with decodes
/// back to exactly its own header, so the two ends of an accepted stream
/// agree on topic, type and md5sum.
pub proof fn lemma_response_round_trip(p: Publication)
    requires
        p.wf(),
    ensures
        crate::header::spec_decode(spec_encode(p@.response, true)) == Some(p@.response),
{
    crate::header::lemma_encode_decode(p@.response, true);
}

/// The peers left after one fan-out pass: those whose write succeeded, in
/// their original order.
pub open spec fn spec_survivors<T>(s: Seq<T>, ok: Seq<bool>) -> Seq<T>
    decreases s.len(),
{
    if s.len() == 0 {
        Seq::empty()
    } else {
        let rest = spec_survivors(s.drop_first(), ok.drop_first());
        if ok[0] {
            seq![s[0]] + rest
        } else {
            rest
        }
    }
}

/// Removes every peer whose write failed during a fan-out pass. Surviving
/// peers keep their relative positions; a failed peer is removed at once and
/// never retried.
pub fn retain_successful<T>(streams: &mut Vec<T>, write_ok: &Vec<bool>)
    requires
        old(streams)@.len() == write_ok@.len(),
    ensures
        final(streams)@ == spec_survivors(old(streams)@, write_ok@),
{
    let ghost s = old(streams)@;
    let ghost ok = write_ok@;
    let n = streams.len();
    let mut i: usize = n;
    proof {
        assert(s.skip(n as int) =~= Seq::<T>::empty());
        assert(streams@ =~= s.take(n as int) + spec_survivors(s.skip(n as int), ok.skip(n as int)));
    }
    while i > 0
        invariant
            i <= n,
            n == s.len(),
            ok.len() == n,
            n == write_ok@.len(),
            ok == write_ok@,
            streams@ == s.take(i as int) + spec_survivors(s.skip(i as int), ok.skip(i as int)),
        decreases i,
    {
        i = i - 1;
        let ghost pre = streams@;
        proof {
            assert(s.skip(i as int).drop_first() =~= s.skip(i as int + 1));
            assert(ok.skip(i as int).drop_first() =~= ok.skip(i as int + 1));
        }
        if !write_ok[i] {
            streams.remove(i);
            proof {
                assert(spec_survivors(s.skip(i as int), ok.skip(i as int)) == spec_survivors(
                    s.skip(i as int + 1),
                    ok.skip(i as int + 1),
                ));
                assert(streams@ =~= pre.remove(i as int));
                assert(pre.remove(i as int) =~= s.take(i as int) + spec_survivors(s.skip(i as int + 1), ok.skip(i as int + 1)));
            }
        } else {
            proof {
                assert(spec_survivors(s.skip(i as int), ok.skip(i as int)) =~= seq![s[i as int]] + spec_survivors(
                    s.skip(i as int + 1),
                    ok.skip(i as int + 1),
                ));
                assert(streams@ =~= s.take(i as int) + spec_survivors(s.skip(i as int), ok.skip(i as int)));
            }
        }
    }
    proof {
        assert(s.skip(0) =~= s);
        assert(ok.skip(0) =~= ok);
        assert(s.take(0) + spec_survivors(s, ok) =~= spec_survivors(s, ok));
    }
}

/// The bytes a peer has been handed since its acceptance: the concatenation of
/// every successfully submitted payload, in submission order.
pub open spec fn stream_bytes(payloads: Seq<Seq<u8>>) -> Seq<u8> {
    payloads.flatten()
}

/// Per-peer framing is prefix-preserving: after a payload is submitted, the
/// byte stream handed to a connected peer starts with exactly that payload,
/// whatever is submitted afterwards.
pub proof fn lemma_first_payload_prefix(payloads: Seq<Seq<u8>>)
    requires
        payloads.len() >= 1,
    ensures
        stream_bytes(payloads).len() >= payloads[0].len(),
        stream_bytes(payloads).take(payloads[0].len() as int) == payloads[0],
{
    assert(payloads.flatten() =~= payloads.first() + payloads.drop_first().flatten());
    assert((payloads.first() + payloads.drop_first().flatten()).take(payloads[0].len() as int) =~= payloads[0]);
}

/// Submitting one more payload appends it to every connected peer's stream and
/// disturbs nothing already sent.
pub proof fn lemma_submit_appends(payloads: Seq<Seq<u8>>, m: Seq<u8>)
    ensures
        stream_bytes(payloads.push(m)) == stream_bytes(payloads) + m,
    decreases payloads.len(),
{
    let p2 = payloads.push(m);
    if payloads.len() == 0 {
        assert(p2.drop_first() =~= Seq::<Seq<u8>>::empty());
        assert(p2.first() == m);
        assert(p2.flatten() == p2.first() + p2.drop_first().flatten());
        assert(p2.flatten() =~= payloads.flatten() + m);
    } else {
        assert(p2.first() =~= payloads.first());
        assert(p2.drop_first() =~= payloads.drop_first().push(m));
        lemma_submit_appends(payloads.drop_first(), m);
        assert(p2.flatten() =~= payloads.flatten() + m);
    }
}

} // verus!
