//! The TCPROS connection-header codec.
//!
//! A header travels as a length-prefixed block of length-prefixed `key=value`
//! entries: the block opens with a little-endian `u32` byte count, and each
//! entry opens with its own little-endian `u32` byte count followed by the key,
//! one `=` byte, and the value. `spec_encode` and `spec_decode` are the
//! mathematical forms of the two directions; `to_bytes` and `from_bytes` are
//! the executable codec, proved against them.

use vstd::prelude::*;
use vstd::bytes::{lemma_auto_spec_u32_to_from_le_bytes, spec_u32_from_le_bytes, spec_u32_to_le_bytes, u32_from_le_bytes, u32_to_le_bytes};
use vstd::utf8::{decode_utf8, encode_utf8, encode_utf8_decode_utf8, encode_utf8_valid_utf8, valid_utf8};
use vstd::slice::{slice_index_get, slice_subrange, slice_to_vec};
use vstd::string::StringSliceAdditionalSpecFns;
use crate::RosError;

verus! {

/// The key/value record exchanged at the start of every TCPROS connection.
///
/// `md5sum` identifies the message type's schema and is the sole compatibility
/// check between peers; `msg_definition` and `latching` are sent only by the
/// publisher's response, never by the subscriber's request.
pub struct ConnectionHeader {
    pub caller_id: String,
    pub latching: bool,
    pub msg_definition: String,
    pub md5sum: String,
    pub topic: String,
    pub topic_type: String,
    pub tcp_nodelay: bool,
}

/// The mathematical value of a `ConnectionHeader`: each string field as its
/// character sequence.
pub struct HeaderModel {
    pub caller_id: Seq<char>,
    pub latching: bool,
    pub msg_definition: Seq<char>,
    pub md5sum: Seq<char>,
    pub topic: Seq<char>,
    pub topic_type: Seq<char>,
    pub tcp_nodelay: bool,
}

impl View for ConnectionHeader {
    type V = HeaderModel;

    open spec fn view(&self) -> HeaderModel {
        HeaderModel {
            caller_id: self.caller_id@,
            latching: self.latching,
            msg_definition: self.msg_definition@,
            md5sum: self.md5sum@,
            topic: self.topic@,
            topic_type: self.topic_type@,
            tcp_nodelay: self.tcp_nodelay,
        }
    }
}

// The wire keys, as ASCII byte sequences: "caller_id", "topic", "topic_type",
// "md5sum", "message_definition", "latching", "tcp_nodelay". The byte 61 is '='.

pub open spec fn key_caller_id() -> Seq<u8> {
    seq![99u8, 97u8, 108u8, 108u8, 101u8, 114u8, 95u8, 105u8, 100u8]
}

pub open spec fn key_topic() -> Seq<u8> {
    seq![116u8, 111u8, 112u8, 105u8, 99u8]
}

pub open spec fn key_topic_type() -> Seq<u8> {
    seq![116u8, 111u8, 112u8, 105u8, 99u8, 95u8, 116u8, 121u8, 112u8, 101u8]
}

pub open spec fn key_md5sum() -> Seq<u8> {
    seq![109u8, 100u8, 53u8, 115u8, 117u8, 109u8]
}

pub open spec fn key_msg_definition() -> Seq<u8> {
    seq![109u8, 101u8, 115u8, 115u8, 97u8, 103u8, 101u8, 95u8, 100u8, 101u8, 102u8, 105u8, 110u8, 105u8, 116u8, 105u8, 111u8, 110u8]
}

pub open spec fn key_latching() -> Seq<u8> {
    seq![108u8, 97u8, 116u8, 99u8, 104u8, 105u8, 110u8, 103u8]
}

pub open spec fn key_tcp_nodelay() -> Seq<u8> {
    seq![116u8, 99u8, 112u8, 95u8, 110u8, 111u8, 100u8, 101u8, 108u8, 97u8, 121u8]
}

fn key_caller_id_v() -> (r: Vec<u8>)
    ensures
        r@ == key_caller_id(),
{
    vec![99u8, 97u8, 108u8, 108u8, 101u8, 114u8, 95u8, 105u8, 100u8]
}

fn key_topic_v() -> (r: Vec<u8>)
    ensures
        r@ == key_topic(),
{
    vec![116u8, 111u8, 112u8, 105u8, 99u8]
}

fn key_topic_type_v() -> (r: Vec<u8>)
    ensures
        r@ == key_topic_type(),
{
    vec![116u8, 111u8, 112u8, 105u8, 99u8, 95u8, 116u8, 121u8, 112u8, 101u8]
}

fn key_md5sum_v() -> (r: Vec<u8>)
    ensures
        r@ == key_md5sum(),
{
    vec![109u8, 100u8, 53u8, 115u8, 117u8, 109u8]
}

fn key_msg_definition_v() -> (r: Vec<u8>)
    ensures
        r@ == key_msg_definition(),
{
    vec![109u8, 101u8, 115u8, 115u8, 97u8, 103u8, 101u8, 95u8, 100u8, 101u8, 102u8, 105u8, 110u8, 105u8, 116u8, 105u8, 111u8, 110u8]
}

fn key_latching_v() -> (r: Vec<u8>)
    ensures
        r@ == key_latching(),
{
    vec![108u8, 97u8, 116u8, 99u8, 104u8, 105u8, 110u8, 103u8]
}

fn key_tcp_nodelay_v() -> (r: Vec<u8>)
    ensures
        r@ == key_tcp_nodelay(),
{
    vec![116u8, 99u8, 112u8, 95u8, 110u8, 111u8, 100u8, 101u8, 108u8, 97u8, 121u8]
}

/// One wire entry: a `u32` length prefix, the key, `=`, the value.
pub open spec fn wire_entry(key: Seq<u8>, value: Seq<u8>) -> Seq<u8> {
    spec_u32_to_le_bytes((key.len() + 1 + value.len()) as u32) + key + seq![61u8] + value
}

/// Boolean fields travel as the single byte `1` or `0`.
pub open spec fn bool_bytes(b: bool) -> Seq<u8> {
    if b {
        seq![49u8]
    } else {
        seq![48u8]
    }
}

/// The entry block of an encoded header. The subscriber's request omits
/// `message_definition` and `latching`; the publisher's response carries them.
pub open spec fn spec_header_body(h: HeaderModel, include_definition_and_latching: bool) -> Seq<u8> {
    wire_entry(key_caller_id(), encode_utf8(h.caller_id)) + wire_entry(key_topic(), encode_utf8(h.topic)) + wire_entry(
        key_topic_type(),
        encode_utf8(h.topic_type),
    ) + wire_entry(key_md5sum(), encode_utf8(h.md5sum)) + (if include_definition_and_latching {
        wire_entry(key_msg_definition(), encode_utf8(h.msg_definition)) + wire_entry(key_latching(), bool_bytes(h.latching))
    } else {
        Seq::<u8>::empty()
    }) + wire_entry(key_tcp_nodelay(), bool_bytes(h.tcp_nodelay))
}

/// A whole encoded header: the block length, then the block.
pub open spec fn spec_encode(h: HeaderModel, include_definition_and_latching: bool) -> Seq<u8> {
    spec_u32_to_le_bytes(spec_header_body(h, include_definition_and_latching).len() as u32) + spec_header_body(
        h,
        include_definition_and_latching,
    )
}

/// A header in the middle of being decoded: the four required fields are still
/// optional, the rest sit at their defaults.
pub struct PartialHeader {
    pub caller_id: Option<Seq<char>>,
    pub topic: Option<Seq<char>>,
    pub topic_type: Option<Seq<char>>,
    pub md5sum: Option<Seq<char>>,
    pub msg_definition: Seq<char>,
    pub latching: bool,
    pub tcp_nodelay: bool,
}

pub open spec fn empty_partial() -> PartialHeader {
    PartialHeader {
        caller_id: None,
        topic: None,
        topic_type: None,
        md5sum: None,
        msg_definition: Seq::<char>::empty(),
        latching: false,
        tcp_nodelay: false,
    }
}

/// The position of the first `=` byte of an entry, if any.
pub open spec fn find_eq_byte(e: Seq<u8>) -> Option<int>
    decreases e.len(),
{
    if e.len() == 0 {
        None
    } else if e[0] == 61u8 {
        Some(0int)
    } else {
        match find_eq_byte(e.drop_first()) {
            None => None,
            Some(p) => Some(p + 1),
        }
    }
}

/// What one parsed `key`/`value` pair does to the accumulated header. Unknown
/// keys are ignored; a recognized string field must be UTF-8; a repeated key
/// overwrites the earlier value.
pub open spec fn spec_apply_kv(acc: PartialHeader, key: Seq<u8>, value: Seq<u8>) -> Option<PartialHeader> {
    if key == key_caller_id() {
        if valid_utf8(value) {
            Some(PartialHeader { caller_id: Some(decode_utf8(value)), ..acc })
        } else {
            None
        }
    } else if key == key_topic() {
        if valid_utf8(value) {
            Some(PartialHeader { topic: Some(decode_utf8(value)), ..acc })
        } else {
            None
        }
    } else if key == key_topic_type() {
        if valid_utf8(value) {
            Some(PartialHeader { topic_type: Some(decode_utf8(value)), ..acc })
        } else {
            None
        }
    } else if key == key_md5sum() {
        if valid_utf8(value) {
            Some(PartialHeader { md5sum: Some(decode_utf8(value)), ..acc })
        } else {
            None
        }
    } else if key == key_msg_definition() {
        if valid_utf8(value) {
            Some(PartialHeader { msg_definition: decode_utf8(value), ..acc })
        } else {
            None
        }
    } else if key == key_latching() {
        Some(PartialHeader { latching: value == seq![49u8], ..acc })
    } else if key == key_tcp_nodelay() {
        Some(PartialHeader { tcp_nodelay: value == seq![49u8], ..acc })
    } else {
        Some(acc)
    }
}

/// One entry's payload, split at its first `=`; an entry without `=` is
/// malformed.
pub open spec fn spec_apply_entry(acc: PartialHeader, e: Seq<u8>) -> Option<PartialHeader> {
    match find_eq_byte(e) {
        None => None,
        Some(p) => spec_apply_kv(acc, e.take(p), e.skip(p + 1)),
    }
}

/// Folds the entries of a block, left to right. Fails on a truncated length
/// prefix, an entry length that runs past the block, or a malformed entry.
pub open spec fn spec_parse_entries(b: Seq<u8>, acc: PartialHeader) -> Option<PartialHeader>
    decreases b.len(),
{
    if b.len() == 0 {
        Some(acc)
    } else if b.len() < 4 {
        None
    } else {
        let l = spec_u32_from_le_bytes(b.take(4)) as int;
        if 4 + l > b.len() {
            None
        } else {
            match spec_apply_entry(acc, b.subrange(4, 4 + l)) {
                None => None,
                Some(a2) => spec_parse_entries(b.skip(4 + l), a2),
            }
        }
    }
}

/// A decode succeeds only when `caller_id`, `topic`, `topic_type` and `md5sum`
/// were all present.
pub open spec fn finish_partial(p: PartialHeader) -> Option<HeaderModel> {
    match (p.caller_id, p.topic, p.topic_type, p.md5sum) {
        (Some(c), Some(t), Some(ty), Some(m)) => Some(
            HeaderModel {
                caller_id: c,
                latching: p.latching,
                msg_definition: p.msg_definition,
                md5sum: m,
                topic: t,
                topic_type: ty,
                tcp_nodelay: p.tcp_nodelay,
            },
        ),
        _ => None,
    }
}

/// The mathematical decoder: `Some` exactly on well-formed blocks whose length
/// prefix covers the rest of the input.
pub open spec fn spec_decode(data: Seq<u8>) -> Option<HeaderModel> {
    if data.len() < 4 {
        None
    } else {
        let total = spec_u32_from_le_bytes(data.take(4)) as int;
        if data.len() != 4 + total {
            None
        } else {
            match spec_parse_entries(data.skip(4), empty_partial()) {
                None => None,
                Some(p) => finish_partial(p),
            }
        }
    }
}

#[verifier::external_type_specification]
#[verifier::external_body]
pub struct ExFromUtf8Error(std::string::FromUtf8Error);

/// Relies on `String::from_utf8`: it succeeds exactly on UTF-8 input and keeps
/// the bytes of the string it returns.
pub assume_specification [ String::from_utf8 ](v: Vec<u8>) -> (r: Result<String, std::string::FromUtf8Error>)
    ensures
        (r is Ok) == valid_utf8(v@),
        r matches Ok(s) ==> encode_utf8(s@) == v@,
;

/// Byte-for-byte equality of two slices.
pub fn bytes_eq(a: &[u8], b: &[u8]) -> (r: bool)
    ensures
        r == (a@ == b@),
{
    if a.len() != b.len() {
        return false;
    }
    let mut i: usize = 0;
    while i < a.len()
        invariant
            i <= a@.len(),
            a@.len() == b@.len(),
            forall|j: int| 0 <= j < i ==> a@[j] == b@[j],
        decreases a@.len() - i,
    {
        if *slice_index_get(a, i) != *slice_index_get(b, i) {
            return false;
        }
        i = i + 1;
    }
    proof {
        assert(a@ =~= b@);
    }
    true
}

/// Equality of two strings, decided byte for byte.
pub fn str_eq(a: &str, b: &str) -> (r: bool)
    ensures
        r == (a@ == b@),
{
    let r = bytes_eq(a.as_bytes(), b.as_bytes());
    proof {
        if a.spec_bytes() == b.spec_bytes() {
            encode_utf8_decode_utf8(a@);
            encode_utf8_decode_utf8(b@);
        }
    }
    r
}

proof fn lemma_find_eq_byte_at(e: Seq<u8>, p: int)
    requires
        0 <= p < e.len(),
        e[p] == 61u8,
        forall|j: int| 0 <= j < p ==> e[j] != 61u8,
    ensures
        find_eq_byte(e) == Some(p),
    decreases p,
{
    if p == 0 {
    } else {
        lemma_find_eq_byte_at(e.drop_first(), p - 1);
    }
}

proof fn lemma_find_eq_byte_none(e: Seq<u8>)
    requires
        forall|j: int| 0 <= j < e.len() ==> e[j] != 61u8,
    ensures
        find_eq_byte(e) is None,
    decreases e.len(),
{
    if e.len() == 0 {
    } else {
        lemma_find_eq_byte_none(e.drop_first());
    }
}

/// The one-byte wire form of a boolean field.
fn bool_value(b: bool) -> (r: Vec<u8>)
    ensures
        r@ == bool_bytes(b),
{
    let mut v: Vec<u8> = Vec::new();
    if b {
        v.push(49u8);
    } else {
        v.push(48u8);
    }
    proof {
        assert(v@ =~= bool_bytes(b));
    }
    v
}

/// True exactly when the value bytes are the single byte `1`.
fn is_one(v: &[u8]) -> (r: bool)
    ensures
        r == (v@ == seq![49u8]),
{
    if v.len() == 1 && *slice_index_get(v, 0) == 49u8 {
        proof {
            assert(v@ =~= seq![49u8]);
        }
        true
    } else {
        proof {
            if v@ == seq![49u8] {
                assert(v@.len() == 1);
                assert(v@[0] == 49u8);
            }
        }
        false
    }
}

/// Appends one wire entry to a buffer being encoded.
fn push_entry(out: &mut Vec<u8>, key: &[u8], value: &[u8])
    requires
        key@.len() + 1 + value@.len() <= u32::MAX,
    ensures
        final(out)@ == old(out)@ + wire_entry(key@, value@),
{
    proof {
        lemma_auto_spec_u32_to_from_le_bytes();
    }
    let l: usize = key.len() + 1 + value.len();
    let mut lb = u32_to_le_bytes(l as u32);
    out.append(&mut lb);
    let mut kv = slice_to_vec(key);
    out.append(&mut kv);
    out.push(61u8);
    let mut vv = slice_to_vec(value);
    out.append(&mut vv);
    proof {
        assert(out@ =~= old(out)@ + wire_entry(key@, value@));
    }
}

impl ConnectionHeader {
    /// Encodes the header for the wire. The subscriber's request passes
    /// `false` and omits `message_definition` and `latching`; the publisher's
    /// response passes `true` and carries them.
    pub fn to_bytes(&self, include_definition_and_latching: bool) -> (r: Vec<u8>)
        requires
            spec_header_body(self@, include_definition_and_latching).len() + 4 <= u32::MAX,
        ensures
            r@ == spec_encode(self@, include_definition_and_latching),
    {
        proof {
            lemma_auto_spec_u32_to_from_le_bytes();
        }
        let ghost body = spec_header_body(self@, include_definition_and_latching);
        let mut body_v: Vec<u8> = Vec::new();
        let kc = key_caller_id_v();
        push_entry(&mut body_v, kc.as_slice(), self.caller_id.as_str().as_bytes());
        let kt = key_topic_v();
        push_entry(&mut body_v, kt.as_slice(), self.topic.as_str().as_bytes());
        let ky = key_topic_type_v();
        push_entry(&mut body_v, ky.as_slice(), self.topic_type.as_str().as_bytes());
        let km = key_md5sum_v();
        push_entry(&mut body_v, km.as_slice(), self.md5sum.as_str().as_bytes());
        if include_definition_and_latching {
            let kd = key_msg_definition_v();
            push_entry(&mut body_v, kd.as_slice(), self.msg_definition.as_str().as_bytes());
            let kl = key_latching_v();
            let lv = bool_value(self.latching);
            push_entry(&mut body_v, kl.as_slice(), lv.as_slice());
        }
        let kn = key_tcp_nodelay_v();
        let nv = bool_value(self.tcp_nodelay);
        push_entry(&mut body_v, kn.as_slice(), nv.as_slice());
        proof {
            assert(body_v@ =~= body);
        }
        let total: usize = body_v.len();
        let mut r = u32_to_le_bytes(total as u32);
        r.append(&mut body_v);
        proof {
            assert(r@ =~= spec_encode(self@, include_definition_and_latching));
        }
        r
    }
}

/// True when the header's wire encoding fits its `u32` length prefixes, which
/// is what `to_bytes` requires. Callers that take a header from outside check
/// this once before encoding.
pub fn header_fits(h: &ConnectionHeader, include_definition_and_latching: bool) -> (r: bool)
    ensures
        r == (spec_header_body(h@, include_definition_and_latching).len() + 4 <= u32::MAX),
{
    proof {
        lemma_auto_spec_u32_to_from_le_bytes();
    }
    let c = h.caller_id.as_str().as_bytes().len() as u128;
    let t = h.topic.as_str().as_bytes().len() as u128;
    let y = h.topic_type.as_str().as_bytes().len() as u128;
    let m = h.md5sum.as_str().as_bytes().len() as u128;
    let d = h.msg_definition.as_str().as_bytes().len() as u128;
    let total: u128 = if include_definition_and_latching {
        104 + c + t + y + m + d
    } else {
        67 + c + t + y + m
    };
    proof {
        let body = spec_header_body(h@, include_definition_and_latching);
        assert(wire_entry(key_caller_id(), encode_utf8(h@.caller_id)).len() == 14 + c);
        assert(wire_entry(key_topic(), encode_utf8(h@.topic)).len() == 10 + t);
        assert(wire_entry(key_topic_type(), encode_utf8(h@.topic_type)).len() == 15 + y);
        assert(wire_entry(key_md5sum(), encode_utf8(h@.md5sum)).len() == 11 + m);
        assert(wire_entry(key_msg_definition(), encode_utf8(h@.msg_definition)).len() == 23 + d);
        assert(wire_entry(key_latching(), bool_bytes(h@.latching)).len() == 14);
        assert(wire_entry(key_tcp_nodelay(), bool_bytes(h@.tcp_nodelay)).len() == 17);
        assert(body.len() == total as int);
    }
    total + 4 <= u32::MAX as u128
}

/// The view of a decoder register that may not have been filled yet.
pub open spec fn opt_view(o: Option<String>) -> Option<Seq<char>> {
    match o {
        None => None,
        Some(s) => Some(s@),
    }
}

/// Decodes one connection-header block. Returns `MalformedHeader` on a
/// truncated block, a bad length prefix, an entry without `=`, a recognized
/// field that is not UTF-8, or a missing required field.
pub fn from_bytes(data: &[u8]) -> (r: Result<ConnectionHeader, RosError>)
    ensures
        (r is Ok) == (spec_decode(data@) is Some),
        r matches Ok(h) ==> spec_decode(data@) == Some(h@),
        r matches Err(e) ==> e == RosError::MalformedHeader,
{
    let n = data.len();
    if n < 4 {
        return Err(RosError::MalformedHeader);
    }
    proof {
        lemma_auto_spec_u32_to_from_le_bytes();
        assert(data@.subrange(0, 4) =~= data@.take(4));
    }
    let total = u32_from_le_bytes(slice_subrange(data, 0, 4)) as usize;
    if n - 4 != total {
        return Err(RosError::MalformedHeader);
    }
    let mut caller_id: Option<String> = None;
    let mut topic: Option<String> = None;
    let mut topic_type: Option<String> = None;
    let mut md5sum: Option<String> = None;
    let mut msg_definition: String = String::new();
    let mut latching: bool = false;
    let mut tcp_nodelay: bool = false;
    let mut i: usize = 4;
    while i < n
        invariant
            4 <= i <= n,
            n == data@.len(),
            n - 4 == spec_u32_from_le_bytes(data@.take(4)) as int,
            spec_parse_entries(data@.skip(4), empty_partial()) == spec_parse_entries(
                data@.skip(i as int),
                PartialHeader {
                    caller_id: opt_view(caller_id),
                    topic: opt_view(topic),
                    topic_type: opt_view(topic_type),
                    md5sum: opt_view(md5sum),
                    msg_definition: msg_definition@,
                    latching: latching,
                    tcp_nodelay: tcp_nodelay,
                },
            ),
        decreases n - i,
    {
        let ghost acc = PartialHeader {
            caller_id: opt_view(caller_id),
            topic: opt_view(topic),
            topic_type: opt_view(topic_type),
            md5sum: opt_view(md5sum),
            msg_definition: msg_definition@,
            latching: latching,
            tcp_nodelay: tcp_nodelay,
        };
        let ghost b = data@.skip(i as int);
        if n - i < 4 {
            return Err(RosError::MalformedHeader);
        }
        proof {
            lemma_auto_spec_u32_to_from_le_bytes();
            assert(b.take(4) =~= data@.subrange(i as int, i as int + 4));
        }
        let l = u32_from_le_bytes(slice_subrange(data, i, i + 4)) as usize;
        if l > n - i - 4 {
            return Err(RosError::MalformedHeader);
        }
        let estart = i + 4;
        let eend = i + 4 + l;
        let entry = slice_subrange(data, estart, eend);
        proof {
            assert(entry@ =~= b.subrange(4, 4 + l as int));
        }
        match find_eq_pos(entry) {
            None => {
                return Err(RosError::MalformedHeader);
            },
            Some(p) => {
                let keysl = slice_subrange(entry, 0, p);
                let valsl = slice_subrange(entry, p + 1, l);
                proof {
                    assert(keysl@ =~= entry@.take(p as int));
                    assert(valsl@ =~= entry@.skip(p as int + 1));
                }
                let kc = key_caller_id_v();
                let kt = key_topic_v();
                let ky = key_topic_type_v();
                let km = key_md5sum_v();
                let kd = key_msg_definition_v();
                let kl = key_latching_v();
                let kn = key_tcp_nodelay_v();
                if bytes_eq(keysl, kc.as_slice()) {
                    match String::from_utf8(slice_to_vec(valsl)) {
                        Ok(s) => {
                            proof {
                                encode_utf8_decode_utf8(s@);
                            }
                            caller_id = Some(s);
                        },
                        Err(_) => {
                            return Err(RosError::MalformedHeader);
                        },
                    }
                } else if bytes_eq(keysl, kt.as_slice()) {
                    match String::from_utf8(slice_to_vec(valsl)) {
                        Ok(s) => {
                            proof {
                                encode_utf8_decode_utf8(s@);
                            }
                            topic = Some(s);
                        },
                        Err(_) => {
                            return Err(RosError::MalformedHeader);
                        },
                    }
                } else if bytes_eq(keysl, ky.as_slice()) {
                    match String::from_utf8(slice_to_vec(valsl)) {
                        Ok(s) => {
                            proof {
                                encode_utf8_decode_utf8(s@);
                            }
                            topic_type = Some(s);
                        },
                        Err(_) => {
                            return Err(RosError::MalformedHeader);
                        },
                    }
                } else if bytes_eq(keysl, km.as_slice()) {
                    match String::from_utf8(slice_to_vec(valsl)) {
                        Ok(s) => {
                            proof {
                                encode_utf8_decode_utf8(s@);
                            }
                            md5sum = Some(s);
                        },
                        Err(_) => {
                            return Err(RosError::MalformedHeader);
                        },
                    }
                } else if bytes_eq(keysl, kd.as_slice()) {
                    match String::from_utf8(slice_to_vec(valsl)) {
                        Ok(s) => {
                            proof {
                                encode_utf8_decode_utf8(s@);
                            }
                            msg_definition = s;
                        },
                        Err(_) => {
                            return Err(RosError::MalformedHeader);
                        },
                    }
                } else if bytes_eq(keysl, kl.as_slice()) {
                    latching = is_one(valsl);
                } else if bytes_eq(keysl, kn.as_slice()) {
                    tcp_nodelay = is_one(valsl);
                }
                proof {
                    assert(b.skip(4 + l as int) =~= data@.skip(eend as int));
                }
                i = eend;
            },
        }
    }
    match (caller_id, topic, topic_type, md5sum) {
        (Some(c), Some(t), Some(ty), Some(m)) => {
            let h = ConnectionHeader {
                caller_id: c,
                latching: latching,
                msg_definition: msg_definition,
                md5sum: m,
                topic: t,
                topic_type: ty,
                tcp_nodelay: tcp_nodelay,
            };
            Ok(h)
        },
        _ => Err(RosError::MalformedHeader),
    }
}

/// The first `=` of an entry, found by scanning left to right.
fn find_eq_pos(e: &[u8]) -> (r: Option<usize>)
    ensures
        r matches Some(p) ==> p < e@.len() && find_eq_byte(e@) == Some(p as int),
        (r is None) ==> find_eq_byte(e@) is None,
{
    let mut i: usize = 0;
    while i < e.len()
        invariant
            i <= e@.len(),
            forall|j: int| 0 <= j < i ==> e@[j] != 61u8,
        decreases e@.len() - i,
    {
        if *slice_index_get(e, i) == 61u8 {
            proof {
                lemma_find_eq_byte_at(e@, i as int);
            }
            return Some(i);
        }
        i = i + 1;
    }
    proof {
        lemma_find_eq_byte_none(e@);
    }
    None
}

/// A header with the two publisher-response-only fields at their defaults,
/// as a subscriber-side encoding leaves them.
pub open spec fn spec_strip(h: HeaderModel) -> HeaderModel {
    HeaderModel { msg_definition: Seq::<char>::empty(), latching: false, ..h }
}

proof fn lemma_parse_step(key: Seq<u8>, value: Seq<u8>, rest: Seq<u8>, acc: PartialHeader)
    requires
        key.len() + 1 + value.len() <= u32::MAX,
        forall|j: int| 0 <= j < key.len() ==> key[j] != 61u8,
    ensures
        spec_parse_entries(wire_entry(key, value) + rest, acc) == (match spec_apply_kv(acc, key, value) {
            None => None::<PartialHeader>,
            Some(a2) => spec_parse_entries(rest, a2),
        }),
{
    lemma_auto_spec_u32_to_from_le_bytes();
    let b = wire_entry(key, value) + rest;
    let el = (key.len() + 1 + value.len()) as int;
    assert(b.take(4) =~= spec_u32_to_le_bytes(el as u32));
    let e = b.subrange(4, 4 + el);
    assert(e =~= key + seq![61u8] + value);
    assert(e[key.len() as int] == 61u8);
    lemma_find_eq_byte_at(e, key.len() as int);
    assert(e.take(key.len() as int) =~= key);
    assert(e.skip(key.len() as int + 1) =~= value);
    assert(b.skip(4 + el) =~= rest);
}

proof fn lemma_keys_eq_free()
    ensures
        forall|j: int| 0 <= j < key_caller_id().len() ==> key_caller_id()[j] != 61u8,
        forall|j: int| 0 <= j < key_topic().len() ==> key_topic()[j] != 61u8,
        forall|j: int| 0 <= j < key_topic_type().len() ==> key_topic_type()[j] != 61u8,
        forall|j: int| 0 <= j < key_md5sum().len() ==> key_md5sum()[j] != 61u8,
        forall|j: int| 0 <= j < key_msg_definition().len() ==> key_msg_definition()[j] != 61u8,
        forall|j: int| 0 <= j < key_latching().len() ==> key_latching()[j] != 61u8,
        forall|j: int| 0 <= j < key_tcp_nodelay().len() ==> key_tcp_nodelay()[j] != 61u8,
{
}

/// Round trip of the codec: a header encoded with its definition and latching
/// fields decodes back to itself, and one encoded without them decodes back to
/// itself with those two fields at their defaults.
#[verifier::rlimit(80)]
pub proof fn lemma_encode_decode(h: HeaderModel, include_definition_and_latching: bool)
    requires
        spec_header_body(h, include_definition_and_latching).len() + 4 <= u32::MAX,
    ensures
        spec_decode(spec_encode(h, include_definition_and_latching)) == Some(
            if include_definition_and_latching {
                h
            } else {
                spec_strip(h)
            },
        ),
{
    lemma_auto_spec_u32_to_from_le_bytes();
    lemma_keys_eq_free();
    broadcast use encode_utf8_valid_utf8;
    broadcast use encode_utf8_decode_utf8;

    let inc = include_definition_and_latching;
    let body = spec_header_body(h, inc);
    let enc = spec_encode(h, inc);
    assert(enc.take(4) =~= spec_u32_to_le_bytes(body.len() as u32));
    assert(enc.skip(4) =~= body);
    let e1 = wire_entry(key_caller_id(), encode_utf8(h.caller_id));
    let e2 = wire_entry(key_topic(), encode_utf8(h.topic));
    let e3 = wire_entry(key_topic_type(), encode_utf8(h.topic_type));
    let e4 = wire_entry(key_md5sum(), encode_utf8(h.md5sum));
    let e5 = wire_entry(key_msg_definition(), encode_utf8(h.msg_definition));
    let e6 = wire_entry(key_latching(), bool_bytes(h.latching));
    let e7 = wire_entry(key_tcp_nodelay(), bool_bytes(h.tcp_nodelay));
    let acc0 = empty_partial();
    let acc1 = PartialHeader { caller_id: Some(h.caller_id), ..acc0 };
    let acc2 = PartialHeader { topic: Some(h.topic), ..acc1 };
    let acc3 = PartialHeader { topic_type: Some(h.topic_type), ..acc2 };
    let acc4 = PartialHeader { md5sum: Some(h.md5sum), ..acc3 };
    if inc {
        let acc5 = PartialHeader { msg_definition: h.msg_definition, ..acc4 };
        let acc6 = PartialHeader { latching: h.latching, ..acc5 };
        let acc7 = PartialHeader { tcp_nodelay: h.tcp_nodelay, ..acc6 };
        let r1 = e2 + e3 + e4 + e5 + e6 + e7;
        let r2 = e3 + e4 + e5 + e6 + e7;
        let r3 = e4 + e5 + e6 + e7;
        let r4 = e5 + e6 + e7;
        let r5 = e6 + e7;
        let r6 = e7;
        assert(body =~= e1 + r1);
        lemma_parse_step(key_caller_id(), encode_utf8(h.caller_id), r1, acc0);
        assert(r1 =~= e2 + r2);
        lemma_parse_step(key_topic(), encode_utf8(h.topic), r2, acc1);
        assert(r2 =~= e3 + r3);
        lemma_parse_step(key_topic_type(), encode_utf8(h.topic_type), r3, acc2);
        assert(r3 =~= e4 + r4);
        lemma_parse_step(key_md5sum(), encode_utf8(h.md5sum), r4, acc3);
        assert(r4 =~= e5 + r5);
        lemma_parse_step(key_msg_definition(), encode_utf8(h.msg_definition), r5, acc4);
        assert(r5 =~= e6 + r6);
        lemma_parse_step(key_latching(), bool_bytes(h.latching), r6, acc5);
        assert(r6 =~= e7 + Seq::<u8>::empty());
        lemma_parse_step(key_tcp_nodelay(), bool_bytes(h.tcp_nodelay), Seq::<u8>::empty(), acc6);
        assert(spec_parse_entries(body, acc0) == Some(acc7));
        assert(finish_partial(acc7) == Some(h));
    } else {
        let acc7 = PartialHeader { tcp_nodelay: h.tcp_nodelay, ..acc4 };
        let r1 = e2 + e3 + e4 + e7;
        let r2 = e3 + e4 + e7;
        let r3 = e4 + e7;
        let r4 = e7;
        assert(body =~= e1 + r1);
        lemma_parse_step(key_caller_id(), encode_utf8(h.caller_id), r1, acc0);
        assert(r1 =~= e2 + r2);
        lemma_parse_step(key_topic(), encode_utf8(h.topic), r2, acc1);
        assert(r2 =~= e3 + r3);
        lemma_parse_step(key_topic_type(), encode_utf8(h.topic_type), r3, acc2);
        assert(r3 =~= e4 + r4);
        lemma_parse_step(key_md5sum(), encode_utf8(h.md5sum), r4, acc3);
        assert(r4 =~= e7 + Seq::<u8>::empty());
        lemma_parse_step(key_tcp_nodelay(), bool_bytes(h.tcp_nodelay), Seq::<u8>::empty(), acc4);
        assert(spec_parse_entries(body, acc0) == Some(acc7));
        assert(finish_partial(acc7) == Some(spec_strip(h)));
    }
}

} // verus!
