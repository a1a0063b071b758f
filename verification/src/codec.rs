//! The wire format and its codec.
//!
//! A datagram starts with a frame tag: `0` for `Packet`, `1` for
//! `Forward`, `2` for `ForwardCtd`. A `Forward` is the tag, the 16-byte
//! session id, the slot (4 bytes big-endian), the flags (2 bytes), and
//! the payload as the rest of the datagram. A `Packet` is the tag, a
//! session-id length byte (0 or 16) and the id, then the body with
//! wire-stable tags for each message kind; integers are big-endian and
//! byte fields are length-prefixed with 4 bytes. No datagram is longer
//! than [`MAX_PACKET_SIZE`]; decoding fails on truncation, unknown
//! tags, oversize frames and trailing bytes.

use vstd::prelude::*;

use crate::bytes::{
    spec_u16_be, spec_u16_of, spec_u32_be, spec_u32_of, spec_u64_be, spec_u64_of, sub_bytes,
    u16_from_be, u16_to_be, u32_from_be, u32_to_be, u64_from_be, u64_to_be,
};
use crate::error::{
    spec_status_of_value, spec_status_value, status_of_value, status_value, Error, InternalError,
    StatusCode,
};
use crate::proto::{
    ChallengeResponse, ChallengeResponseV, Control, Forward, ForwardV, NeighboursRequest,
    NodeRequest, NodeRequestV, NodeResponse, NodeResponseV, Packet, PacketBody, PacketBodyV,
    PacketKind, PacketKindV, PacketV, Request, RequestKind, RequestKindV, RequestV, Response,
    ResponseKind, ResponseKindV, ResponseV, SessionRequest, SessionRequestV, SlotRequest,
};
use crate::session::{Endpoint, EndpointV, Protocol};

verus! {

/// Upper bound on any single datagram.
pub const MAX_PACKET_SIZE: usize = 2048;

// ---------------------------------------------------------------------
// The encoding, as a function of the packet's value.
// ---------------------------------------------------------------------

pub open spec fn enc_bytes(b: Seq<u8>) -> Seq<u8> {
    spec_u32_be(b.len() as u32) + b
}

pub open spec fn enc_bool(b: bool) -> Seq<u8> {
    seq![
        if b {
            1u8
        } else {
            0u8
        },
    ]
}

pub open spec fn protocol_byte(p: Protocol) -> u8 {
    match p {
        Protocol::Udp => 0,
        Protocol::Tcp => 1,
    }
}

pub open spec fn enc_endpoint(e: EndpointV) -> Seq<u8> {
    seq![protocol_byte(e.protocol)] + enc_bytes(e.address)
}

pub open spec fn enc_endpoint_items(s: Seq<EndpointV>) -> Seq<u8>
    decreases s.len(),
{
    if s.len() == 0 {
        Seq::empty()
    } else {
        enc_endpoint(s[0]) + enc_endpoint_items(s.drop_first())
    }
}

pub open spec fn enc_endpoints(s: Seq<EndpointV>) -> Seq<u8> {
    spec_u32_be(s.len() as u32) + enc_endpoint_items(s)
}

pub open spec fn enc_node_resp(n: NodeResponseV) -> Seq<u8> {
    enc_bytes(n.node_id) + enc_bytes(n.public_key) + enc_endpoints(n.endpoints) + spec_u32_be(
        n.seen_ts,
    ) + spec_u32_be(n.slot)
}

pub open spec fn enc_node_items(s: Seq<NodeResponseV>) -> Seq<u8>
    decreases s.len(),
{
    if s.len() == 0 {
        Seq::empty()
    } else {
        enc_node_resp(s[0]) + enc_node_items(s.drop_first())
    }
}

pub open spec fn enc_request_kind(k: RequestKindV) -> Seq<u8> {
    match k {
        RequestKindV::Session(s) => seq![0u8] + enc_bytes(s.challenge_resp) + enc_bytes(s.node_id)
            + enc_bytes(s.public_key),
        RequestKindV::Register(eps) => seq![1u8] + enc_endpoints(eps),
        RequestKindV::Node(n) => seq![2u8] + enc_bytes(n.node_id) + enc_bool(n.public_key),
        RequestKindV::Slot(s) => seq![3u8] + spec_u32_be(s.slot) + enc_bool(s.public_key),
        RequestKindV::Neighbours(n) => seq![4u8] + spec_u32_be(n.count) + enc_bool(n.public_key),
        RequestKindV::Ping => seq![5u8],
        RequestKindV::ReverseConnection(nid) => seq![6u8] + enc_bytes(nid),
    }
}

pub open spec fn enc_request(r: RequestV) -> Seq<u8> {
    spec_u64_be(r.request_id) + enc_request_kind(r.kind)
}

pub open spec fn enc_response_kind(k: Option<ResponseKindV>) -> Seq<u8> {
    match k {
        None => seq![6u8],
        Some(ResponseKindV::Challenge(c)) => seq![0u8] + enc_bytes(c.version) + spec_u64_be(c.caps)
            + spec_u64_be(c.kind) + spec_u64_be(c.difficulty) + enc_bytes(c.challenge),
        Some(ResponseKindV::Session) => seq![1u8],
        Some(ResponseKindV::Register(eps)) => seq![2u8] + enc_endpoints(eps),
        Some(ResponseKindV::Node(n)) => seq![3u8] + enc_node_resp(n),
        Some(ResponseKindV::Neighbours(ns)) => seq![4u8] + spec_u32_be(ns.len() as u32)
            + enc_node_items(ns),
        Some(ResponseKindV::Pong) => seq![5u8],
    }
}

pub open spec fn enc_response(r: ResponseV) -> Seq<u8> {
    spec_u64_be(r.request_id) + spec_u32_be(spec_status_value(r.code)) + enc_response_kind(r.kind)
}

pub open spec fn enc_control(c: Control) -> Seq<u8> {
    match c {
        Control::PauseForwarding { slot } => seq![0u8] + spec_u32_be(slot),
        Control::ResumeForwarding { slot } => seq![1u8] + spec_u32_be(slot),
    }
}

pub open spec fn enc_body(b: PacketBodyV) -> Seq<u8> {
    match b {
        PacketBodyV::Request(r) => seq![0u8] + enc_request(r),
        PacketBodyV::Response(r) => seq![1u8] + enc_response(r),
        PacketBodyV::Control(c) => seq![2u8] + enc_control(c),
    }
}

pub open spec fn enc_packet(p: PacketV) -> Seq<u8> {
    seq![p.session_id.len() as u8] + p.session_id + enc_body(p.body)
}

/// The bytes a frame takes on the wire.
pub open spec fn enc_packet_kind(k: PacketKindV) -> Seq<u8> {
    match k {
        PacketKindV::Packet(p) => seq![0u8] + enc_packet(p),
        PacketKindV::Forward(f) => seq![1u8] + f.session_id + spec_u32_be(f.slot) + spec_u16_be(
            f.flags,
        ) + f.payload,
        PacketKindV::ForwardCtd(b) => seq![2u8] + b,
    }
}

// ---------------------------------------------------------------------
// Which values have a wire form at all.
// ---------------------------------------------------------------------

pub open spec fn wf_bytes_field(b: Seq<u8>) -> bool {
    b.len() <= u32::MAX
}

pub open spec fn wf_endpoint(e: EndpointV) -> bool {
    wf_bytes_field(e.address)
}

pub open spec fn wf_endpoints(s: Seq<EndpointV>) -> bool {
    &&& s.len() <= u32::MAX
    &&& forall|i: int| 0 <= i < s.len() ==> wf_endpoint(#[trigger] s[i])
}

pub open spec fn wf_node_resp(n: NodeResponseV) -> bool {
    &&& wf_bytes_field(n.node_id)
    &&& wf_bytes_field(n.public_key)
    &&& wf_endpoints(n.endpoints)
}

pub open spec fn wf_node_items(s: Seq<NodeResponseV>) -> bool {
    &&& s.len() <= u32::MAX
    &&& forall|i: int| 0 <= i < s.len() ==> wf_node_resp(#[trigger] s[i])
}

pub open spec fn wf_request_kind(k: RequestKindV) -> bool {
    match k {
        RequestKindV::Session(s) => wf_bytes_field(s.challenge_resp) && wf_bytes_field(s.node_id)
            && wf_bytes_field(s.public_key),
        RequestKindV::Register(eps) => wf_endpoints(eps),
        RequestKindV::Node(n) => wf_bytes_field(n.node_id),
        RequestKindV::Slot(_) => true,
        RequestKindV::Neighbours(_) => true,
        RequestKindV::Ping => true,
        RequestKindV::ReverseConnection(nid) => wf_bytes_field(nid),
    }
}

pub open spec fn wf_response_kind(k: Option<ResponseKindV>) -> bool {
    match k {
        None => true,
        Some(ResponseKindV::Challenge(c)) => wf_bytes_field(c.version) && wf_bytes_field(
            c.challenge,
        ),
        Some(ResponseKindV::Session) => true,
        Some(ResponseKindV::Register(eps)) => wf_endpoints(eps),
        Some(ResponseKindV::Node(n)) => wf_node_resp(n),
        Some(ResponseKindV::Neighbours(ns)) => wf_node_items(ns),
        Some(ResponseKindV::Pong) => true,
    }
}

pub open spec fn wf_body(b: PacketBodyV) -> bool {
    match b {
        PacketBodyV::Request(r) => wf_request_kind(r.kind),
        PacketBodyV::Response(r) => wf_response_kind(r.kind),
        PacketBodyV::Control(_) => true,
    }
}

/// A frame that can be put on the wire and read back: session ids have
/// their fixed length (or are empty, for a handshake-opening packet)
/// and every length fits its prefix.
pub open spec fn wf_packet_kind(k: PacketKindV) -> bool {
    match k {
        PacketKindV::Packet(p) => (p.session_id.len() == 0 || p.session_id.len() == 16)
            && wf_body(p.body),
        PacketKindV::Forward(f) => f.session_id.len() == 16,
        PacketKindV::ForwardCtd(_) => true,
    }
}

// ---------------------------------------------------------------------
// The decoding, as a function of the raw bytes.
// ---------------------------------------------------------------------

pub open spec fn dec_u8(d: Seq<u8>, i: int) -> Option<(u8, int)> {
    if 0 <= i && i + 1 <= d.len() {
        Some((d[i], i + 1))
    } else {
        None
    }
}

pub open spec fn dec_u16(d: Seq<u8>, i: int) -> Option<(u16, int)> {
    if 0 <= i && i + 2 <= d.len() {
        Some((spec_u16_of(d[i], d[i + 1]), i + 2))
    } else {
        None
    }
}

pub open spec fn dec_u32(d: Seq<u8>, i: int) -> Option<(u32, int)> {
    if 0 <= i && i + 4 <= d.len() {
        Some((spec_u32_of(d[i], d[i + 1], d[i + 2], d[i + 3]), i + 4))
    } else {
        None
    }
}

pub open spec fn dec_u64(d: Seq<u8>, i: int) -> Option<(u64, int)> {
    if 0 <= i && i + 8 <= d.len() {
        Some(
            (
                spec_u64_of(
                    d[i],
                    d[i + 1],
                    d[i + 2],
                    d[i + 3],
                    d[i + 4],
                    d[i + 5],
                    d[i + 6],
                    d[i + 7],
                ),
                i + 8,
            ),
        )
    } else {
        None
    }
}

pub open spec fn dec_bytes(d: Seq<u8>, i: int) -> Option<(Seq<u8>, int)> {
    match dec_u32(d, i) {
        Some((n, j)) => if j + n <= d.len() {
            Some((d.subrange(j, j + n), j + n))
        } else {
            None
        },
        None => None,
    }
}

pub open spec fn dec_bool(d: Seq<u8>, i: int) -> Option<(bool, int)> {
    match dec_u8(d, i) {
        Some((b, j)) => if b == 0 {
            Some((false, j))
        } else if b == 1 {
            Some((true, j))
        } else {
            None
        },
        None => None,
    }
}

pub open spec fn dec_protocol(d: Seq<u8>, i: int) -> Option<(Protocol, int)> {
    match dec_u8(d, i) {
        Some((b, j)) => if b == 0 {
            Some((Protocol::Udp, j))
        } else if b == 1 {
            Some((Protocol::Tcp, j))
        } else {
            None
        },
        None => None,
    }
}

pub open spec fn dec_endpoint(d: Seq<u8>, i: int) -> Option<(EndpointV, int)> {
    match dec_protocol(d, i) {
        Some((p, j)) => match dec_bytes(d, j) {
            Some((a, k)) => Some((EndpointV { protocol: p, address: a }, k)),
            None => None,
        },
        None => None,
    }
}

pub open spec fn dec_endpoint_items(d: Seq<u8>, i: int, n: int) -> Option<(Seq<EndpointV>, int)>
    decreases n,
{
    if n <= 0 {
        Some((Seq::empty(), i))
    } else {
        match dec_endpoint(d, i) {
            Some((e, j)) => match dec_endpoint_items(d, j, n - 1) {
                Some((rest, k)) => Some((seq![e] + rest, k)),
                None => None,
            },
            None => None,
        }
    }
}

pub open spec fn dec_endpoints(d: Seq<u8>, i: int) -> Option<(Seq<EndpointV>, int)> {
    match dec_u32(d, i) {
        Some((n, j)) => dec_endpoint_items(d, j, n as int),
        None => None,
    }
}

pub open spec fn dec_node_resp(d: Seq<u8>, i: int) -> Option<(NodeResponseV, int)> {
    match dec_bytes(d, i) {
        Some((node_id, j1)) => match dec_bytes(d, j1) {
            Some((public_key, j2)) => match dec_endpoints(d, j2) {
                Some((endpoints, j3)) => match dec_u32(d, j3) {
                    Some((seen_ts, j4)) => match dec_u32(d, j4) {
                        Some((slot, j5)) => Some(
                            (NodeResponseV { node_id, public_key, endpoints, seen_ts, slot }, j5),
                        ),
                        None => None,
                    },
                    None => None,
                },
                None => None,
            },
            None => None,
        },
        None => None,
    }
}

pub open spec fn dec_node_items(d: Seq<u8>, i: int, n: int) -> Option<(Seq<NodeResponseV>, int)>
    decreases n,
{
    if n <= 0 {
        Some((Seq::empty(), i))
    } else {
        match dec_node_resp(d, i) {
            Some((e, j)) => match dec_node_items(d, j, n - 1) {
                Some((rest, k)) => Some((seq![e] + rest, k)),
                None => None,
            },
            None => None,
        }
    }
}

pub open spec fn dec_request_kind(d: Seq<u8>, i: int) -> Option<(RequestKindV, int)> {
    match dec_u8(d, i) {
        Some((tag, j)) => if tag == 0 {
            match dec_bytes(d, j) {
                Some((challenge_resp, j1)) => match dec_bytes(d, j1) {
                    Some((node_id, j2)) => match dec_bytes(d, j2) {
                        Some((public_key, j3)) => Some(
                            (
                                RequestKindV::Session(
                                    SessionRequestV { challenge_resp, node_id, public_key },
                                ),
                                j3,
                            ),
                        ),
                        None => None,
                    },
                    None => None,
                },
                None => None,
            }
        } else if tag == 1 {
            match dec_endpoints(d, j) {
                Some((eps, j1)) => Some((RequestKindV::Register(eps), j1)),
                None => None,
            }
        } else if tag == 2 {
            match dec_bytes(d, j) {
                Some((node_id, j1)) => match dec_bool(d, j1) {
                    Some((public_key, j2)) => Some(
                        (RequestKindV::Node(NodeRequestV { node_id, public_key }), j2),
                    ),
                    None => None,
                },
                None => None,
            }
        } else if tag == 3 {
            match dec_u32(d, j) {
                Some((slot, j1)) => match dec_bool(d, j1) {
                    Some((public_key, j2)) => Some(
                        (RequestKindV::Slot(SlotRequest { slot, public_key }), j2),
                    ),
                    None => None,
                },
                None => None,
            }
        } else if tag == 4 {
            match dec_u32(d, j) {
                Some((count, j1)) => match dec_bool(d, j1) {
                    Some((public_key, j2)) => Some(
                        (RequestKindV::Neighbours(NeighboursRequest { count, public_key }), j2),
                    ),
                    None => None,
                },
                None => None,
            }
        } else if tag == 5 {
            Some((RequestKindV::Ping, j))
        } else if tag == 6 {
            match dec_bytes(d, j) {
                Some((nid, j1)) => Some((RequestKindV::ReverseConnection(nid), j1)),
                None => None,
            }
        } else {
            None
        },
        None => None,
    }
}

pub open spec fn dec_request(d: Seq<u8>, i: int) -> Option<(RequestV, int)> {
    match dec_u64(d, i) {
        Some((request_id, j)) => match dec_request_kind(d, j) {
            Some((kind, j1)) => Some((RequestV { request_id, kind }, j1)),
            None => None,
        },
        None => None,
    }
}

pub open spec fn dec_response_kind(d: Seq<u8>, i: int) -> Option<(Option<ResponseKindV>, int)> {
    match dec_u8(d, i) {
        Some((tag, j)) => if tag == 0 {
            match dec_bytes(d, j) {
                Some((version, j1)) => match dec_u64(d, j1) {
                    Some((caps, j2)) => match dec_u64(d, j2) {
                        Some((kind, j3)) => match dec_u64(d, j3) {
                            Some((difficulty, j4)) => match dec_bytes(d, j4) {
                                Some((challenge, j5)) => Some(
                                    (
                                        Some(
                                            ResponseKindV::Challenge(
                                                ChallengeResponseV {
                                                    version,
                                                    caps,
                                                    kind,
                                                    difficulty,
                                                    challenge,
                                                },
                                            ),
                                        ),
                                        j5,
                                    ),
                                ),
                                None => None,
                            },
                            None => None,
                        },
                        None => None,
                    },
                    None => None,
                },
                None => None,
            }
        } else if tag == 1 {
            Some((Some(ResponseKindV::Session), j))
        } else if tag == 2 {
            match dec_endpoints(d, j) {
                Some((eps, j1)) => Some((Some(ResponseKindV::Register(eps)), j1)),
                None => None,
            }
        } else if tag == 3 {
            match dec_node_resp(d, j) {
                Some((n, j1)) => Some((Some(ResponseKindV::Node(n)), j1)),
                None => None,
            }
        } else if tag == 4 {
            match dec_u32(d, j) {
                Some((n, j1)) => match dec_node_items(d, j1, n as int) {
                    Some((ns, j2)) => Some((Some(ResponseKindV::Neighbours(ns)), j2)),
                    None => None,
                },
                None => None,
            }
        } else if tag == 5 {
            Some((Some(ResponseKindV::Pong), j))
        } else if tag == 6 {
            Some((None, j))
        } else {
            None
        },
        None => None,
    }
}

pub open spec fn dec_response(d: Seq<u8>, i: int) -> Option<(ResponseV, int)> {
    match dec_u64(d, i) {
        Some((request_id, j)) => match dec_u32(d, j) {
            Some((code_val, j1)) => match spec_status_of_value(code_val) {
                Some(code) => match dec_response_kind(d, j1) {
                    Some((kind, j2)) => Some((ResponseV { request_id, code, kind }, j2)),
                    None => None,
                },
                None => None,
            },
            None => None,
        },
        None => None,
    }
}

pub open spec fn dec_control(d: Seq<u8>, i: int) -> Option<(Control, int)> {
    match dec_u8(d, i) {
        Some((tag, j)) => match dec_u32(d, j) {
            Some((slot, j1)) => if tag == 0 {
                Some((Control::PauseForwarding { slot }, j1))
            } else if tag == 1 {
                Some((Control::ResumeForwarding { slot }, j1))
            } else {
                None
            },
            None => None,
        },
        None => None,
    }
}

pub open spec fn dec_body(d: Seq<u8>, i: int) -> Option<(PacketBodyV, int)> {
    match dec_u8(d, i) {
        Some((tag, j)) => if tag == 0 {
            match dec_request(d, j) {
                Some((r, j1)) => Some((PacketBodyV::Request(r), j1)),
                None => None,
            }
        } else if tag == 1 {
            match dec_response(d, j) {
                Some((r, j1)) => Some((PacketBodyV::Response(r), j1)),
                None => None,
            }
        } else if tag == 2 {
            match dec_control(d, j) {
                Some((c, j1)) => Some((PacketBodyV::Control(c), j1)),
                None => None,
            }
        } else {
            None
        },
        None => None,
    }
}

/// What a whole datagram decodes to, if anything.
pub open spec fn dec_packet_kind(d: Seq<u8>) -> Option<PacketKindV> {
    if d.len() < 1 || d.len() > MAX_PACKET_SIZE {
        None
    } else if d[0] == 0 {
        match dec_u8(d, 1) {
            Some((sid_len, j)) => if sid_len == 0 || sid_len == 16 {
                if j + sid_len <= d.len() {
                    match dec_body(d, j + sid_len) {
                        Some((body, j1)) => if j1 == d.len() {
                            Some(
                                PacketKindV::Packet(
                                    PacketV {
                                        session_id: d.subrange(j, j + sid_len),
                                        body,
                                    },
                                ),
                            )
                        } else {
                            None
                        },
                        None => None,
                    }
                } else {
                    None
                }
            } else {
                None
            },
            None => None,
        }
    } else if d[0] == 1 {
        if d.len() >= 23 {
            Some(
                PacketKindV::Forward(
                    ForwardV {
                        session_id: d.subrange(1, 17),
                        slot: spec_u32_of(d[17], d[18], d[19], d[20]),
                        flags: spec_u16_of(d[21], d[22]),
                        payload: d.subrange(23, d.len() as int),
                    },
                ),
            )
        } else {
            None
        }
    } else if d[0] == 2 {
        Some(PacketKindV::ForwardCtd(d.subrange(1, d.len() as int)))
    } else {
        None
    }
}

// ---------------------------------------------------------------------
// Decoding inverts encoding.
// ---------------------------------------------------------------------

/// A slice known to be a concatenation splits into its two halves.
proof fn lemma_split2(d: Seq<u8>, i: int, a: Seq<u8>, b: Seq<u8>)
    requires
        0 <= i,
        i + a.len() + b.len() <= d.len(),
        d.subrange(i, i + a.len() + b.len()) == a + b,
    ensures
        d.subrange(i, i + a.len()) == a,
        d.subrange(i + a.len(), i + a.len() + b.len()) == b,
{
    assert forall|k: int| 0 <= k < a.len() implies d.subrange(i, i + a.len() as int)[k] == a[k] by {
        assert(d.subrange(i, i + a.len() + b.len())[k] == (a + b)[k]);
    }
    assert(d.subrange(i, i + a.len() as int) =~= a);
    assert forall|k: int|
        0 <= k < b.len() implies d.subrange(i + a.len(), i + a.len() + b.len())[k] == b[k] by {
        assert(d[i + a.len() + k] == d.subrange(i, i + a.len() + b.len())[a.len() + k]);
        assert((a + b)[a.len() + k] == b[k]);
        assert(d.subrange(i + a.len(), i + a.len() + b.len())[k] == d[i + a.len() + k]);
    }
    assert(d.subrange(i + a.len(), i + a.len() + b.len()) =~= b);
}

proof fn lemma_dec_u8_at(d: Seq<u8>, i: int, x: u8)
    requires
        0 <= i,
        i + 1 <= d.len(),
        d.subrange(i, i + 1) == seq![x],
    ensures
        dec_u8(d, i) == Some((x, i + 1)),
{
    assert(d[i] == d.subrange(i, i + 1)[0]);
}

proof fn lemma_dec_u16_at(d: Seq<u8>, i: int, x: u16)
    requires
        0 <= i,
        i + 2 <= d.len(),
        d.subrange(i, i + 2) == spec_u16_be(x),
    ensures
        dec_u16(d, i) == Some((x, i + 2)),
{
    assert(d[i] == d.subrange(i, i + 2)[0]);
    assert(d[i + 1] == d.subrange(i, i + 2)[1]);
    crate::bytes::lemma_u16_be_round(x);
}

proof fn lemma_dec_u32_at(d: Seq<u8>, i: int, x: u32)
    requires
        0 <= i,
        i + 4 <= d.len(),
        d.subrange(i, i + 4) == spec_u32_be(x),
    ensures
        dec_u32(d, i) == Some((x, i + 4)),
{
    assert(d[i] == d.subrange(i, i + 4)[0]);
    assert(d[i + 1] == d.subrange(i, i + 4)[1]);
    assert(d[i + 2] == d.subrange(i, i + 4)[2]);
    assert(d[i + 3] == d.subrange(i, i + 4)[3]);
    crate::bytes::lemma_u32_be_round(x);
}

proof fn lemma_dec_u64_at(d: Seq<u8>, i: int, x: u64)
    requires
        0 <= i,
        i + 8 <= d.len(),
        d.subrange(i, i + 8) == spec_u64_be(x),
    ensures
        dec_u64(d, i) == Some((x, i + 8)),
{
    assert forall|k: int| 0 <= k < 8 implies d[i + k] == spec_u64_be(x)[k] by {
        assert(d[i + k] == d.subrange(i, i + 8)[k]);
    }
    crate::bytes::lemma_u64_be_round(x);
}

proof fn lemma_dec_bytes_at(d: Seq<u8>, i: int, b: Seq<u8>)
    requires
        wf_bytes_field(b),
        0 <= i,
        i + 4 + b.len() <= d.len(),
        d.subrange(i, i + 4 + b.len()) == enc_bytes(b),
    ensures
        dec_bytes(d, i) == Some((b, i + 4 + b.len())),
{
    lemma_split2(d, i, spec_u32_be(b.len() as u32), b);
    lemma_dec_u32_at(d, i, b.len() as u32);
}

proof fn lemma_dec_bool_at(d: Seq<u8>, i: int, v: bool)
    requires
        0 <= i,
        i + 1 <= d.len(),
        d.subrange(i, i + 1) == enc_bool(v),
    ensures
        dec_bool(d, i) == Some((v, i + 1)),
{
    lemma_dec_u8_at(
        d,
        i,
        if v {
            1u8
        } else {
            0u8
        },
    );
}

proof fn lemma_dec_protocol_at(d: Seq<u8>, i: int, p: Protocol)
    requires
        0 <= i,
        i + 1 <= d.len(),
        d.subrange(i, i + 1) == seq![protocol_byte(p)],
    ensures
        dec_protocol(d, i) == Some((p, i + 1)),
{
    lemma_dec_u8_at(d, i, protocol_byte(p));
}

proof fn lemma_dec_endpoint_at(d: Seq<u8>, i: int, e: EndpointV)
    requires
        wf_endpoint(e),
        0 <= i,
        i + enc_endpoint(e).len() <= d.len(),
        d.subrange(i, i + enc_endpoint(e).len()) == enc_endpoint(e),
    ensures
        dec_endpoint(d, i) == Some((e, i + enc_endpoint(e).len())),
{
    lemma_split2(d, i, seq![protocol_byte(e.protocol)], enc_bytes(e.address));
    lemma_dec_protocol_at(d, i, e.protocol);
    lemma_dec_bytes_at(d, i + 1, e.address);
}

proof fn lemma_dec_endpoint_items_at(d: Seq<u8>, i: int, s: Seq<EndpointV>)
    requires
        forall|k: int| 0 <= k < s.len() ==> wf_endpoint(#[trigger] s[k]),
        0 <= i,
        i + enc_endpoint_items(s).len() <= d.len(),
        d.subrange(i, i + enc_endpoint_items(s).len()) == enc_endpoint_items(s),
    ensures
        dec_endpoint_items(d, i, s.len() as int) == Some((s, i + enc_endpoint_items(s).len())),
    decreases s.len(),
{
    if s.len() == 0 {
        assert(s =~= Seq::<EndpointV>::empty());
    } else {
        let head = enc_endpoint(s[0]);
        let tail = enc_endpoint_items(s.drop_first());
        lemma_split2(d, i, head, tail);
        lemma_dec_endpoint_at(d, i, s[0]);
        assert(forall|k: int|
            0 <= k < s.drop_first().len() ==> wf_endpoint(#[trigger] s.drop_first()[k]));
        lemma_dec_endpoint_items_at(d, i + head.len(), s.drop_first());
        assert(seq![s[0]] + s.drop_first() =~= s);
    }
}

proof fn lemma_dec_endpoints_at(d: Seq<u8>, i: int, s: Seq<EndpointV>)
    requires
        wf_endpoints(s),
        0 <= i,
        i + enc_endpoints(s).len() <= d.len(),
        d.subrange(i, i + enc_endpoints(s).len()) == enc_endpoints(s),
    ensures
        dec_endpoints(d, i) == Some((s, i + enc_endpoints(s).len())),
{
    lemma_split2(d, i, spec_u32_be(s.len() as u32), enc_endpoint_items(s));
    lemma_dec_u32_at(d, i, s.len() as u32);
    lemma_dec_endpoint_items_at(d, i + 4, s);
}

proof fn lemma_dec_node_resp_at(d: Seq<u8>, i: int, n: NodeResponseV)
    requires
        wf_node_resp(n),
        0 <= i,
        i + enc_node_resp(n).len() <= d.len(),
        d.subrange(i, i + enc_node_resp(n).len()) == enc_node_resp(n),
    ensures
        dec_node_resp(d, i) == Some((n, i + enc_node_resp(n).len())),
{
    let p1 = enc_bytes(n.node_id);
    let p2 = enc_bytes(n.public_key);
    let p3 = enc_endpoints(n.endpoints);
    let p4 = spec_u32_be(n.seen_ts);
    let p5 = spec_u32_be(n.slot);
    assert(enc_node_resp(n) =~= p1 + (p2 + (p3 + (p4 + p5))));
    lemma_split2(d, i, p1, p2 + (p3 + (p4 + p5)));
    lemma_dec_bytes_at(d, i, n.node_id);
    let i1 = i + p1.len();
    lemma_split2(d, i1, p2, p3 + (p4 + p5));
    lemma_dec_bytes_at(d, i1, n.public_key);
    let i2 = i1 + p2.len();
    lemma_split2(d, i2, p3, p4 + p5);
    lemma_dec_endpoints_at(d, i2, n.endpoints);
    let i3 = i2 + p3.len();
    lemma_split2(d, i3, p4, p5);
    lemma_dec_u32_at(d, i3, n.seen_ts);
    lemma_dec_u32_at(d, i3 + 4, n.slot);
}

proof fn lemma_dec_node_items_at(d: Seq<u8>, i: int, s: Seq<NodeResponseV>)
    requires
        forall|k: int| 0 <= k < s.len() ==> wf_node_resp(#[trigger] s[k]),
        0 <= i,
        i + enc_node_items(s).len() <= d.len(),
        d.subrange(i, i + enc_node_items(s).len()) == enc_node_items(s),
    ensures
        dec_node_items(d, i, s.len() as int) == Some((s, i + enc_node_items(s).len())),
    decreases s.len(),
{
    if s.len() == 0 {
        assert(s =~= Seq::<NodeResponseV>::empty());
    } else {
        let head = enc_node_resp(s[0]);
        let tail = enc_node_items(s.drop_first());
        lemma_split2(d, i, head, tail);
        lemma_dec_node_resp_at(d, i, s[0]);
        assert(forall|k: int|
            0 <= k < s.drop_first().len() ==> wf_node_resp(#[trigger] s.drop_first()[k]));
        lemma_dec_node_items_at(d, i + head.len(), s.drop_first());
        assert(seq![s[0]] + s.drop_first() =~= s);
    }
}

proof fn lemma_dec_request_kind_at(d: Seq<u8>, i: int, k: RequestKindV)
    requires
        wf_request_kind(k),
        0 <= i,
        i + enc_request_kind(k).len() <= d.len(),
        d.subrange(i, i + enc_request_kind(k).len()) == enc_request_kind(k),
    ensures
        dec_request_kind(d, i) == Some((k, i + enc_request_kind(k).len())),
{
    match k {
        RequestKindV::Session(s) => {
            let p1 = enc_bytes(s.challenge_resp);
            let p2 = enc_bytes(s.node_id);
            let p3 = enc_bytes(s.public_key);
            assert(enc_request_kind(k) =~= seq![0u8] + (p1 + (p2 + p3)));
            lemma_split2(d, i, seq![0u8], p1 + (p2 + p3));
            lemma_dec_u8_at(d, i, 0u8);
            lemma_split2(d, i + 1, p1, p2 + p3);
            lemma_dec_bytes_at(d, i + 1, s.challenge_resp);
            let i1 = i + 1 + p1.len();
            lemma_split2(d, i1, p2, p3);
            lemma_dec_bytes_at(d, i1, s.node_id);
            lemma_dec_bytes_at(d, i1 + p2.len(), s.public_key);
        },
        RequestKindV::Register(eps) => {
            lemma_split2(d, i, seq![1u8], enc_endpoints(eps));
            lemma_dec_u8_at(d, i, 1u8);
            lemma_dec_endpoints_at(d, i + 1, eps);
        },
        RequestKindV::Node(n) => {
            let p1 = enc_bytes(n.node_id);
            assert(enc_request_kind(k) =~= seq![2u8] + (p1 + enc_bool(n.public_key)));
            lemma_split2(d, i, seq![2u8], p1 + enc_bool(n.public_key));
            lemma_dec_u8_at(d, i, 2u8);
            lemma_split2(d, i + 1, p1, enc_bool(n.public_key));
            lemma_dec_bytes_at(d, i + 1, n.node_id);
            lemma_dec_bool_at(d, i + 1 + p1.len(), n.public_key);
        },
        RequestKindV::Slot(sr) => {
            assert(enc_request_kind(k) =~= seq![3u8] + (spec_u32_be(sr.slot) + enc_bool(
                sr.public_key,
            )));
            lemma_split2(d, i, seq![3u8], spec_u32_be(sr.slot) + enc_bool(sr.public_key));
            lemma_dec_u8_at(d, i, 3u8);
            lemma_split2(d, i + 1, spec_u32_be(sr.slot), enc_bool(sr.public_key));
            lemma_dec_u32_at(d, i + 1, sr.slot);
            lemma_dec_bool_at(d, i + 5, sr.public_key);
        },
        RequestKindV::Neighbours(nr) => {
            assert(enc_request_kind(k) =~= seq![4u8] + (spec_u32_be(nr.count) + enc_bool(
                nr.public_key,
            )));
            lemma_split2(d, i, seq![4u8], spec_u32_be(nr.count) + enc_bool(nr.public_key));
            lemma_dec_u8_at(d, i, 4u8);
            lemma_split2(d, i + 1, spec_u32_be(nr.count), enc_bool(nr.public_key));
            lemma_dec_u32_at(d, i + 1, nr.count);
            lemma_dec_bool_at(d, i + 5, nr.public_key);
        },
        RequestKindV::Ping => {
            lemma_dec_u8_at(d, i, 5u8);
        },
        RequestKindV::ReverseConnection(nid) => {
            lemma_split2(d, i, seq![6u8], enc_bytes(nid));
            lemma_dec_u8_at(d, i, 6u8);
            lemma_dec_bytes_at(d, i + 1, nid);
        },
    }
}

proof fn lemma_dec_request_at(d: Seq<u8>, i: int, r: RequestV)
    requires
        wf_request_kind(r.kind),
        0 <= i,
        i + enc_request(r).len() <= d.len(),
        d.subrange(i, i + enc_request(r).len()) == enc_request(r),
    ensures
        dec_request(d, i) == Some((r, i + enc_request(r).len())),
{
    lemma_split2(d, i, spec_u64_be(r.request_id), enc_request_kind(r.kind));
    lemma_dec_u64_at(d, i, r.request_id);
    lemma_dec_request_kind_at(d, i + 8, r.kind);
}

#[verifier::rlimit(50)]
proof fn lemma_dec_response_kind_at(d: Seq<u8>, i: int, k: Option<ResponseKindV>)
    requires
        wf_response_kind(k),
        0 <= i,
        i + enc_response_kind(k).len() <= d.len(),
        d.subrange(i, i + enc_response_kind(k).len()) == enc_response_kind(k),
    ensures
        dec_response_kind(d, i) == Some((k, i + enc_response_kind(k).len())),
{
    match k {
        None => {
            lemma_dec_u8_at(d, i, 6u8);
        },
        Some(ResponseKindV::Challenge(c)) => {
            let p1 = enc_bytes(c.version);
            let p2 = spec_u64_be(c.caps);
            let p3 = spec_u64_be(c.kind);
            let p4 = spec_u64_be(c.difficulty);
            let p5 = enc_bytes(c.challenge);
            assert(enc_response_kind(k) =~= seq![0u8] + (p1 + (p2 + (p3 + (p4 + p5)))));
            lemma_split2(d, i, seq![0u8], p1 + (p2 + (p3 + (p4 + p5))));
            lemma_dec_u8_at(d, i, 0u8);
            lemma_split2(d, i + 1, p1, p2 + (p3 + (p4 + p5)));
            lemma_dec_bytes_at(d, i + 1, c.version);
            let i1 = i + 1 + p1.len();
            lemma_split2(d, i1, p2, p3 + (p4 + p5));
            lemma_dec_u64_at(d, i1, c.caps);
            lemma_split2(d, i1 + 8, p3, p4 + p5);
            lemma_dec_u64_at(d, i1 + 8, c.kind);
            lemma_split2(d, i1 + 16, p4, p5);
            lemma_dec_u64_at(d, i1 + 16, c.difficulty);
            lemma_dec_bytes_at(d, i1 + 24, c.challenge);
        },
        Some(ResponseKindV::Session) => {
            lemma_dec_u8_at(d, i, 1u8);
        },
        Some(ResponseKindV::Register(eps)) => {
            lemma_split2(d, i, seq![2u8], enc_endpoints(eps));
            lemma_dec_u8_at(d, i, 2u8);
            lemma_dec_endpoints_at(d, i + 1, eps);
        },
        Some(ResponseKindV::Node(n)) => {
            lemma_split2(d, i, seq![3u8], enc_node_resp(n));
            lemma_dec_u8_at(d, i, 3u8);
            lemma_dec_node_resp_at(d, i + 1, n);
        },
        Some(ResponseKindV::Neighbours(ns)) => {
            assert(enc_response_kind(k) =~= seq![4u8] + (spec_u32_be(ns.len() as u32)
                + enc_node_items(ns)));
            lemma_split2(d, i, seq![4u8], spec_u32_be(ns.len() as u32) + enc_node_items(ns));
            lemma_dec_u8_at(d, i, 4u8);
            lemma_split2(d, i + 1, spec_u32_be(ns.len() as u32), enc_node_items(ns));
            lemma_dec_u32_at(d, i + 1, ns.len() as u32);
            lemma_dec_node_items_at(d, i + 5, ns);
        },
        Some(ResponseKindV::Pong) => {
            lemma_dec_u8_at(d, i, 5u8);
        },
    }
}

proof fn lemma_dec_response_at(d: Seq<u8>, i: int, r: ResponseV)
    requires
        wf_response_kind(r.kind),
        0 <= i,
        i + enc_response(r).len() <= d.len(),
        d.subrange(i, i + enc_response(r).len()) == enc_response(r),
    ensures
        dec_response(d, i) == Some((r, i + enc_response(r).len())),
{
    let p1 = spec_u64_be(r.request_id);
    let p2 = spec_u32_be(spec_status_value(r.code));
    let p3 = enc_response_kind(r.kind);
    assert(enc_response(r) =~= p1 + (p2 + p3));
    lemma_split2(d, i, p1, p2 + p3);
    lemma_dec_u64_at(d, i, r.request_id);
    lemma_split2(d, i + 8, p2, p3);
    lemma_dec_u32_at(d, i + 8, spec_status_value(r.code));
    crate::error::lemma_status_value_round_trip(r.code);
    lemma_dec_response_kind_at(d, i + 12, r.kind);
}

proof fn lemma_dec_control_at(d: Seq<u8>, i: int, c: Control)
    requires
        0 <= i,
        i + enc_control(c).len() <= d.len(),
        d.subrange(i, i + enc_control(c).len()) == enc_control(c),
    ensures
        dec_control(d, i) == Some((c, i + enc_control(c).len())),
{
    match c {
        Control::PauseForwarding { slot } => {
            lemma_split2(d, i, seq![0u8], spec_u32_be(slot));
            lemma_dec_u8_at(d, i, 0u8);
            lemma_dec_u32_at(d, i + 1, slot);
        },
        Control::ResumeForwarding { slot } => {
            lemma_split2(d, i, seq![1u8], spec_u32_be(slot));
            lemma_dec_u8_at(d, i, 1u8);
            lemma_dec_u32_at(d, i + 1, slot);
        },
    }
}

#[verifier::rlimit(50)]
proof fn lemma_dec_body_at(d: Seq<u8>, i: int, b: PacketBodyV)
    requires
        wf_body(b),
        0 <= i,
        i + enc_body(b).len() <= d.len(),
        d.subrange(i, i + enc_body(b).len()) == enc_body(b),
    ensures
        dec_body(d, i) == Some((b, i + enc_body(b).len())),
{
    match b {
        PacketBodyV::Request(r) => {
            lemma_split2(d, i, seq![0u8], enc_request(r));
            lemma_dec_u8_at(d, i, 0u8);
            lemma_dec_request_at(d, i + 1, r);
        },
        PacketBodyV::Response(r) => {
            lemma_split2(d, i, seq![1u8], enc_response(r));
            lemma_dec_u8_at(d, i, 1u8);
            lemma_dec_response_at(d, i + 1, r);
        },
        PacketBodyV::Control(c) => {
            lemma_split2(d, i, seq![2u8], enc_control(c));
            lemma_dec_u8_at(d, i, 2u8);
            lemma_dec_control_at(d, i + 1, c);
        },
    }
}

/// Decoding the encoding of any well-formed frame that fits a datagram
/// yields the frame back.
pub proof fn lemma_codec_round_trip(k: PacketKindV)
    requires
        wf_packet_kind(k),
        enc_packet_kind(k).len() <= MAX_PACKET_SIZE,
    ensures
        dec_packet_kind(enc_packet_kind(k)) == Some(k),
{
    let d = enc_packet_kind(k);
    match k {
        PacketKindV::Packet(p) => {
            let sid = p.session_id;
            let body = enc_body(p.body);
            assert(d =~= seq![0u8] + (seq![sid.len() as u8] + (sid + body)));
            assert(d.subrange(0, d.len() as int) =~= d);
            lemma_split2(d, 0, seq![0u8], seq![sid.len() as u8] + (sid + body));
            lemma_split2(d, 1, seq![sid.len() as u8], sid + body);
            lemma_dec_u8_at(d, 1, sid.len() as u8);
            lemma_split2(d, 2, sid, body);
            lemma_dec_body_at(d, 2 + sid.len() as int, p.body);
            assert(d[0] == 0u8);
            assert(d.subrange(2, 2 + sid.len() as int) == sid);
        },
        PacketKindV::Forward(f) => {
            let p1 = f.session_id;
            let p2 = spec_u32_be(f.slot);
            let p3 = spec_u16_be(f.flags);
            let p4 = f.payload;
            assert(d =~= seq![1u8] + (p1 + (p2 + (p3 + p4))));
            assert(d.subrange(0, d.len() as int) =~= d);
            lemma_split2(d, 0, seq![1u8], p1 + (p2 + (p3 + p4)));
            lemma_split2(d, 1, p1, p2 + (p3 + p4));
            lemma_split2(d, 17, p2, p3 + p4);
            lemma_split2(d, 21, p3, p4);
            assert(d[0] == 1u8);
            assert(d.subrange(1, 17) == p1);
            assert(d[17] == p2[0] && d[18] == p2[1] && d[19] == p2[2] && d[20] == p2[3]);
            crate::bytes::lemma_u32_be_round(f.slot);
            assert(d[21] == p3[0] && d[22] == p3[1]);
            crate::bytes::lemma_u16_be_round(f.flags);
            assert(d.subrange(23, d.len() as int) =~= p4);
        },
        PacketKindV::ForwardCtd(b) => {
            assert(d[0] == 2u8);
            assert(d.subrange(1, d.len() as int) =~= b);
        },
    }
}

// ---------------------------------------------------------------------
// The executable encoder.
// ---------------------------------------------------------------------

proof fn lemma_enc_endpoint_items_snoc(s: Seq<EndpointV>, i: int)
    requires
        0 <= i < s.len(),
    ensures
        enc_endpoint_items(s.take(i + 1)) == enc_endpoint_items(s.take(i)) + enc_endpoint(s[i]),
    decreases i,
{
    if i == 0 {
        assert(s.take(1) =~= seq![s[0]]);
        assert(s.take(1).drop_first() =~= Seq::<EndpointV>::empty());
        assert(s.take(0) =~= Seq::<EndpointV>::empty());
        assert(s.take(1)[0] == s[0]);
        assert(s.take(1).len() == 1);
        assert(enc_endpoint_items(s.take(1).drop_first()) == Seq::<u8>::empty());
        assert(enc_endpoint_items(s.take(1)) == enc_endpoint(s.take(1)[0]) + enc_endpoint_items(
            s.take(1).drop_first(),
        ));
        assert(enc_endpoint(s[0]) + Seq::<u8>::empty() =~= enc_endpoint(s[0]));
        assert(enc_endpoint_items(s.take(0)) + enc_endpoint(s[0]) =~= enc_endpoint(s[0]));
    } else {
        lemma_enc_endpoint_items_snoc(s.drop_first(), i - 1);
        assert(s.take(i + 1).drop_first() =~= s.drop_first().take(i));
        assert(s.take(i).drop_first() =~= s.drop_first().take(i - 1));
        assert(s.take(i + 1)[0] == s[0] && s.take(i)[0] == s[0]);
        assert(s.drop_first()[i - 1] == s[i]);
        assert(enc_endpoint_items(s.take(i + 1)) =~= enc_endpoint(s[0]) + enc_endpoint_items(
            s.drop_first().take(i),
        ));
        assert(enc_endpoint_items(s.take(i)) + enc_endpoint(s[i]) =~= enc_endpoint(s[0]) + (
        enc_endpoint_items(s.drop_first().take(i - 1)) + enc_endpoint(s.drop_first()[i - 1])));
    }
}

proof fn lemma_enc_node_items_snoc(s: Seq<NodeResponseV>, i: int)
    requires
        0 <= i < s.len(),
    ensures
        enc_node_items(s.take(i + 1)) == enc_node_items(s.take(i)) + enc_node_resp(s[i]),
    decreases i,
{
    if i == 0 {
        assert(s.take(1) =~= seq![s[0]]);
        assert(s.take(1).drop_first() =~= Seq::<NodeResponseV>::empty());
        assert(s.take(0) =~= Seq::<NodeResponseV>::empty());
        assert(s.take(1)[0] == s[0]);
        assert(s.take(1).len() == 1);
        assert(enc_node_items(s.take(1).drop_first()) == Seq::<u8>::empty());
        assert(enc_node_items(s.take(1)) == enc_node_resp(s.take(1)[0]) + enc_node_items(
            s.take(1).drop_first(),
        ));
        assert(enc_node_resp(s[0]) + Seq::<u8>::empty() =~= enc_node_resp(s[0]));
        assert(enc_node_items(s.take(0)) + enc_node_resp(s[0]) =~= enc_node_resp(s[0]));
    } else {
        lemma_enc_node_items_snoc(s.drop_first(), i - 1);
        assert(s.take(i + 1).drop_first() =~= s.drop_first().take(i));
        assert(s.take(i).drop_first() =~= s.drop_first().take(i - 1));
        assert(s.take(i + 1)[0] == s[0] && s.take(i)[0] == s[0]);
        assert(s.drop_first()[i - 1] == s[i]);
        assert(enc_node_items(s.take(i + 1)) =~= enc_node_resp(s[0]) + enc_node_items(
            s.drop_first().take(i),
        ));
        assert(enc_node_items(s.take(i)) + enc_node_resp(s[i]) =~= enc_node_resp(s[0]) + (
        enc_node_items(s.drop_first().take(i - 1)) + enc_node_resp(s.drop_first()[i - 1])));
    }
}

fn put_u8(out: &mut Vec<u8>, x: u8)
    ensures
        final(out)@ == old(out)@ + seq![x],
{
    out.push(x);
    proof {
        assert(out@ =~= old(out)@ + seq![x]);
    }
}

fn put_u16(out: &mut Vec<u8>, x: u16)
    ensures
        final(out)@ == old(out)@ + spec_u16_be(x),
{
    let mut b = u16_to_be(x);
    out.append(&mut b);
}

fn put_u32(out: &mut Vec<u8>, x: u32)
    ensures
        final(out)@ == old(out)@ + spec_u32_be(x),
{
    let mut b = u32_to_be(x);
    out.append(&mut b);
}

fn put_u64(out: &mut Vec<u8>, x: u64)
    ensures
        final(out)@ == old(out)@ + spec_u64_be(x),
{
    let mut b = u64_to_be(x);
    out.append(&mut b);
}

fn put_raw(out: &mut Vec<u8>, b: &Vec<u8>)
    ensures
        final(out)@ == old(out)@ + b@,
{
    let mut c = crate::session::clone_bytes(b);
    out.append(&mut c);
}

fn put_bytes(out: &mut Vec<u8>, b: &Vec<u8>) -> (ok: bool)
    ensures
        ok == wf_bytes_field(b@),
        ok ==> final(out)@ == old(out)@ + enc_bytes(b@),
        !ok ==> final(out)@ == old(out)@,
{
    if b.len() > u32::MAX as usize {
        return false;
    }
    put_u32(out, b.len() as u32);
    put_raw(out, b);
    proof {
        assert(out@ =~= old(out)@ + enc_bytes(b@));
    }
    true
}

fn put_bool(out: &mut Vec<u8>, b: bool)
    ensures
        final(out)@ == old(out)@ + enc_bool(b),
{
    if b {
        put_u8(out, 1);
    } else {
        put_u8(out, 0);
    }
}

fn put_endpoint(out: &mut Vec<u8>, e: &Endpoint) -> (ok: bool)
    ensures
        ok == wf_endpoint(e@),
        ok ==> final(out)@ == old(out)@ + enc_endpoint(e@),
        !ok ==> final(out)@ == old(out)@,
{
    let ghost pre = out@;
    if e.address.bytes.len() > u32::MAX as usize {
        return false;
    }
    match e.protocol {
        Protocol::Udp => put_u8(out, 0),
        Protocol::Tcp => put_u8(out, 1),
    }
    let ok = put_bytes(out, &e.address.bytes);
    proof {
        assert(ok);
        assert(out@ =~= pre + enc_endpoint(e@));
    }
    true
}

#[verifier::loop_isolation(false)]
fn put_endpoints(out: &mut Vec<u8>, eps: &Vec<Endpoint>) -> (ok: bool)
    ensures
        ok ==> wf_endpoints(eps@.map_values(|e: Endpoint| e@)) && final(out)@ == old(out)@
            + enc_endpoints(eps@.map_values(|e: Endpoint| e@)),
        !ok ==> !wf_endpoints(eps@.map_values(|e: Endpoint| e@)),
{
    let ghost vs = eps@.map_values(|e: Endpoint| e@);
    if eps.len() > u32::MAX as usize {
        return false;
    }
    let ghost pre = out@;
    put_u32(out, eps.len() as u32);
    let mut i: usize = 0;
    while i < eps.len()
        invariant
            i <= eps@.len(),
            out@ == pre + spec_u32_be(vs.len() as u32) + enc_endpoint_items(vs.take(i as int)),
            forall|k: int| 0 <= k < i ==> wf_endpoint(#[trigger] vs[k]),
        decreases eps@.len() - i,
    {
        if !put_endpoint(out, &eps[i]) {
            proof {
                assert(!wf_endpoint(vs[i as int]));
            }
            return false;
        }
        proof {
            lemma_enc_endpoint_items_snoc(vs, i as int);
        }
        i = i + 1;
    }
    proof {
        assert(vs.take(vs.len() as int) =~= vs);
        assert(out@ =~= pre + enc_endpoints(vs));
    }
    true
}

fn put_node_resp(out: &mut Vec<u8>, n: &NodeResponse) -> (ok: bool)
    ensures
        ok ==> wf_node_resp(n@) && final(out)@ == old(out)@ + enc_node_resp(n@),
        !ok ==> !wf_node_resp(n@),
{
    let ghost pre = out@;
    let mut tmp: Vec<u8> = Vec::new();
    if !put_bytes(&mut tmp, &n.node_id) {
        return false;
    }
    if !put_bytes(&mut tmp, &n.public_key) {
        return false;
    }
    if !put_endpoints(&mut tmp, &n.endpoints) {
        return false;
    }
    put_u32(&mut tmp, n.seen_ts);
    put_u32(&mut tmp, n.slot);
    out.append(&mut tmp);
    proof {
        assert(out@ =~= pre + enc_node_resp(n@));
    }
    true
}

#[verifier::loop_isolation(false)]
fn put_node_items(out: &mut Vec<u8>, ns: &Vec<NodeResponse>) -> (ok: bool)
    ensures
        ok ==> wf_node_items(ns@.map_values(|n: NodeResponse| n@)) && final(out)@ == old(out)@
            + spec_u32_be(ns@.len() as u32) + enc_node_items(ns@.map_values(|n: NodeResponse| n@)),
        !ok ==> !wf_node_items(ns@.map_values(|n: NodeResponse| n@)),
{
    let ghost vs = ns@.map_values(|n: NodeResponse| n@);
    if ns.len() > u32::MAX as usize {
        return false;
    }
    let ghost pre = out@;
    put_u32(out, ns.len() as u32);
    let mut i: usize = 0;
    while i < ns.len()
        invariant
            i <= ns@.len(),
            out@ == pre + spec_u32_be(vs.len() as u32) + enc_node_items(vs.take(i as int)),
            forall|k: int| 0 <= k < i ==> wf_node_resp(#[trigger] vs[k]),
        decreases ns@.len() - i,
    {
        if !put_node_resp(out, &ns[i]) {
            proof {
                assert(!wf_node_resp(vs[i as int]));
            }
            return false;
        }
        proof {
            lemma_enc_node_items_snoc(vs, i as int);
        }
        i = i + 1;
    }
    proof {
        assert(vs.take(vs.len() as int) =~= vs);
    }
    true
}

fn put_request_kind(out: &mut Vec<u8>, k: &RequestKind) -> (ok: bool)
    ensures
        ok ==> wf_request_kind(k@) && final(out)@ == old(out)@ + enc_request_kind(k@),
        !ok ==> !wf_request_kind(k@),
{
    let ghost pre = out@;
    let mut tmp: Vec<u8> = Vec::new();
    match k {
        RequestKind::Session(s) => {
            put_u8(&mut tmp, 0);
            if !put_bytes(&mut tmp, &s.challenge_resp) {
                return false;
            }
            if !put_bytes(&mut tmp, &s.node_id) {
                return false;
            }
            if !put_bytes(&mut tmp, &s.public_key) {
                return false;
            }
        },
        RequestKind::Register(eps) => {
            put_u8(&mut tmp, 1);
            if !put_endpoints(&mut tmp, eps) {
                return false;
            }
        },
        RequestKind::Node(n) => {
            put_u8(&mut tmp, 2);
            if !put_bytes(&mut tmp, &n.node_id) {
                return false;
            }
            put_bool(&mut tmp, n.public_key);
        },
        RequestKind::Slot(s) => {
            put_u8(&mut tmp, 3);
            put_u32(&mut tmp, s.slot);
            put_bool(&mut tmp, s.public_key);
        },
        RequestKind::Neighbours(n) => {
            put_u8(&mut tmp, 4);
            put_u32(&mut tmp, n.count);
            put_bool(&mut tmp, n.public_key);
        },
        RequestKind::Ping => {
            put_u8(&mut tmp, 5);
        },
        RequestKind::ReverseConnection(nid) => {
            put_u8(&mut tmp, 6);
            if !put_bytes(&mut tmp, nid) {
                return false;
            }
        },
    }
    out.append(&mut tmp);
    proof {
        assert(out@ =~= pre + enc_request_kind(k@));
    }
    true
}

/// The view of an optional response kind.
pub open spec fn view_response_kind(k: Option<ResponseKind>) -> Option<ResponseKindV> {
    match k {
        Some(x) => Some(x@),
        None => None,
    }
}

#[verifier::rlimit(50)]
fn put_response_kind(out: &mut Vec<u8>, k: &Option<ResponseKind>) -> (ok: bool)
    ensures
        ok ==> wf_response_kind(view_response_kind(*k)) && final(out)@ == old(out)@
            + enc_response_kind(view_response_kind(*k)),
        !ok ==> !wf_response_kind(view_response_kind(*k)),
{
    let ghost pre = out@;
    let mut tmp: Vec<u8> = Vec::new();
    match k {
        None => {
            put_u8(&mut tmp, 6);
        },
        Some(ResponseKind::Challenge(c)) => {
            put_u8(&mut tmp, 0);
            if !put_bytes(&mut tmp, &c.version) {
                return false;
            }
            put_u64(&mut tmp, c.caps);
            put_u64(&mut tmp, c.kind);
            put_u64(&mut tmp, c.difficulty);
            if !put_bytes(&mut tmp, &c.challenge) {
                return false;
            }
        },
        Some(ResponseKind::Session) => {
            put_u8(&mut tmp, 1);
        },
        Some(ResponseKind::Register(eps)) => {
            put_u8(&mut tmp, 2);
            if !put_endpoints(&mut tmp, eps) {
                return false;
            }
        },
        Some(ResponseKind::Node(n)) => {
            put_u8(&mut tmp, 3);
            if !put_node_resp(&mut tmp, n) {
                return false;
            }
        },
        Some(ResponseKind::Neighbours(ns)) => {
            put_u8(&mut tmp, 4);
            if !put_node_items(&mut tmp, ns) {
                return false;
            }
        },
        Some(ResponseKind::Pong) => {
            put_u8(&mut tmp, 5);
        },
    }
    out.append(&mut tmp);
    proof {
        assert(out@ =~= pre + enc_response_kind(view_response_kind(*k)));
    }
    true
}

fn put_body(out: &mut Vec<u8>, b: &PacketBody) -> (ok: bool)
    ensures
        ok ==> wf_body(b@) && final(out)@ == old(out)@ + enc_body(b@),
        !ok ==> !wf_body(b@),
{
    let ghost pre = out@;
    let mut tmp: Vec<u8> = Vec::new();
    match b {
        PacketBody::Request(r) => {
            put_u8(&mut tmp, 0);
            put_u64(&mut tmp, r.request_id);
            if !put_request_kind(&mut tmp, &r.kind) {
                return false;
            }
        },
        PacketBody::Response(r) => {
            put_u8(&mut tmp, 1);
            put_u64(&mut tmp, r.request_id);
            put_u32(&mut tmp, status_value(r.code));
            if !put_response_kind(&mut tmp, &r.kind) {
                return false;
            }
        },
        PacketBody::Control(c) => {
            put_u8(&mut tmp, 2);
            match c {
                Control::PauseForwarding { slot } => {
                    put_u8(&mut tmp, 0);
                    put_u32(&mut tmp, *slot);
                },
                Control::ResumeForwarding { slot } => {
                    put_u8(&mut tmp, 1);
                    put_u32(&mut tmp, *slot);
                },
            }
        },
    }
    out.append(&mut tmp);
    proof {
        assert(out@ =~= pre + enc_body(b@));
    }
    true
}

/// Encode a frame for the wire. Fails exactly when the frame has no
/// wire form (a session id of the wrong shape, or a field too long for
/// its length prefix) or its encoding exceeds [`MAX_PACKET_SIZE`].
pub fn encode(p: &PacketKind) -> (r: Result<Vec<u8>, Error>)
    ensures
        match r {
            Ok(v) => wf_packet_kind(p@) && v@ == enc_packet_kind(p@) && v@.len()
                <= MAX_PACKET_SIZE,
            Err(e) => {
                &&& e == Error::Internal(InternalError::Encoding)
                &&& (!wf_packet_kind(p@) || enc_packet_kind(p@).len() > MAX_PACKET_SIZE)
            },
        },
{
    let mut out: Vec<u8> = Vec::new();
    match p {
        PacketKind::Packet(pk) => {
            if !(pk.session_id.len() == 0 || pk.session_id.len() == 16) {
                return Err(Error::Internal(InternalError::Encoding));
            }
            put_u8(&mut out, 0);
            put_u8(&mut out, pk.session_id.len() as u8);
            put_raw(&mut out, &pk.session_id);
            if !put_body(&mut out, &pk.body) {
                return Err(Error::Internal(InternalError::Encoding));
            }
            proof {
                assert(out@ =~= enc_packet_kind(p@));
            }
        },
        PacketKind::Forward(f) => {
            if f.session_id.len() != 16 {
                return Err(Error::Internal(InternalError::Encoding));
            }
            put_u8(&mut out, 1);
            put_raw(&mut out, &f.session_id);
            put_u32(&mut out, f.slot);
            put_u16(&mut out, f.flags);
            put_raw(&mut out, &f.payload);
            proof {
                assert(out@ =~= enc_packet_kind(p@));
            }
        },
        PacketKind::ForwardCtd(b) => {
            put_u8(&mut out, 2);
            put_raw(&mut out, b);
            proof {
                assert(out@ =~= enc_packet_kind(p@));
            }
        },
    }
    if out.len() > MAX_PACKET_SIZE {
        return Err(Error::Internal(InternalError::Encoding));
    }
    Ok(out)
}

// ---------------------------------------------------------------------
// The executable decoder.
// ---------------------------------------------------------------------

fn rd_u8(d: &Vec<u8>, i: usize) -> (r: Option<(u8, usize)>)
    ensures
        match r {
            Some(p) => dec_u8(d@, i as int) == Some((p.0, p.1 as int)) && i < p.1 <= d@.len(),
            None => dec_u8(d@, i as int) is None,
        },
{
    if i < d.len() {
        Some((d[i], i + 1))
    } else {
        None
    }
}

fn rd_u16(d: &Vec<u8>, i: usize) -> (r: Option<(u16, usize)>)
    ensures
        match r {
            Some(p) => dec_u16(d@, i as int) == Some((p.0, p.1 as int)) && i < p.1 <= d@.len(),
            None => dec_u16(d@, i as int) is None,
        },
{
    if d.len() >= 2 && i <= d.len() - 2 {
        Some((u16_from_be(d[i], d[i + 1]), i + 2))
    } else {
        None
    }
}

fn rd_u32(d: &Vec<u8>, i: usize) -> (r: Option<(u32, usize)>)
    ensures
        match r {
            Some(p) => dec_u32(d@, i as int) == Some((p.0, p.1 as int)) && i < p.1 <= d@.len(),
            None => dec_u32(d@, i as int) is None,
        },
{
    if d.len() >= 4 && i <= d.len() - 4 {
        Some((u32_from_be(d[i], d[i + 1], d[i + 2], d[i + 3]), i + 4))
    } else {
        None
    }
}

fn rd_u64(d: &Vec<u8>, i: usize) -> (r: Option<(u64, usize)>)
    ensures
        match r {
            Some(p) => dec_u64(d@, i as int) == Some((p.0, p.1 as int)) && i < p.1 <= d@.len(),
            None => dec_u64(d@, i as int) is None,
        },
{
    if d.len() >= 8 && i <= d.len() - 8 {
        Some(
            (
                u64_from_be(
                    d[i],
                    d[i + 1],
                    d[i + 2],
                    d[i + 3],
                    d[i + 4],
                    d[i + 5],
                    d[i + 6],
                    d[i + 7],
                ),
                i + 8,
            ),
        )
    } else {
        None
    }
}

fn rd_bytes(d: &Vec<u8>, i: usize) -> (r: Option<(Vec<u8>, usize)>)
    ensures
        match r {
            Some(p) => dec_bytes(d@, i as int) == Some((p.0@, p.1 as int)) && i < p.1 <= d@.len(),
            None => dec_bytes(d@, i as int) is None,
        },
{
    match rd_u32(d, i) {
        Some((n, j)) => {
            let n_us = n as usize;
            if n_us <= d.len() - j {
                let v = sub_bytes(d, j, j + n_us);
                Some((v, j + n_us))
            } else {
                None
            }
        },
        None => None,
    }
}

fn rd_bool(d: &Vec<u8>, i: usize) -> (r: Option<(bool, usize)>)
    ensures
        match r {
            Some(p) => dec_bool(d@, i as int) == Some((p.0, p.1 as int)) && i < p.1 <= d@.len(),
            None => dec_bool(d@, i as int) is None,
        },
{
    match rd_u8(d, i) {
        Some((b, j)) => {
            if b == 0 {
                Some((false, j))
            } else if b == 1 {
                Some((true, j))
            } else {
                None
            }
        },
        None => None,
    }
}

fn rd_protocol(d: &Vec<u8>, i: usize) -> (r: Option<(Protocol, usize)>)
    ensures
        match r {
            Some(p) => dec_protocol(d@, i as int) == Some((p.0, p.1 as int)) && i < p.1
                <= d@.len(),
            None => dec_protocol(d@, i as int) is None,
        },
{
    match rd_u8(d, i) {
        Some((b, j)) => {
            if b == 0 {
                Some((Protocol::Udp, j))
            } else if b == 1 {
                Some((Protocol::Tcp, j))
            } else {
                None
            }
        },
        None => None,
    }
}

fn rd_endpoint(d: &Vec<u8>, i: usize) -> (r: Option<(Endpoint, usize)>)
    ensures
        match r {
            Some(p) => dec_endpoint(d@, i as int) == Some((p.0@, p.1 as int)) && i < p.1
                <= d@.len(),
            None => dec_endpoint(d@, i as int) is None,
        },
{
    match rd_protocol(d, i) {
        Some((proto, j)) => match rd_bytes(d, j) {
            Some((a, k)) => Some(
                (Endpoint { protocol: proto, address: crate::session::Address::from_vec(a) }, k),
            ),
            None => None,
        },
        None => None,
    }
}

#[verifier::loop_isolation(false)]
fn rd_endpoint_items(d: &Vec<u8>, i: usize, n: u32) -> (r: Option<(Vec<Endpoint>, usize)>)
    requires
        i <= d@.len(),
    ensures
        match r {
            Some(p) => dec_endpoint_items(d@, i as int, n as int) == Some(
                (p.0@.map_values(|e: Endpoint| e@), p.1 as int),
            ) && i <= p.1 <= d@.len(),
            None => dec_endpoint_items(d@, i as int, n as int) is None,
        },
{
    let mut out: Vec<Endpoint> = Vec::new();
    let mut cur = i;
    let mut k: u32 = 0;
    while k < n
        invariant
            k <= n,
            i <= cur <= d@.len(),
            ({
                let full = dec_endpoint_items(d@, i as int, n as int);
                match dec_endpoint_items(d@, cur as int, n as int - k as int) {
                    Some(tail) => full == Some(
                        (out@.map_values(|e: Endpoint| e@) + tail.0, tail.1),
                    ),
                    None => full is None,
                }
            }),
        decreases n - k,
    {
        match rd_endpoint(d, cur) {
            Some((e, j)) => {
                proof {
                    let outv = out@.map_values(|x: Endpoint| x@);
                    assert(out@.push(e).map_values(|x: Endpoint| x@) =~= outv.push(e@));
                    match dec_endpoint_items(d@, j as int, n as int - k as int - 1) {
                        Some(t2) => {
                            assert((outv + (seq![e@] + t2.0)) =~= (outv.push(e@) + t2.0));
                        },
                        None => {},
                    }
                }
                out.push(e);
                cur = j;
                k = k + 1;
            },
            None => {
                return None;
            },
        }
    }
    proof {
        assert(out@.map_values(|e: Endpoint| e@) + Seq::<EndpointV>::empty() =~= out@.map_values(
            |e: Endpoint| e@,
        ));
    }
    Some((out, cur))
}

fn rd_endpoints(d: &Vec<u8>, i: usize) -> (r: Option<(Vec<Endpoint>, usize)>)
    ensures
        match r {
            Some(p) => dec_endpoints(d@, i as int) == Some(
                (p.0@.map_values(|e: Endpoint| e@), p.1 as int),
            ) && i <= p.1 <= d@.len(),
            None => dec_endpoints(d@, i as int) is None,
        },
{
    match rd_u32(d, i) {
        Some((n, j)) => rd_endpoint_items(d, j, n),
        None => None,
    }
}

fn rd_node_resp(d: &Vec<u8>, i: usize) -> (r: Option<(NodeResponse, usize)>)
    ensures
        match r {
            Some(p) => dec_node_resp(d@, i as int) == Some((p.0@, p.1 as int)) && i < p.1
                <= d@.len(),
            None => dec_node_resp(d@, i as int) is None,
        },
{
    match rd_bytes(d, i) {
        Some((node_id, j1)) => match rd_bytes(d, j1) {
            Some((public_key, j2)) => match rd_endpoints(d, j2) {
                Some((endpoints, j3)) => match rd_u32(d, j3) {
                    Some((seen_ts, j4)) => match rd_u32(d, j4) {
                        Some((slot, j5)) => Some(
                            (NodeResponse { node_id, public_key, endpoints, seen_ts, slot }, j5),
                        ),
                        None => None,
                    },
                    None => None,
                },
                None => None,
            },
            None => None,
        },
        None => None,
    }
}

#[verifier::loop_isolation(false)]
fn rd_node_items(d: &Vec<u8>, i: usize, n: u32) -> (r: Option<(Vec<NodeResponse>, usize)>)
    requires
        i <= d@.len(),
    ensures
        match r {
            Some(p) => dec_node_items(d@, i as int, n as int) == Some(
                (p.0@.map_values(|x: NodeResponse| x@), p.1 as int),
            ) && i <= p.1 <= d@.len(),
            None => dec_node_items(d@, i as int, n as int) is None,
        },
{
    let mut out: Vec<NodeResponse> = Vec::new();
    let mut cur = i;
    let mut k: u32 = 0;
    while k < n
        invariant
            k <= n,
            i <= cur <= d@.len(),
            ({
                let full = dec_node_items(d@, i as int, n as int);
                match dec_node_items(d@, cur as int, n as int - k as int) {
                    Some(tail) => full == Some(
                        (out@.map_values(|x: NodeResponse| x@) + tail.0, tail.1),
                    ),
                    None => full is None,
                }
            }),
        decreases n - k,
    {
        match rd_node_resp(d, cur) {
            Some((e, j)) => {
                proof {
                    let outv = out@.map_values(|x: NodeResponse| x@);
                    assert(out@.push(e).map_values(|x: NodeResponse| x@) =~= outv.push(e@));
                    match dec_node_items(d@, j as int, n as int - k as int - 1) {
                        Some(t2) => {
                            assert((outv + (seq![e@] + t2.0)) =~= (outv.push(e@) + t2.0));
                        },
                        None => {},
                    }
                }
                out.push(e);
                cur = j;
                k = k + 1;
            },
            None => {
                return None;
            },
        }
    }
    proof {
        assert(out@.map_values(|x: NodeResponse| x@) + Seq::<NodeResponseV>::empty()
            =~= out@.map_values(|x: NodeResponse| x@));
    }
    Some((out, cur))
}

fn rd_request_kind(d: &Vec<u8>, i: usize) -> (r: Option<(RequestKind, usize)>)
    ensures
        match r {
            Some(p) => dec_request_kind(d@, i as int) == Some((p.0@, p.1 as int)) && i < p.1
                <= d@.len(),
            None => dec_request_kind(d@, i as int) is None,
        },
{
    match rd_u8(d, i) {
        Some((tag, j)) => {
            if tag == 0 {
                match rd_bytes(d, j) {
                    Some((challenge_resp, j1)) => match rd_bytes(d, j1) {
                        Some((node_id, j2)) => match rd_bytes(d, j2) {
                            Some((public_key, j3)) => Some(
                                (
                                    RequestKind::Session(
                                        SessionRequest { challenge_resp, node_id, public_key },
                                    ),
                                    j3,
                                ),
                            ),
                            None => None,
                        },
                        None => None,
                    },
                    None => None,
                }
            } else if tag == 1 {
                match rd_endpoints(d, j) {
                    Some((eps, j1)) => Some((RequestKind::Register(eps), j1)),
                    None => None,
                }
            } else if tag == 2 {
                match rd_bytes(d, j) {
                    Some((node_id, j1)) => match rd_bool(d, j1) {
                        Some((public_key, j2)) => Some(
                            (RequestKind::Node(NodeRequest { node_id, public_key }), j2),
                        ),
                        None => None,
                    },
                    None => None,
                }
            } else if tag == 3 {
                match rd_u32(d, j) {
                    Some((slot, j1)) => match rd_bool(d, j1) {
                        Some((public_key, j2)) => Some(
                            (RequestKind::Slot(SlotRequest { slot, public_key }), j2),
                        ),
                        None => None,
                    },
                    None => None,
                }
            } else if tag == 4 {
                match rd_u32(d, j) {
                    Some((count, j1)) => match rd_bool(d, j1) {
                        Some((public_key, j2)) => Some(
                            (RequestKind::Neighbours(NeighboursRequest { count, public_key }), j2),
                        ),
                        None => None,
                    },
                    None => None,
                }
            } else if tag == 5 {
                Some((RequestKind::Ping, j))
            } else if tag == 6 {
                match rd_bytes(d, j) {
                    Some((nid, j1)) => Some((RequestKind::ReverseConnection(nid), j1)),
                    None => None,
                }
            } else {
                None
            }
        },
        None => None,
    }
}

#[verifier::rlimit(50)]
fn rd_response_kind(d: &Vec<u8>, i: usize) -> (r: Option<(Option<ResponseKind>, usize)>)
    ensures
        match r {
            Some(p) => dec_response_kind(d@, i as int) == Some(
                (view_response_kind(p.0), p.1 as int),
            ) && i < p.1 <= d@.len(),
            None => dec_response_kind(d@, i as int) is None,
        },
{
    match rd_u8(d, i) {
        Some((tag, j)) => {
            if tag == 0 {
                match rd_bytes(d, j) {
                    Some((version, j1)) => match rd_u64(d, j1) {
                        Some((caps, j2)) => match rd_u64(d, j2) {
                            Some((kind, j3)) => match rd_u64(d, j3) {
                                Some((difficulty, j4)) => match rd_bytes(d, j4) {
                                    Some((challenge, j5)) => Some(
                                        (
                                            Some(
                                                ResponseKind::Challenge(
                                                    ChallengeResponse {
                                                        version,
                                                        caps,
                                                        kind,
                                                        difficulty,
                                                        challenge,
                                                    },
                                                ),
                                            ),
                                            j5,
                                        ),
                                    ),
                                    None => None,
                                },
                                None => None,
                            },
                            None => None,
                        },
                        None => None,
                    },
                    None => None,
                }
            } else if tag == 1 {
                Some((Some(ResponseKind::Session), j))
            } else if tag == 2 {
                match rd_endpoints(d, j) {
                    Some((eps, j1)) => Some((Some(ResponseKind::Register(eps)), j1)),
                    None => None,
                }
            } else if tag == 3 {
                match rd_node_resp(d, j) {
                    Some((n, j1)) => Some((Some(ResponseKind::Node(n)), j1)),
                    None => None,
                }
            } else if tag == 4 {
                match rd_u32(d, j) {
                    Some((n, j1)) => match rd_node_items(d, j1, n) {
                        Some((ns, j2)) => Some((Some(ResponseKind::Neighbours(ns)), j2)),
                        None => None,
                    },
                    None => None,
                }
            } else if tag == 5 {
                Some((Some(ResponseKind::Pong), j))
            } else if tag == 6 {
                Some((None, j))
            } else {
                None
            }
        },
        None => None,
    }
}

fn rd_control(d: &Vec<u8>, i: usize) -> (r: Option<(Control, usize)>)
    ensures
        match r {
            Some(p) => dec_control(d@, i as int) == Some((p.0, p.1 as int)) && i < p.1
                <= d@.len(),
            None => dec_control(d@, i as int) is None,
        },
{
    match rd_u8(d, i) {
        Some((tag, j)) => match rd_u32(d, j) {
            Some((slot, j1)) => {
                if tag == 0 {
                    Some((Control::PauseForwarding { slot }, j1))
                } else if tag == 1 {
                    Some((Control::ResumeForwarding { slot }, j1))
                } else {
                    None
                }
            },
            None => None,
        },
        None => None,
    }
}

fn rd_body(d: &Vec<u8>, i: usize) -> (r: Option<(PacketBody, usize)>)
    ensures
        match r {
            Some(p) => dec_body(d@, i as int) == Some((p.0@, p.1 as int)) && i < p.1 <= d@.len(),
            None => dec_body(d@, i as int) is None,
        },
{
    match rd_u8(d, i) {
        Some((tag, j)) => {
            if tag == 0 {
                match rd_u64(d, j) {
                    Some((request_id, j1)) => match rd_request_kind(d, j1) {
                        Some((kind, j2)) => Some(
                            (PacketBody::Request(Request { request_id, kind }), j2),
                        ),
                        None => None,
                    },
                    None => None,
                }
            } else if tag == 1 {
                match rd_u64(d, j) {
                    Some((request_id, j1)) => match rd_u32(d, j1) {
                        Some((code_val, j2)) => match status_of_value(code_val) {
                            Some(code) => match rd_response_kind(d, j2) {
                                Some((kind, j3)) => Some(
                                    (PacketBody::Response(Response { request_id, code, kind }), j3),
                                ),
                                None => None,
                            },
                            None => None,
                        },
                        None => None,
                    },
                    None => None,
                }
            } else if tag == 2 {
                match rd_control(d, j) {
                    Some((c, j1)) => Some((PacketBody::Control(c), j1)),
                    None => None,
                }
            } else {
                None
            }
        },
        None => None,
    }
}

/// Decode one datagram. Fails exactly when the bytes are not the
/// encoding of any frame: truncated, oversize, an unknown tag, or
/// trailing bytes after a `Packet` body.
pub fn decode(data: &Vec<u8>) -> (r: Result<PacketKind, Error>)
    ensures
        match r {
            Ok(p) => dec_packet_kind(data@) == Some(p@),
            Err(e) => e == Error::Internal(InternalError::Decoding) && dec_packet_kind(data@)
                is None,
        },
{
    if data.len() < 1 || data.len() > MAX_PACKET_SIZE {
        return Err(Error::Internal(InternalError::Decoding));
    }
    let tag = data[0];
    if tag == 0 {
        match rd_u8(data, 1) {
            Some((sid_len, j)) => {
                if sid_len == 0 || sid_len == 16 {
                    let sl = sid_len as usize;
                    if sl <= data.len() - j {
                        let sid = sub_bytes(data, j, j + sl);
                        match rd_body(data, j + sl) {
                            Some((body, j1)) => {
                                if j1 == data.len() {
                                    Ok(PacketKind::Packet(Packet { session_id: sid, body }))
                                } else {
                                    Err(Error::Internal(InternalError::Decoding))
                                }
                            },
                            None => Err(Error::Internal(InternalError::Decoding)),
                        }
                    } else {
                        Err(Error::Internal(InternalError::Decoding))
                    }
                } else {
                    Err(Error::Internal(InternalError::Decoding))
                }
            },
            None => Err(Error::Internal(InternalError::Decoding)),
        }
    } else if tag == 1 {
        if data.len() >= 23 {
            let sid = sub_bytes(data, 1, 17);
            let slot = u32_from_be(data[17], data[18], data[19], data[20]);
            let flags = u16_from_be(data[21], data[22]);
            let payload = sub_bytes(data, 23, data.len());
            Ok(PacketKind::Forward(Forward { session_id: sid, slot, flags, payload }))
        } else {
            Err(Error::Internal(InternalError::Decoding))
        }
    } else if tag == 2 {
        Ok(PacketKind::ForwardCtd(sub_bytes(data, 1, data.len())))
    } else {
        Err(Error::Internal(InternalError::Decoding))
    }
}

} // verus!
