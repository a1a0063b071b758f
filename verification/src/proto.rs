//! The packet model: everything that travels over the relay's socket.
//!
//! A datagram is one of three frames: a `Packet` (request, response or
//! control message, with an optional session id), a `Forward` (opaque
//! payload relayed slot to slot) or a `ForwardCtd` continuation, which
//! the relay parses but does not interpret.

use vstd::prelude::*;

use crate::error::StatusCode;
use crate::session::{Endpoint, EndpointV};

verus! {

/// `Request{Session}`: a challenge response with the claimed identity.
#[derive(Debug)]
pub struct SessionRequest {
    pub challenge_resp: Vec<u8>,
    pub node_id: Vec<u8>,
    pub public_key: Vec<u8>,
}

pub struct SessionRequestV {
    pub challenge_resp: Seq<u8>,
    pub node_id: Seq<u8>,
    pub public_key: Seq<u8>,
}

impl View for SessionRequest {
    type V = SessionRequestV;

    open spec fn view(&self) -> SessionRequestV {
        SessionRequestV {
            challenge_resp: self.challenge_resp@,
            node_id: self.node_id@,
            public_key: self.public_key@,
        }
    }
}

/// `Request{Node}`: directory lookup by node id.
#[derive(Debug)]
pub struct NodeRequest {
    pub node_id: Vec<u8>,
    pub public_key: bool,
}

pub struct NodeRequestV {
    pub node_id: Seq<u8>,
    pub public_key: bool,
}

impl View for NodeRequest {
    type V = NodeRequestV;

    open spec fn view(&self) -> NodeRequestV {
        NodeRequestV { node_id: self.node_id@, public_key: self.public_key }
    }
}

/// `Request{Slot}`: directory lookup by slot.
#[derive(Clone, Copy, Debug, PartialEq, Eq, Structural)]
pub struct SlotRequest {
    pub slot: u32,
    pub public_key: bool,
}

/// `Request{Neighbours}`: the `count` closest nodes by Hamming distance.
#[derive(Clone, Copy, Debug, PartialEq, Eq, Structural)]
pub struct NeighboursRequest {
    pub count: u32,
    pub public_key: bool,
}

/// The kinds of request a peer can send.
#[derive(Debug)]
pub enum RequestKind {
    Session(SessionRequest),
    Register(Vec<Endpoint>),
    Node(NodeRequest),
    Slot(SlotRequest),
    Neighbours(NeighboursRequest),
    Ping,
    ReverseConnection(Vec<u8>),
}

pub enum RequestKindV {
    Session(SessionRequestV),
    Register(Seq<EndpointV>),
    Node(NodeRequestV),
    Slot(SlotRequest),
    Neighbours(NeighboursRequest),
    Ping,
    ReverseConnection(Seq<u8>),
}

impl View for RequestKind {
    type V = RequestKindV;

    open spec fn view(&self) -> RequestKindV {
        match self {
            RequestKind::Session(s) => RequestKindV::Session(s@),
            RequestKind::Register(eps) => RequestKindV::Register(
                eps@.map_values(|e: Endpoint| e@),
            ),
            RequestKind::Node(n) => RequestKindV::Node(n@),
            RequestKind::Slot(s) => RequestKindV::Slot(*s),
            RequestKind::Neighbours(n) => RequestKindV::Neighbours(*n),
            RequestKind::Ping => RequestKindV::Ping,
            RequestKind::ReverseConnection(nid) => RequestKindV::ReverseConnection(nid@),
        }
    }
}

/// A request with the id its response must echo.
#[derive(Debug)]
pub struct Request {
    pub request_id: u64,
    pub kind: RequestKind,
}

pub struct RequestV {
    pub request_id: u64,
    pub kind: RequestKindV,
}

impl View for Request {
    type V = RequestV;

    open spec fn view(&self) -> RequestV {
        RequestV { request_id: self.request_id, kind: self.kind@ }
    }
}

/// `Response{Challenge}`: what the server answers a new session with.
#[derive(Debug)]
pub struct ChallengeResponse {
    pub version: Vec<u8>,
    pub caps: u64,
    pub kind: u64,
    pub difficulty: u64,
    pub challenge: Vec<u8>,
}

pub struct ChallengeResponseV {
    pub version: Seq<u8>,
    pub caps: u64,
    pub kind: u64,
    pub difficulty: u64,
    pub challenge: Seq<u8>,
}

impl View for ChallengeResponse {
    type V = ChallengeResponseV;

    open spec fn view(&self) -> ChallengeResponseV {
        ChallengeResponseV {
            version: self.version@,
            caps: self.caps,
            kind: self.kind,
            difficulty: self.difficulty,
            challenge: self.challenge@,
        }
    }
}

/// `Response{Node}`: one directory record.
#[derive(Debug)]
pub struct NodeResponse {
    pub node_id: Vec<u8>,
    pub public_key: Vec<u8>,
    pub endpoints: Vec<Endpoint>,
    pub seen_ts: u32,
    pub slot: u32,
}

pub struct NodeResponseV {
    pub node_id: Seq<u8>,
    pub public_key: Seq<u8>,
    pub endpoints: Seq<EndpointV>,
    pub seen_ts: u32,
    pub slot: u32,
}

impl View for NodeResponse {
    type V = NodeResponseV;

    open spec fn view(&self) -> NodeResponseV {
        NodeResponseV {
            node_id: self.node_id@,
            public_key: self.public_key@,
            endpoints: self.endpoints@.map_values(|e: Endpoint| e@),
            seen_ts: self.seen_ts,
            slot: self.slot,
        }
    }
}

/// The kinds of response the server can send.
#[derive(Debug)]
pub enum ResponseKind {
    Challenge(ChallengeResponse),
    Session,
    Register(Vec<Endpoint>),
    Node(NodeResponse),
    Neighbours(Vec<NodeResponse>),
    Pong,
}

pub enum ResponseKindV {
    Challenge(ChallengeResponseV),
    Session,
    Register(Seq<EndpointV>),
    Node(NodeResponseV),
    Neighbours(Seq<NodeResponseV>),
    Pong,
}

impl View for ResponseKind {
    type V = ResponseKindV;

    open spec fn view(&self) -> ResponseKindV {
        match self {
            ResponseKind::Challenge(c) => ResponseKindV::Challenge(c@),
            ResponseKind::Session => ResponseKindV::Session,
            ResponseKind::Register(eps) => ResponseKindV::Register(
                eps@.map_values(|e: Endpoint| e@),
            ),
            ResponseKind::Node(n) => ResponseKindV::Node(n@),
            ResponseKind::Neighbours(ns) => ResponseKindV::Neighbours(
                ns@.map_values(|n: NodeResponse| n@),
            ),
            ResponseKind::Pong => ResponseKindV::Pong,
        }
    }
}

/// A response: echoed request id, status, and a body unless the status
/// alone is the answer.
#[derive(Debug)]
pub struct Response {
    pub request_id: u64,
    pub code: StatusCode,
    pub kind: Option<ResponseKind>,
}

pub struct ResponseV {
    pub request_id: u64,
    pub code: StatusCode,
    pub kind: Option<ResponseKindV>,
}

impl View for Response {
    type V = ResponseV;

    open spec fn view(&self) -> ResponseV {
        ResponseV {
            request_id: self.request_id,
            code: self.code,
            kind: match &self.kind {
                Some(k) => Some(k@),
                None => None,
            },
        }
    }
}

/// Flow-control messages of the forwarding plane.
#[derive(Clone, Copy, Debug, PartialEq, Eq, Structural)]
pub enum Control {
    PauseForwarding { slot: u32 },
    ResumeForwarding { slot: u32 },
}

/// The body of a `Packet` frame.
#[derive(Debug)]
pub enum PacketBody {
    Request(Request),
    Response(Response),
    Control(Control),
}

pub enum PacketBodyV {
    Request(RequestV),
    Response(ResponseV),
    Control(Control),
}

impl View for PacketBody {
    type V = PacketBodyV;

    open spec fn view(&self) -> PacketBodyV {
        match self {
            PacketBody::Request(r) => PacketBodyV::Request(r@),
            PacketBody::Response(r) => PacketBodyV::Response(r@),
            PacketBody::Control(c) => PacketBodyV::Control(*c),
        }
    }
}

/// A control-plane frame: empty or 16-byte session id, and a body.
#[derive(Debug)]
pub struct Packet {
    pub session_id: Vec<u8>,
    pub body: PacketBody,
}

pub struct PacketV {
    pub session_id: Seq<u8>,
    pub body: PacketBodyV,
}

impl View for Packet {
    type V = PacketV;

    open spec fn view(&self) -> PacketV {
        PacketV { session_id: self.session_id@, body: self.body@ }
    }
}

/// A forwarded datagram: sender's session, destination slot on the way
/// in (sender's slot on the way out), flags and opaque payload.
#[derive(Debug)]
pub struct Forward {
    pub session_id: Vec<u8>,
    pub slot: u32,
    pub flags: u16,
    pub payload: Vec<u8>,
}

pub struct ForwardV {
    pub session_id: Seq<u8>,
    pub slot: u32,
    pub flags: u16,
    pub payload: Seq<u8>,
}

impl View for Forward {
    type V = ForwardV;

    open spec fn view(&self) -> ForwardV {
        ForwardV {
            session_id: self.session_id@,
            slot: self.slot,
            flags: self.flags,
            payload: self.payload@,
        }
    }
}

/// Any frame the relay reads from or writes to its socket.
#[derive(Debug)]
pub enum PacketKind {
    Packet(Packet),
    Forward(Forward),
    ForwardCtd(Vec<u8>),
}

pub enum PacketKindV {
    Packet(PacketV),
    Forward(ForwardV),
    ForwardCtd(Seq<u8>),
}

impl View for PacketKind {
    type V = PacketKindV;

    open spec fn view(&self) -> PacketKindV {
        match self {
            PacketKind::Packet(p) => PacketKindV::Packet(p@),
            PacketKind::Forward(f) => PacketKindV::Forward(f@),
            PacketKind::ForwardCtd(b) => PacketKindV::ForwardCtd(b@),
        }
    }
}

impl Packet {
    /// A request packet.
    pub fn request(session_id: Vec<u8>, request_id: u64, kind: RequestKind) -> (r: PacketKind)
        ensures
            r@ == PacketKindV::Packet(PacketV {
                session_id: session_id@,
                body: PacketBodyV::Request(RequestV { request_id, kind: kind@ }),
            }),
    {
        PacketKind::Packet(Packet {
            session_id,
            body: PacketBody::Request(Request { request_id, kind }),
        })
    }

    /// A response packet with a body.
    pub fn response(request_id: u64, session_id: Vec<u8>, code: StatusCode, kind: ResponseKind) -> (r: PacketKind)
        ensures
            r@ == PacketKindV::Packet(PacketV {
                session_id: session_id@,
                body: PacketBodyV::Response(ResponseV { request_id, code, kind: Some(kind@) }),
            }),
    {
        PacketKind::Packet(Packet {
            session_id,
            body: PacketBody::Response(Response { request_id, code, kind: Some(kind) }),
        })
    }

    /// A control packet.
    pub fn control(session_id: Vec<u8>, control: Control) -> (r: PacketKind)
        ensures
            r@ == PacketKindV::Packet(PacketV {
                session_id: session_id@,
                body: PacketBodyV::Control(control),
            }),
    {
        PacketKind::Packet(Packet { session_id, body: PacketBody::Control(control) })
    }

    /// A bare error response: a status code and no body.
    pub fn error(request_id: u64, session_id: Vec<u8>, code: StatusCode) -> (r: PacketKind)
        ensures
            r@ == PacketKindV::Packet(PacketV {
                session_id: session_id@,
                body: PacketBodyV::Response(ResponseV { request_id, code, kind: None }),
            }),
    {
        PacketKind::Packet(Packet {
            session_id,
            body: PacketBody::Response(Response { request_id, code, kind: None }),
        })
    }
}

impl PacketKind {
    /// The session id bytes a frame carries (empty for `ForwardCtd`).
    pub open spec fn spec_session_id(self) -> Seq<u8> {
        match self@ {
            PacketKindV::Packet(p) => p.session_id,
            PacketKindV::Forward(f) => f.session_id,
            PacketKindV::ForwardCtd(_) => Seq::empty(),
        }
    }

    /// The session id bytes a frame carries.
    pub fn session_id(&self) -> (r: Vec<u8>)
        ensures
            r@ == self.spec_session_id(),
    {
        match self {
            PacketKind::Packet(p) => crate::session::clone_bytes(&p.session_id),
            PacketKind::Forward(f) => crate::session::clone_bytes(&f.session_id),
            PacketKind::ForwardCtd(_) => Vec::new(),
        }
    }

    /// The request id of a request frame, if this is one.
    pub open spec fn spec_request_id(self) -> Option<u64> {
        match self@ {
            PacketKindV::Packet(p) => match p.body {
                PacketBodyV::Request(r) => Some(r.request_id),
                _ => None,
            },
            _ => None,
        }
    }

    /// The request id of a request frame, if this is one.
    pub fn request_id(&self) -> (r: Option<u64>)
        ensures
            r == self.spec_request_id(),
    {
        match self {
            PacketKind::Packet(p) => match &p.body {
                PacketBody::Request(req) => Some(req.request_id),
                _ => None,
            },
            _ => None,
        }
    }
}

} // verus!
