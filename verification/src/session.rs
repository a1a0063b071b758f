//! Identifiers and per-session records: node ids, session ids,
//! endpoints and the data the registry keeps for one peer.

use vstd::prelude::*;

verus! {

/// Length in bytes of a session identifier.
pub const SESSION_ID_SIZE: usize = 16;

/// Length in bytes of a node identifier.
pub const NODE_ID_SIZE: usize = 20;

/// Opaque 16-byte session identifier, drawn at random at handshake start.
#[derive(Debug)]
pub struct SessionId {
    pub bytes: Vec<u8>,
}

impl View for SessionId {
    type V = Seq<u8>;

    open spec fn view(&self) -> Seq<u8> {
        self.bytes@
    }
}

impl SessionId {
    pub open spec fn wf(&self) -> bool {
        self@.len() == SESSION_ID_SIZE
    }

    /// Draw a fresh identifier.
    pub fn generate() -> (r: SessionId)
        ensures
            r.wf(),
    {
        SessionId { bytes: random_bytes_16() }
    }

    /// Accept a raw identifier if and only if it has the right length.
    pub fn from_vec(bytes: Vec<u8>) -> (r: Option<SessionId>)
        ensures
            match r {
                Some(id) => id.wf() && id@ == bytes@,
                None => bytes@.len() != SESSION_ID_SIZE,
            },
    {
        if bytes.len() == SESSION_ID_SIZE {
            Some(SessionId { bytes })
        } else {
            None
        }
    }

    /// The identifier as raw bytes.
    pub fn to_vec(&self) -> (r: Vec<u8>)
        ensures
            r@ == self@,
    {
        clone_bytes(&self.bytes)
    }
}

impl Clone for SessionId {
    fn clone(&self) -> (r: Self)
        ensures
            r@ == self@,
    {
        SessionId { bytes: clone_bytes(&self.bytes) }
    }
}

impl PartialEq for SessionId {
    fn eq(&self, other: &Self) -> bool {
        bytes_eq(&self.bytes, &other.bytes)
    }
}

impl vstd::std_specs::cmp::PartialEqSpecImpl for SessionId {
    open spec fn obeys_eq_spec() -> bool {
        true
    }

    open spec fn eq_spec(&self, other: &Self) -> bool {
        self@ == other@
    }
}

impl Eq for SessionId {

}

/// Opaque 20-byte node identifier derived from a public key.
#[derive(Debug)]
pub struct NodeId {
    pub bytes: Vec<u8>,
}

impl View for NodeId {
    type V = Seq<u8>;

    open spec fn view(&self) -> Seq<u8> {
        self.bytes@
    }
}

impl NodeId {
    pub open spec fn wf(&self) -> bool {
        self@.len() == NODE_ID_SIZE
    }

    /// Accept a raw identifier if and only if it has the right length.
    pub fn from_vec(bytes: Vec<u8>) -> (r: Option<NodeId>)
        ensures
            match r {
                Some(id) => id.wf() && id@ == bytes@,
                None => bytes@.len() != NODE_ID_SIZE,
            },
    {
        if bytes.len() == NODE_ID_SIZE {
            Some(NodeId { bytes })
        } else {
            None
        }
    }

    /// The identifier as raw bytes.
    pub fn to_vec(&self) -> (r: Vec<u8>)
        ensures
            r@ == self@,
    {
        clone_bytes(&self.bytes)
    }

    /// Byte at position `i`.
    pub fn byte_at(&self, i: usize) -> (r: u8)
        requires
            i < self@.len(),
        ensures
            r == self@[i as int],
    {
        self.bytes[i]
    }
}

impl Clone for NodeId {
    fn clone(&self) -> (r: Self)
        ensures
            r@ == self@,
    {
        NodeId { bytes: clone_bytes(&self.bytes) }
    }
}

impl PartialEq for NodeId {
    fn eq(&self, other: &Self) -> bool {
        bytes_eq(&self.bytes, &other.bytes)
    }
}

impl vstd::std_specs::cmp::PartialEqSpecImpl for NodeId {
    open spec fn obeys_eq_spec() -> bool {
        true
    }

    open spec fn eq_spec(&self, other: &Self) -> bool {
        self@ == other@
    }
}

impl Eq for NodeId {

}

/// Transport protocol of an advertised endpoint. The relay emits UDP only.
#[derive(Clone, Copy, Debug, PartialEq, Eq, Structural)]
pub enum Protocol {
    Udp,
    Tcp,
}

/// A peer address in its textual `host:port` form.
#[derive(Debug)]
pub struct Address {
    pub bytes: Vec<u8>,
}

impl View for Address {
    type V = Seq<u8>;

    open spec fn view(&self) -> Seq<u8> {
        self.bytes@
    }
}

impl Address {
    pub fn from_vec(bytes: Vec<u8>) -> (r: Address)
        ensures
            r@ == bytes@,
    {
        Address { bytes }
    }

    pub fn to_vec(&self) -> (r: Vec<u8>)
        ensures
            r@ == self@,
    {
        clone_bytes(&self.bytes)
    }
}

impl Clone for Address {
    fn clone(&self) -> (r: Self)
        ensures
            r@ == self@,
    {
        Address { bytes: clone_bytes(&self.bytes) }
    }
}

impl PartialEq for Address {
    fn eq(&self, other: &Self) -> bool {
        bytes_eq(&self.bytes, &other.bytes)
    }
}

impl vstd::std_specs::cmp::PartialEqSpecImpl for Address {
    open spec fn obeys_eq_spec() -> bool {
        true
    }

    open spec fn eq_spec(&self, other: &Self) -> bool {
        self@ == other@
    }
}

impl Eq for Address {

}

/// Spec-level value of an endpoint.
pub struct EndpointV {
    pub protocol: Protocol,
    pub address: Seq<u8>,
}

/// One advertised way to reach a node.
#[derive(Debug)]
pub struct Endpoint {
    pub protocol: Protocol,
    pub address: Address,
}

impl View for Endpoint {
    type V = EndpointV;

    open spec fn view(&self) -> EndpointV {
        EndpointV { protocol: self.protocol, address: self.address@ }
    }
}

impl Clone for Endpoint {
    fn clone(&self) -> (r: Self)
        ensures
            r@ == self@,
    {
        Endpoint { protocol: self.protocol, address: self.address.clone() }
    }
}

/// Spec-level value of the directory record of a node.
pub struct NodeInfoV {
    pub node_id: Seq<u8>,
    pub public_key: Seq<u8>,
    pub slot: u32,
    pub endpoints: Seq<EndpointV>,
}

/// Directory record of a node: identity, key, slot and endpoints.
#[derive(Debug)]
pub struct NodeInfo {
    pub node_id: NodeId,
    pub public_key: Vec<u8>,
    pub slot: u32,
    pub endpoints: Vec<Endpoint>,
}

impl View for NodeInfo {
    type V = NodeInfoV;

    open spec fn view(&self) -> NodeInfoV {
        NodeInfoV {
            node_id: self.node_id@,
            public_key: self.public_key@,
            slot: self.slot,
            endpoints: self.endpoints@.map_values(|e: Endpoint| e@),
        }
    }
}

impl NodeInfo {
    pub open spec fn wf(&self) -> bool {
        self.node_id.wf()
    }
}

impl Clone for NodeInfo {
    fn clone(&self) -> (r: Self)
        ensures
            r@ == self@,
    {
        let r = NodeInfo {
            node_id: self.node_id.clone(),
            public_key: clone_bytes(&self.public_key),
            slot: self.slot,
            endpoints: clone_endpoints(&self.endpoints),
        };
        proof {
            assert(r@.endpoints =~= self@.endpoints);
            assert(r@ =~= self@);
        }
        r
    }
}

/// Spec-level value of a live session.
pub struct NodeSessionV {
    pub info: NodeInfoV,
    pub session: Seq<u8>,
    pub last_seen: i64,
}

/// A live, established session: who, under which session id, and when
/// the peer was last heard from (seconds of wall-clock time).
#[derive(Debug)]
pub struct NodeSession {
    pub info: NodeInfo,
    pub session: SessionId,
    pub last_seen: i64,
}

impl View for NodeSession {
    type V = NodeSessionV;

    open spec fn view(&self) -> NodeSessionV {
        NodeSessionV { info: self.info@, session: self.session@, last_seen: self.last_seen }
    }
}

impl NodeSession {
    pub open spec fn wf(&self) -> bool {
        self.info.wf() && self.session.wf()
    }
}

impl Clone for NodeSession {
    fn clone(&self) -> (r: Self)
        ensures
            r@ == self@,
    {
        NodeSession {
            info: self.info.clone(),
            session: self.session.clone(),
            last_seen: self.last_seen,
        }
    }
}

/// Byte-wise copy of a buffer.
pub fn clone_bytes(v: &Vec<u8>) -> (r: Vec<u8>)
    ensures
        r@ == v@,
{
    let mut r: Vec<u8> = Vec::new();
    let mut i: usize = 0;
    while i < v.len()
        invariant
            i <= v@.len(),
            r@ == v@.subrange(0, i as int),
        decreases v@.len() - i,
    {
        r.push(v[i]);
        i = i + 1;
        proof {
            assert(r@ =~= v@.subrange(0, i as int));
        }
    }
    proof {
        assert(r@ =~= v@);
    }
    r
}

/// Byte-wise equality of two buffers.
pub fn bytes_eq(a: &Vec<u8>, b: &Vec<u8>) -> (r: bool)
    ensures
        r == (a@ == b@),
{
    if a.len() != b.len() {
        proof {
            assert(a@.len() != b@.len());
        }
        return false;
    }
    let mut i: usize = 0;
    while i < a.len()
        invariant
            i <= a@.len(),
            a@.len() == b@.len(),
            forall|j: int| 0 <= j < i ==> a@[j] == b@[j],
        decreases a@.len() - i,
    {
        if a[i] != b[i] {
            proof {
                assert(a@[i as int] != b@[i as int]);
            }
            return false;
        }
        i = i + 1;
    }
    proof {
        assert(a@ =~= b@);
    }
    true
}

pub fn clone_endpoints(v: &Vec<Endpoint>) -> (r: Vec<Endpoint>)
    ensures
        r@.map_values(|e: Endpoint| e@) == v@.map_values(|e: Endpoint| e@),
{
    let mut r: Vec<Endpoint> = Vec::new();
    let mut i: usize = 0;
    while i < v.len()
        invariant
            i <= v@.len(),
            r@.len() == i,
            forall|j: int| 0 <= j < i ==> r@[j]@ == v@[j]@,
        decreases v@.len() - i,
    {
        let e = v[i].clone();
        r.push(e);
        i = i + 1;
    }
    proof {
        assert(r@.map_values(|e: Endpoint| e@) =~= v@.map_values(|e: Endpoint| e@));
    }
    r
}

/// Relies on rand::fill: fills the buffer with bytes from the thread-local
/// random generator. Nothing is promised of the values.
#[verifier::external_body]
pub(crate) fn random_bytes_16() -> (r: Vec<u8>)
    ensures
        r@.len() == 16,
{
    let mut b = [0u8; 16];
    rand::fill(&mut b[..]);
    b.to_vec()
}

} // verus!
