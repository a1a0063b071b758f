//! The relay server: handshake state machine, packet dispatcher,
//! forwarding plane and timers, as one synchronous state machine.
//!
//! The surrounding process feeds `dispatch` each datagram together with
//! the current wall-clock second, performs the endpoint probes and
//! sends the datagrams the server hands back; the periodic sweeps are
//! driven the same way. Everything the server decides is decided here.

use vstd::prelude::*;

use crate::challenge;
use crate::error::{
    BadRequest, Error, InternalError, NotFound, ServerResult, StatusCode, Timeout, Unauthorized,
};
use crate::limits::{
    check_rate, clock_now_ns, clock_start, new_clock, new_limiter, Limiter, RateDecision,
};
use crate::proto::{
    ChallengeResponse, Control, Forward, NodeResponse, NodeResponseV, Packet, PacketBody,
    PacketBodyV, PacketKind, PacketKindV, PacketV, Request, RequestKind, RequestKindV, RequestV,
    Response, ResponseKind, ResponseKindV, ResponseV,
};
use crate::session::{
    bytes_eq, clone_bytes, random_bytes_16, Address, Endpoint, EndpointV, NodeId, NodeInfo,
    NodeInfoV, NodeSession, NodeSessionV, Protocol, SessionId, NODE_ID_SIZE, SESSION_ID_SIZE,
};
use crate::codec::MAX_PACKET_SIZE;
use crate::state::NodesState;

verus! {

/// Length in bytes of a proof-of-work challenge.
pub const CHALLENGE_SIZE: usize = 16;

/// Leading zero bits a challenge solution must reach.
pub const CHALLENGE_DIFFICULTY: u64 = 16;

/// Cells (bytes of payload) a sender may forward per second.
pub const FORWARDER_RATE_LIMIT: u32 = 2048;

/// Seconds between two resume sweeps; the process timer uses it.
pub const FORWARDER_RESUME_INTERVAL: u64 = 1;

/// Where a pending handshake stands.
pub enum HandshakeStage {
    /// Challenge sent; waiting for the solved challenge.
    AwaitSession,
    /// Challenge solved; waiting for the register request.
    AwaitRegister { node: NodeSession },
    /// Register received; the peer's address is being probed.
    Probing { request_id: u64, node: NodeSession },
}

/// One pending handshake: issued challenge, peer, and stage.
pub struct StartingSession {
    pub session_id: SessionId,
    pub peer: Address,
    pub challenge: Vec<u8>,
    pub stage: HandshakeStage,
}

/// One paused sender waiting to be resumed.
pub struct ResumeEntry {
    pub resume_ns: u64,
    pub session_id: SessionId,
    pub peer: Address,
}

/// Everything the server mutates.
pub struct ServerState {
    pub nodes: NodesState,
    pub starting_session: Vec<StartingSession>,
    pub resume_forwarding: Vec<ResumeEntry>,
}

/// One thing the process must do on the server's behalf.
#[derive(Debug)]
pub enum Output {
    /// Send `packet` to `dest`.
    Datagram { dest: Address, packet: PacketKind },
    /// Probe `peer` from a fresh socket (ping under `session_id`,
    /// 300 ms budget), then report through `probe_result`.
    Probe { session_id: SessionId, peer: Address },
}

pub enum OutputV {
    Datagram { dest: Seq<u8>, packet: PacketKindV },
    Probe { session_id: Seq<u8>, peer: Seq<u8> },
}

impl View for Output {
    type V = OutputV;

    open spec fn view(&self) -> OutputV {
        match self {
            Output::Datagram { dest, packet } => OutputV::Datagram {
                dest: dest@,
                packet: packet@,
            },
            Output::Probe { session_id, peer } => OutputV::Probe {
                session_id: session_id@,
                peer: peer@,
            },
        }
    }
}

/// The relay server.
pub struct Server {
    pub state: ServerState,
    pub clock: governor::clock::QuantaClock,
    pub clock_base: governor::clock::QuantaInstant,
    /// Seconds without traffic after which a session expires.
    pub session_timeout: i64,
}

/// Index of the first pending handshake with session id `sid`.
pub open spec fn find_starting_from(s: Seq<StartingSession>, sid: Seq<u8>, i: int) -> Option<int>
    decreases s.len() - i,
{
    if i < 0 || i >= s.len() {
        None
    } else if s[i].session_id@ == sid {
        Some(i)
    } else {
        find_starting_from(s, sid, i + 1)
    }
}

/// Everything `find_starting_from` promises.
pub proof fn lemma_find_starting_from_props(s: Seq<StartingSession>, sid: Seq<u8>, i: int)
    requires
        0 <= i <= s.len(),
    ensures
        match find_starting_from(s, sid, i) {
            Some(j) => i <= j < s.len() && s[j].session_id@ == sid && forall|k: int|
                i <= k < j ==> s[k].session_id@ != sid,
            None => forall|k: int| i <= k < s.len() ==> s[k].session_id@ != sid,
        },
    decreases s.len() - i,
{
    if i < s.len() && s[i].session_id@ != sid {
        lemma_find_starting_from_props(s, sid, i + 1);
    }
}

/// A pending entry is internally consistent.
pub open spec fn wf_starting(e: StartingSession) -> bool {
    &&& e.session_id.wf()
    &&& e.challenge@.len() == CHALLENGE_SIZE
    &&& match e.stage {
        HandshakeStage::AwaitSession => true,
        HandshakeStage::AwaitRegister { node } => node.wf() && node.session@ == e.session_id@,
        HandshakeStage::Probing { request_id, node } => node.wf() && node.session@
            == e.session_id@,
    }
}

/// Pending entries are consistent and their session ids unique.
pub open spec fn wf_pending(s: Seq<StartingSession>) -> bool {
    &&& forall|i: int| 0 <= i < s.len() ==> wf_starting(#[trigger] s[i])
    &&& forall|i: int, j: int|
        0 <= i < s.len() && 0 <= j < s.len() && i != j ==> s[i].session_id@ != s[j].session_id@
}

/// The resume queue is ordered by resume time.
pub open spec fn wf_resume(s: Seq<ResumeEntry>) -> bool {
    forall|i: int, j: int| 0 <= i < j < s.len() ==> s[i].resume_ns <= s[j].resume_ns
}

/// How many leading queue entries are due at `now_ns`.
pub open spec fn due_prefix(q: Seq<ResumeEntry>, now_ns: u64) -> int
    decreases q.len(),
{
    if q.len() == 0 {
        0
    } else if q[0].resume_ns <= now_ns {
        1 + due_prefix(q.drop_first(), now_ns)
    } else {
        0
    }
}

/// The resume notices the due prefix of the queue produces, as plain
/// values `(peer, slot, session id)`: one per due entry whose session
/// is still registered.
pub open spec fn expected_resumes(q: Seq<ResumeEntry>, nodes: NodesState, now_ns: u64) -> Seq<
    (Seq<u8>, u32, Seq<u8>),
>
    decreases q.len(),
{
    if q.len() == 0 || q[0].resume_ns > now_ns {
        Seq::empty()
    } else {
        let rest = expected_resumes(q.drop_first(), nodes, now_ns);
        if nodes.has_session(q[0].session_id@) {
            seq![
                (
                    q[0].peer@,
                    nodes.at(nodes.spec_find_session(q[0].session_id@).unwrap()).info.slot,
                    q[0].session_id@,
                ),
            ] + rest
        } else {
            rest
        }
    }
}

/// What a resume notice looks like, as plain values; `None` for any
/// other output.
pub open spec fn resume_view(o: OutputV) -> Option<(Seq<u8>, u32, Seq<u8>)> {
    match o {
        OutputV::Datagram { dest, packet } => match packet {
            PacketKindV::Packet(p) => match p.body {
                PacketBodyV::Control(Control::ResumeForwarding { slot }) => Some(
                    (dest, slot, p.session_id),
                ),
                _ => None,
            },
            _ => None,
        },
        _ => None,
    }
}

impl Server {
    /// The server invariant.
    pub open spec fn wf(self) -> bool {
        &&& self.state.nodes.wf()
        &&& wf_pending(self.state.starting_session@)
        &&& wf_resume(self.state.resume_forwarding@)
    }

    /// Configuration and clock survive every operation.
    pub open spec fn same_config(self, other: Server) -> bool {
        &&& self.session_timeout == other.session_timeout
        &&& self.clock == other.clock
        &&& self.clock_base == other.clock_base
    }

    /// A fresh server with no sessions.
    pub fn new(session_timeout: i64) -> (r: Server)
        ensures
            r.wf(),
            r.state.nodes.len() == 0,
            r.state.starting_session@.len() == 0,
            r.state.resume_forwarding@.len() == 0,
            r.session_timeout == session_timeout,
    {
        let clock = new_clock();
        let clock_base = clock_start(&clock);
        Server {
            state: ServerState {
                nodes: NodesState::new(),
                starting_session: Vec::new(),
                resume_forwarding: Vec::new(),
            },
            clock,
            clock_base,
            session_timeout,
        }
    }

    /// Drop every session that has expired by the wall clock; the
    /// process timer calls this at its cleaning interval. Returns the
    /// sampled time: exactly the sessions not heard from within the
    /// timeout before it survive.
    pub fn check_session_timeouts(&mut self) -> (now: i64)
        requires
            old(self).wf(),
        ensures
            final(self).wf(),
            final(self).same_config(*old(self)),
            final(self).state.starting_session@ == old(self).state.starting_session@,
            final(self).state.resume_forwarding@ == old(self).state.resume_forwarding@,
            forall|i: int|
                #[trigger] final(self).state.nodes.occ(i) <==> (old(self).state.nodes.occ(i)
                    && now - old(self).state.nodes.at(i).last_seen <= old(self).session_timeout),
            forall|i: int|
                #[trigger] final(self).state.nodes.occ(i) ==> final(self).state.nodes.at(i)
                    == old(self).state.nodes.at(i),
            final(self).state.nodes.len() == old(self).state.nodes.len(),
    {
        let now = now_ts();
        let ttl = self.session_timeout;
        self.state.nodes.check_timeouts(now, ttl);
        now
    }

    /// Emit a resume notice for every due, still-registered sender and
    /// drop the due prefix of the queue; the process timer calls this
    /// every [`FORWARDER_RESUME_INTERVAL`] seconds.
    pub fn check_resume_forwarding(&mut self) -> (r: Vec<Output>)
        requires
            old(self).wf(),
        ensures
            final(self).wf(),
            final(self).same_config(*old(self)),
            exists|now_ns: u64|
                {
                    &&& final(self).state.resume_forwarding@ == old(
                        self,
                    ).state.resume_forwarding@.skip(
                        due_prefix(old(self).state.resume_forwarding@, now_ns),
                    )
                    &&& r@.map_values(|o: Output| resume_view(o@)) == expected_resumes(
                        old(self).state.resume_forwarding@,
                        old(self).state.nodes,
                        now_ns,
                    ).map_values(|t: (Seq<u8>, u32, Seq<u8>)| Some(t))
                },
            final(self).state.nodes == old(self).state.nodes,
            final(self).state.starting_session@ == old(self).state.starting_session@,
    {
        let now_ns = clock_now_ns(&self.clock, &self.clock_base);
        self.resume_due(now_ns)
    }

    /// The decisions of one resume sweep at clock reading `now_ns`:
    /// every due entry leaves the queue, and each one whose session is
    /// still registered yields a `ResumeForwarding` notice for that
    /// session's own slot, in queue order.
    #[verifier::loop_isolation(false)]
    pub fn resume_due(&mut self, now_ns: u64) -> (r: Vec<Output>)
        requires
            old(self).wf(),
        ensures
            final(self).wf(),
            final(self).same_config(*old(self)),
            final(self).state.nodes == old(self).state.nodes,
            final(self).state.starting_session@ == old(self).state.starting_session@,
            final(self).state.resume_forwarding@ == old(self).state.resume_forwarding@.skip(
                due_prefix(old(self).state.resume_forwarding@, now_ns),
            ),
            r@.map_values(|o: Output| resume_view(o@)) == expected_resumes(
                old(self).state.resume_forwarding@,
                old(self).state.nodes,
                now_ns,
            ).map_values(|t: (Seq<u8>, u32, Seq<u8>)| Some(t)),
    {
        let ghost q0 = self.state.resume_forwarding@;
        let ghost nodes0 = self.state.nodes;
        let mut out: Vec<Output> = Vec::new();
        let ghost mut k: int = 0;
        proof {
            assert(q0.skip(0) =~= q0);
            assert(out@.map_values(|o: Output| resume_view(o@)) =~= Seq::<
                Option<(Seq<u8>, u32, Seq<u8>)>,
            >::empty());
            assert(Seq::<Option<(Seq<u8>, u32, Seq<u8>)>>::empty() + expected_resumes(
                q0,
                nodes0,
                now_ns,
            ).map_values(|t: (Seq<u8>, u32, Seq<u8>)| Some(t)) =~= expected_resumes(
                q0,
                nodes0,
                now_ns,
            ).map_values(|t: (Seq<u8>, u32, Seq<u8>)| Some(t)));
        }
        while self.state.resume_forwarding.len() > 0 && self.state.resume_forwarding[0].resume_ns
            <= now_ns
            invariant
                self.state.nodes == nodes0,
                self.state.starting_session@ == old(self).state.starting_session@,
                self.same_config(*old(self)),
                0 <= k <= q0.len(),
                self.state.resume_forwarding@ == q0.skip(k),
                forall|i: int| 0 <= i < k ==> q0[i].resume_ns <= now_ns,
                out@.map_values(|o: Output| resume_view(o@)) + expected_resumes(
                    q0.skip(k),
                    nodes0,
                    now_ns,
                ).map_values(|t: (Seq<u8>, u32, Seq<u8>)| Some(t)) == expected_resumes(
                    q0,
                    nodes0,
                    now_ns,
                ).map_values(|t: (Seq<u8>, u32, Seq<u8>)| Some(t)),
            decreases self.state.resume_forwarding@.len(),
        {
            let entry = self.state.resume_forwarding.remove(0);
            let ghost out_pre = out@;
            let ghost qk = q0.skip(k);
            match self.state.nodes.get_by_session(&entry.session_id) {
                Some(ns) => {
                    let pkt = Packet::control(
                        entry.session_id.to_vec(),
                        Control::ResumeForwarding { slot: ns.info.slot },
                    );
                    out.push(Output::Datagram { dest: entry.peer, packet: pkt });
                },
                None => {},
            }
            proof {
                assert(qk.drop_first() =~= q0.skip(k + 1));
                assert(qk[0] == q0[k]);
                let head = qk[0];
                let rest = expected_resumes(q0.skip(k + 1), nodes0, now_ns);
                if nodes0.has_session(head.session_id@) {
                    let item = (
                        head.peer@,
                        nodes0.at(nodes0.spec_find_session(head.session_id@).unwrap()).info.slot,
                        head.session_id@,
                    );
                    assert(expected_resumes(qk, nodes0, now_ns) == seq![item] + rest);
                    lemma_map_option_distributes(seq![item], rest);
                    assert(out@.map_values(|o: Output| resume_view(o@)) =~= out_pre.map_values(
                        |o: Output| resume_view(o@),
                    ) + seq![Some(item)]);
                    assert(out_pre.map_values(|o: Output| resume_view(o@)) + (seq![Some(item)]
                        + rest.map_values(|t: (Seq<u8>, u32, Seq<u8>)| Some(t))) =~= (
                    out_pre.map_values(|o: Output| resume_view(o@)) + seq![Some(item)])
                        + rest.map_values(|t: (Seq<u8>, u32, Seq<u8>)| Some(t)));
                } else {
                    assert(expected_resumes(qk, nodes0, now_ns) == rest);
                    assert(out@ == out_pre);
                }
                k = k + 1;
            }
        }
        proof {
            lemma_due_prefix_stop(q0, now_ns, k);
            assert(expected_resumes(q0.skip(k), nodes0, now_ns) == Seq::<
                (Seq<u8>, u32, Seq<u8>),
            >::empty());
            assert(out@.map_values(|o: Output| resume_view(o@)) + Seq::<
                Option<(Seq<u8>, u32, Seq<u8>)>,
            >::empty() =~= out@.map_values(|o: Output| resume_view(o@)));
        }
                out
    }
}

/// When every entry below `k` is due and the queue from `k` on starts
/// with an entry that is not (or is empty), the due prefix is `k`.
proof fn lemma_due_prefix_stop(q: Seq<ResumeEntry>, now_ns: u64, k: int)
    requires
        0 <= k <= q.len(),
        forall|i: int| 0 <= i < k ==> q[i].resume_ns <= now_ns,
        q.skip(k).len() == 0 || q.skip(k)[0].resume_ns > now_ns,
    ensures
        due_prefix(q, now_ns) == k,
    decreases k,
{
    if k > 0 {
        assert(q[0].resume_ns <= now_ns);
        assert(q.drop_first() =~= q.skip(1));
        assert(q.skip(1).skip(k - 1) =~= q.skip(k));
        lemma_due_prefix_stop(q.skip(1), now_ns, k - 1);
    }
}

/// Mapping the option constructor over a concatenation distributes.
proof fn lemma_map_option_distributes(
    a: Seq<(Seq<u8>, u32, Seq<u8>)>,
    b: Seq<(Seq<u8>, u32, Seq<u8>)>,
)
    ensures
        (a + b).map_values(|t: (Seq<u8>, u32, Seq<u8>)| Some(t)) == a.map_values(
            |t: (Seq<u8>, u32, Seq<u8>)| Some(t),
        ) + b.map_values(|t: (Seq<u8>, u32, Seq<u8>)| Some(t)),
{
    assert((a + b).map_values(|t: (Seq<u8>, u32, Seq<u8>)| Some(t)) =~= a.map_values(
        |t: (Seq<u8>, u32, Seq<u8>)| Some(t),
    ) + b.map_values(|t: (Seq<u8>, u32, Seq<u8>)| Some(t)));
}

/// Relies on chrono::Utc::now: seconds of wall-clock time since the
/// epoch, read when the call is made. Nothing is promised of the value.
#[verifier::external_body]
pub fn now_ts() -> i64 {
    chrono::Utc::now().timestamp()
}

// ---------------------------------------------------------------------
// Packet builders and spec views of what the server sends.
// ---------------------------------------------------------------------

/// A response packet, as a spec value.
pub open spec fn resp_pkt_v(
    request_id: u64,
    sid: Seq<u8>,
    code: StatusCode,
    kind: ResponseKindV,
) -> PacketKindV {
    PacketKindV::Packet(
        PacketV {
            session_id: sid,
            body: PacketBodyV::Response(ResponseV { request_id, code, kind: Some(kind) }),
        },
    )
}

/// A bare error response packet, as a spec value.
pub open spec fn err_pkt_v(request_id: u64, sid: Seq<u8>, code: StatusCode) -> PacketKindV {
    PacketKindV::Packet(
        PacketV {
            session_id: sid,
            body: PacketBodyV::Response(ResponseV { request_id, code, kind: None }),
        },
    )
}

/// The directory record sent for a session, with the key included only
/// on request; `seen_ts` is the stored time truncated to 32 bits.
pub open spec fn node_resp_v(ns: NodeSessionV, with_key: bool) -> NodeResponseV {
    NodeResponseV {
        node_id: ns.info.node_id,
        public_key: if with_key {
            ns.info.public_key
        } else {
            Seq::empty()
        },
        endpoints: ns.info.endpoints,
        seen_ts: ns.last_seen as u32,
        slot: ns.info.slot,
    }
}

/// The protocol version string on the wire.
pub open spec fn version_seq() -> Seq<u8> {
    seq![48u8, 46u8, 48u8, 46u8, 49u8]
}

/// The challenge packet a new session is greeted with.
pub open spec fn challenge_pkt_v(request_id: u64, sid: Seq<u8>, challenge: Seq<u8>) -> PacketKindV {
    resp_pkt_v(
        request_id,
        sid,
        StatusCode::Okay,
        ResponseKindV::Challenge(
            crate::proto::ChallengeResponseV {
                version: version_seq(),
                caps: 0,
                kind: 10,
                difficulty: CHALLENGE_DIFFICULTY,
                challenge,
            },
        ),
    )
}

/// Turn a session record into its on-wire directory record.
pub fn to_node_response(node_info: NodeSession, public_key: bool) -> (r: NodeResponse)
    ensures
        r@ == node_resp_v(node_info@, public_key),
{
    let key = if public_key {
        clone_bytes(&node_info.info.public_key)
    } else {
        Vec::new()
    };
    let r = NodeResponse {
        node_id: node_info.info.node_id.to_vec(),
        public_key: key,
        endpoints: node_info.info.endpoints,
        seen_ts: #[verifier::truncate] (node_info.last_seen as u32),
        slot: node_info.info.slot,
    };
    proof {
        assert(r@.endpoints =~= node_info@.info.endpoints);
        if !public_key {
            assert(r@.public_key =~= Seq::<u8>::empty());
        }
    }
    r
}

/// Build the error response for a failed request: the mapped status
/// code under the request's own id, with no body.
pub fn error_response(req_id: u64, id: Vec<u8>, error: &Error) -> (r: PacketKind)
    ensures
        r@ == err_pkt_v(req_id, id@, crate::error::spec_error_status(*error)),
{
    Packet::error(req_id, id, crate::error::error_status(*error))
}

/// Classify a response packet: its body on success, the carried status
/// code on failure, `Undefined` for anything that is not a response.
pub fn dispatch_response(packet: PacketKind) -> (r: Result<ResponseKind, StatusCode>)
    ensures
        match packet@ {
            PacketKindV::Packet(p) => match p.body {
                PacketBodyV::Response(resp) => match resp.kind {
                    Some(k) => if resp.code == StatusCode::Okay {
                        r is Ok && r->Ok_0@ == k
                    } else {
                        r == Err::<ResponseKind, StatusCode>(resp.code)
                    },
                    None => r == Err::<ResponseKind, StatusCode>(resp.code),
                },
                _ => r == Err::<ResponseKind, StatusCode>(StatusCode::Undefined),
            },
            _ => r == Err::<ResponseKind, StatusCode>(StatusCode::Undefined),
        },
{
    match packet {
        PacketKind::Packet(p) => match p.body {
            PacketBody::Response(resp) => match resp.kind {
                Some(k) => {
                    if matches!(resp.code, StatusCode::Okay) {
                        Ok(k)
                    } else {
                        Err(resp.code)
                    }
                },
                None => Err(resp.code),
            },
            _ => Err(StatusCode::Undefined),
        },
        _ => Err(StatusCode::Undefined),
    }
}

/// A per-sender bucket for the given quota. Fails exactly on a zero
/// quota, which no limiter can be built from.
pub fn make_limiter(cells_per_second: u32) -> (r: ServerResult<Limiter>)
    ensures
        r is Ok <==> cells_per_second >= 1,
        r is Err ==> r->Err_0 == Error::Internal(InternalError::RateLimiterInit),
{
    if cells_per_second == 0 {
        Err(Error::Internal(InternalError::RateLimiterInit))
    } else {
        Ok(new_limiter(cells_per_second))
    }
}

// ---------------------------------------------------------------------
// Handshake.
// ---------------------------------------------------------------------

/// What the signature over a challenge response recovers to.
pub open spec fn response_signer(resp: Seq<u8>) -> Option<Seq<u8>> {
    crate::challenge::recover_of(
        resp[0],
        resp.subrange(1, 33),
        resp.subrange(33, 65),
        crate::challenge::sha256_of(resp.subrange(65, resp.len() as int)),
    )
}

/// The challenge response cannot even be checked: oversize, too short
/// for a signature, unrecoverable, or (with the right signer) too
/// short for a solution prefix.
pub open spec fn challenge_malformed(resp: Seq<u8>, pk: Seq<u8>) -> bool {
    ||| resp.len() > MAX_PACKET_SIZE
    ||| resp.len() < 65
    ||| response_signer(resp) is None
    ||| (response_signer(resp) == Some(pk) && resp.len() < 73)
}

/// The signature is well formed but was made by some other key.
pub open spec fn challenge_key_mismatch(resp: Seq<u8>, pk: Seq<u8>) -> bool {
    &&& resp.len() <= MAX_PACKET_SIZE
    &&& resp.len() >= 65
    &&& response_signer(resp) is Some
    &&& response_signer(resp) != Some(pk)
}

/// The record a session holds right after its challenge is accepted:
/// identity proven, no slot, no endpoints.
pub open spec fn fresh_node_v(node_id: Seq<u8>, public_key: Seq<u8>, sid: Seq<u8>, now: i64) -> NodeSessionV {
    NodeSessionV {
        info: NodeInfoV {
            node_id,
            public_key,
            slot: u32::MAX,
            endpoints: Seq::empty(),
        },
        session: sid,
        last_seen: now,
    }
}

impl Server {
    fn find_starting(&self, sid: &SessionId) -> (r: Option<usize>)
        ensures
            match r {
                Some(i) => find_starting_from(self.state.starting_session@, sid@, 0) == Some(
                    i as int,
                ) && i < self.state.starting_session@.len(),
                None => find_starting_from(self.state.starting_session@, sid@, 0) is None,
            },
    {
        let mut i: usize = 0;
        while i < self.state.starting_session.len()
            invariant
                0 <= i <= self.state.starting_session@.len(),
                find_starting_from(self.state.starting_session@, sid@, 0) == find_starting_from(
                    self.state.starting_session@,
                    sid@,
                    i as int,
                ),
            decreases self.state.starting_session@.len() - i,
        {
            if bytes_eq(&self.state.starting_session[i].session_id.bytes, &sid.bytes) {
                return Some(i);
            }
            i = i + 1;
        }
        None
    }

    /// Open a handshake under the given id and challenge: exactly when
    /// the id collides with a pending handshake the refusal comes back
    /// and nothing changes; otherwise the entry is remembered and the
    /// challenge packet at the fixed difficulty goes to the peer.
    pub fn open_session(
        &mut self,
        request_id: u64,
        with: &Address,
        session_id: SessionId,
        raw_challenge: Vec<u8>,
    ) -> (r: ServerResult<Vec<Output>>)
        requires
            old(self).wf(),
            session_id.wf(),
            raw_challenge@.len() == CHALLENGE_SIZE,
        ensures
            final(self).wf(),
            final(self).same_config(*old(self)),
            final(self).state.nodes == old(self).state.nodes,
            final(self).state.resume_forwarding@ == old(self).state.resume_forwarding@,
            if find_starting_from(old(self).state.starting_session@, session_id@, 0) is Some {
                r == Err::<Vec<Output>, Error>(Error::Conflict) && *final(self) == *old(self)
            } else {
                &&& r is Ok
                &&& {
                    let e = final(self).state.starting_session@.last();
                    &&& final(self).state.starting_session@ == old(
                        self,
                    ).state.starting_session@.push(e)
                    &&& e.session_id@ == session_id@
                    &&& e.challenge@ == raw_challenge@
                    &&& e.peer@ == with@
                    &&& e.stage is AwaitSession
                    &&& r->Ok_0@.map_values(|o: Output| o@) == seq![
                        OutputV::Datagram {
                            dest: with@,
                            packet: challenge_pkt_v(request_id, session_id@, raw_challenge@),
                        },
                    ]
                }
            },
    {
        if self.find_starting(&session_id).is_some() {
            return Err(Error::Conflict);
        }
        let entry = StartingSession {
            session_id: session_id.clone(),
            peer: with.clone(),
            challenge: clone_bytes(&raw_challenge),
            stage: HandshakeStage::AwaitSession,
        };
        proof {
            lemma_find_starting_from_props(self.state.starting_session@, session_id@, 0);
        }
        self.state.starting_session.push(entry);
        let mut version: Vec<u8> = Vec::new();
        version.push(48);
        version.push(46);
        version.push(48);
        version.push(46);
        version.push(49);
        proof {
            assert(version@ =~= version_seq());
        }
        let challenge_packet = Packet::response(
            request_id,
            session_id.to_vec(),
            StatusCode::Okay,
            ResponseKind::Challenge(
                ChallengeResponse {
                    version,
                    caps: 0,
                    kind: 10,
                    difficulty: CHALLENGE_DIFFICULTY,
                    challenge: raw_challenge,
                },
            ),
        );
        let mut outs: Vec<Output> = Vec::new();
        outs.push(Output::Datagram { dest: with.clone(), packet: challenge_packet });
        proof {
            let e = self.state.starting_session@.last();
            assert(outs@.map_values(|o: Output| o@) =~= seq![
                OutputV::Datagram {
                    dest: with@,
                    packet: challenge_pkt_v(request_id, e.session_id@, e.challenge@),
                },
            ]);
            assert forall|i: int, j: int|
                0 <= i < self.state.starting_session@.len() && 0 <= j
                    < self.state.starting_session@.len() && i != j implies self.state.starting_session@[i].session_id@
                != self.state.starting_session@[j].session_id@ by {
                lemma_find_starting_from_props(
                    old(self).state.starting_session@,
                    e.session_id@,
                    0,
                );
            }
        }
        Ok(outs)
    }

    /// Open a handshake for a fresh random session id and challenge;
    /// `open_session` says exactly what each drawn id leads to.
    fn new_session(&mut self, request_id: u64, with: &Address) -> (r: ServerResult<Vec<Output>>)
        requires
            old(self).wf(),
        ensures
            final(self).wf(),
            final(self).same_config(*old(self)),
            final(self).state.nodes == old(self).state.nodes,
            final(self).state.resume_forwarding@ == old(self).state.resume_forwarding@,
            match r {
                Ok(outs) => {
                    &&& final(self).state.starting_session@.len() == old(
                        self,
                    ).state.starting_session@.len() + 1
                    &&& {
                        let e = final(self).state.starting_session@.last();
                        &&& final(self).state.starting_session@ == old(
                            self,
                        ).state.starting_session@.push(e)
                        &&& e.session_id@.len() == SESSION_ID_SIZE
                        &&& e.challenge@.len() == CHALLENGE_SIZE
                        &&& e.peer@ == with@
                        &&& e.stage is AwaitSession
                        &&& find_starting_from(old(self).state.starting_session@, e.session_id@, 0)
                            is None
                        &&& outs@.map_values(|o: Output| o@) == seq![
                            OutputV::Datagram {
                                dest: with@,
                                packet: challenge_pkt_v(request_id, e.session_id@, e.challenge@),
                            },
                        ]
                    }
                },
                Err(e) => e == Error::Conflict && *final(self) == *old(self),
            },
    {
        let session_id = SessionId::generate();
        let raw_challenge = random_bytes_16();
        self.open_session(request_id, with, session_id, raw_challenge)
    }
}

// ---------------------------------------------------------------------
// The handshake state machine.
// ---------------------------------------------------------------------

/// Dropping a pending entry keeps the pending map consistent.
proof fn lemma_pending_remove_wf(s: Seq<StartingSession>, idx: int)
    requires
        wf_pending(s),
        0 <= idx < s.len(),
    ensures
        wf_pending(s.remove(idx)),
{
    let t = s.remove(idx);
    assert forall|i: int| 0 <= i < t.len() implies wf_starting(#[trigger] t[i]) by {
        if i < idx {
            assert(t[i] == s[i]);
        } else {
            assert(t[i] == s[i + 1]);
        }
    }
    assert forall|i: int, j: int|
        0 <= i < t.len() && 0 <= j < t.len() && i != j implies t[i].session_id@
        != t[j].session_id@ by {
        let si = if i < idx { i } else { i + 1 };
        let sj = if j < idx { j } else { j + 1 };
        assert(t[i] == s[si] && t[j] == s[sj]);
    }
}

/// Replacing a pending entry with one under the same session id keeps
/// the pending map consistent.
proof fn lemma_pending_update_wf(s: Seq<StartingSession>, idx: int, e2: StartingSession)
    requires
        wf_pending(s),
        0 <= idx < s.len(),
        wf_starting(e2),
        e2.session_id@ == s[idx].session_id@,
    ensures
        wf_pending(s.update(idx, e2)),
{
}

impl Server {
    /// Feed one request into a pending handshake. Depending on the
    /// stage this validates the challenge response, starts the
    /// endpoint probe, answers pings, or rejects the packet and tears
    /// the pending session down (every `Err` leaves it removed, except
    /// that no stage change survives an error).
    pub fn establish_session(&mut self, idx: usize, request: Request, now: i64) -> (r:
        ServerResult<Vec<Output>>)
        requires
            old(self).wf(),
            idx < old(self).state.starting_session@.len(),
        ensures
            final(self).wf(),
            final(self).same_config(*old(self)),
            final(self).state.nodes == old(self).state.nodes,
            final(self).state.resume_forwarding@ == old(self).state.resume_forwarding@,
            hs_post(*old(self), *final(self), idx as int, request@, now, r),
    {
        let sid = self.state.starting_session[idx].session_id.clone();
        let peer = self.state.starting_session[idx].peer.clone();
        let chal = clone_bytes(&self.state.starting_session[idx].challenge);
        let stage = match &self.state.starting_session[idx].stage {
            HandshakeStage::AwaitSession => HandshakeStage::AwaitSession,
            HandshakeStage::AwaitRegister { node } => HandshakeStage::AwaitRegister {
                node: node.clone(),
            },
            HandshakeStage::Probing { request_id, node } => HandshakeStage::Probing {
                request_id: *request_id,
                node: node.clone(),
            },
        };
        match stage {
            HandshakeStage::AwaitSession => {
                match request.kind {
                    RequestKind::Session(params) => {
                        if params.challenge_resp.len() > MAX_PACKET_SIZE {
                            self.state.starting_session.remove(idx);
                            proof {
                                lemma_pending_remove_wf(
                                    old(self).state.starting_session@,
                                    idx as int,
                                );
                            }
                            return Err(Error::BadRequest(BadRequest::InvalidChallenge));
                        }
                        let verdict = challenge::verify(
                            &chal,
                            CHALLENGE_DIFFICULTY,
                            &params.challenge_resp,
                            &params.public_key,
                        );
                        match verdict {
                            Err(e) => {
                                self.state.starting_session.remove(idx);
                                proof {
                                    lemma_pending_remove_wf(
                                        old(self).state.starting_session@,
                                        idx as int,
                                    );
                                }
                                Err(e)
                            },
                            Ok(false) => {
                                self.state.starting_session.remove(idx);
                                proof {
                                    lemma_pending_remove_wf(
                                        old(self).state.starting_session@,
                                        idx as int,
                                    );
                                }
                                Err(Error::Unauthorized(Unauthorized::InvalidChallenge))
                            },
                            Ok(true) => {
                                if params.node_id.len() != NODE_ID_SIZE {
                                    self.state.starting_session.remove(idx);
                                    proof {
                                        lemma_pending_remove_wf(
                                            old(self).state.starting_session@,
                                            idx as int,
                                        );
                                    }
                                    return Err(Error::BadRequest(BadRequest::InvalidNodeId));
                                }
                                let node_id = match NodeId::from_vec(
                                    clone_bytes(&params.node_id),
                                ) {
                                    Some(nid) => nid,
                                    None => {
                                        proof {
                                            assert(false);
                                        }
                                        return Err(Error::BadRequest(BadRequest::InvalidNodeId));
                                    },
                                };
                                let node = NodeSession {
                                    info: NodeInfo {
                                        node_id,
                                        public_key: clone_bytes(&params.public_key),
                                        slot: u32::MAX,
                                        endpoints: Vec::new(),
                                    },
                                    session: sid.clone(),
                                    last_seen: now,
                                };
                                proof {
                                    assert(node.info.endpoints@.map_values(|ee: Endpoint| ee@)
                                        =~= Seq::<EndpointV>::empty());
                                    assert(node@ == fresh_node_v(
                                        params.node_id@,
                                        params.public_key@,
                                        sid@,
                                        now,
                                    ));
                                }
                                let entry2 = StartingSession {
                                    session_id: sid.clone(),
                                    peer: peer.clone(),
                                    challenge: chal,
                                    stage: HandshakeStage::AwaitRegister { node },
                                };
                                proof {
                                    assert(wf_starting(entry2));
                                    lemma_pending_update_wf(
                                        old(self).state.starting_session@,
                                        idx as int,
                                        entry2,
                                    );
                                }
                                self.state.starting_session[idx] = entry2;
                                let pkt = Packet::response(
                                    request.request_id,
                                    sid.to_vec(),
                                    StatusCode::Okay,
                                    ResponseKind::Session,
                                );
                                let mut outs: Vec<Output> = Vec::new();
                                outs.push(Output::Datagram { dest: peer, packet: pkt });
                                proof {
                                    assert(outs@.map_values(|o: Output| o@) =~= seq![
                                        OutputV::Datagram {
                                            dest: old(self).state.starting_session@[idx as int].peer@,
                                            packet: resp_pkt_v(
                                                request@.request_id,
                                                sid@,
                                                StatusCode::Okay,
                                                ResponseKindV::Session,
                                            ),
                                        },
                                    ]);
                                }
                                Ok(outs)
                            },
                        }
                    },
                    _ => {
                        self.state.starting_session.remove(idx);
                        proof {
                            lemma_pending_remove_wf(old(self).state.starting_session@, idx as int);
                        }
                        Err(Error::BadRequest(BadRequest::InvalidPacket))
                    },
                }
            },
            HandshakeStage::AwaitRegister { node } => {
                match request.kind {
                    RequestKind::Register(_) => {
                        let entry2 = StartingSession {
                            session_id: sid.clone(),
                            peer: peer.clone(),
                            challenge: chal,
                            stage: HandshakeStage::Probing {
                                request_id: request.request_id,
                                node,
                            },
                        };
                        proof {
                            lemma_pending_update_wf(
                                old(self).state.starting_session@,
                                idx as int,
                                entry2,
                            );
                        }
                        self.state.starting_session[idx] = entry2;
                        let mut outs: Vec<Output> = Vec::new();
                        outs.push(Output::Probe { session_id: sid, peer });
                        proof {
                            assert(outs@.map_values(|o: Output| o@) =~= seq![
                                OutputV::Probe {
                                    session_id: old(
                                        self,
                                    ).state.starting_session@[idx as int].session_id@,
                                    peer: old(self).state.starting_session@[idx as int].peer@,
                                },
                            ]);
                        }
                        Ok(outs)
                    },
                    RequestKind::Ping => {
                        let pkt = Packet::response(
                            request.request_id,
                            sid.to_vec(),
                            StatusCode::Okay,
                            ResponseKind::Pong,
                        );
                        let mut outs: Vec<Output> = Vec::new();
                        outs.push(Output::Datagram { dest: peer, packet: pkt });
                        proof {
                            assert(outs@.map_values(|o: Output| o@) =~= seq![
                                OutputV::Datagram {
                                    dest: old(self).state.starting_session@[idx as int].peer@,
                                    packet: resp_pkt_v(
                                        request@.request_id,
                                        sid@,
                                        StatusCode::Okay,
                                        ResponseKindV::Pong,
                                    ),
                                },
                            ]);
                        }
                        Ok(outs)
                    },
                    _ => {
                        self.state.starting_session.remove(idx);
                        proof {
                            lemma_pending_remove_wf(old(self).state.starting_session@, idx as int);
                        }
                        Err(Error::BadRequest(BadRequest::InvalidPacket))
                    },
                }
            },
            HandshakeStage::Probing { request_id: _, node: _ } => {
                match request.kind {
                    RequestKind::Ping => {
                        let pkt = Packet::response(
                            request.request_id,
                            sid.to_vec(),
                            StatusCode::Okay,
                            ResponseKind::Pong,
                        );
                        let mut outs: Vec<Output> = Vec::new();
                        outs.push(Output::Datagram { dest: peer, packet: pkt });
                        proof {
                            assert(outs@.map_values(|o: Output| o@) =~= seq![
                                OutputV::Datagram {
                                    dest: old(self).state.starting_session@[idx as int].peer@,
                                    packet: resp_pkt_v(
                                        request@.request_id,
                                        sid@,
                                        StatusCode::Okay,
                                        ResponseKindV::Pong,
                                    ),
                                },
                            ]);
                        }
                        Ok(outs)
                    },
                    _ => {
                        let outs: Vec<Output> = Vec::new();
                        proof {
                            assert(outs@.map_values(|o: Output| o@) =~= Seq::<OutputV>::empty());
                        }
                        Ok(outs)
                    },
                }
            },
        }
    }
}

/// What one handshake step does, for every stage and request: the
/// exact state change, outputs and error of `establish_session`.
pub open spec fn hs_post(
    pre: Server,
    post: Server,
    idx: int,
    rq: RequestV,
    now: i64,
    r: ServerResult<Vec<Output>>,
) -> bool {
    let pend = pre.state.starting_session@;
    let e = pend[idx];
    let sid = e.session_id@;
    match e.stage {
        HandshakeStage::AwaitSession => match rq.kind {
            RequestKindV::Session(params) => {
                if challenge_malformed(params.challenge_resp, params.public_key) {
                    &&& r == Err::<Vec<Output>, Error>(
                        Error::BadRequest(BadRequest::InvalidChallenge),
                    )
                    &&& post.state.starting_session@ == pend.remove(idx)
                } else if challenge_key_mismatch(params.challenge_resp, params.public_key) {
                    &&& r == Err::<Vec<Output>, Error>(
                        Error::Unauthorized(Unauthorized::InvalidChallenge),
                    )
                    &&& post.state.starting_session@ == pend.remove(idx)
                } else if !crate::challenge::pow_ok(
                    e.challenge@,
                    CHALLENGE_DIFFICULTY,
                    params.challenge_resp.subrange(65, params.challenge_resp.len() as int),
                ) {
                    &&& r == Err::<Vec<Output>, Error>(
                        Error::Unauthorized(Unauthorized::InvalidChallenge),
                    )
                    &&& post.state.starting_session@ == pend.remove(idx)
                } else if params.node_id.len() != NODE_ID_SIZE {
                    &&& r == Err::<Vec<Output>, Error>(Error::BadRequest(BadRequest::InvalidNodeId))
                    &&& post.state.starting_session@ == pend.remove(idx)
                } else {
                    &&& r is Ok
                    &&& post.state.starting_session@.len() == pend.len()
                    &&& forall|j: int|
                        0 <= j < pend.len() && j != idx ==> post.state.starting_session@[j]
                            == pend[j]
                    &&& {
                        let e2 = post.state.starting_session@[idx];
                        &&& e2.session_id@ == sid
                        &&& e2.peer@ == e.peer@
                        &&& e2.challenge@ == e.challenge@
                        &&& match e2.stage {
                            HandshakeStage::AwaitRegister { node } => node@ == fresh_node_v(
                                params.node_id,
                                params.public_key,
                                sid,
                                now,
                            ),
                            _ => false,
                        }
                    }
                    &&& r->Ok_0@.map_values(|o: Output| o@) == seq![
                        OutputV::Datagram {
                            dest: e.peer@,
                            packet: resp_pkt_v(
                                rq.request_id,
                                sid,
                                StatusCode::Okay,
                                ResponseKindV::Session,
                            ),
                        },
                    ]
                }
            },
            _ => {
                &&& r == Err::<Vec<Output>, Error>(Error::BadRequest(BadRequest::InvalidPacket))
                &&& post.state.starting_session@ == pend.remove(idx)
            },
        },
        HandshakeStage::AwaitRegister { node } => match rq.kind {
            RequestKindV::Register(_) => {
                &&& r is Ok
                &&& post.state.starting_session@.len() == pend.len()
                &&& forall|j: int|
                    0 <= j < pend.len() && j != idx ==> post.state.starting_session@[j] == pend[j]
                &&& {
                    let e2 = post.state.starting_session@[idx];
                    &&& e2.session_id@ == sid
                    &&& e2.peer@ == e.peer@
                    &&& match e2.stage {
                        HandshakeStage::Probing { request_id, node: n2 } => request_id
                            == rq.request_id && n2@ == node@,
                        _ => false,
                    }
                }
                &&& r->Ok_0@.map_values(|o: Output| o@) == seq![
                    OutputV::Probe { session_id: sid, peer: e.peer@ },
                ]
            },
            RequestKindV::Ping => {
                &&& r is Ok
                &&& post.state.starting_session@ == pend
                &&& r->Ok_0@.map_values(|o: Output| o@) == seq![
                    OutputV::Datagram {
                        dest: e.peer@,
                        packet: resp_pkt_v(
                            rq.request_id,
                            sid,
                            StatusCode::Okay,
                            ResponseKindV::Pong,
                        ),
                    },
                ]
            },
            _ => {
                &&& r == Err::<Vec<Output>, Error>(Error::BadRequest(BadRequest::InvalidPacket))
                &&& post.state.starting_session@ == pend.remove(idx)
            },
        },
        HandshakeStage::Probing { request_id: _, node: _ } => match rq.kind {
            RequestKindV::Ping => {
                &&& r is Ok
                &&& post.state.starting_session@ == pend
                &&& r->Ok_0@.map_values(|o: Output| o@) == seq![
                    OutputV::Datagram {
                        dest: e.peer@,
                        packet: resp_pkt_v(
                            rq.request_id,
                            sid,
                            StatusCode::Okay,
                            ResponseKindV::Pong,
                        ),
                    },
                ]
            },
            _ => {
                &&& r is Ok
                &&& post.state.starting_session@ == pend
                &&& r->Ok_0@.map_values(|o: Output| o@) == Seq::<OutputV>::empty()
            },
        },
    }
}

// ---------------------------------------------------------------------
// Promotion of a probed session, and the forwarding plane.
// ---------------------------------------------------------------------

/// What reporting a probe outcome does: an unknown or unprobed session
/// is refused; a failed probe tears the handshake down and answers
/// with a timeout status; a successful probe registers the node with
/// the probed address as its one endpoint and echoes it, unless its
/// ids are already taken or the registry is full.
pub open spec fn probe_post(
    pre: Server,
    post: Server,
    sid: Seq<u8>,
    ok: bool,
    r: ServerResult<Vec<Output>>,
) -> bool {
    let pend = pre.state.starting_session@;
    match find_starting_from(pend, sid, 0) {
        None => {
            &&& r == Err::<Vec<Output>, Error>(Error::Unauthorized(Unauthorized::SessionNotFound))
            &&& post.state.starting_session@ == pend
            &&& post.state.nodes == pre.state.nodes
        },
        Some(idx) => match pend[idx].stage {
            HandshakeStage::Probing { request_id, node } => {
                let peer = pend[idx].peer@;
                &&& post.state.starting_session@ == pend.remove(idx)
                &&& r is Ok
                &&& if !ok {
                    &&& post.state.nodes == pre.state.nodes
                    &&& r->Ok_0@.map_values(|o: Output| o@) == seq![
                        OutputV::Datagram {
                            dest: peer,
                            packet: err_pkt_v(request_id, sid, StatusCode::Timeout),
                        },
                    ]
                } else if pre.state.nodes.has_session(sid) || pre.state.nodes.has_node(
                    node@.info.node_id,
                ) {
                    &&& post.state.nodes == pre.state.nodes
                    &&& r->Ok_0@.map_values(|o: Output| o@) == seq![
                        OutputV::Datagram {
                            dest: peer,
                            packet: err_pkt_v(request_id, sid, StatusCode::Conflict),
                        },
                    ]
                } else if pre.state.nodes.first_free() == crate::state::MAX_SLOTS as int {
                    &&& post.state.nodes == pre.state.nodes
                    &&& r->Ok_0@.map_values(|o: Output| o@) == seq![
                        OutputV::Datagram {
                            dest: peer,
                            packet: err_pkt_v(request_id, sid, StatusCode::TooManyRequests),
                        },
                    ]
                } else {
                    let ff = pre.state.nodes.first_free();
                    let eps = seq![EndpointV { protocol: Protocol::Udp, address: peer }];
                    &&& post.state.nodes.occ(ff)
                    &&& post.state.nodes.at(ff) == (NodeSessionV {
                        info: NodeInfoV { slot: ff as u32, endpoints: eps, ..node@.info },
                        ..node@
                    })
                    &&& forall|i: int| i != ff ==> post.state.nodes.same_slot(pre.state.nodes, i)
                    &&& post.state.nodes.live() == pre.state.nodes.live() + 1
                    &&& r->Ok_0@.map_values(|o: Output| o@) == seq![
                        OutputV::Datagram {
                            dest: peer,
                            packet: resp_pkt_v(
                                request_id,
                                sid,
                                StatusCode::Okay,
                                ResponseKindV::Register(eps),
                            ),
                        },
                    ]
                }
            },
            _ => {
                &&& r == Err::<Vec<Output>, Error>(
                    Error::Unauthorized(Unauthorized::SessionNotFound),
                )
                &&& post.state.starting_session@ == pend
                &&& post.state.nodes == pre.state.nodes
            },
        },
    }
}

/// One relayed or refused forward, given the rate decision `d` for the
/// sender: a conforming packet is rewritten to carry the sender's own
/// slot and session id and goes to the destination's first endpoint
/// (or nowhere, if it has none); a never-conforming packet is dropped
/// silently; a momentarily non-conforming one is dropped, the sender
/// is paused, and a resume entry is queued.
pub open spec fn decided_post(
    pre: Server,
    post: Server,
    f: crate::proto::ForwardV,
    from: Seq<u8>,
    src_slot: u32,
    src_sid: Seq<u8>,
    dst_eps: Seq<EndpointV>,
    d: RateDecision,
    outs: Seq<OutputV>,
) -> bool {
    match d {
        RateDecision::Allowed => {
            &&& post.state.resume_forwarding@ == pre.state.resume_forwarding@
            &&& if dst_eps.len() == 0 {
                outs == Seq::<OutputV>::empty()
            } else {
                outs == seq![
                    OutputV::Datagram {
                        dest: dst_eps[0].address,
                        packet: PacketKindV::Forward(
                            crate::proto::ForwardV {
                                session_id: src_sid,
                                slot: src_slot,
                                flags: f.flags,
                                payload: f.payload,
                            },
                        ),
                    },
                ]
            }
        },
        RateDecision::Dropped => {
            &&& post.state.resume_forwarding@ == pre.state.resume_forwarding@
            &&& outs == Seq::<OutputV>::empty()
        },
        RateDecision::Paused { resume_ns } => {
            &&& exists|pos: int|
                #![trigger post.state.resume_forwarding@[pos]]
                {
                    &&& 0 <= pos <= pre.state.resume_forwarding@.len()
                    &&& {
                        let e = post.state.resume_forwarding@[pos];
                        &&& post.state.resume_forwarding@ == pre.state.resume_forwarding@.insert(
                            pos,
                            e,
                        )
                        &&& e.resume_ns == resume_ns
                        &&& e.session_id@ == src_sid
                        &&& e.peer@ == from
                    }
                }
            &&& outs == seq![
                OutputV::Datagram {
                    dest: from,
                    packet: PacketKindV::Packet(
                        PacketV {
                            session_id: f.session_id,
                            body: PacketBodyV::Control(
                                Control::PauseForwarding { slot: f.slot },
                            ),
                        },
                    ),
                },
            ]
        },
    }
}

/// A pause happened: some resume entry for the sender was queued and
/// the pause notice went back; which resume time the bucket chose is
/// not observable beyond the queued entry itself.
pub open spec fn paused_outcome(
    pre: Server,
    post: Server,
    f: crate::proto::ForwardV,
    from: Seq<u8>,
    src_sid: Seq<u8>,
    outs: Seq<OutputV>,
) -> bool {
    &&& exists|pos: int|
        #![trigger post.state.resume_forwarding@[pos]]
        {
            &&& 0 <= pos <= pre.state.resume_forwarding@.len()
            &&& {
                let e = post.state.resume_forwarding@[pos];
                &&& post.state.resume_forwarding@ == pre.state.resume_forwarding@.insert(pos, e)
                &&& e.session_id@ == src_sid
                &&& e.peer@ == from
            }
        }
    &&& outs == seq![
        OutputV::Datagram {
            dest: from,
            packet: PacketKindV::Packet(
                PacketV {
                    session_id: f.session_id,
                    body: PacketBodyV::Control(Control::PauseForwarding { slot: f.slot }),
                },
            ),
        },
    ]
}

/// Cells a forward's payload is charged against the sender's bucket:
/// one per byte, at least one, saturated at the register width.
pub open spec fn spec_forward_cells(len: int) -> u32 {
    if len <= 0 {
        1u32
    } else if len > u32::MAX {
        u32::MAX
    } else {
        len as u32
    }
}

/// The cells actually charged for a payload of `len` bytes.
pub fn forward_cells(len: usize) -> (c: u32)
    ensures
        c == spec_forward_cells(len as int),
        c >= 1,
{
    if len == 0 {
        1
    } else if len > u32::MAX as usize {
        u32::MAX
    } else {
        len as u32
    }
}

/// Whatever the rate limiter answered for a charge of `charge` cells
/// against a bucket of burst capacity `quota`, one of the three forward
/// outcomes happened — and the silent drop happens exactly when the
/// payload alone can never fit the bucket.
pub open spec fn forward_outcome(
    pre: Server,
    post: Server,
    f: crate::proto::ForwardV,
    from: Seq<u8>,
    src_slot: u32,
    src_sid: Seq<u8>,
    dst_eps: Seq<EndpointV>,
    charge: u32,
    quota: u32,
    outs: Seq<OutputV>,
) -> bool {
    if charge > quota {
        decided_post(pre, post, f, from, src_slot, src_sid, dst_eps, RateDecision::Dropped, outs)
    } else {
        ||| decided_post(
            pre,
            post,
            f,
            from,
            src_slot,
            src_sid,
            dst_eps,
            RateDecision::Allowed,
            outs,
        )
        ||| paused_outcome(pre, post, f, from, src_sid, outs)
    }
}

impl Server {
    /// Report how the endpoint probe for a pending session went.
    pub fn probe_result(&mut self, session_id: &SessionId, ok: bool) -> (r: ServerResult<
        Vec<Output>,
    >)
        requires
            old(self).wf(),
        ensures
            final(self).wf(),
            final(self).same_config(*old(self)),
            final(self).state.resume_forwarding@ == old(self).state.resume_forwarding@,
            probe_post(*old(self), *final(self), session_id@, ok, r),
    {
        let idx = match self.find_starting(session_id) {
            Some(idx) => idx,
            None => {
                return Err(Error::Unauthorized(Unauthorized::SessionNotFound));
            },
        };
        let (request_id, node) = match &self.state.starting_session[idx].stage {
            HandshakeStage::Probing { request_id, node } => (*request_id, node.clone()),
            _ => {
                return Err(Error::Unauthorized(Unauthorized::SessionNotFound));
            },
        };
        let peer = self.state.starting_session[idx].peer.clone();
        self.state.starting_session.remove(idx);
        proof {
            lemma_pending_remove_wf(old(self).state.starting_session@, idx as int);
        }
        let sid_vec = session_id.to_vec();
        if !ok {
            let pkt = error_response(request_id, sid_vec, &Error::Timeout(Timeout::Ping));
            let mut outs: Vec<Output> = Vec::new();
            outs.push(Output::Datagram { dest: peer, packet: pkt });
            proof {
                assert(outs@.map_values(|o: Output| o@) =~= seq![
                    OutputV::Datagram {
                        dest: old(self).state.starting_session@[idx as int].peer@,
                        packet: err_pkt_v(request_id, session_id@, StatusCode::Timeout),
                    },
                ]);
            }
            return Ok(outs);
        }
        if self.state.nodes.get_by_session(session_id).is_some() || self.state.nodes.get_by_node_id(
            &node.info.node_id,
        ).is_some() {
            let pkt = error_response(request_id, sid_vec, &Error::Conflict);
            let mut outs: Vec<Output> = Vec::new();
            outs.push(Output::Datagram { dest: peer, packet: pkt });
            proof {
                assert(outs@.map_values(|o: Output| o@) =~= seq![
                    OutputV::Datagram {
                        dest: old(self).state.starting_session@[idx as int].peer@,
                        packet: err_pkt_v(request_id, session_id@, StatusCode::Conflict),
                    },
                ]);
            }
            return Ok(outs);
        }
        proof {
            lemma_find_starting_from_props(old(self).state.starting_session@, session_id@, 0);
            assert(old(self).state.starting_session@[idx as int].session_id@ == session_id@);
            assert(wf_starting(old(self).state.starting_session@[idx as int]));
            assert(node@.session == session_id@);
        }
        let mut node = node;
        let mut eps: Vec<Endpoint> = Vec::new();
        eps.push(Endpoint { protocol: Protocol::Udp, address: peer.clone() });
        let eps_echo = crate::session::clone_endpoints(&eps);
        node.info.endpoints = eps;
        proof {
            assert(node.info.endpoints@.map_values(|e: Endpoint| e@) =~= seq![
                EndpointV {
                    protocol: Protocol::Udp,
                    address: old(self).state.starting_session@[idx as int].peer@,
                },
            ]);
        }
        let limiter = match make_limiter(FORWARDER_RATE_LIMIT) {
            Ok(l) => l,
            Err(e) => {
                proof {
                    assert(false);
                }
                return Err(e);
            },
        };
        match self.state.nodes.register(node, limiter) {
            Ok(_slot) => {
                let pkt = Packet::response(
                    request_id,
                    sid_vec,
                    StatusCode::Okay,
                    ResponseKind::Register(eps_echo),
                );
                let mut outs: Vec<Output> = Vec::new();
                outs.push(Output::Datagram { dest: peer, packet: pkt });
                proof {
                    let peerv = old(self).state.starting_session@[idx as int].peer@;
                    let epsv = seq![EndpointV { protocol: Protocol::Udp, address: peerv }];
                    assert(eps_echo@.map_values(|e: Endpoint| e@) =~= epsv);
                    assert(outs@.map_values(|o: Output| o@) =~= seq![
                        OutputV::Datagram {
                            dest: peerv,
                            packet: resp_pkt_v(
                                request_id,
                                session_id@,
                                StatusCode::Okay,
                                ResponseKindV::Register(epsv),
                            ),
                        },
                    ]);
                }
                Ok(outs)
            },
            Err(_e) => {
                let pkt = error_response(request_id, sid_vec, &Error::TooManyRequests);
                let mut outs: Vec<Output> = Vec::new();
                outs.push(Output::Datagram { dest: peer, packet: pkt });
                proof {
                    assert(outs@.map_values(|o: Output| o@) =~= seq![
                        OutputV::Datagram {
                            dest: old(self).state.starting_session@[idx as int].peer@,
                            packet: err_pkt_v(request_id, session_id@, StatusCode::TooManyRequests),
                        },
                    ]);
                }
                Ok(outs)
            },
        }
    }

    /// Queue a paused sender, keeping the queue ordered by resume time.
    fn push_resume(&mut self, resume_ns: u64, session_id: SessionId, peer: Address)
        requires
            old(self).wf(),
        ensures
            final(self).wf(),
            final(self).same_config(*old(self)),
            final(self).state.nodes == old(self).state.nodes,
            final(self).state.starting_session@ == old(self).state.starting_session@,
            exists|pos: int|
                #![trigger final(self).state.resume_forwarding@[pos]]
                {
                    &&& 0 <= pos <= old(self).state.resume_forwarding@.len()
                    &&& {
                        let e = final(self).state.resume_forwarding@[pos];
                        &&& final(self).state.resume_forwarding@ == old(
                            self,
                        ).state.resume_forwarding@.insert(pos, e)
                        &&& e.resume_ns == resume_ns
                        &&& e.session_id@ == session_id@
                        &&& e.peer@ == peer@
                    }
                },
    {
        let ghost q0 = self.state.resume_forwarding@;
        let mut pos: usize = 0;
        while pos < self.state.resume_forwarding.len() && self.state.resume_forwarding[pos].resume_ns
            <= resume_ns
            invariant
                old(self).wf(),
                *self == *old(self),
                q0 == self.state.resume_forwarding@,
                pos <= q0.len(),
                forall|i: int| 0 <= i < pos ==> q0[i].resume_ns <= resume_ns,
            decreases q0.len() - pos,
        {
            pos = pos + 1;
        }
        let entry = ResumeEntry { resume_ns, session_id, peer };
        self.state.resume_forwarding.insert(pos, entry);
        proof {
            let q1 = self.state.resume_forwarding@;
            assert forall|i: int, j: int| 0 <= i < j < q1.len() implies q1[i].resume_ns
                <= q1[j].resume_ns by {
                if i < pos && j < pos {
                } else if i < pos && j == pos {
                } else if i == pos && j > pos {
                    assert(q1[j] == q0[j - 1]);
                    assert(q0[pos as int].resume_ns > resume_ns || pos == q0.len());
                    assert(q0[j - 1].resume_ns >= q0[pos as int].resume_ns || j - 1 == pos);
                } else if i < pos && j > pos {
                    assert(q1[i] == q0[i] && q1[j] == q0[j - 1]);
                } else if i > pos && j > pos {
                    assert(q1[i] == q0[i - 1] && q1[j] == q0[j - 1]);
                } else if i == pos && j == pos {
                }
            }
            assert(final(self).state.resume_forwarding@[pos as int] == entry);
        }
    }

    /// The continuation of a forward once its rate decision is in:
    /// relay, drop, or pause exactly as `decided_post` says.
    pub fn forward_decided(
        &mut self,
        fwd: Forward,
        from: &Address,
        src_slot: u32,
        src_session: &SessionId,
        dst_endpoints: &Vec<Endpoint>,
        decision: RateDecision,
    ) -> (r: Vec<Output>)
        requires
            old(self).wf(),
        ensures
            final(self).wf(),
            final(self).same_config(*old(self)),
            final(self).state.nodes == old(self).state.nodes,
            final(self).state.starting_session@ == old(self).state.starting_session@,
            decided_post(
                *old(self),
                *final(self),
                fwd@,
                from@,
                src_slot,
                src_session@,
                dst_endpoints@.map_values(|e: Endpoint| e@),
                decision,
                r@.map_values(|o: Output| o@),
            ),
    {
        match decision {
            RateDecision::Allowed => {
                let mut outs: Vec<Output> = Vec::new();
                if dst_endpoints.len() > 0 {
                    let dest = dst_endpoints[0].address.clone();
                    let rewritten = Forward {
                        session_id: src_session.to_vec(),
                        slot: src_slot,
                        flags: fwd.flags,
                        payload: fwd.payload,
                    };
                    outs.push(
                        Output::Datagram { dest, packet: PacketKind::Forward(rewritten) },
                    );
                    proof {
                        assert(outs@.map_values(|o: Output| o@) =~= seq![
                            OutputV::Datagram {
                                dest: dst_endpoints@.map_values(|e: Endpoint| e@)[0].address,
                                packet: PacketKindV::Forward(
                                    crate::proto::ForwardV {
                                        session_id: src_session@,
                                        slot: src_slot,
                                        flags: fwd.flags,
                                        payload: fwd@.payload,
                                    },
                                ),
                            },
                        ]);
                    }
                } else {
                    proof {
                        assert(outs@.map_values(|o: Output| o@) =~= Seq::<OutputV>::empty());
                    }
                }
                outs
            },
            RateDecision::Dropped => {
                let outs: Vec<Output> = Vec::new();
                proof {
                    assert(outs@.map_values(|o: Output| o@) =~= Seq::<OutputV>::empty());
                }
                outs
            },
            RateDecision::Paused { resume_ns } => {
                self.push_resume(resume_ns, src_session.clone(), from.clone());
                let pkt = Packet::control(
                    clone_bytes(&fwd.session_id),
                    Control::PauseForwarding { slot: fwd.slot },
                );
                let mut outs: Vec<Output> = Vec::new();
                outs.push(Output::Datagram { dest: from.clone(), packet: pkt });
                proof {
                    assert(outs@.map_values(|o: Output| o@) =~= seq![
                        OutputV::Datagram {
                            dest: from@,
                            packet: PacketKindV::Packet(
                                PacketV {
                                    session_id: fwd@.session_id,
                                    body: PacketBodyV::Control(
                                        Control::PauseForwarding { slot: fwd.slot },
                                    ),
                                },
                            ),
                        },
                    ]);
                }
                outs
            },
        }
    }

    /// Relay one forward frame: authorize the sender by session id,
    /// resolve the destination slot, charge the payload against the
    /// sender's bucket, and act on the decision.
    fn forward(&mut self, fwd: Forward, from: &Address) -> (r: ServerResult<Vec<Output>>)
        requires
            old(self).wf(),
        ensures
            final(self).wf(),
            final(self).same_config(*old(self)),
            final(self).state.nodes == old(self).state.nodes,
            final(self).state.starting_session@ == old(self).state.starting_session@,
            ({
                let f = fwd@;
                if f.session_id.len() != SESSION_ID_SIZE {
                    &&& r == Err::<Vec<Output>, Error>(
                        Error::Unauthorized(Unauthorized::InvalidSessionId),
                    )
                    &&& final(self).state.resume_forwarding@ == old(
                        self,
                    ).state.resume_forwarding@
                } else if !old(self).state.nodes.has_session(f.session_id) {
                    &&& r == Err::<Vec<Output>, Error>(
                        Error::Unauthorized(Unauthorized::SessionNotFound),
                    )
                    &&& final(self).state.resume_forwarding@ == old(
                        self,
                    ).state.resume_forwarding@
                } else if !old(self).state.nodes.occ(f.slot as int) {
                    &&& r == Err::<Vec<Output>, Error>(Error::NotFound(NotFound::NodeBySlot))
                    &&& final(self).state.resume_forwarding@ == old(
                        self,
                    ).state.resume_forwarding@
                } else {
                    let src_i = old(self).state.nodes.spec_find_session(f.session_id).unwrap();
                    let src = old(self).state.nodes.at(src_i);
                    let dst = old(self).state.nodes.at(f.slot as int);
                    let quota = crate::limits::limiter_quota(
                        old(self).state.nodes.limiters@[src_i].unwrap(),
                    );
                    &&& r is Ok
                    &&& forward_outcome(
                        *old(self),
                        *final(self),
                        f,
                        from@,
                        src.info.slot,
                        f.session_id,
                        dst.info.endpoints,
                        spec_forward_cells(f.payload.len() as int),
                        quota,
                        r->Ok_0@.map_values(|o: Output| o@),
                    )
                }
            }),
    {
        let sid = match SessionId::from_vec(clone_bytes(&fwd.session_id)) {
            Some(sid) => sid,
            None => {
                return Err(Error::Unauthorized(Unauthorized::InvalidSessionId));
            },
        };
        let src = match self.state.nodes.get_by_session(&sid) {
            Some(src) => src,
            None => {
                return Err(Error::Unauthorized(Unauthorized::SessionNotFound));
            },
        };
        let dst = match self.state.nodes.get_by_slot(fwd.slot) {
            Some(dst) => dst,
            None => {
                return Err(Error::NotFound(NotFound::NodeBySlot));
            },
        };
        let cells = forward_cells(fwd.payload.len());
        proof {
            let i = self.state.nodes.spec_find_session(sid@).unwrap();
            crate::state::lemma_find_session_from_props(self.state.nodes.model(), sid@, 0);
            assert(self.state.nodes.occ(i));
            assert(src@.info.slot == i);
        }
        let decision = {
            let limiter = self.state.nodes.limiter_at(src.info.slot);
            check_rate(limiter, &self.clock_base, cells)
        };
        let ghost quota = crate::limits::limiter_quota(
            self.state.nodes.limiters@[src@.info.slot as int].unwrap(),
        );
        proof {
            assert((decision is Dropped) == (cells > quota));
        }
        let outs = self.forward_decided(
            fwd,
            from,
            src.info.slot,
            &src.session,
            &dst.info.endpoints,
            decision,
        );
        proof {
            assert(src.session@ == fwd@.session_id);
            assert(dst.info.endpoints@.map_values(|e: Endpoint| e@) == old(
                self,
            ).state.nodes.at(fwd@.slot as int).info.endpoints);
        }
        Ok(outs)
    }
}

// ---------------------------------------------------------------------
// Directory requests and the dispatcher.
// ---------------------------------------------------------------------

/// The one `update_seen` at the top of every dispatch: if the carried
/// session id is registered, only that record's `last_seen` moves to
/// `now`; otherwise nothing changes.
pub open spec fn nodes_touched(pre: NodesState, post: NodesState, sid: Seq<u8>, now: i64) -> bool {
    if pre.has_session(sid) {
        let i = pre.spec_find_session(sid).unwrap();
        &&& post.len() == pre.len()
        &&& post.limiters@ == pre.limiters@
        &&& post.occ(i)
        &&& post.at(i) == (NodeSessionV { last_seen: now, ..pre.at(i) })
        &&& forall|j: int| j != i ==> post.same_slot(pre, j)
    } else {
        post == pre
    }
}

/// What opening a handshake does: a fresh pending entry under a random
/// session id, answered with a random challenge at the fixed
/// difficulty (or a collision refusal, which changes nothing).
pub open spec fn new_session_post(
    pre: Server,
    post: Server,
    from: Seq<u8>,
    request_id: u64,
    r: ServerResult<Vec<Output>>,
) -> bool {
    match r {
        Ok(outs) => {
            &&& post.state.starting_session@.len() == pre.state.starting_session@.len() + 1
            &&& {
                let e = post.state.starting_session@.last();
                &&& post.state.starting_session@ == pre.state.starting_session@.push(e)
                &&& e.session_id@.len() == SESSION_ID_SIZE
                &&& e.challenge@.len() == CHALLENGE_SIZE
                &&& e.peer@ == from
                &&& e.stage is AwaitSession
                &&& find_starting_from(pre.state.starting_session@, e.session_id@, 0) is None
                &&& outs@.map_values(|o: Output| o@) == seq![
                    OutputV::Datagram {
                        dest: from,
                        packet: challenge_pkt_v(request_id, e.session_id@, e.challenge@),
                    },
                ]
            }
        },
        Err(e) => e == Error::Conflict && post.state.starting_session@
            == pre.state.starting_session@,
    }
}

/// How a request from an established session is answered: pings get a
/// pong, directory lookups get the record or the precise not-found
/// error, re-handshakes and stray responses or controls are ignored.
pub open spec fn registered_post(
    nodes: NodesState,
    p: PacketV,
    from: Seq<u8>,
    r: ServerResult<Vec<Output>>,
) -> bool {
    let sid = p.session_id;
    match p.body {
        PacketBodyV::Request(rq) => match rq.kind {
            RequestKindV::Session(_) => r is Ok && r->Ok_0@.len() == 0,
            RequestKindV::Register(_) => r is Ok && r->Ok_0@.len() == 0,
            RequestKindV::ReverseConnection(_) => r is Ok && r->Ok_0@.len() == 0,
            RequestKindV::Ping => r is Ok && r->Ok_0@.map_values(|o: Output| o@) == seq![
                OutputV::Datagram {
                    dest: from,
                    packet: resp_pkt_v(
                        rq.request_id,
                        sid,
                        StatusCode::Okay,
                        ResponseKindV::Pong,
                    ),
                },
            ],
            RequestKindV::Node(nr) => if nr.node_id.len() != NODE_ID_SIZE {
                r == Err::<Vec<Output>, Error>(Error::BadRequest(BadRequest::InvalidNodeId))
            } else if nodes.has_node(nr.node_id) {
                &&& r is Ok
                &&& r->Ok_0@.map_values(|o: Output| o@) == seq![
                    OutputV::Datagram {
                        dest: from,
                        packet: resp_pkt_v(
                            rq.request_id,
                            sid,
                            StatusCode::Okay,
                            ResponseKindV::Node(
                                node_resp_v(
                                    nodes.at(nodes.spec_find_node(nr.node_id).unwrap()),
                                    nr.public_key,
                                ),
                            ),
                        ),
                    },
                ]
            } else {
                r == Err::<Vec<Output>, Error>(Error::NotFound(NotFound::Node))
            },
            RequestKindV::Slot(sr) => if nodes.occ(sr.slot as int) {
                &&& r is Ok
                &&& r->Ok_0@.map_values(|o: Output| o@) == seq![
                    OutputV::Datagram {
                        dest: from,
                        packet: resp_pkt_v(
                            rq.request_id,
                            sid,
                            StatusCode::Okay,
                            ResponseKindV::Node(
                                node_resp_v(nodes.at(sr.slot as int), sr.public_key),
                            ),
                        ),
                    },
                ]
            } else {
                r == Err::<Vec<Output>, Error>(Error::NotFound(NotFound::NodeBySlot))
            },
            RequestKindV::Neighbours(nb) => {
                &&& r is Ok
                &&& exists|lst: Seq<NodeSessionV>|
                    {
                        &&& #[trigger] nodes.neighbours_ok(
                            nodes.spec_find_session(sid).unwrap(),
                            nb.count,
                            lst,
                        )
                        &&& r->Ok_0@.map_values(|o: Output| o@) == seq![
                            OutputV::Datagram {
                                dest: from,
                                packet: resp_pkt_v(
                                    rq.request_id,
                                    sid,
                                    StatusCode::Okay,
                                    ResponseKindV::Neighbours(
                                        lst.map_values(
                                            |n: NodeSessionV| node_resp_v(n, nb.public_key),
                                        ),
                                    ),
                                ),
                            },
                        ]
                    }
            },
        },
        _ => r is Ok && r->Ok_0@.len() == 0,
    }
}

/// Everything `dispatch` does, by frame and session state.
pub open spec fn dispatch_post(
    pre: Server,
    post: Server,
    from: Seq<u8>,
    pkt: PacketKindV,
    now: i64,
    r: ServerResult<Vec<Output>>,
) -> bool {
    let sid_b = match pkt {
        PacketKindV::Packet(p) => p.session_id,
        PacketKindV::Forward(f) => f.session_id,
        PacketKindV::ForwardCtd(_) => Seq::<u8>::empty(),
    };
    if sid_b.len() != 0 && sid_b.len() != SESSION_ID_SIZE {
        &&& r == Err::<Vec<Output>, Error>(Error::Unauthorized(Unauthorized::InvalidSessionId))
        &&& post.state.nodes == pre.state.nodes
        &&& post.state.starting_session@ == pre.state.starting_session@
        &&& post.state.resume_forwarding@ == pre.state.resume_forwarding@
    } else {
        &&& (sid_b.len() == SESSION_ID_SIZE ==> nodes_touched(
            pre.state.nodes,
            post.state.nodes,
            sid_b,
            now,
        ))
        &&& (sid_b.len() == 0 ==> post.state.nodes == pre.state.nodes)
        &&& match pkt {
            PacketKindV::ForwardCtd(_) => {
                &&& r is Ok
                &&& r->Ok_0@.len() == 0
                &&& post.state.starting_session@ == pre.state.starting_session@
                &&& post.state.resume_forwarding@ == pre.state.resume_forwarding@
            },
            PacketKindV::Forward(f) => {
                &&& post.state.starting_session@ == pre.state.starting_session@
                &&& if f.session_id.len() != SESSION_ID_SIZE {
                    &&& r == Err::<Vec<Output>, Error>(
                        Error::Unauthorized(Unauthorized::InvalidSessionId),
                    )
                    &&& post.state.resume_forwarding@ == pre.state.resume_forwarding@
                } else if !post.state.nodes.has_session(f.session_id) {
                    &&& r == Err::<Vec<Output>, Error>(
                        Error::Unauthorized(Unauthorized::SessionNotFound),
                    )
                    &&& post.state.resume_forwarding@ == pre.state.resume_forwarding@
                } else if !post.state.nodes.occ(f.slot as int) {
                    &&& r == Err::<Vec<Output>, Error>(Error::NotFound(NotFound::NodeBySlot))
                    &&& post.state.resume_forwarding@ == pre.state.resume_forwarding@
                } else {
                    let src_i = post.state.nodes.spec_find_session(f.session_id).unwrap();
                    let src = post.state.nodes.at(src_i);
                    let dst = post.state.nodes.at(f.slot as int);
                    let quota = crate::limits::limiter_quota(
                        post.state.nodes.limiters@[src_i].unwrap(),
                    );
                    &&& r is Ok
                    &&& forward_outcome(
                        pre,
                        post,
                        f,
                        from,
                        src.info.slot,
                        f.session_id,
                        dst.info.endpoints,
                        spec_forward_cells(f.payload.len() as int),
                        quota,
                        r->Ok_0@.map_values(|o: Output| o@),
                    )
                }
            },
            PacketKindV::Packet(p) => {
                if p.session_id.len() == 0 {
                    &&& post.state.resume_forwarding@ == pre.state.resume_forwarding@
                    &&& match p.body {
                        PacketBodyV::Request(rq) => match rq.kind {
                            RequestKindV::Session(_) => new_session_post(
                                pre,
                                post,
                                from,
                                rq.request_id,
                                r,
                            ),
                            _ => r == Err::<Vec<Output>, Error>(
                                Error::BadRequest(BadRequest::NoSessionId),
                            ) && post.state.starting_session@ == pre.state.starting_session@,
                        },
                        _ => r == Err::<Vec<Output>, Error>(
                            Error::BadRequest(BadRequest::NoSessionId),
                        ) && post.state.starting_session@ == pre.state.starting_session@,
                    }
                } else if post.state.nodes.has_session(p.session_id) {
                    &&& post.state.starting_session@ == pre.state.starting_session@
                    &&& post.state.resume_forwarding@ == pre.state.resume_forwarding@
                    &&& registered_post(post.state.nodes, p, from, r)
                } else {
                    match find_starting_from(pre.state.starting_session@, p.session_id, 0) {
                        Some(idx) => {
                            &&& post.state.resume_forwarding@ == pre.state.resume_forwarding@
                            &&& match p.body {
                                PacketBodyV::Request(rq) => hs_post(pre, post, idx, rq, now, r),
                                _ => r == Err::<Vec<Output>, Error>(
                                    Error::BadRequest(BadRequest::InvalidPacket),
                                ) && post.state.starting_session@
                                    == pre.state.starting_session@,
                            }
                        },
                        None => {
                            &&& r == Err::<Vec<Output>, Error>(
                                Error::Unauthorized(Unauthorized::SessionNotFound),
                            )
                            &&& post.state.starting_session@ == pre.state.starting_session@
                            &&& post.state.resume_forwarding@ == pre.state.resume_forwarding@
                        },
                    }
                }
            },
        }
    }
}

impl Server {
    fn ping_request(&self, request_id: u64, session_id: &SessionId, from: &Address) -> (r:
        ServerResult<Vec<Output>>)
        ensures
            r is Ok,
            r->Ok_0@.map_values(|o: Output| o@) == seq![
                OutputV::Datagram {
                    dest: from@,
                    packet: resp_pkt_v(
                        request_id,
                        session_id@,
                        StatusCode::Okay,
                        ResponseKindV::Pong,
                    ),
                },
            ],
    {
        let pkt = Packet::response(
            request_id,
            session_id.to_vec(),
            StatusCode::Okay,
            ResponseKind::Pong,
        );
        let mut outs: Vec<Output> = Vec::new();
        outs.push(Output::Datagram { dest: from.clone(), packet: pkt });
        proof {
            assert(outs@.map_values(|o: Output| o@) =~= seq![
                OutputV::Datagram {
                    dest: from@,
                    packet: resp_pkt_v(
                        request_id,
                        session_id@,
                        StatusCode::Okay,
                        ResponseKindV::Pong,
                    ),
                },
            ]);
        }
        Ok(outs)
    }

    fn node_response(
        &self,
        request_id: u64,
        session_id: &SessionId,
        from: &Address,
        node_info: NodeSession,
        public_key: bool,
    ) -> (r: ServerResult<Vec<Output>>)
        ensures
            r is Ok,
            r->Ok_0@.map_values(|o: Output| o@) == seq![
                OutputV::Datagram {
                    dest: from@,
                    packet: resp_pkt_v(
                        request_id,
                        session_id@,
                        StatusCode::Okay,
                        ResponseKindV::Node(node_resp_v(node_info@, public_key)),
                    ),
                },
            ],
    {
        let node = to_node_response(node_info, public_key);
        let pkt = Packet::response(
            request_id,
            session_id.to_vec(),
            StatusCode::Okay,
            ResponseKind::Node(node),
        );
        let mut outs: Vec<Output> = Vec::new();
        outs.push(Output::Datagram { dest: from.clone(), packet: pkt });
        proof {
            assert(outs@.map_values(|o: Output| o@) =~= seq![
                OutputV::Datagram {
                    dest: from@,
                    packet: resp_pkt_v(
                        request_id,
                        session_id@,
                        StatusCode::Okay,
                        ResponseKindV::Node(node_resp_v(node_info@, public_key)),
                    ),
                },
            ]);
        }
        Ok(outs)
    }

    fn node_request(
        &self,
        request_id: u64,
        session_id: &SessionId,
        from: &Address,
        params: crate::proto::NodeRequest,
    ) -> (r: ServerResult<Vec<Output>>)
        requires
            self.state.nodes.wf(),
        ensures
            ({
                let nodes = self.state.nodes;
                if params.node_id@.len() != NODE_ID_SIZE {
                    r == Err::<Vec<Output>, Error>(Error::BadRequest(BadRequest::InvalidNodeId))
                } else if nodes.has_node(params.node_id@) {
                    &&& r is Ok
                    &&& r->Ok_0@.map_values(|o: Output| o@) == seq![
                        OutputV::Datagram {
                            dest: from@,
                            packet: resp_pkt_v(
                                request_id,
                                session_id@,
                                StatusCode::Okay,
                                ResponseKindV::Node(
                                    node_resp_v(
                                        nodes.at(nodes.spec_find_node(params.node_id@).unwrap()),
                                        params.public_key,
                                    ),
                                ),
                            ),
                        },
                    ]
                } else {
                    r == Err::<Vec<Output>, Error>(Error::NotFound(NotFound::Node))
                }
            }),
    {
        if params.node_id.len() != NODE_ID_SIZE {
            return Err(Error::BadRequest(BadRequest::InvalidNodeId));
        }
        let node_id = match NodeId::from_vec(params.node_id) {
            Some(nid) => nid,
            None => {
                proof {
                    assert(false);
                }
                return Err(Error::BadRequest(BadRequest::InvalidNodeId));
            },
        };
        match self.state.nodes.get_by_node_id(&node_id) {
            Some(ns) => self.node_response(request_id, session_id, from, ns, params.public_key),
            None => Err(Error::NotFound(NotFound::Node)),
        }
    }

    fn slot_request(
        &self,
        request_id: u64,
        session_id: &SessionId,
        from: &Address,
        params: crate::proto::SlotRequest,
    ) -> (r: ServerResult<Vec<Output>>)
        requires
            self.state.nodes.wf(),
        ensures
            ({
                let nodes = self.state.nodes;
                if nodes.occ(params.slot as int) {
                    &&& r is Ok
                    &&& r->Ok_0@.map_values(|o: Output| o@) == seq![
                        OutputV::Datagram {
                            dest: from@,
                            packet: resp_pkt_v(
                                request_id,
                                session_id@,
                                StatusCode::Okay,
                                ResponseKindV::Node(
                                    node_resp_v(nodes.at(params.slot as int), params.public_key),
                                ),
                            ),
                        },
                    ]
                } else {
                    r == Err::<Vec<Output>, Error>(Error::NotFound(NotFound::NodeBySlot))
                }
            }),
    {
        match self.state.nodes.get_by_slot(params.slot) {
            Some(ns) => self.node_response(request_id, session_id, from, ns, params.public_key),
            None => Err(Error::NotFound(NotFound::NodeBySlot)),
        }
    }

    #[verifier::loop_isolation(false)]
    fn neighbours_request(
        &self,
        request_id: u64,
        session_id: &SessionId,
        from: &Address,
        params: crate::proto::NeighboursRequest,
    ) -> (r: ServerResult<Vec<Output>>)
        requires
            self.state.nodes.wf(),
            self.state.nodes.has_session(session_id@),
        ensures
            r is Ok,
            exists|lst: Seq<NodeSessionV>|
                {
                    &&& #[trigger] self.state.nodes.neighbours_ok(
                        self.state.nodes.spec_find_session(session_id@).unwrap(),
                        params.count,
                        lst,
                    )
                    &&& r->Ok_0@.map_values(|o: Output| o@) == seq![
                        OutputV::Datagram {
                            dest: from@,
                            packet: resp_pkt_v(
                                request_id,
                                session_id@,
                                StatusCode::Okay,
                                ResponseKindV::Neighbours(
                                    lst.map_values(
                                        |n: NodeSessionV| node_resp_v(n, params.public_key),
                                    ),
                                ),
                            ),
                        },
                    ]
                },
    {
        let found = match self.state.nodes.neighbours(session_id, params.count) {
            Ok(found) => found,
            Err(e) => {
                proof {
                    assert(false);
                }
                return Err(e);
            },
        };
        let ghost lst = found@.map_values(|n: NodeSession| n@);
        let mut resp_nodes: Vec<NodeResponse> = Vec::new();
        let mut i: usize = 0;
        while i < found.len()
            invariant
                i <= found@.len(),
                resp_nodes@.len() == i,
                forall|k: int|
                    0 <= k < i ==> (#[trigger] resp_nodes@[k]@) == node_resp_v(
                        found@[k]@,
                        params.public_key,
                    ),
            decreases found@.len() - i,
        {
            let ns = found[i].clone();
            resp_nodes.push(to_node_response(ns, params.public_key));
            i = i + 1;
        }
        let pkt = Packet::response(
            request_id,
            session_id.to_vec(),
            StatusCode::Okay,
            ResponseKind::Neighbours(resp_nodes),
        );
        let mut outs: Vec<Output> = Vec::new();
        outs.push(Output::Datagram { dest: from.clone(), packet: pkt });
        proof {
            assert(self.state.nodes.neighbours_ok(
                self.state.nodes.spec_find_session(session_id@).unwrap(),
                params.count,
                lst,
            ));
            let mapped = lst.map_values(|n: NodeSessionV| node_resp_v(n, params.public_key));
            assert(resp_nodes@.map_values(|n: NodeResponse| n@) =~= mapped);
            assert(outs@.map_values(|o: Output| o@) =~= seq![
                OutputV::Datagram {
                    dest: from@,
                    packet: resp_pkt_v(
                        request_id,
                        session_id@,
                        StatusCode::Okay,
                        ResponseKindV::Neighbours(mapped),
                    ),
                },
            ]);
        }
        Ok(outs)
    }

    /// Route one incoming frame, with `now` as the wall-clock second
    /// it arrived: refresh the sender's liveness, then answer exactly
    /// as [`dispatch_post`] lays out for handshakes, directory
    /// requests, forwards and noise.
    pub fn dispatch(&mut self, from: &Address, packet: PacketKind, now: i64) -> (r: ServerResult<
        Vec<Output>,
    >)
        requires
            old(self).wf(),
        ensures
            final(self).wf(),
            final(self).same_config(*old(self)),
            dispatch_post(*old(self), *final(self), from@, packet@, now, r),
    {
        let sid_bytes = packet.session_id();
        if sid_bytes.len() != 0 {
            match SessionId::from_vec(sid_bytes) {
                Some(id) => {
                    let _ = self.state.nodes.update_seen(&id, now);
                },
                None => {
                    return Err(Error::Unauthorized(Unauthorized::InvalidSessionId));
                },
            }
        }
        match packet {
            PacketKind::Packet(p) => {
                if p.session_id.len() == 0 {
                    match p.body {
                        PacketBody::Request(rq) => match rq.kind {
                            RequestKind::Session(_) => self.new_session(rq.request_id, from),
                            _ => Err(Error::BadRequest(BadRequest::NoSessionId)),
                        },
                        _ => Err(Error::BadRequest(BadRequest::NoSessionId)),
                    }
                } else {
                    let id = match SessionId::from_vec(clone_bytes(&p.session_id)) {
                        Some(id) => id,
                        None => {
                            proof {
                                assert(false);
                            }
                            return Err(Error::Unauthorized(Unauthorized::InvalidSessionId));
                        },
                    };
                    match self.state.nodes.get_by_session(&id) {
                        Some(_node) => match p.body {
                            PacketBody::Request(rq) => match rq.kind {
                                RequestKind::Session(_) => Ok(Vec::new()),
                                RequestKind::Register(_) => Ok(Vec::new()),
                                RequestKind::ReverseConnection(_) => Ok(Vec::new()),
                                RequestKind::Ping => self.ping_request(rq.request_id, &id, from),
                                RequestKind::Node(nr) => self.node_request(
                                    rq.request_id,
                                    &id,
                                    from,
                                    nr,
                                ),
                                RequestKind::Slot(sr) => self.slot_request(
                                    rq.request_id,
                                    &id,
                                    from,
                                    sr,
                                ),
                                RequestKind::Neighbours(nb) => self.neighbours_request(
                                    rq.request_id,
                                    &id,
                                    from,
                                    nb,
                                ),
                            },
                            _ => Ok(Vec::new()),
                        },
                        None => match self.find_starting(&id) {
                            Some(idx) => match p.body {
                                PacketBody::Request(rq) => self.establish_session(idx, rq, now),
                                _ => Err(Error::BadRequest(BadRequest::InvalidPacket)),
                            },
                            None => Err(Error::Unauthorized(Unauthorized::SessionNotFound)),
                        },
                    }
                }
            },
            PacketKind::Forward(f) => self.forward(f, from),
            PacketKind::ForwardCtd(_) => Ok(Vec::new()),
        }
    }
}

} // verus!
