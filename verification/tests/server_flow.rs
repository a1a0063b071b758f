use relay_server::challenge::{public_key_of, solve, solve_challenge, sign};
use relay_server::error::{BadRequest, Error, NotFound, StatusCode, Timeout, Unauthorized};
use relay_server::proto::{
    Control, Forward, NeighboursRequest, NodeRequest, Packet, PacketBody, PacketKind, RequestKind,
    ResponseKind, SessionRequest, SlotRequest,
};
use relay_server::server::{
    dispatch_response, error_response, make_limiter, Output, Server, CHALLENGE_DIFFICULTY,
};
use relay_server::session::{Address, Endpoint, NodeId, NodeInfo, NodeSession, Protocol, SessionId};

fn addr(text: &str) -> Address {
    Address::from_vec(text.as_bytes().to_vec())
}

fn secret(tag: u8) -> Vec<u8> {
    let mut s = vec![0u8; 32];
    s[31] = tag;
    s
}

fn only_datagram(outs: &[Output]) -> (&Address, &PacketKind) {
    assert_eq!(outs.len(), 1);
    match &outs[0] {
        Output::Datagram { dest, packet } => (dest, packet),
        _ => panic!("expected a datagram"),
    }
}

fn response_kind(packet: &PacketKind) -> (u64, &Vec<u8>, StatusCode, &Option<ResponseKind>) {
    match packet {
        PacketKind::Packet(p) => match &p.body {
            PacketBody::Response(r) => (r.request_id, &p.session_id, r.code, &r.kind),
            _ => panic!("expected a response"),
        },
        _ => panic!("expected a packet"),
    }
}

/// Register a session directly in the registry, as an established
/// session with the given endpoints.
fn register_directly(
    server: &mut Server,
    id_byte: u8,
    sid_seed: u8,
    endpoints: Vec<Endpoint>,
    last_seen: i64,
) -> Vec<u8> {
    let ns = NodeSession {
        info: NodeInfo {
            node_id: NodeId::from_vec(vec![id_byte; 20]).unwrap(),
            public_key: vec![0xbb; 64],
            slot: u32::MAX,
            endpoints,
        },
        session: SessionId::from_vec(vec![sid_seed; 16]).unwrap(),
        last_seen,
    };
    server.state.nodes.register(ns, make_limiter(2048).unwrap()).unwrap();
    vec![sid_seed; 16]
}

fn forward_packet(sid: &[u8], slot: u32, payload: Vec<u8>) -> PacketKind {
    PacketKind::Forward(Forward { session_id: sid.to_vec(), slot, flags: 0, payload })
}

/// A fixed challenge whose least conforming counter at the server's
/// difficulty is 1, so solving it in a test takes two hashes instead
/// of a long search.
fn cheap_challenge() -> Vec<u8> {
    let mut c = vec![73u8; 8];
    c.append(&mut vec![52u8; 8]);
    c
}

/// Open a handshake under a chosen session id and the cheap challenge.
fn open_cheap(server: &mut Server, peer: &Address, sid_seed: u8) -> Vec<u8> {
    let sid = SessionId::from_vec(vec![sid_seed; 16]).unwrap();
    let outs = server.open_session(1, peer, sid, cheap_challenge()).unwrap();
    let (_, packet) = only_datagram(&outs);
    let (rid, _, code, kind) = response_kind(packet);
    assert_eq!((rid, code), (1, StatusCode::Okay));
    assert!(matches!(kind, Some(ResponseKind::Challenge(_))));
    vec![sid_seed; 16]
}

/// Drive the whole handshake for one peer and return its session id.
fn handshake(server: &mut Server, peer: &Address, node_id: Vec<u8>, key: &Vec<u8>, now: i64) -> Vec<u8> {
    let open = Packet::request(
        vec![],
        1,
        RequestKind::Session(SessionRequest {
            challenge_resp: vec![],
            node_id: vec![],
            public_key: vec![],
        }),
    );
    let outs = server.dispatch(peer, open, now).expect("challenge issued");
    let (dest, packet) = only_datagram(&outs);
    assert_eq!(dest, peer);
    let (rid, sid, code, kind) = response_kind(packet);
    assert_eq!(rid, 1);
    assert_eq!(code, StatusCode::Okay);
    let challenge = match kind {
        Some(ResponseKind::Challenge(c)) => {
            assert_eq!(c.difficulty, CHALLENGE_DIFFICULTY);
            assert_eq!(c.challenge.len(), 16);
            assert_eq!(c.version, b"0.0.1".to_vec());
            c.challenge.clone()
        },
        _ => panic!("expected a challenge"),
    };
    let sid = sid.clone();

    let response = solve(&challenge, CHALLENGE_DIFFICULTY, key).expect("solvable");
    let public = public_key_of(key).unwrap();
    let session_rq = Packet::request(
        sid.clone(),
        2,
        RequestKind::Session(SessionRequest {
            challenge_resp: response,
            node_id,
            public_key: public,
        }),
    );
    let outs = server.dispatch(peer, session_rq, now).expect("challenge accepted");
    let (_, packet) = only_datagram(&outs);
    let (_, _, code, kind) = response_kind(packet);
    assert_eq!(code, StatusCode::Okay);
    assert!(matches!(kind, Some(ResponseKind::Session)));

    let register_rq = Packet::request(sid.clone(), 3, RequestKind::Register(vec![]));
    let outs = server.dispatch(peer, register_rq, now).expect("probe starts");
    assert_eq!(outs.len(), 1);
    match &outs[0] {
        Output::Probe { session_id, peer: probe_peer } => {
            assert_eq!(&session_id.bytes, &sid);
            assert_eq!(probe_peer, peer);
        },
        _ => panic!("expected a probe"),
    }

    let sid_typed = SessionId::from_vec(sid.clone()).unwrap();
    let outs = server.probe_result(&sid_typed, true).expect("probe reported");
    let (dest, packet) = only_datagram(&outs);
    assert_eq!(dest, peer);
    let (rid, _, code, kind) = response_kind(packet);
    assert_eq!(rid, 3);
    assert_eq!(code, StatusCode::Okay);
    match kind {
        Some(ResponseKind::Register(eps)) => {
            assert_eq!(eps.len(), 1);
            assert!(matches!(eps[0].protocol, Protocol::Udp));
            assert_eq!(eps[0].address, *peer);
        },
        _ => panic!("expected a register response"),
    }
    sid
}

#[test]
fn full_handshake_registers_the_first_slot() {
    let mut server = Server::new(3600);
    let peer = addr("192.0.2.1:4001");
    let key = secret(1);
    handshake(&mut server, &peer, vec![0xa1; 20], &key, 100);
    let found = server
        .state
        .nodes
        .get_by_node_id(&NodeId::from_vec(vec![0xa1; 20]).unwrap())
        .expect("registered");
    assert_eq!(found.info.slot, 0);
    assert_eq!(found.info.endpoints.len(), 1);
    assert_eq!(found.info.endpoints[0].address, peer);
}

#[test]
fn bad_signature_tears_the_handshake_down() {
    let mut server = Server::new(3600);
    let peer = addr("192.0.2.2:4002");
    let sid = open_cheap(&mut server, &peer, 0x32);
    let challenge = cheap_challenge();
    // solve honestly but sign with another key while claiming this one
    let solution = solve_challenge(&challenge, CHALLENGE_DIFFICULTY).unwrap();
    let forged = sign(solution, &secret(2)).unwrap();
    let claimed = public_key_of(&secret(1)).unwrap();
    let rq = Packet::request(
        sid.clone(),
        2,
        RequestKind::Session(SessionRequest {
            challenge_resp: forged,
            node_id: vec![0xa1; 20],
            public_key: claimed.clone(),
        }),
    );
    let err = server.dispatch(&peer, rq, 100).unwrap_err();
    assert_eq!(err, Error::Unauthorized(Unauthorized::InvalidChallenge));
    // the pending entry is gone: retrying under the same id finds no session
    let retry = Packet::request(
        sid,
        3,
        RequestKind::Session(SessionRequest {
            challenge_resp: vec![],
            node_id: vec![0xa1; 20],
            public_key: claimed,
        }),
    );
    let err = server.dispatch(&peer, retry, 100).unwrap_err();
    assert_eq!(err, Error::Unauthorized(Unauthorized::SessionNotFound));
}

#[test]
fn wrong_node_id_length_is_rejected_in_the_handshake() {
    // open the handshakes under the fixed cheap challenge: one quick
    // solved response serves both lengths
    let challenge = cheap_challenge();
    let key = secret(1);
    let response = solve(&challenge, CHALLENGE_DIFFICULTY, &key).unwrap();
    let public = public_key_of(&key).unwrap();
    for len in vec![19usize, 21] {
        let mut server = Server::new(3600);
        let peer = addr("192.0.2.3:4003");
        let sid = open_cheap(&mut server, &peer, 0x31);
        let rq = Packet::request(
            sid,
            2,
            RequestKind::Session(SessionRequest {
                challenge_resp: response.clone(),
                node_id: vec![0xa1; len],
                public_key: public.clone(),
            }),
        );
        let err = server.dispatch(&peer, rq, 100).unwrap_err();
        assert_eq!(err, Error::BadRequest(BadRequest::InvalidNodeId));
        // the torn-down handshake is gone
        let sid_typed = SessionId::from_vec(vec![0x31; 16]).unwrap();
        assert!(server.probe_result(&sid_typed, true).is_err());
    }
}

#[test]
fn probe_timeout_fails_the_registration() {
    let mut server = Server::new(3600);
    let peer = addr("192.0.2.4:4004");
    let key = secret(3);
    // run the handshake up to the probe by hand
    let sid = open_cheap(&mut server, &peer, 0x33);
    let response = solve(&cheap_challenge(), CHALLENGE_DIFFICULTY, &key).unwrap();
    let rq = Packet::request(
        sid.clone(),
        2,
        RequestKind::Session(SessionRequest {
            challenge_resp: response,
            node_id: vec![0xa4; 20],
            public_key: public_key_of(&key).unwrap(),
        }),
    );
    server.dispatch(&peer, rq, 100).unwrap();
    server
        .dispatch(&peer, Packet::request(sid.clone(), 3, RequestKind::Register(vec![])), 100)
        .unwrap();
    let sid_typed = SessionId::from_vec(sid).unwrap();
    let outs = server.probe_result(&sid_typed, false).unwrap();
    let (dest, packet) = only_datagram(&outs);
    assert_eq!(dest, &peer);
    let (rid, _, code, kind) = response_kind(packet);
    assert_eq!(rid, 3);
    assert_eq!(code, StatusCode::Timeout);
    assert!(kind.is_none());
    // nothing was registered
    assert!(server.state.nodes.get_by_node_id(&NodeId::from_vec(vec![0xa4; 20]).unwrap()).is_none());
    // a probe report for a session nobody is waiting on is refused
    let stranger = SessionId::from_vec(vec![0x33; 16]).unwrap();
    assert_eq!(
        server.probe_result(&stranger, true).unwrap_err(),
        Error::Unauthorized(Unauthorized::SessionNotFound)
    );
}

#[test]
fn forward_happy_path_rewrites_the_header() {
    let mut server = Server::new(3600);
    let addr_a = addr("192.0.2.10:1");
    let pub_b = addr("192.0.2.11:2");
    let sid_a = register_directly(&mut server, 0x0a, 1, vec![], 100);
    let sid_b = register_directly(
        &mut server,
        0x0b,
        2,
        vec![Endpoint { protocol: Protocol::Udp, address: pub_b.clone() }],
        100,
    );
    assert_eq!(sid_b, vec![2; 16]);
    // A (slot 0) forwards a small payload to slot 1
    let outs = server
        .dispatch(&addr_a, forward_packet(&sid_a, 1, vec![0x5a; 100]), 200)
        .expect("forwarded");
    let (dest, packet) = only_datagram(&outs);
    assert_eq!(dest, &pub_b);
    match packet {
        PacketKind::Forward(f) => {
            // the header now names the sender: A's session id and slot
            assert_eq!(f.session_id, sid_a);
            assert_eq!(f.slot, 0);
            assert_eq!(f.payload, vec![0x5a; 100]);
        },
        _ => panic!("expected a forward"),
    }
    // forwarding also counts as liveness
    let a = server.state.nodes.get_by_session(&SessionId::from_vec(sid_a).unwrap()).unwrap();
    assert_eq!(a.last_seen, 200);
}

#[test]
fn forward_from_unknown_session_is_unauthorized() {
    let mut server = Server::new(3600);
    register_directly(&mut server, 0x0b, 2, vec![], 100);
    let err = server
        .dispatch(&addr("192.0.2.12:3"), forward_packet(&vec![9; 16], 0, vec![1, 2, 3]), 100)
        .unwrap_err();
    assert_eq!(err, Error::Unauthorized(Unauthorized::SessionNotFound));
    // the matching on-wire report
    let report = error_response(0, vec![9; 16], &err);
    let (_, _, code, kind) = response_kind(&report);
    assert_eq!(code, StatusCode::Unauthorized);
    assert!(kind.is_none());
}

#[test]
fn forward_to_unreachable_node_is_dropped_silently() {
    let mut server = Server::new(3600);
    let sid_a = register_directly(&mut server, 0x0a, 1, vec![], 100);
    // B has no endpoints at all
    register_directly(&mut server, 0x0b, 2, vec![], 100);
    let outs = server
        .dispatch(&addr("192.0.2.13:4"), forward_packet(&sid_a, 1, vec![7; 10]), 100)
        .expect("no error");
    assert!(outs.is_empty());
}

#[test]
fn rate_limited_sender_is_paused_then_resumed() {
    let mut server = Server::new(3600);
    let addr_a = addr("192.0.2.14:5");
    let pub_b = addr("192.0.2.15:6");
    let sid_a = register_directly(&mut server, 0x0a, 1, vec![], 100);
    register_directly(
        &mut server,
        0x0b,
        2,
        vec![Endpoint { protocol: Protocol::Udp, address: pub_b }],
        100,
    );
    // the first 2000 cells fit the fresh bucket
    let outs = server
        .dispatch(&addr_a, forward_packet(&sid_a, 1, vec![1; 2000]), 100)
        .unwrap();
    assert_eq!(outs.len(), 1);
    // the second burst does not fit yet: dropped, sender paused
    let outs = server
        .dispatch(&addr_a, forward_packet(&sid_a, 1, vec![2; 2000]), 100)
        .unwrap();
    let (dest, packet) = only_datagram(&outs);
    assert_eq!(dest, &addr_a);
    match packet {
        PacketKind::Packet(p) => match &p.body {
            PacketBody::Control(Control::PauseForwarding { slot }) => assert_eq!(*slot, 1),
            _ => panic!("expected a pause"),
        },
        _ => panic!("expected a control packet"),
    }
    // a payload that can never fit the bucket is dropped without a word
    let outs = server
        .dispatch(&addr_a, forward_packet(&sid_a, 1, vec![3; 3000]), 100)
        .unwrap();
    assert!(outs.is_empty());
    // once the resume time passes, the sweep notifies the sender,
    // naming the sender's own slot
    let outs = server.resume_due(u64::MAX);
    assert_eq!(outs.len(), 1);
    let (dest, packet) = only_datagram(&outs);
    assert_eq!(dest, &addr_a);
    match packet {
        PacketKind::Packet(p) => {
            assert_eq!(p.session_id, sid_a);
            match &p.body {
                PacketBody::Control(Control::ResumeForwarding { slot }) => assert_eq!(*slot, 0),
                _ => panic!("expected a resume"),
            }
        },
        _ => panic!("expected a control packet"),
    }
    // the queue is drained
    assert!(server.resume_due(u64::MAX).is_empty());
}

#[test]
fn expired_session_stops_being_a_destination() {
    let mut server = Server::new(50);
    let addr_a = addr("192.0.2.16:7");
    let sid_a = register_directly(&mut server, 0x0a, 1, vec![], 100);
    register_directly(&mut server, 0x0b, 2, vec![], 40);
    // keep A alive, let B lapse past the timeout
    server
        .dispatch(&addr_a, Packet::request(sid_a.clone(), 5, RequestKind::Ping), 100)
        .unwrap();
    server.state.nodes.check_timeouts(100, 50);
    let err = server
        .dispatch(&addr_a, forward_packet(&sid_a, 1, vec![1; 10]), 101)
        .unwrap_err();
    assert_eq!(err, Error::NotFound(NotFound::NodeBySlot));
    let report = error_response(0, sid_a, &err);
    let (_, _, code, _) = response_kind(&report);
    assert_eq!(code, StatusCode::NotFound);
}

#[test]
fn directory_requests_answer_over_dispatch() {
    let mut server = Server::new(3600);
    let caller = addr("192.0.2.17:8");
    let sid = register_directly(&mut server, 0x0a, 1, vec![], 100);
    register_directly(&mut server, 0x0b, 2, vec![], 100);

    // ping
    let outs = server
        .dispatch(&caller, Packet::request(sid.clone(), 4, RequestKind::Ping), 100)
        .unwrap();
    let (_, packet) = only_datagram(&outs);
    let (rid, _, code, kind) = response_kind(packet);
    assert_eq!((rid, code), (4, StatusCode::Okay));
    assert!(matches!(kind, Some(ResponseKind::Pong)));

    // node lookup with the public key withheld and included
    for with_key in vec![false, true] {
        let rq = Packet::request(
            sid.clone(),
            5,
            RequestKind::Node(NodeRequest { node_id: vec![0x0b; 20], public_key: with_key }),
        );
        let outs = server.dispatch(&caller, rq, 100).unwrap();
        let (_, packet) = only_datagram(&outs);
        let (_, _, code, kind) = response_kind(packet);
        assert_eq!(code, StatusCode::Okay);
        match kind {
            Some(ResponseKind::Node(n)) => {
                assert_eq!(n.node_id, vec![0x0b; 20]);
                assert_eq!(n.slot, 1);
                if with_key {
                    assert_eq!(n.public_key, vec![0xbb; 64]);
                } else {
                    assert!(n.public_key.is_empty());
                }
            },
            _ => panic!("expected a node record"),
        }
    }

    // a malformed node id is a bad request (19 and 21 bytes)
    for len in vec![19usize, 21] {
        let rq = Packet::request(
            sid.clone(),
            6,
            RequestKind::Node(NodeRequest { node_id: vec![0x0b; len], public_key: false }),
        );
        let err = server.dispatch(&caller, rq, 100).unwrap_err();
        assert_eq!(err, Error::BadRequest(BadRequest::InvalidNodeId));
    }

    // an unknown node id is not found
    let rq = Packet::request(
        sid.clone(),
        7,
        RequestKind::Node(NodeRequest { node_id: vec![0x77; 20], public_key: false }),
    );
    assert_eq!(
        server.dispatch(&caller, rq, 100).unwrap_err(),
        Error::NotFound(NotFound::Node)
    );

    // slot lookups
    let rq = Packet::request(
        sid.clone(),
        8,
        RequestKind::Slot(SlotRequest { slot: 0, public_key: false }),
    );
    let outs = server.dispatch(&caller, rq, 100).unwrap();
    let (_, packet) = only_datagram(&outs);
    match response_kind(packet).3 {
        Some(ResponseKind::Node(n)) => assert_eq!(n.node_id, vec![0x0a; 20]),
        _ => panic!("expected a node record"),
    }
    let rq = Packet::request(
        sid.clone(),
        9,
        RequestKind::Slot(SlotRequest { slot: 9, public_key: false }),
    );
    assert_eq!(
        server.dispatch(&caller, rq, 100).unwrap_err(),
        Error::NotFound(NotFound::NodeBySlot)
    );

    // neighbourhood
    let rq = Packet::request(
        sid.clone(),
        10,
        RequestKind::Neighbours(NeighboursRequest { count: 5, public_key: false }),
    );
    let outs = server.dispatch(&caller, rq, 100).unwrap();
    let (_, packet) = only_datagram(&outs);
    match response_kind(packet).3 {
        Some(ResponseKind::Neighbours(ns)) => {
            assert_eq!(ns.len(), 1);
            assert_eq!(ns[0].node_id, vec![0x0b; 20]);
        },
        _ => panic!("expected a neighbourhood"),
    }
}

#[test]
fn session_routing_rejects_what_it_must() {
    let mut server = Server::new(3600);
    let from = addr("192.0.2.18:9");
    // an empty session id is only good for opening a handshake
    let err = server
        .dispatch(&from, Packet::request(vec![], 1, RequestKind::Ping), 100)
        .unwrap_err();
    assert_eq!(err, Error::BadRequest(BadRequest::NoSessionId));
    // a session id of the wrong length is refused outright
    let err = server
        .dispatch(&from, Packet::request(vec![1; 5], 1, RequestKind::Ping), 100)
        .unwrap_err();
    assert_eq!(err, Error::Unauthorized(Unauthorized::InvalidSessionId));
    // an unknown 16-byte session id is not found
    let err = server
        .dispatch(&from, Packet::request(vec![1; 16], 1, RequestKind::Ping), 100)
        .unwrap_err();
    assert_eq!(err, Error::Unauthorized(Unauthorized::SessionNotFound));
    // established sessions do not re-handshake, and stray responses
    // and controls are ignored
    let sid = register_directly(&mut server, 0x0a, 1, vec![], 100);
    let outs = server
        .dispatch(&from, Packet::request(sid.clone(), 2, RequestKind::Register(vec![])), 100)
        .unwrap();
    assert!(outs.is_empty());
    let outs = server
        .dispatch(
            &from,
            Packet::control(sid.clone(), Control::PauseForwarding { slot: 0 }),
            100,
        )
        .unwrap();
    assert!(outs.is_empty());
    let outs = server
        .dispatch(
            &from,
            Packet::response(1, sid, StatusCode::Okay, ResponseKind::Pong),
            100,
        )
        .unwrap();
    assert!(outs.is_empty());
    // continuation frames are parsed and ignored
    let outs = server.dispatch(&from, PacketKind::ForwardCtd(vec![1, 2, 3]), 100).unwrap();
    assert!(outs.is_empty());
}

#[test]
fn opening_a_colliding_session_id_is_refused() {
    let mut server = Server::new(3600);
    let peer = addr("192.0.2.20:1");
    let sid = SessionId::from_vec(vec![5; 16]).unwrap();
    let outs = server.open_session(9, &peer, sid, vec![0; 16]).unwrap();
    assert_eq!(outs.len(), 1);
    // the same id cannot open a second handshake
    let sid_again = SessionId::from_vec(vec![5; 16]).unwrap();
    assert_eq!(
        server.open_session(10, &peer, sid_again, vec![1; 16]).unwrap_err(),
        Error::Conflict
    );
    // a different id can
    let other = SessionId::from_vec(vec![6; 16]).unwrap();
    assert!(server.open_session(11, &peer, other, vec![2; 16]).is_ok());
}

#[test]
fn dispatch_response_classifies_responses() {
    let pong = Packet::response(1, vec![1; 16], StatusCode::Okay, ResponseKind::Pong);
    assert!(matches!(dispatch_response(pong), Ok(ResponseKind::Pong)));
    let failed = Packet::response(1, vec![1; 16], StatusCode::Unauthorized, ResponseKind::Pong);
    assert_eq!(dispatch_response(failed).unwrap_err(), StatusCode::Unauthorized);
    let bare = Packet::error(1, vec![1; 16], StatusCode::Timeout);
    assert_eq!(dispatch_response(bare).unwrap_err(), StatusCode::Timeout);
    let not_a_response = Packet::request(vec![1; 16], 1, RequestKind::Ping);
    assert_eq!(dispatch_response(not_a_response).unwrap_err(), StatusCode::Undefined);
}

#[test]
fn error_statuses_match_the_taxonomy() {
    let cases = vec![
        (Error::Undefined, StatusCode::Undefined),
        (Error::BadRequest(BadRequest::NoSessionId), StatusCode::BadRequest),
        (Error::Unauthorized(Unauthorized::SessionNotFound), StatusCode::Unauthorized),
        (Error::NotFound(NotFound::Node), StatusCode::NotFound),
        (Error::Timeout(Timeout::Ping), StatusCode::Timeout),
        (Error::Conflict, StatusCode::Conflict),
        (Error::PayloadTooLarge, StatusCode::PayloadTooLarge),
        (Error::TooManyRequests, StatusCode::TooManyRequests),
        (
            Error::Internal(relay_server::error::InternalError::Send),
            StatusCode::ServerError,
        ),
        (Error::GatewayTimeout, StatusCode::GatewayTimeout),
    ];
    for (error, status) in cases {
        let report = error_response(42, vec![1; 16], &error);
        let (rid, sid, code, kind) = response_kind(&report);
        assert_eq!(rid, 42);
        assert_eq!(sid, &vec![1; 16]);
        assert_eq!(code, status);
        assert!(kind.is_none());
    }
}
