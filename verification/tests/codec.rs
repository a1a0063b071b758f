use relay_server::codec::{decode, encode, MAX_PACKET_SIZE};
use relay_server::error::StatusCode;
use relay_server::proto::{
    ChallengeResponse, Control, Forward, NeighboursRequest, NodeRequest, NodeResponse, Packet,
    PacketBody, PacketKind, Request, RequestKind, Response, ResponseKind, SessionRequest,
    SlotRequest,
};
use relay_server::session::{Address, Endpoint, Protocol};

fn roundtrip(p: PacketKind) -> PacketKind {
    let bytes = encode(&p).expect("encodes");
    assert!(bytes.len() <= MAX_PACKET_SIZE);
    let q = decode(&bytes).expect("decodes");
    let bytes2 = encode(&q).expect("re-encodes");
    assert_eq!(bytes, bytes2, "round trip is bit-stable");
    q
}

fn ep(addr: &str) -> Endpoint {
    Endpoint { protocol: Protocol::Udp, address: Address::from_vec(addr.as_bytes().to_vec()) }
}

#[test]
fn forward_round_trip_bit_exact() {
    let p = PacketKind::Forward(Forward {
        session_id: vec![7u8; 16],
        slot: 0xdead_beef,
        flags: 0x0102,
        payload: vec![1, 2, 3, 4, 5],
    });
    let bytes = encode(&p).unwrap();
    // tag, 16-byte session id, 4-byte slot, 2-byte flags, payload
    assert_eq!(bytes.len(), 1 + 16 + 4 + 2 + 5);
    assert_eq!(bytes[0], 1);
    assert_eq!(&bytes[1..17], &[7u8; 16][..]);
    assert_eq!(&bytes[17..21], &[0xde, 0xad, 0xbe, 0xef][..]);
    assert_eq!(&bytes[21..23], &[0x01, 0x02][..]);
    assert_eq!(&bytes[23..], &[1, 2, 3, 4, 5][..]);
    match roundtrip(p) {
        PacketKind::Forward(f) => {
            assert_eq!(f.session_id, vec![7u8; 16]);
            assert_eq!(f.slot, 0xdead_beef);
            assert_eq!(f.flags, 0x0102);
            assert_eq!(f.payload, vec![1, 2, 3, 4, 5]);
        },
        _ => panic!("wrong frame"),
    }
}

#[test]
fn forward_ctd_round_trip() {
    match roundtrip(PacketKind::ForwardCtd(vec![9, 9, 9])) {
        PacketKind::ForwardCtd(b) => assert_eq!(b, vec![9, 9, 9]),
        _ => panic!("wrong frame"),
    }
}

#[test]
fn session_request_round_trip() {
    let p = Packet::request(
        vec![],
        1,
        RequestKind::Session(SessionRequest {
            challenge_resp: vec![0xab; 80],
            node_id: vec![2; 20],
            public_key: vec![3; 64],
        }),
    );
    match roundtrip(p) {
        PacketKind::Packet(pk) => {
            assert!(pk.session_id.is_empty());
            match pk.body {
                PacketBody::Request(rq) => {
                    assert_eq!(rq.request_id, 1);
                    match rq.kind {
                        RequestKind::Session(s) => {
                            assert_eq!(s.challenge_resp, vec![0xab; 80]);
                            assert_eq!(s.node_id, vec![2; 20]);
                            assert_eq!(s.public_key, vec![3; 64]);
                        },
                        _ => panic!("wrong kind"),
                    }
                },
                _ => panic!("wrong body"),
            }
        },
        _ => panic!("wrong frame"),
    }
}

#[test]
fn request_variants_round_trip() {
    roundtrip(Packet::request(vec![5; 16], 2, RequestKind::Register(vec![ep("1.2.3.4:5")])));
    roundtrip(Packet::request(
        vec![5; 16],
        3,
        RequestKind::Node(NodeRequest { node_id: vec![8; 20], public_key: true }),
    ));
    roundtrip(Packet::request(
        vec![5; 16],
        4,
        RequestKind::Slot(SlotRequest { slot: 77, public_key: false }),
    ));
    roundtrip(Packet::request(
        vec![5; 16],
        5,
        RequestKind::Neighbours(NeighboursRequest { count: 4, public_key: true }),
    ));
    roundtrip(Packet::request(vec![5; 16], 6, RequestKind::Ping));
    roundtrip(Packet::request(vec![5; 16], 7, RequestKind::ReverseConnection(vec![8; 20])));
}

#[test]
fn response_variants_round_trip() {
    roundtrip(Packet::response(
        1,
        vec![4; 16],
        StatusCode::Okay,
        ResponseKind::Challenge(ChallengeResponse {
            version: b"0.0.1".to_vec(),
            caps: 0,
            kind: 10,
            difficulty: 16,
            challenge: vec![0x55; 16],
        }),
    ));
    roundtrip(Packet::response(2, vec![4; 16], StatusCode::Okay, ResponseKind::Session));
    roundtrip(Packet::response(
        3,
        vec![4; 16],
        StatusCode::Okay,
        ResponseKind::Register(vec![ep("9.9.9.9:9"), ep("8.8.8.8:8")]),
    ));
    let node = NodeResponse {
        node_id: vec![1; 20],
        public_key: vec![2; 64],
        endpoints: vec![ep("7.7.7.7:7")],
        seen_ts: 12345,
        slot: 3,
    };
    roundtrip(Packet::response(4, vec![4; 16], StatusCode::Okay, ResponseKind::Node(node)));
    let n1 = NodeResponse {
        node_id: vec![1; 20],
        public_key: vec![],
        endpoints: vec![],
        seen_ts: 1,
        slot: 0,
    };
    let n2 = NodeResponse {
        node_id: vec![2; 20],
        public_key: vec![],
        endpoints: vec![ep("6.6.6.6:6")],
        seen_ts: 2,
        slot: 1,
    };
    roundtrip(Packet::response(
        5,
        vec![4; 16],
        StatusCode::Okay,
        ResponseKind::Neighbours(vec![n1, n2]),
    ));
    roundtrip(Packet::response(6, vec![4; 16], StatusCode::Okay, ResponseKind::Pong));
    // a bare error response has no body
    roundtrip(Packet::error(7, vec![4; 16], StatusCode::Unauthorized));
}

#[test]
fn control_round_trip() {
    roundtrip(Packet::control(vec![3; 16], Control::PauseForwarding { slot: 9 }));
    roundtrip(Packet::control(vec![3; 16], Control::ResumeForwarding { slot: 10 }));
}

#[test]
fn status_codes_survive_the_wire() {
    let codes = vec![
        StatusCode::Undefined,
        StatusCode::Okay,
        StatusCode::BadRequest,
        StatusCode::Unauthorized,
        StatusCode::NotFound,
        StatusCode::Timeout,
        StatusCode::Conflict,
        StatusCode::PayloadTooLarge,
        StatusCode::TooManyRequests,
        StatusCode::ServerError,
        StatusCode::GatewayTimeout,
    ];
    for code in codes {
        match roundtrip(Packet::error(1, vec![1; 16], code)) {
            PacketKind::Packet(pk) => match pk.body {
                PacketBody::Response(resp) => {
                    assert_eq!(resp.code, code);
                    assert!(resp.kind.is_none());
                },
                _ => panic!("wrong body"),
            },
            _ => panic!("wrong frame"),
        }
    }
}

#[test]
fn decode_rejects_garbage() {
    // empty datagram
    assert!(decode(&vec![]).is_err());
    // unknown frame tag
    assert!(decode(&vec![9, 1, 2, 3]).is_err());
    // truncated forward header
    assert!(decode(&vec![1, 0, 0, 0]).is_err());
    // oversize datagram
    assert!(decode(&vec![2; MAX_PACKET_SIZE + 1]).is_err());
    // trailing bytes after a packet body
    let mut bytes = encode(&Packet::request(vec![5; 16], 6, RequestKind::Ping)).unwrap();
    bytes.push(0);
    assert!(decode(&bytes).is_err());
    // a session id length that is neither 0 nor 16
    assert!(decode(&vec![0, 3, 1, 2, 3]).is_err());
}

#[test]
fn encode_rejects_what_has_no_wire_form() {
    // forward session ids must be 16 bytes
    assert!(encode(&PacketKind::Forward(Forward {
        session_id: vec![1; 8],
        slot: 0,
        flags: 0,
        payload: vec![],
    }))
        .is_err());
    // packet session ids must be empty or 16 bytes
    assert!(encode(&Packet::request(vec![1; 5], 1, RequestKind::Ping)).is_err());
    // an encoding larger than a datagram is refused
    assert!(encode(&PacketKind::Forward(Forward {
        session_id: vec![1; 16],
        slot: 0,
        flags: 0,
        payload: vec![0; MAX_PACKET_SIZE],
    }))
        .is_err());
}
