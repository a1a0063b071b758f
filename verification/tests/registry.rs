use relay_server::server::make_limiter;
use relay_server::session::{Address, Endpoint, NodeId, NodeInfo, NodeSession, Protocol, SessionId};
use relay_server::state::{hamming_distance, NodesState};

fn node_id(bytes: [u8; 20]) -> NodeId {
    NodeId::from_vec(bytes.to_vec()).unwrap()
}

fn session_id(seed: u8) -> SessionId {
    SessionId::from_vec(vec![seed; 16]).unwrap()
}

fn node(id_bytes: [u8; 20], sid_seed: u8, last_seen: i64) -> NodeSession {
    NodeSession {
        info: NodeInfo {
            node_id: node_id(id_bytes),
            public_key: vec![0xaa; 64],
            slot: u32::MAX,
            endpoints: vec![
                Endpoint {
                    protocol: Protocol::Udp,
                    address: Address::from_vec(b"10.0.0.1:1".to_vec()),
                },
            ],
        },
        session: session_id(sid_seed),
        last_seen,
    }
}

fn add(state: &mut NodesState, ns: NodeSession) -> u32 {
    state.register(ns, make_limiter(2048).unwrap()).unwrap()
}

#[test]
fn register_assigns_dense_slots_and_indices() {
    let mut state = NodesState::new();
    let s0 = add(&mut state, node([0; 20], 1, 100));
    let s1 = add(&mut state, node([1; 20], 2, 100));
    assert_eq!(s0, 0);
    assert_eq!(s1, 1);
    // the stored record carries its own slot, and both indices find it
    let by_slot = state.get_by_slot(0).unwrap();
    assert_eq!(by_slot.info.slot, 0);
    assert_eq!(by_slot.session, session_id(1));
    let by_session = state.get_by_session(&session_id(2)).unwrap();
    assert_eq!(by_session.info.slot, 1);
    assert_eq!(by_session.session, session_id(2));
    let by_node = state.get_by_node_id(&node_id([1; 20])).unwrap();
    assert_eq!(by_node.info.slot, 1);
    assert!(state.get_by_slot(2).is_none());
    assert!(state.get_by_session(&session_id(9)).is_none());
    assert!(state.get_by_node_id(&node_id([9; 20])).is_none());
}

#[test]
fn freed_slots_are_reused_first() {
    let mut state = NodesState::new();
    add(&mut state, node([0; 20], 1, 100));
    add(&mut state, node([1; 20], 2, 100));
    add(&mut state, node([2; 20], 3, 100));
    // expire the middle one: its last_seen is oldest
    let mut stale = node([1; 20], 2, 100);
    stale.last_seen = 10;
    // rebuild with distinct ages
    let mut state = NodesState::new();
    add(&mut state, node([0; 20], 1, 100));
    add(&mut state, stale);
    add(&mut state, node([2; 20], 3, 100));
    state.check_timeouts(100, 50);
    assert!(state.get_by_slot(1).is_none());
    // the freed slot is handed out again before the array grows
    let s = add(&mut state, node([4; 20], 4, 100));
    assert_eq!(s, 1);
}

#[test]
fn update_seen_refreshes_only_the_one_session() {
    let mut state = NodesState::new();
    add(&mut state, node([0; 20], 1, 100));
    add(&mut state, node([1; 20], 2, 100));
    assert!(state.update_seen(&session_id(1), 500).is_ok());
    assert_eq!(state.get_by_session(&session_id(1)).unwrap().last_seen, 500);
    assert_eq!(state.get_by_session(&session_id(2)).unwrap().last_seen, 100);
    assert!(state.update_seen(&session_id(7), 500).is_err());
}

#[test]
fn expiry_sweep_drops_exactly_the_stale() {
    let mut state = NodesState::new();
    add(&mut state, node([0; 20], 1, 100));
    add(&mut state, node([1; 20], 2, 40));
    add(&mut state, node([2; 20], 3, 70));
    // ttl 50 at time 100: last_seen 40 is 60 seconds stale, out;
    // 70 is exactly 30 seconds stale, kept; 100 is fresh.
    state.check_timeouts(100, 50);
    assert!(state.get_by_session(&session_id(1)).is_some());
    assert!(state.get_by_session(&session_id(2)).is_none());
    assert!(state.get_by_session(&session_id(3)).is_some());
    // the removed session is gone from every index
    assert!(state.get_by_node_id(&node_id([1; 20])).is_none());
    assert!(state.get_by_slot(1).is_none());
}

#[test]
fn hamming_distance_basics() {
    let a = node_id([0; 20]);
    let mut one = [0u8; 20];
    one[19] = 1;
    let b = node_id(one);
    let mut ff = [0u8; 20];
    ff[19] = 0xff;
    let c = node_id(ff);
    assert_eq!(hamming_distance(&a, &a), 0);
    assert_eq!(hamming_distance(&b, &b), 0);
    assert_eq!(hamming_distance(&a, &b), 1);
    assert_eq!(hamming_distance(&b, &a), 1);
    assert_eq!(hamming_distance(&a, &c), 8);
    assert_eq!(hamming_distance(&c, &a), 8);
    assert_eq!(hamming_distance(&node_id([0xff; 20]), &a), 160);
}

#[test]
fn neighbourhood_orders_by_distance() {
    // three nodes: 0x00..00, 0x00..01, 0x00..ff
    let mut state = NodesState::new();
    let id0 = [0u8; 20];
    let mut id1 = [0u8; 20];
    id1[19] = 0x01;
    let mut id2 = [0u8; 20];
    id2[19] = 0xff;
    add(&mut state, node(id0, 1, 100));
    add(&mut state, node(id1, 2, 100));
    add(&mut state, node(id2, 3, 100));
    let hood = state.neighbours(&session_id(1), 2).unwrap();
    // distances from 0x00..00: 1 for ..01, 8 for ..ff — in that order
    assert_eq!(hood.len(), 2);
    assert_eq!(hood[0].info.node_id, node_id(id1));
    assert_eq!(hood[1].info.node_id, node_id(id2));
    // the caller itself is never in its own neighbourhood
    for ns in &hood {
        assert_ne!(ns.session, session_id(1));
    }
    // fewer live sessions than asked for: all others come back
    let hood = state.neighbours(&session_id(1), 10).unwrap();
    assert_eq!(hood.len(), 2);
    // one from the middle
    let hood = state.neighbours(&session_id(2), 1).unwrap();
    assert_eq!(hood.len(), 1);
    assert_eq!(hood[0].info.node_id, node_id(id0));
    // unknown callers are refused
    assert!(state.neighbours(&session_id(9), 2).is_err());
}
