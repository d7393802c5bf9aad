use nbody_lockstep::client::{ClientState, DatagramOutcome};
use nbody_lockstep::codec::{
    decode_recv, decode_send, encode_recv, encode_send, encode_snapshot,
};
use nbody_lockstep::fixed_scalar::FixedScalar;
use nbody_lockstep::hashing::scalar_stable_hash;
use nbody_lockstep::messages::{AddBodyEvent, IndexedState, Recv, Send};
use nbody_lockstep::server::{handle_message, initial_state, server_tick, ServerReaction};
use nbody_lockstep::state::State;

fn fs_f32(x: f32) -> FixedScalar {
    FixedScalar::from_raw(fixed::types::I32F32::from_num(x).to_bits())
}

fn fs_int(i: i32) -> FixedScalar {
    FixedScalar::from_int(i)
}

fn event(x: i32, y: i32, mass: i32) -> AddBodyEvent {
    AddBodyEvent::new(fs_int(x), fs_int(y), fs_int(mass))
}

#[test]
fn state_stepping() {
    let mut state = State::new();

    for _ in 0..100 {
        state.step();
    }
    assert_eq!(state.frame_index, 100);
}

#[test]
fn serde_sanity() {
    let send_control = vec![
        Send::Ping(6),
        Send::InputState(IndexedState {
            frame_index: 541093,
            state: AddBodyEvent::new(fs_f32(272.), fs_f32(335.), fs_f32(802.6582641602)),
        }),
    ];
    for msg in send_control {
        let bin = encode_send(&msg);
        let back = decode_send(&bin);
        assert_eq!(back, Some(msg));
    }
}

#[test]
fn recv_round_trips() {
    let pong = encode_recv(&Recv::Pong(17));
    assert!(matches!(decode_recv(&pong), Some(Recv::Pong(17))));

    let beacon = encode_recv(&Recv::StateHash(IndexedState { frame_index: 9, state: 0xdead }));
    match decode_recv(&beacon) {
        Some(Recv::StateHash(ih)) => {
            assert_eq!(ih.frame_index, 9);
            assert_eq!(ih.state, 0xdead);
        }
        other => panic!("unexpected decode: {:?}", other),
    }

    let ie = IndexedState { frame_index: 3, state: event(1, 2, 5) };
    let echo = encode_recv(&Recv::InputState(ie));
    match decode_recv(&echo) {
        Some(Recv::InputState(got)) => assert_eq!(got, ie),
        other => panic!("unexpected decode: {:?}", other),
    }

    let st = initial_state();
    let full = encode_recv(&Recv::FullState(st));
    match decode_recv(&full) {
        Some(Recv::FullState(got)) => {
            assert_eq!(got.frame_index, 0);
            assert_eq!(got.simulation.bodies.len(), 3);
            assert_eq!(got.simulation.next_id, 3);
        }
        other => panic!("unexpected decode: {:?}", other),
    }
}

#[test]
fn decode_rejects_malformed() {
    assert!(decode_send(&Vec::new()).is_none());
    assert!(decode_send(&vec![9u8, 0, 0, 0, 0]).is_none());
    assert!(decode_send(&vec![0u8, 1, 2]).is_none());
    let mut ping = encode_send(&Send::Ping(4));
    ping.push(0);
    assert!(decode_send(&ping).is_none());

    assert!(decode_recv(&Vec::new()).is_none());
    assert!(decode_recv(&vec![7u8]).is_none());
    assert!(decode_recv(&vec![3u8, 1, 2, 3]).is_none());
}

#[test]
fn stale_input_dropped() {
    let mut state = State::new();
    for _ in 0..10 {
        state.step();
    }
    assert_eq!(state.frame_index, 10);
    state.input_buffer.push(IndexedState { frame_index: 5, state: event(0, 0, 1) });
    let before = state.simulation.bodies.len();
    let stale = state.step();
    assert_eq!(stale, 1);
    assert_eq!(state.simulation.bodies.len(), before);
}

#[test]
fn future_input_deferred() {
    let mut state = State::new();
    for _ in 0..10 {
        state.step();
    }
    state.input_buffer.push(IndexedState { frame_index: 15, state: event(0, 0, 1) });
    for expected_frame in 10..15 {
        assert_eq!(state.frame_index, expected_frame);
        let stale = state.step();
        assert_eq!(stale, 0);
        assert_eq!(state.simulation.bodies.len(), 0);
    }
    // the step that ran frame 15 applied the event
    assert_eq!(state.frame_index, 15);
    state.step();
    assert_eq!(state.simulation.bodies.len(), 1);
}

#[test]
fn snapshot_hash_round_trip() {
    let mut st = initial_state();
    for _ in 0..3 {
        st.step();
    }
    let hash = st.hash();
    let bytes = encode_snapshot(hash, &st);
    let client = ClientState::from_raw(&bytes).expect("snapshot should be adopted");
    assert_eq!(client.inner.hash(), hash);
    assert_eq!(client.inner.frame_index, st.frame_index);
    assert_eq!(client.server_frame, st.frame_index);

    // a corrupted checksum is refused
    let bad = encode_snapshot(hash ^ 1, &st);
    assert!(ClientState::from_raw(&bad).is_none());
}

#[test]
fn cross_peer_hash_agreement() {
    let events = [
        IndexedState { frame_index: 7, state: event(1, 2, 3) },
        IndexedState { frame_index: 13, state: event(-4, 5, 6) },
    ];
    let mut a = State::new();
    let mut b = State::new();
    for e in events {
        a.input_buffer.push(e);
        b.input_buffer.push(e);
    }
    for _ in 0..20 {
        assert_eq!(a.hash(), b.hash());
        a.step();
        b.step();
    }
    assert_eq!(a.hash(), b.hash());
}

#[test]
fn scalar_hash_stability() {
    for k in [0i64, 1, -1, i64::MAX, i64::MIN, 0x1234_5678_9abc_def0] {
        let h1 = scalar_stable_hash(FixedScalar::from_raw(k));
        let h2 = scalar_stable_hash(FixedScalar::from_raw(k));
        assert_eq!(h1, h2);

        // against the hashing crate directly, over the same byte stream
        let mut hasher = twox_hash::XxHash64::with_seed(0);
        std::hash::Hasher::write(&mut hasher, &k.to_le_bytes());
        assert_eq!(h1, std::hash::Hasher::finish(&hasher));
    }
}

#[test]
fn server_reactions() {
    let ping = encode_send(&Send::Ping(42));
    match handle_message(&ping) {
        ServerReaction::ReplyPong(bytes) => {
            assert!(matches!(decode_recv(&bytes), Some(Recv::Pong(42))));
        }
        other => panic!("unexpected reaction: {:?}", reaction_name(&other)),
    }

    let ie = IndexedState { frame_index: 50, state: event(2, 2, 2) };
    let input = encode_send(&Send::InputState(ie));
    match handle_message(&input) {
        ServerReaction::Broadcast(got) => assert_eq!(got, ie),
        other => panic!("unexpected reaction: {:?}", reaction_name(&other)),
    }

    assert!(matches!(handle_message(&vec![200u8, 1]), ServerReaction::DecodeError));
}

fn reaction_name(r: &ServerReaction) -> &'static str {
    match r {
        ServerReaction::DecodeError => "DecodeError",
        ServerReaction::ReplyPong(_) => "ReplyPong",
        ServerReaction::Broadcast(_) => "Broadcast",
    }
}

#[test]
fn server_tick_emits_beacon() {
    let mut st = State::new();
    let inputs = vec![IndexedState { frame_index: 0, state: event(3, 4, 5) }];
    let (beacon, stale) = server_tick(&mut st, &inputs);
    assert_eq!(stale, 0);
    assert_eq!(st.frame_index, 1);
    assert_eq!(st.simulation.bodies.len(), 1);
    match decode_recv(&beacon) {
        Some(Recv::StateHash(ih)) => {
            assert_eq!(ih.frame_index, 1);
            assert_eq!(ih.state, st.hash());
        }
        other => panic!("unexpected beacon: {:?}", other),
    }
}

#[test]
fn client_handles_beacons() {
    let mut client = ClientState::new();
    // step once so the ring records frame 0
    let outcome = client.step_frame();
    assert!(matches!(outcome, nbody_lockstep::client::StepOutcome::Stepped(0)));
    let local = client
        .hash_ring
        .lookup_frame(0)
        .expect("ring should hold frame 0");

    let matched = encode_recv(&Recv::StateHash(IndexedState { frame_index: 0, state: local }));
    match client.handle_datagram(&matched, 0) {
        DatagramOutcome::HashMatched(0) => {}
        _ => panic!("beacon with the local hash should match"),
    }

    let missing = encode_recv(&Recv::StateHash(IndexedState { frame_index: 0, state: local }));
    match client.handle_datagram(&missing, 0) {
        DatagramOutcome::HashMissing(0) => {}
        _ => panic!("retired frame should be missing"),
    }

    let garbled = vec![255u8; 3];
    assert!(matches!(client.handle_datagram(&garbled, 0), DatagramOutcome::BadDecode));
}

#[test]
fn client_payloads_decode() {
    let mut client = ClientState::new();
    let ping = client.send_ping(0);
    assert_eq!(decode_send(&ping), Some(Send::Ping(0)));

    let ev = event(7, 8, 9);
    let bytes = client.local_input(ev);
    match decode_send(&bytes) {
        Some(Send::InputState(ie)) => {
            assert_eq!(ie.frame_index, 7);  // current frame 0 plus the input horizon
            assert_eq!(ie.state, ev);
        }
        other => panic!("unexpected decode: {:?}", other),
    }
}
