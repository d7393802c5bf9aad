//! The authoritative server's decision logic: the reaction to each inbound
//! datagram, and the periodic tick that drains fresh inputs, steps the
//! simulation and emits the state-hash beacon.

use vstd::prelude::*;
use crate::body::{Body, Vec2};
use crate::codec::{
    decode_send, encode_recv, lemma_recv_round_trip, parse_recv, parse_send, recv_bytes,
    ParsedRecv,
};
use crate::fixed_scalar::FixedScalar;
use crate::hashing::spec_state_hash;
use crate::input_buffer::{insert_pos, Input};
use crate::messages::{AddBodyEvent, FrameIndex, IndexedState, Recv, Send};
use crate::simulation::spec_tick;
use crate::state::{spec_drain, State};

verus! {

/// What the message handler decides for one inbound datagram.
pub enum ServerReaction {
    /// The datagram did not decode; log and drop it.
    DecodeError,
    /// A ping: send these pong bytes to the originating peer only.
    ReplyPong(Vec<u8>),
    /// An input event: hand it to the tick driver, and echo the original
    /// datagram verbatim to every connected peer but the originator.
    Broadcast(IndexedState<AddBodyEvent>),
}

/// Decide the reaction to one inbound datagram.
pub fn handle_message(bytes: &Vec<u8>) -> (r: ServerReaction)
    ensures
        match parse_send(bytes@) {
            None => r is DecodeError,
            Some(m) => match m {
                Send::Ping(f) => r matches ServerReaction::ReplyPong(out) && out@ == recv_bytes(
                    Recv::Pong(f)) && parse_recv(out@) == Some(ParsedRecv::Pong(f)),
                Send::InputState(ie) => r matches ServerReaction::Broadcast(e) && e == ie,
            },
        },
{
    match decode_send(bytes) {
        None => ServerReaction::DecodeError,
        Some(m) => match m {
            Send::Ping(f) => {
                proof {
                    lemma_recv_round_trip(Recv::Pong(f));
                }
                ServerReaction::ReplyPong(encode_recv(&Recv::Pong(f)))
            },
            Send::InputState(ie) => ServerReaction::Broadcast(ie),
        },
    }
}

/// The buffer after pushing the first `j` fresh inputs, in arrival order.
pub open spec fn spec_push_all(q: Seq<Input>, inputs: Seq<Input>, j: int) -> Seq<Input>
    decreases j,
{
    if j <= 0 {
        q
    } else {
        let p = spec_push_all(q, inputs, j - 1);
        p.insert(insert_pos(p, inputs[j - 1].frame_index), inputs[j - 1])
    }
}

/// One authoritative tick: drain the fresh inputs into the buffer, step
/// one frame, and build the beacon carrying the new frame's checksum.
/// Returns the beacon bytes to broadcast and the count of stale inputs
/// that were discarded.
pub fn server_tick(state: &mut State, inputs: &Vec<Input>) -> (r: (Vec<u8>, usize))
    requires
        old(state).wf(),
        old(state).frame_index < FrameIndex::MAX,
        old(state).simulation.next_id as int + old(state).input_buffer.entries@.len()
            + inputs@.len() <= u64::MAX as int,
    ensures
        final(state).wf(),
        ({
            let q2 = spec_push_all(old(state).input_buffer.entries@, inputs@, inputs@.len()
                as int);
            let d = spec_drain(old(state).simulation.bodies@, old(state).simulation.next_id
                as int, q2, old(state).frame_index);
            final(state).simulation.bodies@ == spec_tick(d.0) && final(state).simulation.next_id
                as int == d.1 && final(state).input_buffer.entries@ == d.2 && final(
            state).frame_index == old(state).frame_index + 1 && r.1 as int == d.3 && r.0@
                == recv_bytes(Recv::StateHash(IndexedState {
                frame_index: (old(state).frame_index + 1) as FrameIndex,
                state: spec_state_hash(spec_tick(d.0), (old(state).frame_index + 1)
                    as FrameIndex),
            })) && parse_recv(r.0@) == Some(ParsedRecv::StateHash((old(state).frame_index + 1)
                as FrameIndex, spec_state_hash(spec_tick(d.0), (old(state).frame_index + 1)
                as FrameIndex)))
        }),
{
    let ghost q0 = state.input_buffer.entries@;
    let n = inputs.len();
    let mut i: usize = 0;
    while i < n
        invariant
            n == inputs@.len(),
            i <= n,
            state.input_buffer.wf(),
            state.input_buffer.entries@ == spec_push_all(q0, inputs@, i as int),
            state.input_buffer.entries@.len() == q0.len() + i as int,
            state.simulation == old(state).simulation,
            state.frame_index == old(state).frame_index,
            old(state).simulation.wf(),
            old(state).frame_index < FrameIndex::MAX,
            old(state).simulation.next_id as int + q0.len() + n <= u64::MAX as int,
        decreases n - i,
    {
        state.input_buffer.push(inputs[i]);
        i = i + 1;
    }
    let stale = state.step();
    let hash = state.hash();
    let frame = state.frame_index;
    proof {
        lemma_recv_round_trip(Recv::StateHash(IndexedState { frame_index: frame, state: hash }));
    }
    let beacon = encode_recv(&Recv::StateHash(IndexedState { frame_index: frame, state: hash }));
    (beacon, stale)
}

/// A body of the opening configuration: integer-valued position, velocity
/// and mass, acceleration zero.
pub open spec fn opening_body(id: u64, px: int, py: int, vx: int, vy: int, m: int) -> Body {
    Body {
        id,
        position: Vec2 {
            x: FixedScalar::spec_from_int(px),
            y: FixedScalar::spec_from_int(py),
        },
        velocity: Vec2 {
            x: FixedScalar::spec_from_int(vx),
            y: FixedScalar::spec_from_int(vy),
        },
        acceleration: Vec2 { x: FixedScalar { raw: 0 }, y: FixedScalar { raw: 0 } },
        mass: FixedScalar::spec_from_int(m),
    }
}

/// The opening configuration the server simulates, pinned body by body:
/// one heavy body at rest at the origin and two light ones passing it on
/// opposite sides in opposite directions.
pub fn initial_state() -> (r: State)
    ensures
        r.wf(),
        r.frame_index == 0,
        r.input_buffer.entries@ =~= Seq::<Input>::empty(),
        r.simulation.next_id == 3,
        r.simulation.bodies@ =~= seq![
            opening_body(0, 0, 0, 0, 0, 10000),
            opening_body(1, 0, -100, 3, 0, 10),
            opening_body(2, 0, 100, -3, 0, 10),
        ],
{
    let mut st = State::new();
    let zero = FixedScalar::from_int(0);
    let b0 = Body::new(0, zero, zero, FixedScalar::from_int(10000));
    st.simulation.add_body(b0);
    let mut b1 = Body::new(1, zero, FixedScalar::from_int(-100), FixedScalar::from_int(10));
    b1.velocity.x = FixedScalar::from_int(3);
    st.simulation.add_body(b1);
    let mut b2 = Body::new(2, zero, FixedScalar::from_int(100), FixedScalar::from_int(10));
    b2.velocity.x = FixedScalar::from_int(-3);
    st.simulation.add_body(b2);
    proof {
        assert(st.simulation.bodies@[0] == opening_body(0, 0, 0, 0, 0, 10000));
        assert(st.simulation.bodies@[1] == opening_body(1, 0, -100, 3, 0, 10));
        assert(st.simulation.bodies@[2] == opening_body(2, 0, 100, -3, 0, 10));
    }
    st
}

} // verus!
