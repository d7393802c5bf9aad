//! The length-prefixed, little-endian binary codec for the wire message
//! taxonomy, and the byte-level primitives it is built from. Encoding and
//! decoding are exact inverses, proved in `lemma_send_round_trip` and
//! `lemma_recv_round_trip`.

use vstd::prelude::*;
use crate::fixed_scalar::FixedScalar;
use crate::wire::{
    u32_le_bytes, u64_le_bytes, i64_le_bytes, u64_of_i64, i64_of_u64, u32_from_le, u64_from_le,
    lemma_u32_le_len, lemma_u64_le_len, lemma_u32_le_round_trip, lemma_u64_le_round_trip,
    lemma_i64_round_trip, push_u32_le, push_u64_le, push_i64_le, read_u32_le, read_u64_le,
    u64_to_i64,
};
use crate::body::{Body, Vec2};
use crate::input_buffer::{Input, InputBuffer};
use crate::messages::{AddBodyEvent, IndexedState, Recv, Send};
use crate::simulation::Simulation;
use crate::state::State;

verus! {

broadcast use lemma_u32_le_len, lemma_u64_le_len;

/// Wire bytes of an input-event payload: five raw scalars, 40 bytes.
pub open spec fn event_bytes(e: AddBodyEvent) -> Seq<u8> {
    i64_le_bytes(e.position_x.raw) + i64_le_bytes(e.position_y.raw) + i64_le_bytes(
        e.velocity_x.raw) + i64_le_bytes(e.velocity_y.raw) + i64_le_bytes(e.mass.raw)
}

/// Wire bytes of a frame-stamped input event: 44 bytes.
pub open spec fn indexed_event_bytes(ie: Input) -> Seq<u8> {
    u32_le_bytes(ie.frame_index) + event_bytes(ie.state)
}

/// Wire bytes of one body: id then seven raw scalars, 64 bytes.
pub open spec fn body_wire_bytes(b: Body) -> Seq<u8> {
    u64_le_bytes(b.id) + i64_le_bytes(b.position.x.raw) + i64_le_bytes(b.position.y.raw)
        + i64_le_bytes(b.velocity.x.raw) + i64_le_bytes(b.velocity.y.raw) + i64_le_bytes(
        b.acceleration.x.raw) + i64_le_bytes(b.acceleration.y.raw) + i64_le_bytes(b.mass.raw)
}

/// Wire bytes of the first `j` bodies, concatenated.
pub open spec fn bodies_wire_bytes(s: Seq<Body>, j: int) -> Seq<u8>
    decreases j,
{
    if j <= 0 {
        Seq::empty()
    } else {
        bodies_wire_bytes(s, j - 1) + body_wire_bytes(s[j - 1])
    }
}

/// Wire bytes of the first `j` buffered inputs, concatenated.
pub open spec fn inputs_wire_bytes(q: Seq<Input>, j: int) -> Seq<u8>
    decreases j,
{
    if j <= 0 {
        Seq::empty()
    } else {
        inputs_wire_bytes(q, j - 1) + indexed_event_bytes(q[j - 1])
    }
}

/// Wire bytes of a whole state: id counter, body count, bodies, frame
/// index, input count, inputs — all length-prefixed and little-endian.
pub open spec fn state_wire_bytes(bodies: Seq<Body>, nid: u64, frame: u32, q: Seq<Input>) -> Seq<
    u8> {
    u64_le_bytes(nid) + u64_le_bytes(bodies.len() as u64) + bodies_wire_bytes(bodies,
        bodies.len() as int) + u32_le_bytes(frame) + u64_le_bytes(q.len() as u64)
        + inputs_wire_bytes(q, q.len() as int)
}

/// Wire bytes of a client-to-server message: a one-byte tag, then the
/// payload.
pub open spec fn send_bytes(m: Send) -> Seq<u8> {
    match m {
        Send::Ping(f) => seq![0u8] + u32_le_bytes(f),
        Send::InputState(ie) => seq![1u8] + indexed_event_bytes(ie),
    }
}

/// Wire bytes of a server-to-client message.
pub open spec fn recv_bytes(m: Recv) -> Seq<u8> {
    match m {
        Recv::Pong(f) => seq![0u8] + u32_le_bytes(f),
        Recv::StateHash(ih) => seq![1u8] + u32_le_bytes(ih.frame_index) + u64_le_bytes(ih.state),
        Recv::InputState(ie) => seq![2u8] + indexed_event_bytes(ie),
        Recv::FullState(st) => seq![3u8] + state_wire_bytes(st.simulation.bodies@,
            st.simulation.next_id, st.frame_index, st.input_buffer.entries@),
    }
}

/// Bytes served on a state snapshot: the checksum, then the state.
pub open spec fn snapshot_bytes(hash: u64, st: State) -> Seq<u8> {
    u64_le_bytes(hash) + state_wire_bytes(st.simulation.bodies@, st.simulation.next_id,
        st.frame_index, st.input_buffer.entries@)
}

fn push_event(buf: &mut Vec<u8>, e: &AddBodyEvent)
    ensures
        final(buf)@ == old(buf)@ + event_bytes(*e),
{
    push_i64_le(buf, e.position_x.raw);
    push_i64_le(buf, e.position_y.raw);
    push_i64_le(buf, e.velocity_x.raw);
    push_i64_le(buf, e.velocity_y.raw);
    push_i64_le(buf, e.mass.raw);
    proof {
        assert(buf@ =~= old(buf)@ + event_bytes(*e));
    }
}

fn push_indexed_event(buf: &mut Vec<u8>, ie: &Input)
    ensures
        final(buf)@ == old(buf)@ + indexed_event_bytes(*ie),
{
    push_u32_le(buf, ie.frame_index);
    push_event(buf, &ie.state);
    proof {
        assert(buf@ =~= old(buf)@ + indexed_event_bytes(*ie));
    }
}

#[verifier::rlimit(60)]
fn push_body(buf: &mut Vec<u8>, b: &Body)
    ensures
        final(buf)@ == old(buf)@ + body_wire_bytes(*b),
{
    push_u64_le(buf, b.id);
    push_i64_le(buf, b.position.x.raw);
    push_i64_le(buf, b.position.y.raw);
    push_i64_le(buf, b.velocity.x.raw);
    push_i64_le(buf, b.velocity.y.raw);
    push_i64_le(buf, b.acceleration.x.raw);
    push_i64_le(buf, b.acceleration.y.raw);
    push_i64_le(buf, b.mass.raw);
    proof {
        assert(buf@ =~= old(buf)@ + body_wire_bytes(*b));
    }
}

#[verifier::rlimit(100)]
fn push_state(buf: &mut Vec<u8>, st: &State)
    ensures
        final(buf)@ == old(buf)@ + state_wire_bytes(st.simulation.bodies@, st.simulation.next_id,
            st.frame_index, st.input_buffer.entries@),
{
    let ghost s = st.simulation.bodies@;
    let ghost q = st.input_buffer.entries@;
    let ghost pre = buf@;
    push_u64_le(buf, st.simulation.next_id);
    let n = st.simulation.bodies.len();
    push_u64_le(buf, n as u64);
    let ghost head = pre + u64_le_bytes(st.simulation.next_id) + u64_le_bytes(s.len() as u64);
    proof {
        assert(buf@ =~= head + bodies_wire_bytes(s, 0));
    }
    let mut i: usize = 0;
    while i < n
        invariant
            st.simulation.bodies@ == s,
            st.input_buffer.entries@ == q,
            n == s.len(),
            i <= n,
            buf@ == head + bodies_wire_bytes(s, i as int),
        decreases n - i,
    {
        let ghost b0 = buf@;
        push_body(buf, &st.simulation.bodies[i]);
        proof {
            assert(buf@ =~= head + bodies_wire_bytes(s, i as int + 1));
        }
        i = i + 1;
    }
    push_u32_le(buf, st.frame_index);
    let nq = st.input_buffer.entries.len();
    push_u64_le(buf, nq as u64);
    let ghost head2 = head + bodies_wire_bytes(s, s.len() as int) + u32_le_bytes(st.frame_index)
        + u64_le_bytes(q.len() as u64);
    proof {
        assert(buf@ =~= head2 + inputs_wire_bytes(q, 0));
    }
    let mut k: usize = 0;
    while k < nq
        invariant
            st.simulation.bodies@ == s,
            st.input_buffer.entries@ == q,
            nq == q.len(),
            k <= nq,
            buf@ == head2 + inputs_wire_bytes(q, k as int),
        decreases nq - k,
    {
        push_indexed_event(buf, &st.input_buffer.entries[k]);
        proof {
            assert(buf@ =~= head2 + inputs_wire_bytes(q, k as int + 1));
        }
        k = k + 1;
    }
    proof {
        assert(buf@ =~= pre + state_wire_bytes(s, st.simulation.next_id, st.frame_index, q));
    }
}

/// Encode a client-to-server message; one datagram per message.
pub fn encode_send(m: &Send) -> (r: Vec<u8>)
    ensures
        r@ == send_bytes(*m),
{
    let mut buf: Vec<u8> = Vec::new();
    match m {
        Send::Ping(f) => {
            buf.push(0u8);
            push_u32_le(&mut buf, *f);
        },
        Send::InputState(ie) => {
            buf.push(1u8);
            push_indexed_event(&mut buf, ie);
        },
    }
    proof {
        assert(buf@ =~= send_bytes(*m));
    }
    buf
}

/// Encode a server-to-client message; one datagram per message.
pub fn encode_recv(m: &Recv) -> (r: Vec<u8>)
    ensures
        r@ == recv_bytes(*m),
{
    let mut buf: Vec<u8> = Vec::new();
    match m {
        Recv::Pong(f) => {
            buf.push(0u8);
            push_u32_le(&mut buf, *f);
        },
        Recv::StateHash(ih) => {
            buf.push(1u8);
            push_u32_le(&mut buf, ih.frame_index);
            push_u64_le(&mut buf, ih.state);
        },
        Recv::InputState(ie) => {
            buf.push(2u8);
            push_indexed_event(&mut buf, ie);
        },
        Recv::FullState(st) => {
            buf.push(3u8);
            push_state(&mut buf, st);
        },
    }
    proof {
        assert(buf@ =~= recv_bytes(*m));
    }
    buf
}

/// Encode the `(hash, state)` snapshot the server serves over HTTP.
pub fn encode_snapshot(hash: u64, st: &State) -> (r: Vec<u8>)
    ensures
        r@ == snapshot_bytes(hash, *st),
{
    let mut buf: Vec<u8> = Vec::new();
    push_u64_le(&mut buf, hash);
    push_state(&mut buf, st);
    proof {
        assert(buf@ =~= snapshot_bytes(hash, *st));
    }
    buf
}

pub open spec fn parse_u32_at(b: Seq<u8>, off: int) -> u32 {
    u32_from_le(b[off], b[off + 1], b[off + 2], b[off + 3])
}

pub open spec fn parse_u64_at(b: Seq<u8>, off: int) -> u64 {
    u64_from_le(b.subrange(off, off + 8))
}

pub open spec fn parse_i64_at(b: Seq<u8>, off: int) -> i64 {
    i64_of_u64(parse_u64_at(b, off))
}

pub open spec fn parse_scalar_at(b: Seq<u8>, off: int) -> FixedScalar {
    FixedScalar { raw: parse_i64_at(b, off) }
}

pub open spec fn parse_event_at(b: Seq<u8>, off: int) -> AddBodyEvent {
    AddBodyEvent {
        position_x: parse_scalar_at(b, off),
        position_y: parse_scalar_at(b, off + 8),
        velocity_x: parse_scalar_at(b, off + 16),
        velocity_y: parse_scalar_at(b, off + 24),
        mass: parse_scalar_at(b, off + 32),
    }
}

pub open spec fn parse_indexed_event_at(b: Seq<u8>, off: int) -> Input {
    IndexedState { frame_index: parse_u32_at(b, off), state: parse_event_at(b, off + 4) }
}

pub open spec fn parse_body_at(b: Seq<u8>, off: int) -> Body {
    Body {
        id: parse_u64_at(b, off),
        position: Vec2 { x: parse_scalar_at(b, off + 8), y: parse_scalar_at(b, off + 16) },
        velocity: Vec2 { x: parse_scalar_at(b, off + 24), y: parse_scalar_at(b, off + 32) },
        acceleration: Vec2 { x: parse_scalar_at(b, off + 40), y: parse_scalar_at(b, off + 48) },
        mass: parse_scalar_at(b, off + 56),
    }
}

pub open spec fn parse_bodies_at(b: Seq<u8>, off: int, count: int) -> Seq<Body>
    decreases count,
{
    if count <= 0 {
        Seq::empty()
    } else {
        parse_bodies_at(b, off, count - 1).push(parse_body_at(b, off + (count - 1) * 64))
    }
}

pub open spec fn parse_inputs_at(b: Seq<u8>, off: int, count: int) -> Seq<Input>
    decreases count,
{
    if count <= 0 {
        Seq::empty()
    } else {
        parse_inputs_at(b, off, count - 1).push(parse_indexed_event_at(b, off + (count - 1) * 44))
    }
}

/// What a well-formed message decodes to.
pub open spec fn parse_send(b: Seq<u8>) -> Option<Send> {
    if b.len() < 1 {
        None
    } else if b[0] == 0 {
        if b.len() == 5 {
            Some(Send::Ping(parse_u32_at(b, 1)))
        } else {
            None
        }
    } else if b[0] == 1 {
        if b.len() == 45 {
            Some(Send::InputState(parse_indexed_event_at(b, 1)))
        } else {
            None
        }
    } else {
        None
    }
}

proof fn lemma_parse_u32_in(b: Seq<u8>, off: int, v: u32)
    requires
        0 <= off,
        off + 4 <= b.len(),
        forall|j: int| 0 <= j < 4 ==> b[off + j] == #[trigger] u32_le_bytes(v)[j],
    ensures
        parse_u32_at(b, off) == v,
{
    assert(b[off + 0] == u32_le_bytes(v)[0]);
    assert(b[off + 1] == u32_le_bytes(v)[1]);
    assert(b[off + 2] == u32_le_bytes(v)[2]);
    assert(b[off + 3] == u32_le_bytes(v)[3]);
    lemma_u32_le_round_trip(v);
}

proof fn lemma_parse_u64_in(b: Seq<u8>, off: int, v: u64)
    requires
        0 <= off,
        off + 8 <= b.len(),
        forall|j: int| 0 <= j < 8 ==> b[off + j] == #[trigger] u64_le_bytes(v)[j],
    ensures
        parse_u64_at(b, off) == v,
{
    assert(b.subrange(off, off + 8) =~= u64_le_bytes(v));
    lemma_u64_le_round_trip(v);
}

proof fn lemma_parse_i64_in(b: Seq<u8>, off: int, v: i64)
    requires
        0 <= off,
        off + 8 <= b.len(),
        forall|j: int| 0 <= j < 8 ==> b[off + j] == #[trigger] i64_le_bytes(v)[j],
    ensures
        parse_i64_at(b, off) == v,
        parse_scalar_at(b, off) == (FixedScalar { raw: v }),
{
    assert forall|j: int| 0 <= j < 8 implies b[off + j] == #[trigger] u64_le_bytes(u64_of_i64(
        v))[j] by {
        assert(b[off + j] == i64_le_bytes(v)[j]);
    }
    lemma_parse_u64_in(b, off, u64_of_i64(v));
    lemma_i64_round_trip(v);
}

proof fn lemma_parse_event_in(b: Seq<u8>, off: int, e: AddBodyEvent)
    requires
        0 <= off,
        off + 40 <= b.len(),
        forall|j: int| 0 <= j < 40 ==> b[off + j] == #[trigger] event_bytes(e)[j],
    ensures
        parse_event_at(b, off) == e,
{
    assert forall|j: int| 0 <= j < 8 implies b[(off + 0) + j] == #[trigger] i64_le_bytes(
        e.position_x.raw)[j] by {
        assert(b[off + (0 + j)] == event_bytes(e)[0 + j]);
    }
    assert forall|j: int| 0 <= j < 8 implies b[(off + 8) + j] == #[trigger] i64_le_bytes(
        e.position_y.raw)[j] by {
        assert(b[off + (8 + j)] == event_bytes(e)[8 + j]);
    }
    assert forall|j: int| 0 <= j < 8 implies b[(off + 16) + j] == #[trigger] i64_le_bytes(
        e.velocity_x.raw)[j] by {
        assert(b[off + (16 + j)] == event_bytes(e)[16 + j]);
    }
    assert forall|j: int| 0 <= j < 8 implies b[(off + 24) + j] == #[trigger] i64_le_bytes(
        e.velocity_y.raw)[j] by {
        assert(b[off + (24 + j)] == event_bytes(e)[24 + j]);
    }
    assert forall|j: int| 0 <= j < 8 implies b[(off + 32) + j] == #[trigger] i64_le_bytes(
        e.mass.raw)[j] by {
        assert(b[off + (32 + j)] == event_bytes(e)[32 + j]);
    }
    lemma_parse_i64_in(b, off + 0, e.position_x.raw);
    lemma_parse_i64_in(b, off + 8, e.position_y.raw);
    lemma_parse_i64_in(b, off + 16, e.velocity_x.raw);
    lemma_parse_i64_in(b, off + 24, e.velocity_y.raw);
    lemma_parse_i64_in(b, off + 32, e.mass.raw);
    assert(parse_scalar_at(b, off) == e.position_x);
}

proof fn lemma_parse_indexed_event_in(b: Seq<u8>, off: int, ie: Input)
    requires
        0 <= off,
        off + 44 <= b.len(),
        forall|j: int| 0 <= j < 44 ==> b[off + j] == #[trigger] indexed_event_bytes(ie)[j],
    ensures
        parse_indexed_event_at(b, off) == ie,
{
    assert forall|j: int| 0 <= j < 4 implies b[off + j] == #[trigger] u32_le_bytes(
        ie.frame_index)[j] by {
        assert(b[off + j] == indexed_event_bytes(ie)[j]);
    }
    assert forall|j: int| 0 <= j < 40 implies b[(off + 4) + j] == #[trigger] event_bytes(
        ie.state)[j] by {
        assert(b[off + (4 + j)] == indexed_event_bytes(ie)[4 + j]);
    }
    lemma_parse_u32_in(b, off, ie.frame_index);
    lemma_parse_event_in(b, off + 4, ie.state);
}

proof fn lemma_parse_body_in(b: Seq<u8>, off: int, x: Body)
    requires
        0 <= off,
        off + 64 <= b.len(),
        forall|j: int| 0 <= j < 64 ==> b[off + j] == #[trigger] body_wire_bytes(x)[j],
    ensures
        parse_body_at(b, off) == x,
{
    assert forall|j: int| 0 <= j < 8 implies b[off + j] == #[trigger] u64_le_bytes(x.id)[j] by {
        assert(b[off + j] == body_wire_bytes(x)[j]);
    }
    assert forall|j: int| 0 <= j < 8 implies b[(off + 8) + j] == #[trigger] i64_le_bytes(
        x.position.x.raw)[j] by {
        assert(b[off + (8 + j)] == body_wire_bytes(x)[8 + j]);
    }
    assert forall|j: int| 0 <= j < 8 implies b[(off + 16) + j] == #[trigger] i64_le_bytes(
        x.position.y.raw)[j] by {
        assert(b[off + (16 + j)] == body_wire_bytes(x)[16 + j]);
    }
    assert forall|j: int| 0 <= j < 8 implies b[(off + 24) + j] == #[trigger] i64_le_bytes(
        x.velocity.x.raw)[j] by {
        assert(b[off + (24 + j)] == body_wire_bytes(x)[24 + j]);
    }
    assert forall|j: int| 0 <= j < 8 implies b[(off + 32) + j] == #[trigger] i64_le_bytes(
        x.velocity.y.raw)[j] by {
        assert(b[off + (32 + j)] == body_wire_bytes(x)[32 + j]);
    }
    assert forall|j: int| 0 <= j < 8 implies b[(off + 40) + j] == #[trigger] i64_le_bytes(
        x.acceleration.x.raw)[j] by {
        assert(b[off + (40 + j)] == body_wire_bytes(x)[40 + j]);
    }
    assert forall|j: int| 0 <= j < 8 implies b[(off + 48) + j] == #[trigger] i64_le_bytes(
        x.acceleration.y.raw)[j] by {
        assert(b[off + (48 + j)] == body_wire_bytes(x)[48 + j]);
    }
    assert forall|j: int| 0 <= j < 8 implies b[(off + 56) + j] == #[trigger] i64_le_bytes(
        x.mass.raw)[j] by {
        assert(b[off + (56 + j)] == body_wire_bytes(x)[56 + j]);
    }
    lemma_parse_u64_in(b, off, x.id);
    lemma_parse_i64_in(b, off + 8, x.position.x.raw);
    lemma_parse_i64_in(b, off + 16, x.position.y.raw);
    lemma_parse_i64_in(b, off + 24, x.velocity.x.raw);
    lemma_parse_i64_in(b, off + 32, x.velocity.y.raw);
    lemma_parse_i64_in(b, off + 40, x.acceleration.x.raw);
    lemma_parse_i64_in(b, off + 48, x.acceleration.y.raw);
    lemma_parse_i64_in(b, off + 56, x.mass.raw);
}

/// Idempotent codec, client-to-server direction: decoding an encoding gives
/// back the message.
pub proof fn lemma_send_round_trip(m: Send)
    ensures
        parse_send(send_bytes(m)) == Some(m),
{
    let b = send_bytes(m);
    match m {
        Send::Ping(f) => {
            assert(b[0] == 0);
            assert(b.len() == 5);
            assert forall|j: int| 0 <= j < 4 implies b[1 + j] == #[trigger] u32_le_bytes(f)[j]
                by {
                assert(b[1 + j] == (seq![0u8] + u32_le_bytes(f))[1 + j]);
            }
            lemma_parse_u32_in(b, 1, f);
        },
        Send::InputState(ie) => {
            assert(b[0] == 1);
            assert(b.len() == 45);
            assert forall|j: int| 0 <= j < 44 implies b[1 + j] == #[trigger] indexed_event_bytes(
                ie)[j] by {
                assert(b[1 + j] == (seq![1u8] + indexed_event_bytes(ie))[1 + j]);
            }
            lemma_parse_indexed_event_in(b, 1, ie);
        },
    }
}

fn read_i64_le(bytes: &Vec<u8>, off: usize) -> (r: i64)
    requires
        off + 8 <= bytes.len(),
    ensures
        r == parse_i64_at(bytes@, off as int),
{
    u64_to_i64(read_u64_le(bytes, off))
}

fn read_scalar(bytes: &Vec<u8>, off: usize) -> (r: FixedScalar)
    requires
        off + 8 <= bytes.len(),
    ensures
        r == parse_scalar_at(bytes@, off as int),
{
    FixedScalar { raw: read_i64_le(bytes, off) }
}

fn read_event_at(bytes: &Vec<u8>, off: usize) -> (r: AddBodyEvent)
    requires
        off + 40 <= bytes.len(),
    ensures
        r == parse_event_at(bytes@, off as int),
{
    AddBodyEvent {
        position_x: read_scalar(bytes, off),
        position_y: read_scalar(bytes, off + 8),
        velocity_x: read_scalar(bytes, off + 16),
        velocity_y: read_scalar(bytes, off + 24),
        mass: read_scalar(bytes, off + 32),
    }
}

fn read_indexed_event_at(bytes: &Vec<u8>, off: usize) -> (r: Input)
    requires
        off + 44 <= bytes.len(),
    ensures
        r == parse_indexed_event_at(bytes@, off as int),
{
    IndexedState { frame_index: read_u32_le(bytes, off), state: read_event_at(bytes, off + 4) }
}

fn read_body_at(bytes: &Vec<u8>, off: usize) -> (r: Body)
    requires
        off + 64 <= bytes.len(),
    ensures
        r == parse_body_at(bytes@, off as int),
{
    Body {
        id: read_u64_le(bytes, off),
        position: Vec2 { x: read_scalar(bytes, off + 8), y: read_scalar(bytes, off + 16) },
        velocity: Vec2 { x: read_scalar(bytes, off + 24), y: read_scalar(bytes, off + 32) },
        acceleration: Vec2 { x: read_scalar(bytes, off + 40), y: read_scalar(bytes, off + 48) },
        mass: read_scalar(bytes, off + 56),
    }
}

/// The parsed contents of a state region running from `off` to the end of
/// `b`: `(bodies, id counter, frame index, buffered inputs)`. The region
/// must account for every remaining byte.
pub open spec fn parse_state_at(b: Seq<u8>, off: int) -> Option<(Seq<Body>, u64, u32, Seq<Input>)> {
    if b.len() < off + 16 {
        None
    } else {
        let nid = parse_u64_at(b, off);
        let n = parse_u64_at(b, off + 8) as int;
        if b.len() < off + 16 + 64 * n + 12 {
            None
        } else {
            let bodies = parse_bodies_at(b, off + 16, n);
            let frame = parse_u32_at(b, off + 16 + 64 * n);
            let nq = parse_u64_at(b, off + 16 + 64 * n + 4) as int;
            if b.len() != off + 16 + 64 * n + 12 + 44 * nq {
                None
            } else {
                Some((bodies, nid, frame, parse_inputs_at(b, off + 16 + 64 * n + 12, nq)))
            }
        }
    }
}

/// The abstract contents of a server-to-client message, as parsing sees
/// them: a full state is its field views.
pub enum ParsedRecv {
    Pong(u32),
    StateHash(u32, u64),
    InputState(Input),
    FullState(Seq<Body>, u64, u32, Seq<Input>),
}

pub open spec fn parse_recv(b: Seq<u8>) -> Option<ParsedRecv> {
    if b.len() < 1 {
        None
    } else if b[0] == 0 {
        if b.len() == 5 {
            Some(ParsedRecv::Pong(parse_u32_at(b, 1)))
        } else {
            None
        }
    } else if b[0] == 1 {
        if b.len() == 13 {
            Some(ParsedRecv::StateHash(parse_u32_at(b, 1), parse_u64_at(b, 5)))
        } else {
            None
        }
    } else if b[0] == 2 {
        if b.len() == 45 {
            Some(ParsedRecv::InputState(parse_indexed_event_at(b, 1)))
        } else {
            None
        }
    } else if b[0] == 3 {
        match parse_state_at(b, 1) {
            Some(t) => Some(ParsedRecv::FullState(t.0, t.1, t.2, t.3)),
            None => None,
        }
    } else {
        None
    }
}

/// The abstract contents of a concrete message.
pub open spec fn recv_to_parsed(m: Recv) -> ParsedRecv {
    match m {
        Recv::Pong(f) => ParsedRecv::Pong(f),
        Recv::StateHash(ih) => ParsedRecv::StateHash(ih.frame_index, ih.state),
        Recv::InputState(ie) => ParsedRecv::InputState(ie),
        Recv::FullState(st) => ParsedRecv::FullState(st.simulation.bodies@,
            st.simulation.next_id, st.frame_index, st.input_buffer.entries@),
    }
}

pub open spec fn parse_snapshot(b: Seq<u8>) -> Option<(u64, Seq<Body>, u64, u32, Seq<Input>)> {
    if b.len() < 8 {
        None
    } else {
        match parse_state_at(b, 8) {
            Some(t) => Some((parse_u64_at(b, 0), t.0, t.1, t.2, t.3)),
            None => None,
        }
    }
}

pub proof fn lemma_bodies_wire_len(s: Seq<Body>, j: int)
    requires
        j >= 0,
    ensures
        bodies_wire_bytes(s, j).len() == 64 * j,
    decreases j,
{
    if j > 0 {
        lemma_bodies_wire_len(s, j - 1);
    }
}

pub proof fn lemma_inputs_wire_len(q: Seq<Input>, j: int)
    requires
        j >= 0,
    ensures
        inputs_wire_bytes(q, j).len() == 44 * j,
    decreases j,
{
    if j > 0 {
        lemma_inputs_wire_len(q, j - 1);
    }
}

proof fn lemma_parse_bodies_in(b: Seq<u8>, off: int, s: Seq<Body>, j: int)
    requires
        0 <= off,
        0 <= j <= s.len(),
        off + 64 * j <= b.len(),
        forall|t: int| 0 <= t < 64 * j ==> b[off + t] == #[trigger] bodies_wire_bytes(s, j)[t],
    ensures
        parse_bodies_at(b, off, j) == s.subrange(0, j),
    decreases j,
{
    if j <= 0 {
        assert(parse_bodies_at(b, off, j) =~= s.subrange(0, 0));
    } else {
        lemma_bodies_wire_len(s, j - 1);
        assert forall|t: int| 0 <= t < 64 * (j - 1) implies b[off + t] == #[trigger]
            bodies_wire_bytes(s, j - 1)[t] by {
            assert(b[off + t] == bodies_wire_bytes(s, j)[t]);
        }
        lemma_parse_bodies_in(b, off, s, j - 1);
        assert forall|u: int| 0 <= u < 64 implies b[(off + (j - 1) * 64) + u] == #[trigger]
            body_wire_bytes(s[j - 1])[u] by {
            assert(b[off + ((j - 1) * 64 + u)] == bodies_wire_bytes(s, j)[(j - 1) * 64 + u]);
        }
        lemma_parse_body_in(b, off + (j - 1) * 64, s[j - 1]);
        assert(parse_bodies_at(b, off, j) =~= s.subrange(0, j));
    }
}

proof fn lemma_parse_inputs_in(b: Seq<u8>, off: int, q: Seq<Input>, j: int)
    requires
        0 <= off,
        0 <= j <= q.len(),
        off + 44 * j <= b.len(),
        forall|t: int| 0 <= t < 44 * j ==> b[off + t] == #[trigger] inputs_wire_bytes(q, j)[t],
    ensures
        parse_inputs_at(b, off, j) == q.subrange(0, j),
    decreases j,
{
    if j <= 0 {
        assert(parse_inputs_at(b, off, j) =~= q.subrange(0, 0));
    } else {
        lemma_inputs_wire_len(q, j - 1);
        assert forall|t: int| 0 <= t < 44 * (j - 1) implies b[off + t] == #[trigger]
            inputs_wire_bytes(q, j - 1)[t] by {
            assert(b[off + t] == inputs_wire_bytes(q, j)[t]);
        }
        lemma_parse_inputs_in(b, off, q, j - 1);
        assert forall|u: int| 0 <= u < 44 implies b[(off + (j - 1) * 44) + u] == #[trigger]
            indexed_event_bytes(q[j - 1])[u] by {
            assert(b[off + ((j - 1) * 44 + u)] == inputs_wire_bytes(q, j)[(j - 1) * 44 + u]);
        }
        lemma_parse_indexed_event_in(b, off + (j - 1) * 44, q[j - 1]);
        assert(parse_inputs_at(b, off, j) =~= q.subrange(0, j));
    }
}

#[verifier::rlimit(100)]
proof fn lemma_parse_state_in(b: Seq<u8>, off: int, bodies: Seq<Body>, nid: u64, frame: u32,
    q: Seq<Input>)
    requires
        0 <= off,
        bodies.len() <= u64::MAX,
        q.len() <= u64::MAX,
        b.len() == off + state_wire_bytes(bodies, nid, frame, q).len(),
        forall|t: int| 0 <= t < state_wire_bytes(bodies, nid, frame, q).len() ==> b[off + t]
            == #[trigger] state_wire_bytes(bodies, nid, frame, q)[t],
    ensures
        parse_state_at(b, off) == Some((bodies, nid, frame, q)),
{
    let w = state_wire_bytes(bodies, nid, frame, q);
    let n = bodies.len() as int;
    let k = q.len() as int;
    lemma_bodies_wire_len(bodies, n);
    lemma_inputs_wire_len(q, k);
    assert(w.len() == 28 + 64 * n + 44 * k);
    assert forall|j: int| 0 <= j < 8 implies b[off + j] == #[trigger] u64_le_bytes(nid)[j] by {
        assert(b[off + j] == w[j]);
    }
    lemma_parse_u64_in(b, off, nid);
    assert forall|j: int| 0 <= j < 8 implies b[(off + 8) + j] == #[trigger] u64_le_bytes(
        bodies.len() as u64)[j] by {
        assert(b[off + (8 + j)] == w[8 + j]);
    }
    lemma_parse_u64_in(b, off + 8, bodies.len() as u64);
    assert(parse_u64_at(b, off + 8) as int == n);
    assert forall|t: int| 0 <= t < 64 * n implies b[(off + 16) + t] == #[trigger]
        bodies_wire_bytes(bodies, n)[t] by {
        assert(b[off + (16 + t)] == w[16 + t]);
    }
    lemma_parse_bodies_in(b, off + 16, bodies, n);
    assert(bodies.subrange(0, n) =~= bodies);
    assert forall|j: int| 0 <= j < 4 implies b[(off + 16 + 64 * n) + j] == #[trigger]
        u32_le_bytes(frame)[j] by {
        assert(b[off + (16 + 64 * n + j)] == w[16 + 64 * n + j]);
    }
    lemma_parse_u32_in(b, off + 16 + 64 * n, frame);
    assert forall|j: int| 0 <= j < 8 implies b[(off + 16 + 64 * n + 4) + j] == #[trigger]
        u64_le_bytes(q.len() as u64)[j] by {
        assert(b[off + (16 + 64 * n + 4 + j)] == w[16 + 64 * n + 4 + j]);
    }
    lemma_parse_u64_in(b, off + 16 + 64 * n + 4, q.len() as u64);
    assert(parse_u64_at(b, off + 16 + 64 * n + 4) as int == k);
    assert forall|t: int| 0 <= t < 44 * k implies b[(off + 16 + 64 * n + 12) + t] == #[trigger]
        inputs_wire_bytes(q, k)[t] by {
        assert(b[off + (16 + 64 * n + 12 + t)] == w[16 + 64 * n + 12 + t]);
    }
    lemma_parse_inputs_in(b, off + 16 + 64 * n + 12, q, k);
    assert(q.subrange(0, k) =~= q);
}

/// Idempotent codec, server-to-client direction: decoding an encoding gives
/// back the message's contents. (The size bounds hold of every value built
/// from in-memory vectors.)
pub proof fn lemma_recv_round_trip(m: Recv)
    requires
        match m {
            Recv::FullState(st) => st.simulation.bodies@.len() <= u64::MAX
                && st.input_buffer.entries@.len() <= u64::MAX,
            _ => true,
        },
    ensures
        parse_recv(recv_bytes(m)) == Some(recv_to_parsed(m)),
{
    let b = recv_bytes(m);
    match m {
        Recv::Pong(f) => {
            assert(b[0] == 0);
            assert(b.len() == 5);
            assert forall|j: int| 0 <= j < 4 implies b[1 + j] == #[trigger] u32_le_bytes(f)[j]
                by {
                assert(b[1 + j] == (seq![0u8] + u32_le_bytes(f))[1 + j]);
            }
            lemma_parse_u32_in(b, 1, f);
        },
        Recv::StateHash(ih) => {
            assert(b[0] == 1);
            assert(b.len() == 13);
            assert forall|j: int| 0 <= j < 4 implies b[1 + j] == #[trigger] u32_le_bytes(
                ih.frame_index)[j] by {
                assert(b[1 + j] == (seq![1u8] + u32_le_bytes(ih.frame_index) + u64_le_bytes(
                    ih.state))[1 + j]);
            }
            lemma_parse_u32_in(b, 1, ih.frame_index);
            assert forall|j: int| 0 <= j < 8 implies b[5 + j] == #[trigger] u64_le_bytes(
                ih.state)[j] by {
                assert(b[1 + (4 + j)] == (seq![1u8] + u32_le_bytes(ih.frame_index)
                    + u64_le_bytes(ih.state))[1 + (4 + j)]);
            }
            lemma_parse_u64_in(b, 5, ih.state);
        },
        Recv::InputState(ie) => {
            assert(b[0] == 2);
            assert(b.len() == 45);
            assert forall|j: int| 0 <= j < 44 implies b[1 + j] == #[trigger] indexed_event_bytes(
                ie)[j] by {
                assert(b[1 + j] == (seq![2u8] + indexed_event_bytes(ie))[1 + j]);
            }
            lemma_parse_indexed_event_in(b, 1, ie);
        },
        Recv::FullState(st) => {
            let w = state_wire_bytes(st.simulation.bodies@, st.simulation.next_id,
                st.frame_index, st.input_buffer.entries@);
            assert(b[0] == 3);
            assert(b.len() == 1 + w.len());
            assert forall|t: int| 0 <= t < w.len() implies b[1 + t] == #[trigger] w[t] by {
                assert(b[1 + t] == (seq![3u8] + w)[1 + t]);
            }
            lemma_parse_state_in(b, 1, st.simulation.bodies@, st.simulation.next_id,
                st.frame_index, st.input_buffer.entries@);
        },
    }
}

/// The state snapshot round trip: parsing an encoded `(hash, state)` pair
/// gives back the hash and the state's contents.
pub proof fn lemma_snapshot_round_trip(hash: u64, st: State)
    requires
        st.simulation.bodies@.len() <= u64::MAX,
        st.input_buffer.entries@.len() <= u64::MAX,
    ensures
        parse_snapshot(snapshot_bytes(hash, st)) == Some((hash, st.simulation.bodies@,
            st.simulation.next_id, st.frame_index, st.input_buffer.entries@)),
{
    let b = snapshot_bytes(hash, st);
    let w = state_wire_bytes(st.simulation.bodies@, st.simulation.next_id, st.frame_index,
        st.input_buffer.entries@);
    assert(b.len() == 8 + w.len());
    assert forall|j: int| 0 <= j < 8 implies b[0 + j] == #[trigger] u64_le_bytes(hash)[j] by {
        assert(b[0 + j] == (u64_le_bytes(hash) + w)[0 + j]);
    }
    lemma_parse_u64_in(b, 0, hash);
    assert forall|t: int| 0 <= t < w.len() implies b[8 + t] == #[trigger] w[t] by {
        assert(b[8 + t] == (u64_le_bytes(hash) + w)[8 + t]);
    }
    lemma_parse_state_in(b, 8, st.simulation.bodies@, st.simulation.next_id, st.frame_index,
        st.input_buffer.entries@);
}

/// Decode one client-to-server datagram; `None` on anything malformed.
pub fn decode_send(bytes: &Vec<u8>) -> (r: Option<Send>)
    ensures
        r == parse_send(bytes@),
{
    if bytes.len() < 1 {
        return None;
    }
    let tag = bytes[0];
    if tag == 0 {
        if bytes.len() == 5 {
            Some(Send::Ping(read_u32_le(bytes, 1)))
        } else {
            None
        }
    } else if tag == 1 {
        if bytes.len() == 45 {
            Some(Send::InputState(read_indexed_event_at(bytes, 1)))
        } else {
            None
        }
    } else {
        None
    }
}

/// Decode a state region running from `off` to the end of the buffer.
fn decode_state_at(bytes: &Vec<u8>, off: usize) -> (r: Option<State>)
    requires
        off <= bytes.len(),
    ensures
        match r {
            Some(st) => parse_state_at(bytes@, off as int) == Some((st.simulation.bodies@,
                st.simulation.next_id, st.frame_index, st.input_buffer.entries@)),
            None => parse_state_at(bytes@, off as int) is None,
        },
{
    let len = bytes.len();
    if len - off < 16 {
        return None;
    }
    let nid = read_u64_le(bytes, off);
    let n64 = read_u64_le(bytes, off + 8);
    let ghost ni = n64 as int;
    let rem = len - (off + 16);
    let maxn = rem / 64;
    proof {
        vstd::arithmetic::div_mod::lemma_fundamental_div_mod(rem as int, 64);
    }
    if n64 > maxn as u64 {
        proof {
            assert(64 * ni > rem as int);
        }
        return None;
    }
    let n = n64 as usize;
    proof {
        assert(64 * (n as int) <= 64 * (maxn as int)) by (nonlinear_arith)
            requires (n as int) <= (maxn as int);
        assert(64 * (n as int) <= rem as int);
    }
    if rem - 64 * n < 12 {
        return None;
    }
    let mut bodies: Vec<Body> = Vec::new();
    let mut cursor: usize = off + 16;
    let mut i: usize = 0;
    while i < n
        invariant
            len == bytes.len(),
            off + 16 + 64 * (n as int) + 12 <= len,
            i <= n,
            cursor == off + 16 + 64 * (i as int),
            bodies@ == parse_bodies_at(bytes@, off as int + 16, i as int),
        decreases n - i,
    {
        proof {
            assert(64 * (i as int) + 64 <= 64 * (n as int)) by (nonlinear_arith)
                requires (i as int) < (n as int);
        }
        let body = read_body_at(bytes, cursor);
        bodies.push(body);
        proof {
            assert(bodies@ =~= parse_bodies_at(bytes@, off as int + 16, i as int + 1));
        }
        cursor = cursor + 64;
        i = i + 1;
    }
    let frame = read_u32_le(bytes, cursor);
    let nq64 = read_u64_le(bytes, cursor + 4);
    let ghost qi = nq64 as int;
    let rem2 = len - (cursor + 12);
    let maxq = rem2 / 44;
    proof {
        vstd::arithmetic::div_mod::lemma_fundamental_div_mod(rem2 as int, 44);
    }
    if nq64 > maxq as u64 {
        proof {
            assert(44 * qi > rem2 as int);
        }
        return None;
    }
    let nq = nq64 as usize;
    proof {
        assert(44 * (nq as int) <= 44 * (maxq as int)) by (nonlinear_arith)
            requires (nq as int) <= (maxq as int);
        assert(44 * (nq as int) <= rem2 as int);
    }
    if rem2 - 44 * nq != 0 {
        return None;
    }
    let mut inputs: Vec<Input> = Vec::new();
    let mut cursor2: usize = cursor + 12;
    let mut k: usize = 0;
    while k < nq
        invariant
            len == bytes.len(),
            cursor as int + 12 + 44 * (nq as int) == len,
            k <= nq,
            cursor2 == cursor + 12 + 44 * (k as int),
            inputs@ == parse_inputs_at(bytes@, cursor as int + 12, k as int),
        decreases nq - k,
    {
        proof {
            assert(44 * (k as int) + 44 <= 44 * (nq as int)) by (nonlinear_arith)
                requires (k as int) < (nq as int);
        }
        let input = read_indexed_event_at(bytes, cursor2);
        inputs.push(input);
        proof {
            assert(inputs@ =~= parse_inputs_at(bytes@, cursor as int + 12, k as int + 1));
        }
        cursor2 = cursor2 + 44;
        k = k + 1;
    }
    Some(State {
        simulation: Simulation { bodies, next_id: nid },
        frame_index: frame,
        input_buffer: InputBuffer { entries: inputs },
    })
}

/// Decode one server-to-client datagram; `None` on anything malformed.
pub fn decode_recv(bytes: &Vec<u8>) -> (r: Option<Recv>)
    ensures
        match r {
            Some(m) => parse_recv(bytes@) == Some(recv_to_parsed(m)),
            None => parse_recv(bytes@) is None,
        },
{
    if bytes.len() < 1 {
        return None;
    }
    let tag = bytes[0];
    if tag == 0 {
        if bytes.len() == 5 {
            Some(Recv::Pong(read_u32_le(bytes, 1)))
        } else {
            None
        }
    } else if tag == 1 {
        if bytes.len() == 13 {
            let frame_index = read_u32_le(bytes, 1);
            let hash = read_u64_le(bytes, 5);
            Some(Recv::StateHash(IndexedState { frame_index, state: hash }))
        } else {
            None
        }
    } else if tag == 2 {
        if bytes.len() == 45 {
            Some(Recv::InputState(read_indexed_event_at(bytes, 1)))
        } else {
            None
        }
    } else if tag == 3 {
        match decode_state_at(bytes, 1) {
            Some(st) => Some(Recv::FullState(st)),
            None => None,
        }
    } else {
        None
    }
}

/// Decode a `(hash, state)` snapshot; `None` on anything malformed.
pub fn decode_snapshot(bytes: &Vec<u8>) -> (r: Option<(u64, State)>)
    ensures
        match r {
            Some((h, st)) => parse_snapshot(bytes@) == Some((h, st.simulation.bodies@,
                st.simulation.next_id, st.frame_index, st.input_buffer.entries@)),
            None => parse_snapshot(bytes@) is None,
        },
{
    if bytes.len() < 8 {
        return None;
    }
    let hash = read_u64_le(bytes, 0);
    match decode_state_at(bytes, 8) {
        Some(st) => Some((hash, st)),
        None => None,
    }
}

} // verus!
