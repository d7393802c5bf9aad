//! The lock-step state: a simulation, its frame counter, and the buffer of
//! future-dated inputs. `step` drains every input due at or before the
//! current frame — applying the ones dated exactly now, discarding stale
//! ones — then ticks the simulation and advances the frame.

use vstd::prelude::*;
use crate::body::{Body, Vec2};
use crate::fixed_scalar::FixedScalar;
use crate::hashing::{spec_state_hash, hash_bodies_frame};
use crate::input_buffer::{Input, InputBuffer};
use crate::messages::{AddBodyEvent, FrameIndex};
use crate::simulation::{Simulation, spec_tick};

verus! {

/// The body an input event spawns, under the given id.
pub open spec fn spec_spawn(ev: AddBodyEvent, id: u64) -> Body {
    Body {
        id,
        position: Vec2 { x: ev.position_x, y: ev.position_y },
        velocity: Vec2 { x: ev.velocity_x, y: ev.velocity_y },
        acceleration: Vec2 { x: FixedScalar { raw: 0 }, y: FixedScalar { raw: 0 } },
        mass: ev.mass,
    }
}

/// The drain of a sorted buffer at frame `f`, yielding
/// `(bodies, next_id, rest_of_buffer, stale_count, applied_count)`:
/// events dated before `f` are stale and dropped; events dated exactly `f`
/// with positive mass spawn a body; the first event beyond `f` stops the
/// drain. Events with non-positive mass are dropped, keeping the
/// every-live-body-has-positive-mass invariant.
pub open spec fn spec_drain(bodies: Seq<Body>, nid: int, q: Seq<Input>, f: FrameIndex) -> (
    Seq<Body>, int, Seq<Input>, int, int)
    decreases q.len(),
{
    if q.len() == 0 || q[0].frame_index > f {
        (bodies, nid, q, 0, 0)
    } else {
        let e = q[0];
        let rest = q.drop_first();
        if e.frame_index < f {
            let r = spec_drain(bodies, nid, rest, f);
            (r.0, r.1, r.2, r.3 + 1, r.4)
        } else if e.state.mass.bits() > 0 {
            let r = spec_drain(bodies.push(spec_spawn(e.state, nid as u64)), nid + 1, rest, f);
            (r.0, r.1, r.2, r.3, r.4 + 1)
        } else {
            spec_drain(bodies, nid, rest, f)
        }
    }
}

/// The drain spawns exactly one body per applied event and never grows the
/// buffer.
pub proof fn lemma_drain_len(bodies: Seq<Body>, nid: int, q: Seq<Input>, f: FrameIndex)
    ensures
        ({
            let r = spec_drain(bodies, nid, q, f);
            r.0.len() == bodies.len() + r.4 && r.3 >= 0 && r.4 >= 0 && r.2.len() <= q.len()
        }),
    decreases q.len(),
{
    if q.len() == 0 || q[0].frame_index > f {
    } else {
        let e = q[0];
        let rest = q.drop_first();
        if e.frame_index < f {
            lemma_drain_len(bodies, nid, rest, f);
        } else if e.state.mass.bits() > 0 {
            lemma_drain_len(bodies.push(spec_spawn(e.state, nid as u64)), nid + 1, rest, f);
        } else {
            lemma_drain_len(bodies, nid, rest, f);
        }
    }
}

/// A simulation with its frame counter and pending inputs.
#[derive(Clone, Debug)]
pub struct State {
    pub simulation: Simulation,
    pub frame_index: FrameIndex,
    pub input_buffer: InputBuffer,
}

impl State {
    pub open spec fn wf(self) -> bool {
        self.simulation.wf() && self.input_buffer.wf()
    }

    /// Room in the machine-sized counters for one more step.
    pub open spec fn can_step(self) -> bool {
        self.frame_index < FrameIndex::MAX && self.simulation.next_id as int
            + self.input_buffer.entries@.len() <= u64::MAX as int
    }

    pub fn new() -> (r: State)
        ensures
            r.wf(),
            r.simulation.bodies@ =~= Seq::<Body>::empty(),
            r.simulation.next_id == 0,
            r.frame_index == 0,
            r.input_buffer.entries@ =~= Seq::<Input>::empty(),
    {
        State { simulation: Simulation::new(), frame_index: 0, input_buffer: InputBuffer::new() }
    }

    /// The stable checksum beacons carry: bodies in list order, then the
    /// frame index. Pending inputs are not hashed.
    pub fn hash(&self) -> (r: u64)
        ensures
            r == spec_state_hash(self.simulation.bodies@, self.frame_index),
    {
        hash_bodies_frame(&self.simulation.bodies, self.frame_index)
    }

    /// Drain the due inputs, tick the simulation, advance one frame.
    /// Returns how many stale events (dated before the current frame) were
    /// discarded, so the caller can log them.
    pub fn step(&mut self) -> (stale: usize)
        requires
            old(self).wf(),
            old(self).can_step(),
        ensures
            final(self).wf(),
            ({
                let d = spec_drain(old(self).simulation.bodies@, old(self).simulation.next_id
                    as int, old(self).input_buffer.entries@, old(self).frame_index);
                final(self).simulation.bodies@ == spec_tick(d.0) && final(self).simulation.next_id
                    as int == d.1 && final(self).input_buffer.entries@ == d.2 && stale as int
                    == d.3 && final(self).simulation.bodies@.len() <= old(
                self).simulation.bodies@.len() + d.4
            }),
            final(self).frame_index == old(self).frame_index + 1,
            (final(self).simulation.bodies@, final(self).simulation.next_id as int, final(
            self).input_buffer.entries@, final(self).frame_index) == spec_state_step(old(
            self).simulation.bodies@, old(self).simulation.next_id as int, old(
            self).input_buffer.entries@, old(self).frame_index),
    {
        let f = self.frame_index;
        let ghost ob = self.simulation.bodies@;
        let ghost onid = self.simulation.next_id as int;
        let ghost oq = self.input_buffer.entries@;
        let ghost g = spec_drain(ob, onid, oq, f);
        let oqlen = self.input_buffer.len();
        let mut stale: usize = 0;
        let ghost mut applied: int = 0;
        loop
            invariant
                self.simulation.wf(),
                self.input_buffer.wf(),
                self.frame_index == f,
                f < FrameIndex::MAX,
                self.simulation.next_id as int + self.input_buffer.entries@.len() <= u64::MAX
                    as int,
                stale as int <= oqlen as int - self.input_buffer.entries@.len(),
                self.input_buffer.entries@.len() <= oqlen as int,
                g == ({
                    let d = spec_drain(self.simulation.bodies@, self.simulation.next_id as int,
                        self.input_buffer.entries@, f);
                    (d.0, d.1, d.2, d.3 + stale as int, d.4 + applied)
                }),
            ensures
                g == (self.simulation.bodies@, self.simulation.next_id as int,
                    self.input_buffer.entries@, stale as int, applied),
                self.simulation.wf(),
                self.input_buffer.wf(),
                self.frame_index == f,
                f < FrameIndex::MAX,
            decreases self.input_buffer.entries@.len(),
        {
            let ghost q_pre = self.input_buffer.entries@;
            match self.input_buffer.next(f) {
                None => {
                    break;
                },
                Some(input) => {
                    if input.frame_index < f {
                        stale = stale + 1;
                    } else {
                        if input.state.mass.gt_zero() {
                            let body = Body {
                                id: self.simulation.next_id,
                                position: Vec2::new(input.state.position_x,
                                    input.state.position_y),
                                velocity: Vec2::new(input.state.velocity_x,
                                    input.state.velocity_y),
                                acceleration: Vec2::zero(),
                                mass: input.state.mass,
                            };
                            self.simulation.add_body(body);
                            proof {
                                applied = applied + 1;
                            }
                        }
                    }
                },
            }
        }
        self.simulation.step();
        self.frame_index = f + 1;
        proof {
            lemma_drain_len(ob, onid, oq, f);
        }
        stale
    }
}

/// The whole step as one mathematical function: drain the due inputs, tick
/// the bodies, advance the frame. `State::step` ensures the executable
/// state lands exactly here.
pub open spec fn spec_state_step(bodies: Seq<Body>, nid: int, q: Seq<Input>, f: FrameIndex) -> (
    Seq<Body>, int, Seq<Input>, FrameIndex)
    recommends
        f < FrameIndex::MAX,
{
    let d = spec_drain(bodies, nid, q, f);
    (spec_tick(d.0), d.1, d.2, (f + 1) as FrameIndex)
}

/// The state contents after `n` lock-step frames with no further input
/// arrivals.
pub open spec fn spec_run(bodies: Seq<Body>, nid: int, q: Seq<Input>, f: FrameIndex, n: nat) -> (
    Seq<Body>, int, Seq<Input>, FrameIndex)
    decreases n,
{
    if n == 0 {
        (bodies, nid, q, f)
    } else {
        let p = spec_run(bodies, nid, q, f, (n - 1) as nat);
        spec_state_step(p.0, p.1, p.2, p.3)
    }
}

/// Determinism: stepping is a mathematical function of the state — every
/// clause of `step`'s contract pins its result — so two fresh peers holding
/// equal bodies, id counters, buffers and frame counters stay equal after
/// any number of frames and report the same checksum at each of them.
pub proof fn lemma_lockstep_determinism(
    b1: Seq<Body>, n1: int, q1: Seq<Input>, f1: FrameIndex,
    b2: Seq<Body>, n2: int, q2: Seq<Input>, f2: FrameIndex, n: nat,
)
    requires
        b1 == b2,
        n1 == n2,
        q1 == q2,
        f1 == f2,
    ensures
        spec_run(b1, n1, q1, f1, n) == spec_run(b2, n2, q2, f2, n),
        spec_state_hash(spec_run(b1, n1, q1, f1, n).0, spec_run(b1, n1, q1, f1, n).3)
            == spec_state_hash(spec_run(b2, n2, q2, f2, n).0, spec_run(b2, n2, q2, f2, n).3),
{
}

} // verus!
