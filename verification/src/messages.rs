//! The wire message taxonomy: what clients send, what the server sends
//! back, and the input-event payload both directions carry.

use vstd::prelude::*;
use crate::fixed_scalar::FixedScalar;
use crate::state::State;

verus! {

/// The frame counter carried by every message.
pub type FrameIndex = u32;

/// Payload of a request to spawn one body.
#[derive(Clone, Copy, Debug, PartialEq, Eq, Structural)]
pub struct AddBodyEvent {
    pub position_x: FixedScalar,
    pub position_y: FixedScalar,
    pub velocity_x: FixedScalar,
    pub velocity_y: FixedScalar,
    pub mass: FixedScalar,
}

impl AddBodyEvent {
    /// An event for a body at rest.
    pub fn new(position_x: FixedScalar, position_y: FixedScalar, mass: FixedScalar) -> (r:
        AddBodyEvent)
        ensures
            r.position_x == position_x,
            r.position_y == position_y,
            r.velocity_x.bits() == 0,
            r.velocity_y.bits() == 0,
            r.mass == mass,
    {
        AddBodyEvent {
            position_x,
            position_y,
            velocity_x: FixedScalar::from_raw(0),
            velocity_y: FixedScalar::from_raw(0),
            mass,
        }
    }

    pub fn new_with_velocity(
        position_x: FixedScalar,
        position_y: FixedScalar,
        mass: FixedScalar,
        velocity_x: FixedScalar,
        velocity_y: FixedScalar,
    ) -> (r: AddBodyEvent)
        ensures
            r == (AddBodyEvent { position_x, position_y, velocity_x, velocity_y, mass }),
    {
        AddBodyEvent { position_x, position_y, velocity_x, velocity_y, mass }
    }
}

/// A payload stamped with the frame it belongs to.
#[derive(Clone, Copy, Debug, PartialEq, Eq, Structural)]
pub struct IndexedState<T> {
    pub frame_index: FrameIndex,
    pub state: T,
}

/// Client-to-server datagrams.
#[derive(Debug, PartialEq, Eq, Structural)]
pub enum Send {
    Ping(FrameIndex),
    InputState(IndexedState<AddBodyEvent>),
}

/// Server-to-client datagrams.
#[derive(Debug)]
pub enum Recv {
    Pong(FrameIndex),
    StateHash(IndexedState<u64>),
    InputState(IndexedState<AddBodyEvent>),
    FullState(State),
}

} // verus!
