//! The stable 64-bit checksum that peers compare: xxHash64 (seed 0) over
//! each body's position, velocity, acceleration and mass raw bits in list
//! order, then the frame index. The input buffer is deliberately left out:
//! buffers legitimately differ between peers.

use vstd::prelude::*;
use crate::body::Body;
use crate::fixed_scalar::FixedScalar;
use crate::wire::{u32_le_bytes, i64_le_bytes, push_u32_le, push_i64_le};

verus! {

broadcast use crate::wire::lemma_u32_le_len, crate::wire::lemma_u64_le_len;

/// What xxHash64 with seed 0 returns for a byte stream: a fixed function of
/// the bytes alone, identical on every peer and platform.
pub uninterp spec fn xxhash64_of(bytes: Seq<u8>) -> u64;

/// Relies on `twox_hash::XxHash64`: `with_seed(0)` then `Hasher::write` then
/// `Hasher::finish` computes the xxHash64 checksum, a pure function of the
/// written byte stream.
#[verifier::external_body]
pub(crate) fn xxhash64(data: &Vec<u8>) -> (r: u64)
    ensures
        r == xxhash64_of(data@),
{
    let mut h = twox_hash::XxHash64::with_seed(0);
    std::hash::Hasher::write(&mut h, data.as_slice());
    std::hash::Hasher::finish(&h)
}

/// Hash input of one body; the id is not hashed.
pub open spec fn body_hash_bytes(b: Body) -> Seq<u8> {
    i64_le_bytes(b.position.x.raw) + i64_le_bytes(b.position.y.raw) + i64_le_bytes(
        b.velocity.x.raw) + i64_le_bytes(b.velocity.y.raw) + i64_le_bytes(b.acceleration.x.raw)
        + i64_le_bytes(b.acceleration.y.raw) + i64_le_bytes(b.mass.raw)
}

/// Hash input of the first `j` bodies, concatenated in list order.
pub open spec fn bodies_hash_bytes(s: Seq<Body>, j: int) -> Seq<u8>
    decreases j,
{
    if j <= 0 {
        Seq::empty()
    } else {
        bodies_hash_bytes(s, j - 1) + body_hash_bytes(s[j - 1])
    }
}

/// Hash input of a whole state: bodies in list order, then the frame index.
pub open spec fn state_hash_bytes(bodies: Seq<Body>, frame: u32) -> Seq<u8> {
    bodies_hash_bytes(bodies, bodies.len() as int) + u32_le_bytes(frame)
}

/// The checksum the peers compare.
pub open spec fn spec_state_hash(bodies: Seq<Body>, frame: u32) -> u64 {
    xxhash64_of(state_hash_bytes(bodies, frame))
}

#[verifier::rlimit(60)]
fn push_body_bytes(buf: &mut Vec<u8>, b: &Body)
    ensures
        final(buf)@ == old(buf)@ + body_hash_bytes(*b),
{
    push_i64_le(buf, b.position.x.raw);
    push_i64_le(buf, b.position.y.raw);
    push_i64_le(buf, b.velocity.x.raw);
    push_i64_le(buf, b.velocity.y.raw);
    push_i64_le(buf, b.acceleration.x.raw);
    push_i64_le(buf, b.acceleration.y.raw);
    push_i64_le(buf, b.mass.raw);
    proof {
        assert(buf@ =~= old(buf)@ + body_hash_bytes(*b));
    }
}

/// The stable checksum of a body list and a frame counter.
pub fn hash_bodies_frame(bodies: &Vec<Body>, frame: u32) -> (r: u64)
    ensures
        r == spec_state_hash(bodies@, frame),
{
    let ghost s = bodies@;
    let mut buf: Vec<u8> = Vec::new();
    let n = bodies.len();
    let mut i: usize = 0;
    proof {
        assert(buf@ =~= bodies_hash_bytes(s, 0));
    }
    while i < n
        invariant
            bodies@ == s,
            n == s.len(),
            i <= n,
            buf@ == bodies_hash_bytes(s, i as int),
        decreases n - i,
    {
        push_body_bytes(&mut buf, &bodies[i]);
        i = i + 1;
    }
    push_u32_le(&mut buf, frame);
    xxhash64(&buf)
}

/// The stable standalone checksum of one scalar's raw bits.
pub fn scalar_stable_hash(v: FixedScalar) -> (r: u64)
    ensures
        r == xxhash64_of(i64_le_bytes(v.raw)),
{
    let mut buf: Vec<u8> = Vec::new();
    push_i64_le(&mut buf, v.raw);
    proof {
        assert(buf@ =~= i64_le_bytes(v.raw));
    }
    xxhash64(&buf)
}

/// Hash stability: the checksum of a scalar is a function of its raw bits
/// alone, so two scalars rebuilt from the same 64-bit pattern — in the same
/// process or in two independent ones — hash alike.
pub proof fn lemma_scalar_hash_stable(a: FixedScalar, b: FixedScalar)
    requires
        a.raw == b.raw,
    ensures
        xxhash64_of(i64_le_bytes(a.raw)) == xxhash64_of(i64_le_bytes(b.raw)),
{
}

} // verus!
