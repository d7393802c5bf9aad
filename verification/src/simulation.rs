//! The simulation tick: collision detection in ascending index order,
//! merge resolution in that same order, acceleration recomputation, and
//! saturating Verlet-style integration. The whole tick is pinned to a
//! mathematical model, so identical body lists step to identical body lists
//! on every peer.

use vstd::prelude::*;
use crate::fixed_scalar::{FixedScalar, sat_add_bits, sat_mul_bits, sat_div_bits};
use crate::body::{
    Body, Vec2, spec_collides, spec_force, spec_radius_bits, ONE_BITS, lemma_sat_mul_nonneg,
};

verus! {

/// Every live body has positive mass.
pub open spec fn masses_pos(s: Seq<Body>) -> bool {
    forall|i: int| 0 <= i < s.len() ==> s[i].mass.bits() > 0
}

/// No two bodies share an id.
pub open spec fn unique_ids(s: Seq<Body>) -> bool {
    forall|i: int, j: int| 0 <= i < j < s.len() ==> s[i].id != s[j].id
}

/// All ids are below the simulation's id counter.
pub open spec fn ids_below(s: Seq<Body>, n: u64) -> bool {
    forall|i: int| 0 <= i < s.len() ==> s[i].id < n
}

/// Colliding partners of body `i` among indices `j..len`, in ascending order.
pub open spec fn row_pairs(s: Seq<Body>, i: int, j: int) -> Seq<(u64, u64)>
    decreases s.len() - j,
{
    if j >= s.len() || j < 0 {
        Seq::empty()
    } else {
        let rest = row_pairs(s, i, j + 1);
        if spec_collides(s[i], s[j]) {
            seq![(s[i].id, s[j].id)] + rest
        } else {
            rest
        }
    }
}

/// All colliding pairs `(i, j)` with `start <= i < j`, ascending in `(i, j)`.
pub open spec fn pairs_from(s: Seq<Body>, start: int) -> Seq<(u64, u64)>
    decreases s.len() - start,
{
    if start >= s.len() || start < 0 {
        Seq::empty()
    } else {
        row_pairs(s, start, start + 1) + pairs_from(s, start + 1)
    }
}

/// The tick's detection phase: ids of colliding pairs by ascending index.
pub open spec fn collision_pairs(s: Seq<Body>) -> Seq<(u64, u64)> {
    pairs_from(s, 0)
}

/// First index holding `id`, or -1.
pub open spec fn find_id_from(s: Seq<Body>, id: u64, k: int) -> int
    decreases s.len() - k,
{
    if k < 0 || k >= s.len() {
        -1
    } else if s[k].id == id {
        k
    } else {
        find_id_from(s, id, k + 1)
    }
}

pub open spec fn find_id(s: Seq<Body>, id: u64) -> int {
    find_id_from(s, id, 0)
}

/// The inelastic merge of `b2` into `b1`: mass-weighted position and
/// velocity, summed mass, `b1`'s id and acceleration carried forward.
pub open spec fn spec_merge(b1: Body, b2: Body) -> Body {
    let m1 = b1.mass.bits();
    let m2 = b2.mass.bits();
    let msum = sat_add_bits(m1, m2);
    Body {
        id: b1.id,
        position: Vec2 {
            x: FixedScalar {
                raw: sat_div_bits(
                    sat_add_bits(sat_mul_bits(b1.position.x.bits(), m1),
                        sat_mul_bits(b2.position.x.bits(), m2)), msum) as i64,
            },
            y: FixedScalar {
                raw: sat_div_bits(
                    sat_add_bits(sat_mul_bits(b1.position.y.bits(), m1),
                        sat_mul_bits(b2.position.y.bits(), m2)), msum) as i64,
            },
        },
        velocity: Vec2 {
            x: FixedScalar {
                raw: sat_div_bits(
                    sat_add_bits(sat_mul_bits(b1.velocity.x.bits(), m1),
                        sat_mul_bits(b2.velocity.x.bits(), m2)), msum) as i64,
            },
            y: FixedScalar {
                raw: sat_div_bits(
                    sat_add_bits(sat_mul_bits(b1.velocity.y.bits(), m1),
                        sat_mul_bits(b2.velocity.y.bits(), m2)), msum) as i64,
            },
        },
        acceleration: b1.acceleration,
        mass: FixedScalar { raw: msum as i64 },
    }
}

/// The list after a swap-remove of index `i`.
pub open spec fn spec_swap_remove(s: Seq<Body>, i: int) -> Seq<Body> {
    s.update(i, s.last()).drop_last()
}

/// The tick's resolution phase, from pair `k` on: a pair whose two ids are
/// still present (and distinct) removes the second body by swap-remove and
/// merges it into the first; any other pair is discarded.
pub open spec fn resolve_pairs(s: Seq<Body>, pairs: Seq<(u64, u64)>, k: int) -> Seq<Body>
    decreases pairs.len() - k,
{
    if k < 0 || k >= pairs.len() {
        s
    } else {
        let (id1, id2) = pairs[k];
        let i1 = find_id(s, id1);
        let i2 = find_id(s, id2);
        let s2 = if id1 != id2 && i1 >= 0 && i2 >= 0 {
            let removed = spec_swap_remove(s, i2);
            let j1 = find_id(removed, id1);
            removed.update(j1, spec_merge(removed[j1], s[i2]))
        } else {
            s
        };
        resolve_pairs(s2, pairs, k + 1)
    }
}

/// Left-fold of the forces on body `i` from bodies `0..j` (skipping `i`),
/// in list order, on raw bits.
pub open spec fn acc_sum(s: Seq<Body>, i: int, j: int) -> (int, int)
    decreases j,
{
    if j <= 0 {
        (0, 0)
    } else {
        let prev = acc_sum(s, i, j - 1);
        if j - 1 == i {
            prev
        } else {
            let f = spec_force(s[i].position.x.bits(), s[i].position.y.bits(),
                s[j - 1].position.x.bits(), s[j - 1].position.y.bits(), s[j - 1].mass.bits());
            (sat_add_bits(prev.0, f.0), sat_add_bits(prev.1, f.1))
        }
    }
}

/// The tick's acceleration phase: every body's acceleration is replaced by
/// the sum of the pulls of all the others.
pub open spec fn with_accels(s: Seq<Body>) -> Seq<Body> {
    Seq::new(s.len(), |i: int| Body {
        acceleration: Vec2 {
            x: FixedScalar { raw: acc_sum(s, i, s.len() as int).0 as i64 },
            y: FixedScalar { raw: acc_sum(s, i, s.len() as int).1 as i64 },
        },
        ..s[i]
    })
}

/// One body after the integration phase: `v += a * TICK; p += v * TICK`,
/// all saturating, with TICK = 1.
pub open spec fn spec_integrate_body(b: Body) -> Body {
    let vx = sat_add_bits(b.velocity.x.bits(), sat_mul_bits(b.acceleration.x.bits(), ONE_BITS as int));
    let vy = sat_add_bits(b.velocity.y.bits(), sat_mul_bits(b.acceleration.y.bits(), ONE_BITS as int));
    let px = sat_add_bits(b.position.x.bits(), sat_mul_bits(vx, ONE_BITS as int));
    let py = sat_add_bits(b.position.y.bits(), sat_mul_bits(vy, ONE_BITS as int));
    Body {
        position: Vec2 { x: FixedScalar { raw: px as i64 }, y: FixedScalar { raw: py as i64 } },
        velocity: Vec2 { x: FixedScalar { raw: vx as i64 }, y: FixedScalar { raw: vy as i64 } },
        ..b
    }
}

/// The tick's integration phase over the whole list.
pub open spec fn integrate(s: Seq<Body>) -> Seq<Body> {
    Seq::new(s.len(), |i: int| spec_integrate_body(s[i]))
}

/// One whole tick.
pub open spec fn spec_tick(s: Seq<Body>) -> Seq<Body> {
    integrate(with_accels(resolve_pairs(s, collision_pairs(s), 0)))
}

/// An ordered list of bodies with its monotonic id counter. Iteration order
/// is significant: it drives collision enumeration and so determinism.
#[derive(Clone, Debug)]
pub struct Simulation {
    pub bodies: Vec<Body>,
    pub next_id: u64,
}

impl Simulation {
    /// Well-formedness: positive masses, unique ids, ids below the counter.
    pub open spec fn wf(self) -> bool {
        masses_pos(self.bodies@) && unique_ids(self.bodies@) && ids_below(self.bodies@,
            self.next_id)
    }

    pub fn new() -> (r: Simulation)
        ensures
            r.bodies@ =~= Seq::<Body>::empty(),
            r.next_id == 0,
            r.wf(),
    {
        Simulation { bodies: Vec::new(), next_id: 0 }
    }

    /// Append a body carrying the counter's id, and advance the counter.
    pub fn add_body(&mut self, body: Body)
        requires
            old(self).wf(),
            body.mass.bits() > 0,
            body.id == old(self).next_id,
            old(self).next_id < u64::MAX,
        ensures
            final(self).wf(),
            final(self).bodies@ == old(self).bodies@.push(body),
            final(self).next_id == old(self).next_id + 1,
    {
        self.bodies.push(body);
        self.next_id = self.next_id + 1;
    }
}

/// Detection phase: every colliding pair `(i, j)` with `i < j`, as an
/// `(id_i, id_j)` tuple, in ascending `(i, j)` order.
fn find_collisions(bodies: &Vec<Body>) -> (pairs: Vec<(u64, u64)>)
    requires
        masses_pos(bodies@),
    ensures
        pairs@ == collision_pairs(bodies@),
{
    let ghost s = bodies@;
    let mut pairs: Vec<(u64, u64)> = Vec::new();
    let n = bodies.len();
    proof {
        assert(pairs@ + pairs_from(s, 0) =~= collision_pairs(s));
    }
    let mut i: usize = 0;
    while i < n
        invariant
            n == s.len(),
            bodies@ == s,
            masses_pos(s),
            pairs@ + pairs_from(s, i as int) == collision_pairs(s),
        decreases n - i,
    {
        let mut j: usize = i + 1;
        proof {
            assert(pairs@ + (row_pairs(s, i as int, j as int) + pairs_from(s, i as int + 1))
                =~= pairs@ + pairs_from(s, i as int));
        }
        while j < n
            invariant
                n == s.len(),
                bodies@ == s,
                masses_pos(s),
                i < j,
                i < n,
                pairs@ + (row_pairs(s, i as int, j as int) + pairs_from(s, i as int + 1))
                    == collision_pairs(s),
            decreases n - j,
        {
            if bodies[i].collides_with(&bodies[j]) {
                let pair = (bodies[i].id, bodies[j].id);
                let ghost p0 = pairs@;
                pairs.push(pair);
                proof {
                    assert(row_pairs(s, i as int, j as int) == seq![(s[i as int].id,
                        s[j as int].id)] + row_pairs(s, i as int, j as int + 1));
                    assert(p0.push(pair) + (row_pairs(s, i as int, j as int + 1)
                        + pairs_from(s, i as int + 1)) =~= p0 + (row_pairs(s, i as int,
                        j as int) + pairs_from(s, i as int + 1)));
                }
            } else {
                proof {
                    assert(row_pairs(s, i as int, j as int) == row_pairs(s, i as int,
                        j as int + 1));
                }
            }
            j = j + 1;
        }
        proof {
            assert(row_pairs(s, i as int, n as int) =~= Seq::<(u64, u64)>::empty());
            assert(pairs@ + pairs_from(s, i as int + 1) =~= pairs@ + (row_pairs(s, i as int,
                n as int) + pairs_from(s, i as int + 1)));
        }
        i = i + 1;
    }
    proof {
        assert(pairs_from(s, n as int) =~= Seq::<(u64, u64)>::empty());
        assert(pairs@ =~= pairs@ + pairs_from(s, n as int));
    }
    pairs
}

/// What `find_id_from` returns: the first index at or after `k` holding
/// `id`, or -1 when no index does.
pub proof fn lemma_find_id_spec(s: Seq<Body>, id: u64, k: int)
    requires
        0 <= k <= s.len(),
    ensures
        find_id_from(s, id, k) == -1 ==> forall|m: int| k <= m < s.len() ==> s[m].id != id,
        find_id_from(s, id, k) != -1 ==> k <= find_id_from(s, id, k) < s.len() && s[find_id_from(
            s, id, k)].id == id,
    decreases s.len() - k,
{
    if k < s.len() && s[k].id != id {
        lemma_find_id_spec(s, id, k + 1);
    }
}

/// First index holding `id`, if any, matching `find_id`.
fn find_index(bodies: &Vec<Body>, id: u64) -> (r: Option<usize>)
    ensures
        match r {
            Some(i) => i < bodies@.len() && find_id(bodies@, id) == i as int,
            None => find_id(bodies@, id) == -1,
        },
{
    let ghost s = bodies@;
    let n = bodies.len();
    let mut k: usize = 0;
    while k < n
        invariant
            n == s.len(),
            bodies@ == s,
            k <= n,
            find_id(s, id) == find_id_from(s, id, k as int),
        decreases n - k,
    {
        if bodies[k].id == id {
            return Some(k);
        }
        k = k + 1;
    }
    None
}

/// The merge of `b2` into `b1` from the resolution phase.
fn merge_bodies(b1: &Body, b2: &Body) -> (r: Body)
    requires
        b1.mass.bits() > 0,
        b2.mass.bits() > 0,
    ensures
        r == spec_merge(*b1, *b2),
        r.mass.bits() > 0,
{
    let msum = b1.mass.sat_add(b2.mass);
    let px = b1.position.x.sat_mul(b1.mass).sat_add(b2.position.x.sat_mul(b2.mass)).sat_div(msum);
    let py = b1.position.y.sat_mul(b1.mass).sat_add(b2.position.y.sat_mul(b2.mass)).sat_div(msum);
    let vx = b1.velocity.x.sat_mul(b1.mass).sat_add(b2.velocity.x.sat_mul(b2.mass)).sat_div(msum);
    let vy = b1.velocity.y.sat_mul(b1.mass).sat_add(b2.velocity.y.sat_mul(b2.mass)).sat_div(msum);
    Body {
        id: b1.id,
        position: Vec2 { x: px, y: py },
        velocity: Vec2 { x: vx, y: vy },
        acceleration: b1.acceleration,
        mass: msum,
    }
}

/// Resolution phase: walk the pairs in detection order; merge where both
/// ids are still live, discard the pair otherwise.
fn resolve_collisions(bodies: &mut Vec<Body>, pairs: &Vec<(u64, u64)>, Ghost(bound): Ghost<u64>)
    requires
        masses_pos(old(bodies)@),
        unique_ids(old(bodies)@),
        ids_below(old(bodies)@, bound),
    ensures
        final(bodies)@ == resolve_pairs(old(bodies)@, pairs@, 0),
        masses_pos(final(bodies)@),
        unique_ids(final(bodies)@),
        ids_below(final(bodies)@, bound),
        final(bodies)@.len() <= old(bodies)@.len(),
{
    let ghost orig = bodies@;
    let ghost ps = pairs@;
    let n_pairs = pairs.len();
    let mut k: usize = 0;
    while k < n_pairs
        invariant
            pairs@ == ps,
            n_pairs == ps.len(),
            k <= n_pairs,
            resolve_pairs(bodies@, ps, k as int) == resolve_pairs(orig, ps, 0),
            masses_pos(bodies@),
            unique_ids(bodies@),
            ids_below(bodies@, bound),
            bodies@.len() <= orig.len(),
        decreases n_pairs - k,
    {
        let ghost cur = bodies@;
        let (id1, id2) = (pairs[k].0, pairs[k].1);
        let o1 = find_index(bodies, id1);
        let o2 = find_index(bodies, id2);
        proof {
            lemma_find_id_spec(cur, id1, 0);
            lemma_find_id_spec(cur, id2, 0);
        }
        if id1 != id2 && o1.is_some() && o2.is_some() {
            let i1 = o1.unwrap();
            let i2 = o2.unwrap();
            let b2 = bodies.swap_remove(i2);
            let ghost removed = bodies@;
            proof {
                assert(removed == spec_swap_remove(cur, i2 as int));
                // every slot of `removed` is a slot of `cur`
                assert(forall|m: int| 0 <= m < removed.len() ==> removed[m] == (if m == i2 as int {
                    cur[cur.len() - 1]
                } else {
                    cur[m]
                }));
                assert(masses_pos(removed));
                assert(ids_below(removed, bound));
                assert forall|a: int, b: int| 0 <= a < b < removed.len() implies removed[a].id
                    != removed[b].id by {
                    let a0 = if a == i2 as int { cur.len() - 1 } else { a };
                    let b0 = if b == i2 as int { cur.len() - 1 } else { b };
                    assert(removed[a] == cur[a0] && removed[b] == cur[b0]);
                    assert(a0 != b0);
                }
                // id1 is still present after the swap-remove
                if i1 as int == cur.len() - 1 {
                    assert(removed[i2 as int].id == id1);
                } else {
                    assert(removed[i1 as int].id == id1);
                }
                lemma_find_id_spec(removed, id1, 0);
            }
            match find_index(bodies, id1) {
                Some(j1) => {
                    let merged = merge_bodies(&bodies[j1], &b2);
                    let ghost upd = removed.update(j1 as int, spec_merge(removed[j1 as int],
                        cur[i2 as int]));
                    bodies.set(j1, merged);
                    proof {
                        assert(bodies@ == upd);
                        assert(forall|m: int| 0 <= m < upd.len() ==> upd[m].id == removed[m].id);
                        assert(masses_pos(upd));
                        assert(unique_ids(upd));
                        assert(ids_below(upd, bound));
                        assert(resolve_pairs(cur, ps, k as int) == resolve_pairs(upd, ps,
                            k as int + 1));
                    }
                },
                None => {
                    proof {
                        assert(false);
                    }
                },
            }
        } else {
            proof {
                assert(resolve_pairs(cur, ps, k as int) == resolve_pairs(cur, ps, k as int + 1));
            }
        }
        k = k + 1;
    }
}

/// Acceleration phase: each body's pull summed over all the others in list
/// order. Skipping by id equals skipping by index because ids are unique.
fn compute_accelerations(bodies: &Vec<Body>) -> (out: Vec<Body>)
    requires
        unique_ids(bodies@),
    ensures
        out@ == with_accels(bodies@),
{
    let ghost s = bodies@;
    let n = bodies.len();
    let mut out: Vec<Body> = Vec::new();
    let mut i: usize = 0;
    while i < n
        invariant
            bodies@ == s,
            n == s.len(),
            unique_ids(s),
            i <= n,
            out@.len() == i as int,
            forall|m: int| 0 <= m < i as int ==> out@[m] == with_accels(s)[m],
        decreases n - i,
    {
        let mut ax = FixedScalar::from_raw(0);
        let mut ay = FixedScalar::from_raw(0);
        let mut j: usize = 0;
        while j < n
            invariant
                bodies@ == s,
                n == s.len(),
                unique_ids(s),
                i < n,
                j <= n,
                (ax.bits(), ay.bits()) == acc_sum(s, i as int, j as int),
            decreases n - j,
        {
            if bodies[j].id != bodies[i].id {
                let f = bodies[i].force_from(&bodies[j]);
                ax = ax.sat_add(f.x);
                ay = ay.sat_add(f.y);
                proof {
                    assert(j as int != i as int);
                }
            } else {
                proof {
                    assert(j as int == i as int);
                }
            }
            j = j + 1;
        }
        let b = bodies[i];
        let nb = Body {
            id: b.id,
            position: b.position,
            velocity: b.velocity,
            acceleration: Vec2 { x: ax, y: ay },
            mass: b.mass,
        };
        out.push(nb);
        proof {
            assert(out@[i as int] == with_accels(s)[i as int]);
        }
        i = i + 1;
    }
    proof {
        assert(out@ =~= with_accels(s));
    }
    out
}

/// Integration phase: `v += a * TICK; p += v * TICK`, saturating, TICK = 1.
fn integrate_bodies(bodies: &mut Vec<Body>)
    ensures
        final(bodies)@ == integrate(old(bodies)@),
{
    let ghost s = old(bodies)@;
    let one = FixedScalar::from_raw(ONE_BITS);
    let n = bodies.len();
    let mut i: usize = 0;
    while i < n
        invariant
            n == s.len(),
            bodies@.len() == s.len(),
            i <= n,
            one.raw == ONE_BITS,
            forall|m: int| i as int <= m < s.len() ==> bodies@[m] == s[m],
            forall|m: int| 0 <= m < i as int ==> bodies@[m] == integrate(s)[m],
        decreases n - i,
    {
        let b = bodies[i];
        let vx = b.velocity.x.sat_add(b.acceleration.x.sat_mul(one));
        let vy = b.velocity.y.sat_add(b.acceleration.y.sat_mul(one));
        let px = b.position.x.sat_add(vx.sat_mul(one));
        let py = b.position.y.sat_add(vy.sat_mul(one));
        let nb = Body {
            id: b.id,
            position: Vec2 { x: px, y: py },
            velocity: Vec2 { x: vx, y: vy },
            acceleration: b.acceleration,
            mass: b.mass,
        };
        bodies.set(i, nb);
        proof {
            assert(bodies@[i as int] == integrate(s)[i as int]);
        }
        i = i + 1;
    }
    proof {
        assert(bodies@ =~= integrate(s));
    }
}

impl Simulation {
    /// One tick: detect collisions, resolve merges, recompute
    /// accelerations, integrate. The result is exactly the mathematical
    /// model `spec_tick` of the starting list, so any two peers holding
    /// equal lists step to equal lists.
    pub fn step(&mut self)
        requires
            old(self).wf(),
        ensures
            final(self).wf(),
            final(self).bodies@ == spec_tick(old(self).bodies@),
            final(self).next_id == old(self).next_id,
            final(self).bodies@.len() <= old(self).bodies@.len(),
    {
        let ghost s0 = self.bodies@;
        let pairs = find_collisions(&self.bodies);
        resolve_collisions(&mut self.bodies, &pairs, Ghost(self.next_id));
        let ghost resolved = self.bodies@;
        let accs = compute_accelerations(&self.bodies);
        self.bodies = accs;
        integrate_bodies(&mut self.bodies);
        proof {
            let ticked = self.bodies@;
            assert(ticked == spec_tick(s0));
            assert(forall|m: int| 0 <= m < ticked.len() ==> ticked[m].id == resolved[m].id
                && ticked[m].mass == resolved[m].mass);
            assert(masses_pos(ticked));
            assert(unique_ids(ticked));
            assert(ids_below(ticked, self.next_id));
        }
    }
}

/// Left-fold of `(sum position*mass, sum mass)` over bodies `0..j`.
pub open spec fn com_sums(s: Seq<Body>, j: int) -> (int, int, int)
    decreases j,
{
    if j <= 0 {
        (0, 0, 0)
    } else {
        let p = com_sums(s, j - 1);
        let b = s[j - 1];
        (sat_add_bits(p.0, sat_mul_bits(b.position.x.bits(), b.mass.bits())),
        sat_add_bits(p.1, sat_mul_bits(b.position.y.bits(), b.mass.bits())),
        sat_add_bits(p.2, b.mass.bits()))
    }
}

impl Simulation {
    /// The mass-weighted mean position of the bodies.
    pub fn center_of_mass(&self) -> (r: Vec2)
        requires
            masses_pos(self.bodies@),
            self.bodies@.len() > 0,
        ensures
            ({
                let sums = com_sums(self.bodies@, self.bodies@.len() as int);
                r.x.bits() == sat_div_bits(sums.0, sums.2) && r.y.bits() == sat_div_bits(sums.1,
                    sums.2)
            }),
    {
        let ghost s = self.bodies@;
        let n = self.bodies.len();
        let mut px = FixedScalar::from_raw(0);
        let mut py = FixedScalar::from_raw(0);
        let mut m = FixedScalar::from_raw(0);
        let mut j: usize = 0;
        while j < n
            invariant
                self.bodies@ == s,
                n == s.len(),
                masses_pos(s),
                j <= n,
                (px.bits(), py.bits(), m.bits()) == com_sums(s, j as int),
                j > 0 ==> m.bits() > 0,
            decreases n - j,
        {
            let b = self.bodies[j];
            px = px.sat_add(b.position.x.sat_mul(b.mass));
            py = py.sat_add(b.position.y.sat_mul(b.mass));
            m = m.sat_add(b.mass);
            j = j + 1;
        }
        Vec2 { x: px.sat_div(m), y: py.sat_div(m) }
    }
}

impl Simulation {
    /// The read-only view a renderer consumes: per body, the raw bits of
    /// `(x, y, radius, mass)`, in list order. The conversion to display
    /// floats happens outside the core.
    pub fn render_views(&self) -> (r: Vec<(i64, i64, i64, i64)>)
        requires
            masses_pos(self.bodies@),
        ensures
            r@.len() == self.bodies@.len(),
            forall|m: int| 0 <= m < r@.len() ==> r@[m] == (self.bodies@[m].position.x.raw,
                self.bodies@[m].position.y.raw, spec_radius_bits(self.bodies@[m].mass.bits())
                as i64, self.bodies@[m].mass.raw),
    {
        let ghost s = self.bodies@;
        let n = self.bodies.len();
        let mut out: Vec<(i64, i64, i64, i64)> = Vec::new();
        let mut i: usize = 0;
        while i < n
            invariant
                self.bodies@ == s,
                masses_pos(s),
                n == s.len(),
                i <= n,
                out@.len() == i as int,
                forall|m: int| 0 <= m < i as int ==> out@[m] == (s[m].position.x.raw,
                    s[m].position.y.raw, spec_radius_bits(s[m].mass.bits()) as i64,
                    s[m].mass.raw),
            decreases n - i,
        {
            let b = self.bodies[i];
            let radius = b.radius();
            out.push((b.position.x.to_raw(), b.position.y.to_raw(), radius.to_raw(),
                b.mass.to_raw()));
            i = i + 1;
        }
        out
    }
}

/// Sum of the raw mass bits of all bodies, as an unbounded integer.
pub open spec fn total_mass(s: Seq<Body>) -> int
    decreases s.len(),
{
    if s.len() == 0 {
        0
    } else {
        total_mass(s.drop_last()) + s.last().mass.bits()
    }
}

proof fn lemma_total_mass_update(s: Seq<Body>, i: int, b: Body)
    requires
        0 <= i < s.len(),
    ensures
        total_mass(s.update(i, b)) == total_mass(s) - s[i].mass.bits() + b.mass.bits(),
    decreases s.len(),
{
    let t = s.update(i, b);
    if i == s.len() - 1 {
        assert(t.drop_last() =~= s.drop_last());
    } else {
        assert(t.drop_last() =~= s.drop_last().update(i, b));
        lemma_total_mass_update(s.drop_last(), i, b);
    }
}

proof fn lemma_total_mass_swap_remove(s: Seq<Body>, i: int)
    requires
        0 <= i < s.len(),
    ensures
        total_mass(spec_swap_remove(s, i)) == total_mass(s) - s[i].mass.bits(),
{
    let t = s.update(i, s.last());
    if i == s.len() - 1 {
        assert(t =~= s);
    } else {
        lemma_total_mass_update(s, i, s.last());
    }
}

proof fn lemma_mass_le_total(s: Seq<Body>, i: int)
    requires
        masses_pos(s),
        0 <= i < s.len(),
    ensures
        total_mass(s) >= 0,
        s[i].mass.bits() <= total_mass(s),
    decreases s.len(),
{
    let d = s.drop_last();
    assert(s.last() == s[s.len() - 1]);
    assert(s.last().mass.bits() > 0);
    assert(total_mass(s) == total_mass(d) + s.last().mass.bits());
    assert(forall|m: int| 0 <= m < d.len() ==> d[m] == s[m]);
    assert(masses_pos(d));
    if s.len() == 1 {
        assert(total_mass(d) == 0);
    } else {
        if i == s.len() - 1 {
            lemma_total_nonneg(d);
        } else {
            lemma_mass_le_total(d, i);
        }
    }
}

proof fn lemma_total_nonneg(s: Seq<Body>)
    requires
        masses_pos(s),
    ensures
        total_mass(s) >= 0,
    decreases s.len(),
{
    if s.len() > 0 {
        lemma_total_nonneg(s.drop_last());
    }
}

/// Pointwise-equal masses give equal totals.
proof fn lemma_total_mass_pointwise(s1: Seq<Body>, s2: Seq<Body>)
    requires
        s1.len() == s2.len(),
        forall|m: int| 0 <= m < s1.len() ==> s1[m].mass == s2[m].mass,
    ensures
        total_mass(s1) == total_mass(s2),
    decreases s1.len(),
{
    if s1.len() > 0 {
        lemma_total_mass_pointwise(s1.drop_last(), s2.drop_last());
    }
}

proof fn lemma_resolve_conserves_mass(s: Seq<Body>, pairs: Seq<(u64, u64)>, k: int)
    requires
        masses_pos(s),
        total_mass(s) <= i64::MAX as int,
    ensures
        total_mass(resolve_pairs(s, pairs, k)) == total_mass(s),
        masses_pos(resolve_pairs(s, pairs, k)),
    decreases pairs.len() - k,
{
    if 0 <= k < pairs.len() {
        let (id1, id2) = pairs[k];
        let i1 = find_id(s, id1);
        let i2 = find_id(s, id2);
        lemma_find_id_spec(s, id1, 0);
        lemma_find_id_spec(s, id2, 0);
        if id1 != id2 && i1 >= 0 && i2 >= 0 {
            let removed = spec_swap_remove(s, i2);
            assert(forall|m: int| 0 <= m < removed.len() ==> removed[m] == (if m == i2 {
                s[s.len() - 1]
            } else {
                s[m]
            }));
            assert(masses_pos(removed));
            let j1 = find_id(removed, id1);
            if i1 == s.len() - 1 {
                assert(removed[i2].id == id1);
            } else {
                assert(removed[i1].id == id1);
            }
            lemma_find_id_spec(removed, id1, 0);
            let m1 = removed[j1].mass.bits();
            let m2 = s[i2].mass.bits();
            lemma_total_mass_swap_remove(s, i2);
            lemma_mass_le_total(removed, j1);
            lemma_mass_le_total(s, i2);
            let merged = spec_merge(removed[j1], s[i2]);
            assert(merged.mass.bits() == m1 + m2);
            let s2 = removed.update(j1, merged);
            lemma_total_mass_update(removed, j1, merged);
            assert(total_mass(s2) == total_mass(s));
            assert(masses_pos(s2));
            lemma_resolve_conserves_mass(s2, pairs, k + 1);
        } else {
            lemma_resolve_conserves_mass(s, pairs, k + 1);
        }
    }
}

/// Mass conservation: as long as the true total of the masses stays
/// representable, one tick leaves the total mass unchanged (merges move
/// mass, never lose it), so the total is in particular non-decreasing.
pub proof fn lemma_tick_conserves_mass(s: Seq<Body>)
    requires
        masses_pos(s),
        total_mass(s) <= i64::MAX as int,
    ensures
        total_mass(spec_tick(s)) == total_mass(s),
{
    let resolved = resolve_pairs(s, collision_pairs(s), 0);
    lemma_resolve_conserves_mass(s, collision_pairs(s), 0);
    let acc = with_accels(resolved);
    lemma_total_mass_pointwise(acc, resolved);
    lemma_total_mass_pointwise(integrate(acc), acc);
}

} // verus!
