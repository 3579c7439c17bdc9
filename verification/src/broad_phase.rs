//! The broad-phase pair collector: a brute-force pairwise scan of the
//! dynamic circles with a velocity-aware safety margin.

use vstd::prelude::*;

use crate::math::{sqrt_floor, tdiv, tdiv_i128, isqrt_u128, COORD_LIMIT};
use crate::types::{is_dynamic, radius_of, Body, CandidatePair, Shape, Vec2};
use crate::world::World;

verus! {

pub open spec fn speed_sq(v: Vec2) -> int {
    v.x * v.x + v.y * v.y
}

pub open spec fn dist_sq(p: Vec2, q: Vec2) -> int {
    (q.x - p.x) * (q.x - p.x) + (q.y - p.y) * (q.y - p.y)
}

/// The squared speculative margin `(2 * dt)^2 * (|vel_a|^2 + |vel_b|^2)`:
/// a safety multiplier of two over the distance either body can travel in
/// one step, so fast-approaching bodies are not missed.
pub open spec fn margin_sq(a: Body, b: Body, inv_dt: int) -> int {
    tdiv(4 * (speed_sq(a.vel) + speed_sq(b.vel)), inv_dt * inv_dt)
}

/// The broad-phase test: centers closer than the combined radii expanded by
/// the speculative margin.
pub open spec fn close_enough(a: Body, b: Body, inv_dt: int) -> bool {
    let cr = radius_of(a) + radius_of(b) + sqrt_floor(margin_sq(a, b, inv_dt));
    dist_sq(a.pos, b.pos) < cr * cr
}

/// A pair the broad phase must emit: two distinct dynamic bodies, in
/// descending index order, within the expanded combined radius.
pub open spec fn candidate(bodies: Seq<Body>, i: int, j: int, inv_dt: int) -> bool {
    &&& 0 <= j < i < bodies.len()
    &&& is_dynamic(bodies[i])
    &&& is_dynamic(bodies[j])
    &&& close_enough(bodies[i], bodies[j], inv_dt)
}

/// Strict lexicographic order on candidate pairs.
pub open spec fn pair_lt(p: CandidatePair, q: CandidatePair) -> bool {
    p.a < q.a || (p.a == q.a && p.b < q.b)
}

/// The circle radius of a body (zero for a rectangle).
pub fn circle_radius(b: &Body) -> (r: i64)
    ensures
        r as int == radius_of(*b),
{
    match b.shape {
        Shape::Circle { radius } => radius,
        Shape::Rect { .. } => 0,
    }
}

impl World {
    /// Rebuilds the candidate pair list: every unordered pair of dynamic
    /// circles whose expanded radii might overlap this step appears exactly
    /// once, as `(a, b)` with `a > b`, in strictly increasing lexicographic
    /// order; nothing else appears.
    pub fn collect_collision_pairs(&mut self)
        requires
            old(self).wf(),
        ensures
            final(self).wf(),
            final(self).bodies@ == old(self).bodies@,
            final(self).gravity == old(self).gravity,
            final(self).inv_dt == old(self).inv_dt,
            final(self).contacts@ == old(self).contacts@,
            final(self).static_contacts@ == old(self).static_contacts@,
            forall|k: int|
                0 <= k < final(self).pairs@.len() ==> candidate(
                    old(self).bodies@,
                    #[trigger] final(self).pairs@[k].a as int,
                    final(self).pairs@[k].b as int,
                    old(self).inv_dt as int,
                ),
            forall|i: int, j: int|
                #[trigger] candidate(old(self).bodies@, i, j, old(self).inv_dt as int)
                    ==> final(self).pairs@.contains(
                    CandidatePair { a: i as usize, b: j as usize },
                ),
            forall|k1: int, k2: int|
                0 <= k1 < k2 < final(self).pairs@.len() ==> pair_lt(
                    #[trigger] final(self).pairs@[k1],
                    #[trigger] final(self).pairs@[k2],
                ),
    {
        let ghost orig = *self;
        self.pairs.clear();
        let inv_dt = self.inv_dt;
        let n = self.bodies.len();
        let mut a: usize = 0;
        while a < n
            invariant
                orig.wf(),
                0 <= a <= n,
                n == self.bodies@.len(),
                self.bodies@ == orig.bodies@,
                inv_dt == orig.inv_dt,
                self.gravity == orig.gravity,
                self.inv_dt == orig.inv_dt,
                self.contacts@ == orig.contacts@,
                self.static_contacts@ == orig.static_contacts@,
                crate::types::pairs_ok(self.bodies@, self.pairs@),
                forall|k: int|
                    0 <= k < self.pairs@.len() ==> candidate(
                        orig.bodies@,
                        #[trigger] self.pairs@[k].a as int,
                        self.pairs@[k].b as int,
                        orig.inv_dt as int,
                    ),
                forall|k: int| 0 <= k < self.pairs@.len() ==> (#[trigger] self.pairs@[k]).a < a,
                forall|i: int, j: int|
                    #[trigger] candidate(orig.bodies@, i, j, orig.inv_dt as int) && i < a
                        ==> self.pairs@.contains(CandidatePair { a: i as usize, b: j as usize }),
                forall|k1: int, k2: int|
                    0 <= k1 < k2 < self.pairs@.len() ==> pair_lt(
                        #[trigger] self.pairs@[k1],
                        #[trigger] self.pairs@[k2],
                    ),
            decreases n - a,
        {
            let ba = self.bodies[a];
            proof {
                assert(crate::types::body_ok(orig.bodies@[a as int]));
            }
            if ba.mass == 0 {
                proof {
                    assert(!is_dynamic(orig.bodies@[a as int]));
                }
            } else {
                let vax = ba.vel.x as i128;
                let vay = ba.vel.y as i128;
                proof {
                    crate::math::lemma_square_bound(vax as int, COORD_LIMIT as int);
                    crate::math::lemma_square_bound(vay as int, COORD_LIMIT as int);
                }
                let va2 = vax * vax + vay * vay;
                let ra = circle_radius(&ba);
                let mut bj: usize = 0;
                while bj < a
                    invariant
                        orig.wf(),
                        0 <= bj <= a < n,
                        n == self.bodies@.len(),
                        self.bodies@ == orig.bodies@,
                        inv_dt == orig.inv_dt,
                        self.gravity == orig.gravity,
                        self.inv_dt == orig.inv_dt,
                        self.contacts@ == orig.contacts@,
                        self.static_contacts@ == orig.static_contacts@,
                        ba == orig.bodies@[a as int],
                        ba.mass > 0,
                        va2 == speed_sq(ba.vel),
                        ra as int == radius_of(ba),
                        crate::types::pairs_ok(self.bodies@, self.pairs@),
                        forall|k: int|
                            0 <= k < self.pairs@.len() ==> candidate(
                                orig.bodies@,
                                #[trigger] self.pairs@[k].a as int,
                                self.pairs@[k].b as int,
                                orig.inv_dt as int,
                            ),
                        forall|k: int|
                            0 <= k < self.pairs@.len() ==> {
                                let p = #[trigger] self.pairs@[k];
                                p.a < a || (p.a == a && p.b < bj)
                            },
                        forall|i: int, j: int|
                            #[trigger] candidate(orig.bodies@, i, j, orig.inv_dt as int) && (i < a
                                || (i == a && j < bj)) ==> self.pairs@.contains(
                                CandidatePair { a: i as usize, b: j as usize },
                            ),
                        forall|k1: int, k2: int|
                            0 <= k1 < k2 < self.pairs@.len() ==> pair_lt(
                                #[trigger] self.pairs@[k1],
                                #[trigger] self.pairs@[k2],
                            ),
                    decreases a - bj,
                {
                    let bb = self.bodies[bj];
                    proof {
                        assert(crate::types::body_ok(orig.bodies@[a as int]));
                        assert(crate::types::body_ok(orig.bodies@[bj as int]));
                    }
                    if bb.mass > 0 {
                        let vbx = bb.vel.x as i128;
                        let vby = bb.vel.y as i128;
                        proof {
                            crate::math::lemma_square_bound(vbx as int, COORD_LIMIT as int);
                            crate::math::lemma_square_bound(vby as int, COORD_LIMIT as int);
                        }
                        let vb2 = vbx * vbx + vby * vby;
                        let rb = circle_radius(&bb);
                        proof {
                            crate::math::lemma_square_bound(ba.vel.x as int, COORD_LIMIT as int);
                            crate::math::lemma_square_bound(ba.vel.y as int, COORD_LIMIT as int);
                        }
                        proof {
                            assert(1 <= (inv_dt as int) * (inv_dt as int) <= 1_000_000int)
                                by (nonlinear_arith)
                                requires
                                    1 <= inv_dt <= 1000,
                            ;
                        }
                        let msq = tdiv_i128(4 * (va2 + vb2), inv_dt as i128 * inv_dt as i128);
                        proof {
                            crate::math::lemma_tdiv_bound(
                                4 * (va2 + vb2),
                                (inv_dt * inv_dt) as int,
                            );
                        }
                        let m = isqrt_u128(msq as u128);
                        proof {
                            crate::math::lemma_sqrt_floor(msq as int);
                            assert(m as int <= 4_000_000_000_000_000_000int) by (nonlinear_arith)
                                requires
                                    m >= 0,
                                    (m as int) * (m as int)
                                        <= 16_000_000_000_000_000_000_000_000_000_000_000_000int,
                            ;
                        }
                        let cr = ra as i128 + rb as i128 + m as i128;
                        proof {
                            crate::math::lemma_square_bound(cr as int, 4_000_000_000_002_000_000);
                            crate::math::lemma_square_bound(bb.pos.x - ba.pos.x, 2 * COORD_LIMIT);
                            crate::math::lemma_square_bound(bb.pos.y - ba.pos.y, 2 * COORD_LIMIT);
                        }
                        let dx = bb.pos.x as i128 - ba.pos.x as i128;
                        let dy = bb.pos.y as i128 - ba.pos.y as i128;
                        let d2 = dx * dx + dy * dy;
                        let ghost pairs_before = self.pairs@;
                        if d2 < cr * cr {
                            self.pairs.push(CandidatePair { a, b: bj });
                            proof {
                                let np = CandidatePair { a, b: bj };
                                assert(candidate(
                                    orig.bodies@,
                                    a as int,
                                    bj as int,
                                    orig.inv_dt as int,
                                ));
                                assert(self.pairs@[pairs_before.len() as int] == np);
                                assert forall|i: int, j: int|
                                    #[trigger] candidate(orig.bodies@, i, j, orig.inv_dt as int)
                                        && (i < a || (i == a && j < bj + 1)) implies self.pairs@
                                    .contains(
                                    CandidatePair { a: i as usize, b: j as usize },
                                ) by {
                                    let p = CandidatePair { a: i as usize, b: j as usize };
                                    if i == a as int && j == bj as int {
                                        assert(self.pairs@[pairs_before.len() as int] == p);
                                    } else {
                                        assert(pairs_before.contains(p));
                                        let k = choose|k: int|
                                            0 <= k < pairs_before.len() && pairs_before[k] == p;
                                        assert(self.pairs@[k] == p);
                                    }
                                }
                            }
                        } else {
                            proof {
                                assert(!close_enough(
                                    orig.bodies@[a as int],
                                    orig.bodies@[bj as int],
                                    orig.inv_dt as int,
                                ));
                            }
                        }
                    } else {
                        proof {
                            assert(!is_dynamic(orig.bodies@[bj as int]));
                        }
                    }
                    bj = bj + 1;
                }
            }
            a = a + 1;
        }
    }
}

} // verus!
