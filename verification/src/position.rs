//! The position solver, dynamic-dynamic sub-pass: resolves interpenetration
//! between candidate circle pairs, splitting the correction by inverse mass,
//! and records the confirmed contacts.

use vstd::prelude::*;

use crate::broad_phase::dist_sq;
use crate::math::{sat, sat_i128, sqrt_floor, tdiv, tdiv_i128, isqrt_u128, COORD_LIMIT};
use crate::types::{
    is_dynamic, radius_of, Body, CandidatePair, Contact, Vec2, NORM_ONE,
};
use crate::world::World;

verus! {

/// True overlap with bare radii (no broad-phase margin).
pub open spec fn circles_overlap(a: Body, b: Body) -> bool {
    let cr = radius_of(a) + radius_of(b);
    dist_sq(a.pos, b.pos) < cr * cr
}

/// Center distance, rounded down.
pub open spec fn center_dist(a: Body, b: Body) -> int {
    sqrt_floor(dist_sq(a.pos, b.pos))
}

/// Unit contact normal from `a` toward `b`, scaled by `NORM_ONE`
/// (x component).
pub open spec fn norm_x_of(a: Body, b: Body) -> int {
    tdiv((b.pos.x - a.pos.x) * NORM_ONE, center_dist(a, b))
}

/// Unit contact normal from `a` toward `b`, scaled by `NORM_ONE`
/// (y component).
pub open spec fn norm_y_of(a: Body, b: Body) -> int {
    tdiv((b.pos.y - a.pos.y) * NORM_ONE, center_dist(a, b))
}

/// Penetration depth of two overlapping circles.
pub open spec fn depth_of(a: Body, b: Body) -> int {
    radius_of(a) + radius_of(b) - center_dist(a, b)
}

/// The body store after resolving one candidate pair: if the circles truly
/// overlap (and are not exactly concentric, where the normal is undefined
/// and the contact is skipped), each body moves along the contact normal
/// away from the other, the split weighted by inverse mass, so the heavier
/// body moves less and the total correction equals the penetration depth.
pub open spec fn solve_pair_bodies(bodies: Seq<Body>, p: CandidatePair) -> Seq<Body> {
    let a = bodies[p.a as int];
    let b = bodies[p.b as int];
    if !circles_overlap(a, b) || center_dist(a, b) == 0 {
        bodies
    } else {
        let nx = norm_x_of(a, b);
        let ny = norm_y_of(a, b);
        let depth = depth_of(a, b);
        let msum = a.mass + b.mass;
        let na = Body {
            pos: Vec2 {
                x: sat(a.pos.x - tdiv(nx * depth * b.mass, msum * NORM_ONE)) as i64,
                y: sat(a.pos.y - tdiv(ny * depth * b.mass, msum * NORM_ONE)) as i64,
            },
            ..a
        };
        let nb = Body {
            pos: Vec2 {
                x: sat(b.pos.x + tdiv(nx * depth * a.mass, msum * NORM_ONE)) as i64,
                y: sat(b.pos.y + tdiv(ny * depth * a.mass, msum * NORM_ONE)) as i64,
            },
            ..b
        };
        bodies.update(p.a as int, na).update(p.b as int, nb)
    }
}

/// The contact list after resolving one candidate pair: a confirmed overlap
/// appends `(a, b, normal)` with the normal pointing from `a` toward `b`.
pub open spec fn solve_pair_contacts(
    bodies: Seq<Body>,
    contacts: Seq<Contact>,
    p: CandidatePair,
) -> Seq<Contact> {
    let a = bodies[p.a as int];
    let b = bodies[p.b as int];
    if !circles_overlap(a, b) || center_dist(a, b) == 0 {
        contacts
    } else {
        contacts.push(
            Contact {
                a: p.a,
                b: p.b,
                normal: Vec2 { x: norm_x_of(a, b) as i64, y: norm_y_of(a, b) as i64 },
            },
        )
    }
}

/// The body store and contact list after resolving the candidate pairs in
/// order.
pub open spec fn solve_pairs_from(
    bodies: Seq<Body>,
    contacts: Seq<Contact>,
    pairs: Seq<CandidatePair>,
) -> (Seq<Body>, Seq<Contact>)
    decreases pairs.len(),
{
    if pairs.len() == 0 {
        (bodies, contacts)
    } else {
        solve_pairs_from(
            solve_pair_bodies(bodies, pairs[0]),
            solve_pair_contacts(bodies, contacts, pairs[0]),
            pairs.subrange(1, pairs.len() as int),
        )
    }
}

impl World {
    /// Resolves interpenetration for every broad-phase candidate pair, in
    /// order, and records each confirmed contact with its normal, so the
    /// velocity solve later replays exactly the normals the position solve
    /// acted on (symmetric with the static sub-passes).  A pair naming one
    /// body twice is ruled out by well-formedness, never processed.
    pub fn solve_pos(&mut self)
        requires
            old(self).wf(),
        ensures
            final(self).wf(),
            (final(self).bodies@, final(self).contacts@) == solve_pairs_from(
                old(self).bodies@,
                old(self).contacts@,
                old(self).pairs@,
            ),
            final(self).bodies@.len() == old(self).bodies@.len(),
            forall|j: int|
                0 <= j < old(self).bodies@.len() ==> #[trigger] crate::integrator::keeps_body(
                    old(self).bodies@[j],
                    final(self).bodies@[j],
                ),
            final(self).gravity == old(self).gravity,
            final(self).inv_dt == old(self).inv_dt,
            final(self).pairs@ == old(self).pairs@,
            final(self).static_contacts@ == old(self).static_contacts@,
    {
        let ghost orig = *self;
        let plen = self.pairs.len();
        let mut k: usize = 0;
        proof {
            assert(orig.pairs@.subrange(0, plen as int) =~= orig.pairs@);
            assert forall|j: int|
                0 <= j < orig.bodies@.len() implies #[trigger] crate::integrator::keeps_body(
                orig.bodies@[j],
                self.bodies@[j],
            ) by {
                assert(crate::types::body_ok(orig.bodies@[j]));
            }
        }
        while k < plen
            invariant
                orig.wf(),
                0 <= k <= plen,
                plen == orig.pairs@.len(),
                self.bodies@.len() == orig.bodies@.len(),
                self.gravity == orig.gravity,
                self.inv_dt == orig.inv_dt,
                self.pairs@ == orig.pairs@,
                self.static_contacts@ == orig.static_contacts@,
                forall|j: int|
                    0 <= j < orig.bodies@.len() ==> #[trigger] crate::integrator::keeps_body(
                        orig.bodies@[j],
                        self.bodies@[j],
                    ),
                crate::types::dyn_contacts_ok(self.bodies@, self.contacts@),
                solve_pairs_from(
                    self.bodies@,
                    self.contacts@,
                    orig.pairs@.subrange(k as int, plen as int),
                ) == solve_pairs_from(orig.bodies@, orig.contacts@, orig.pairs@),
            decreases plen - k,
        {
            let ghost bodies0 = self.bodies@;
            let ghost contacts0 = self.contacts@;
            let ghost sub = orig.pairs@.subrange(k as int, plen as int);
            let p = self.pairs[k];
            proof {
                assert(crate::types::pair_ok(orig.bodies@, orig.pairs@[k as int]));
                assert(crate::integrator::keeps_body(
                    orig.bodies@[p.a as int],
                    self.bodies@[p.a as int],
                ));
                assert(crate::integrator::keeps_body(
                    orig.bodies@[p.b as int],
                    self.bodies@[p.b as int],
                ));
                assert(crate::types::body_ok(orig.bodies@[p.a as int]));
                assert(crate::types::body_ok(orig.bodies@[p.b as int]));
                assert(sub[0] == p);
                assert(sub.subrange(1, sub.len() as int) =~= orig.pairs@.subrange(
                    k as int + 1,
                    plen as int,
                ));
            }
            let ba = self.bodies[p.a];
            let bb = self.bodies[p.b];
            let dx = bb.pos.x as i128 - ba.pos.x as i128;
            let dy = bb.pos.y as i128 - ba.pos.y as i128;
            proof {
                crate::math::lemma_square_bound(dx as int, 2 * COORD_LIMIT);
                crate::math::lemma_square_bound(dy as int, 2 * COORD_LIMIT);
            }
            let d2 = dx * dx + dy * dy;
            let ra = crate::broad_phase::circle_radius(&ba);
            let rb = crate::broad_phase::circle_radius(&bb);
            let cr = ra as i128 + rb as i128;
            proof {
                crate::math::lemma_square_bound(cr as int, 2_000_000);
            }
            if d2 < cr * cr {
                let dist = isqrt_u128(d2 as u128);
                proof {
                    crate::math::lemma_sqrt_floor(d2 as int);
                }
                if dist > 0 {
                    proof {
                        assert((dist as int) < cr as int) by (nonlinear_arith)
                            requires
                                (dist as int) * (dist as int) <= d2 as int,
                                (d2 as int) < (cr as int) * (cr as int),
                                dist as int >= 0,
                                cr as int >= 0,
                        ;
                        let axd = if dx >= 0 {
                            dx as int
                        } else {
                            -(dx as int)
                        };
                        let ayd = if dy >= 0 {
                            dy as int
                        } else {
                            -(dy as int)
                        };
                        assert(axd * axd == (dx as int) * (dx as int)) by (nonlinear_arith)
                            requires
                                axd == dx as int || axd == -(dx as int),
                        ;
                        assert(ayd * ayd == (dy as int) * (dy as int)) by (nonlinear_arith)
                            requires
                                ayd == dy as int || ayd == -(dy as int),
                        ;
                        crate::math::lemma_sqrt_floor_square(axd);
                        crate::math::lemma_sqrt_floor_square(ayd);
                        crate::math::lemma_sqrt_floor_ordered(axd * axd, d2 as int);
                        crate::math::lemma_sqrt_floor_ordered(ayd * ayd, d2 as int);
                        crate::math::lemma_tdiv_abs_le(
                            dx as int * NORM_ONE,
                            dist as int,
                            NORM_ONE as int,
                        );
                        crate::math::lemma_tdiv_abs_le(
                            dy as int * NORM_ONE,
                            dist as int,
                            NORM_ONE as int,
                        );
                    }
                    let nx = tdiv_i128(dx * NORM_ONE as i128, dist as i128);
                    let ny = tdiv_i128(dy * NORM_ONE as i128, dist as i128);
                    let depth = cr - dist as i128;
                    let msum = ba.mass as i128 + bb.mass as i128;
                    proof {
                        crate::math::lemma_mul_abs_bound(
                            nx as int,
                            depth as int,
                            NORM_ONE as int,
                            2_000_000,
                        );
                        crate::math::lemma_mul_abs_bound(
                            ny as int,
                            depth as int,
                            NORM_ONE as int,
                            2_000_000,
                        );
                        crate::math::lemma_mul_abs_bound(
                            nx as int * depth as int,
                            bb.mass as int,
                            2_000_000_000,
                            1_000_000,
                        );
                        crate::math::lemma_mul_abs_bound(
                            ny as int * depth as int,
                            bb.mass as int,
                            2_000_000_000,
                            1_000_000,
                        );
                        crate::math::lemma_mul_abs_bound(
                            nx as int * depth as int,
                            ba.mass as int,
                            2_000_000_000,
                            1_000_000,
                        );
                        crate::math::lemma_mul_abs_bound(
                            ny as int * depth as int,
                            ba.mass as int,
                            2_000_000_000,
                            1_000_000,
                        );
                    }
                    let cax = tdiv_i128(nx * depth * bb.mass as i128, msum * NORM_ONE as i128);
                    let cay = tdiv_i128(ny * depth * bb.mass as i128, msum * NORM_ONE as i128);
                    let cbx = tdiv_i128(nx * depth * ba.mass as i128, msum * NORM_ONE as i128);
                    let cby = tdiv_i128(ny * depth * ba.mass as i128, msum * NORM_ONE as i128);
                    let na = Body {
                        pos: Vec2 {
                            x: sat_i128(ba.pos.x as i128 - cax),
                            y: sat_i128(ba.pos.y as i128 - cay),
                        },
                        ..ba
                    };
                    let nb = Body {
                        pos: Vec2 {
                            x: sat_i128(bb.pos.x as i128 + cbx),
                            y: sat_i128(bb.pos.y as i128 + cby),
                        },
                        ..bb
                    };
                    self.bodies[p.a] = na;
                    self.bodies[p.b] = nb;
                    self.contacts.push(
                        Contact { a: p.a, b: p.b, normal: Vec2 { x: nx as i64, y: ny as i64 } },
                    );
                    proof {
                        assert(self.bodies@ =~= solve_pair_bodies(bodies0, p));
                        assert(self.contacts@ =~= solve_pair_contacts(bodies0, contacts0, p));
                        assert forall|j: int|
                            0 <= j < orig.bodies@.len() implies #[trigger] crate::integrator::keeps_body(
                            orig.bodies@[j],
                            self.bodies@[j],
                        ) by {
                            assert(crate::integrator::keeps_body(orig.bodies@[j], bodies0[j]));
                        }
                        assert forall|c: int|
                            0 <= c < self.contacts@.len() implies #[trigger] crate::types::dyn_contact_ok(
                            self.bodies@,
                            self.contacts@[c],
                        ) by {
                            if c < contacts0.len() {
                                assert(crate::types::dyn_contact_ok(bodies0, contacts0[c]));
                            }
                        }
                    }
                } else {
                    proof {
                        assert(center_dist(bodies0[p.a as int], bodies0[p.b as int]) == 0);
                    }
                }
            } else {
                proof {
                    assert(!circles_overlap(bodies0[p.a as int], bodies0[p.b as int]));
                }
            }
            k = k + 1;
        }
        proof {
            assert(orig.pairs@.subrange(plen as int, plen as int) =~= Seq::<
                CandidatePair,
            >::empty());
            let w2 = World { contacts: orig.contacts, ..*self };
            crate::integrator::lemma_pointwise_wf(orig, w2);
            assert(self.wf());
        }
    }
}

} // verus!
