//! The velocity solver: derives velocity impulses from the recorded
//! contacts and restitution, clamped so bounce only ever adds separating
//! velocity.

use vstd::prelude::*;

use crate::math::{sat, sat_i128, tdiv, tdiv_i128, COORD_LIMIT};
use crate::types::{Body, Contact, Vec2, NORM_ONE, REST_ONE};
use crate::world::World;

verus! {

/// One dynamic-dynamic contact: the impulse restores, along the recorded
/// normal, the bounce owed by restitution (computed against the pre-solve
/// velocities) and cancels the current closing velocity, distributed by
/// inverse mass and applied oppositely to the two bodies.
pub open spec fn vel_pair_bodies(bodies: Seq<Body>, c: Contact) -> Seq<Body> {
    let a = bodies[c.a as int];
    let b = bodies[c.b as int];
    let nx = c.normal.x as int;
    let ny = c.normal.y as int;
    let pre_n = tdiv(
        (a.pre_solve_vel.x - b.pre_solve_vel.x) * nx + (a.pre_solve_vel.y - b.pre_solve_vel.y)
            * ny,
        NORM_ONE as int,
    );
    let vn = tdiv((a.vel.x - b.vel.x) * nx + (a.vel.y - b.vel.y) * ny, NORM_ONE as int);
    let rest = tdiv(a.restitution + b.restitution, 2);
    let rv0 = tdiv(-(rest * pre_n), REST_ONE as int);
    let rv = if rv0 > 0 {
        0
    } else {
        rv0
    };
    let s = -vn + rv;
    let msum = a.mass + b.mass;
    let na = Body {
        vel: Vec2 {
            x: sat(a.vel.x + tdiv(nx * s * b.mass, msum * NORM_ONE)) as i64,
            y: sat(a.vel.y + tdiv(ny * s * b.mass, msum * NORM_ONE)) as i64,
        },
        ..a
    };
    let nb = Body {
        vel: Vec2 {
            x: sat(b.vel.x - tdiv(nx * s * a.mass, msum * NORM_ONE)) as i64,
            y: sat(b.vel.y - tdiv(ny * s * a.mass, msum * NORM_ONE)) as i64,
        },
        ..b
    };
    bodies.update(c.a as int, na).update(c.b as int, nb)
}

/// The body store after applying the dynamic-dynamic contacts in order.
pub open spec fn vel_pairs_from(bodies: Seq<Body>, contacts: Seq<Contact>) -> Seq<Body>
    decreases contacts.len(),
{
    if contacts.len() == 0 {
        bodies
    } else {
        vel_pairs_from(vel_pair_bodies(bodies, contacts[0]), contacts.subrange(1, contacts.len() as int))
    }
}

/// One dynamic-static contact: as the dynamic-dynamic case, but only the
/// dynamic body's velocity changes (no inverse-mass split) and the static
/// body contributes its restitution directly.
pub open spec fn vel_static_bodies(bodies: Seq<Body>, c: Contact) -> Seq<Body> {
    let a = bodies[c.a as int];
    let b = bodies[c.b as int];
    let nx = c.normal.x as int;
    let ny = c.normal.y as int;
    let pre_n = tdiv(a.pre_solve_vel.x * nx + a.pre_solve_vel.y * ny, NORM_ONE as int);
    let vn = tdiv(a.vel.x * nx + a.vel.y * ny, NORM_ONE as int);
    let rest = tdiv(a.restitution + b.restitution, 2);
    let rv0 = tdiv(-(rest * pre_n), REST_ONE as int);
    let rv = if rv0 > 0 {
        0
    } else {
        rv0
    };
    let s = -vn + rv;
    let na = Body {
        vel: Vec2 {
            x: sat(a.vel.x + tdiv(nx * s, NORM_ONE as int)) as i64,
            y: sat(a.vel.y + tdiv(ny * s, NORM_ONE as int)) as i64,
        },
        ..a
    };
    bodies.update(c.a as int, na)
}

/// The body store after applying the dynamic-static contacts in order.
pub open spec fn vel_statics_from(bodies: Seq<Body>, contacts: Seq<Contact>) -> Seq<Body>
    decreases contacts.len(),
{
    if contacts.len() == 0 {
        bodies
    } else {
        vel_statics_from(
            vel_static_bodies(bodies, contacts[0]),
            contacts.subrange(1, contacts.len() as int),
        )
    }
}

impl World {
    /// Applies the restitution-aware velocity impulse of every recorded
    /// dynamic-dynamic contact, in order.
    pub fn solve_vel(&mut self)
        requires
            old(self).wf(),
        ensures
            final(self).wf(),
            final(self).bodies@ == vel_pairs_from(old(self).bodies@, old(self).contacts@),
            final(self).bodies@.len() == old(self).bodies@.len(),
            forall|j: int|
                0 <= j < old(self).bodies@.len() ==> #[trigger] crate::integrator::keeps_body(
                    old(self).bodies@[j],
                    final(self).bodies@[j],
                ),
            final(self).gravity == old(self).gravity,
            final(self).inv_dt == old(self).inv_dt,
            final(self).pairs@ == old(self).pairs@,
            final(self).contacts@ == old(self).contacts@,
            final(self).static_contacts@ == old(self).static_contacts@,
    {
        let ghost orig = *self;
        let clen = self.contacts.len();
        let mut k: usize = 0;
        proof {
            assert(orig.contacts@.subrange(0, clen as int) =~= orig.contacts@);
            assert forall|j: int|
                0 <= j < orig.bodies@.len() implies #[trigger] crate::integrator::keeps_body(
                orig.bodies@[j],
                self.bodies@[j],
            ) by {
                assert(crate::types::body_ok(orig.bodies@[j]));
            }
        }
        while k < clen
            invariant
                orig.wf(),
                0 <= k <= clen,
                clen == orig.contacts@.len(),
                self.bodies@.len() == orig.bodies@.len(),
                self.gravity == orig.gravity,
                self.inv_dt == orig.inv_dt,
                self.pairs@ == orig.pairs@,
                self.contacts@ == orig.contacts@,
                self.static_contacts@ == orig.static_contacts@,
                forall|j: int|
                    0 <= j < orig.bodies@.len() ==> #[trigger] crate::integrator::keeps_body(
                        orig.bodies@[j],
                        self.bodies@[j],
                    ),
                vel_pairs_from(self.bodies@, orig.contacts@.subrange(k as int, clen as int))
                    == vel_pairs_from(orig.bodies@, orig.contacts@),
            decreases clen - k,
        {
            let ghost bodies0 = self.bodies@;
            let ghost sub = orig.contacts@.subrange(k as int, clen as int);
            let c = self.contacts[k];
            proof {
                assert(crate::types::dyn_contact_ok(orig.bodies@, orig.contacts@[k as int]));
                assert(crate::integrator::keeps_body(
                    orig.bodies@[c.a as int],
                    self.bodies@[c.a as int],
                ));
                assert(crate::integrator::keeps_body(
                    orig.bodies@[c.b as int],
                    self.bodies@[c.b as int],
                ));
                assert(crate::types::body_ok(orig.bodies@[c.a as int]));
                assert(crate::types::body_ok(orig.bodies@[c.b as int]));
                assert(sub[0] == c);
                assert(sub.subrange(1, sub.len() as int) =~= orig.contacts@.subrange(
                    k as int + 1,
                    clen as int,
                ));
            }
            let ba = self.bodies[c.a];
            let bb = self.bodies[c.b];
            let nx = c.normal.x as i128;
            let ny = c.normal.y as i128;
            proof {
                crate::math::lemma_mul_abs_bound(
                    ba.pre_solve_vel.x - bb.pre_solve_vel.x,
                    nx as int,
                    2 * COORD_LIMIT,
                    NORM_ONE as int,
                );
                crate::math::lemma_mul_abs_bound(
                    ba.pre_solve_vel.y - bb.pre_solve_vel.y,
                    ny as int,
                    2 * COORD_LIMIT,
                    NORM_ONE as int,
                );
                crate::math::lemma_mul_abs_bound(
                    ba.vel.x - bb.vel.x,
                    nx as int,
                    2 * COORD_LIMIT,
                    NORM_ONE as int,
                );
                crate::math::lemma_mul_abs_bound(
                    ba.vel.y - bb.vel.y,
                    ny as int,
                    2 * COORD_LIMIT,
                    NORM_ONE as int,
                );
            }
            let pre_dot = (ba.pre_solve_vel.x as i128 - bb.pre_solve_vel.x as i128) * nx + (
            ba.pre_solve_vel.y as i128 - bb.pre_solve_vel.y as i128) * ny;
            let vel_dot = (ba.vel.x as i128 - bb.vel.x as i128) * nx + (ba.vel.y as i128
                - bb.vel.y as i128) * ny;
            proof {
                crate::math::lemma_tdiv_abs_le(
                    pre_dot as int,
                    NORM_ONE as int,
                    4 * COORD_LIMIT,
                );
                crate::math::lemma_tdiv_abs_le(
                    vel_dot as int,
                    NORM_ONE as int,
                    4 * COORD_LIMIT,
                );
            }
            let pre_n = tdiv_i128(pre_dot, NORM_ONE as i128);
            let vn = tdiv_i128(vel_dot, NORM_ONE as i128);
            let rest = tdiv_i128(ba.restitution as i128 + bb.restitution as i128, 2);
            proof {
                crate::math::lemma_tdiv_bound(
                    ba.restitution as int + bb.restitution as int,
                    2,
                );
                crate::math::lemma_mul_abs_bound(
                    rest as int,
                    pre_n as int,
                    REST_ONE as int,
                    4 * COORD_LIMIT,
                );
                crate::math::lemma_tdiv_abs_le(
                    -(rest as int * pre_n as int),
                    REST_ONE as int,
                    4 * COORD_LIMIT,
                );
            }
            let rv0 = tdiv_i128(-(rest * pre_n), REST_ONE as i128);
            let rv = if rv0 > 0 {
                0
            } else {
                rv0
            };
            let s = -vn + rv;
            let msum = ba.mass as i128 + bb.mass as i128;
            proof {
                crate::math::lemma_mul_abs_bound(
                    nx as int,
                    s as int,
                    NORM_ONE as int,
                    8 * COORD_LIMIT,
                );
                crate::math::lemma_mul_abs_bound(
                    ny as int,
                    s as int,
                    NORM_ONE as int,
                    8 * COORD_LIMIT,
                );
                crate::math::lemma_mul_abs_bound(
                    nx as int * s as int,
                    bb.mass as int,
                    8 * COORD_LIMIT * NORM_ONE,
                    1_000_000,
                );
                crate::math::lemma_mul_abs_bound(
                    ny as int * s as int,
                    bb.mass as int,
                    8 * COORD_LIMIT * NORM_ONE,
                    1_000_000,
                );
                crate::math::lemma_mul_abs_bound(
                    nx as int * s as int,
                    ba.mass as int,
                    8 * COORD_LIMIT * NORM_ONE,
                    1_000_000,
                );
                crate::math::lemma_mul_abs_bound(
                    ny as int * s as int,
                    ba.mass as int,
                    8 * COORD_LIMIT * NORM_ONE,
                    1_000_000,
                );
            }
            let dax = tdiv_i128(nx * s * bb.mass as i128, msum * NORM_ONE as i128);
            let day = tdiv_i128(ny * s * bb.mass as i128, msum * NORM_ONE as i128);
            let dbx = tdiv_i128(nx * s * ba.mass as i128, msum * NORM_ONE as i128);
            let dby = tdiv_i128(ny * s * ba.mass as i128, msum * NORM_ONE as i128);
            let na = Body {
                vel: Vec2 {
                    x: sat_i128(ba.vel.x as i128 + dax),
                    y: sat_i128(ba.vel.y as i128 + day),
                },
                ..ba
            };
            let nb = Body {
                vel: Vec2 {
                    x: sat_i128(bb.vel.x as i128 - dbx),
                    y: sat_i128(bb.vel.y as i128 - dby),
                },
                ..bb
            };
            self.bodies[c.a] = na;
            self.bodies[c.b] = nb;
            proof {
                assert(self.bodies@ =~= vel_pair_bodies(bodies0, c));
                assert forall|j: int|
                    0 <= j < orig.bodies@.len() implies #[trigger] crate::integrator::keeps_body(
                    orig.bodies@[j],
                    self.bodies@[j],
                ) by {
                    assert(crate::integrator::keeps_body(orig.bodies@[j], bodies0[j]));
                }
            }
            k = k + 1;
        }
        proof {
            assert(orig.contacts@.subrange(clen as int, clen as int) =~= Seq::<Contact>::empty());
            crate::integrator::lemma_pointwise_wf(orig, *self);
        }
    }

    /// Applies the restitution-aware velocity impulse of every recorded
    /// dynamic-static contact, in order; only the dynamic body changes.
    pub fn solve_vel_statics(&mut self)
        requires
            old(self).wf(),
        ensures
            final(self).wf(),
            final(self).bodies@ == vel_statics_from(
                old(self).bodies@,
                old(self).static_contacts@,
            ),
            final(self).bodies@.len() == old(self).bodies@.len(),
            forall|j: int|
                0 <= j < old(self).bodies@.len() ==> #[trigger] crate::integrator::keeps_body(
                    old(self).bodies@[j],
                    final(self).bodies@[j],
                ),
            final(self).gravity == old(self).gravity,
            final(self).inv_dt == old(self).inv_dt,
            final(self).pairs@ == old(self).pairs@,
            final(self).contacts@ == old(self).contacts@,
            final(self).static_contacts@ == old(self).static_contacts@,
    {
        let ghost orig = *self;
        let clen = self.static_contacts.len();
        let mut k: usize = 0;
        proof {
            assert(orig.static_contacts@.subrange(0, clen as int) =~= orig.static_contacts@);
            assert forall|j: int|
                0 <= j < orig.bodies@.len() implies #[trigger] crate::integrator::keeps_body(
                orig.bodies@[j],
                self.bodies@[j],
            ) by {
                assert(crate::types::body_ok(orig.bodies@[j]));
            }
        }
        while k < clen
            invariant
                orig.wf(),
                0 <= k <= clen,
                clen == orig.static_contacts@.len(),
                self.bodies@.len() == orig.bodies@.len(),
                self.gravity == orig.gravity,
                self.inv_dt == orig.inv_dt,
                self.pairs@ == orig.pairs@,
                self.contacts@ == orig.contacts@,
                self.static_contacts@ == orig.static_contacts@,
                forall|j: int|
                    0 <= j < orig.bodies@.len() ==> #[trigger] crate::integrator::keeps_body(
                        orig.bodies@[j],
                        self.bodies@[j],
                    ),
                vel_statics_from(
                    self.bodies@,
                    orig.static_contacts@.subrange(k as int, clen as int),
                ) == vel_statics_from(orig.bodies@, orig.static_contacts@),
            decreases clen - k,
        {
            let ghost bodies0 = self.bodies@;
            let ghost sub = orig.static_contacts@.subrange(k as int, clen as int);
            let c = self.static_contacts[k];
            proof {
                assert(crate::types::contact_ok(orig.bodies@, orig.static_contacts@[k as int]));
                assert(crate::integrator::keeps_body(
                    orig.bodies@[c.a as int],
                    self.bodies@[c.a as int],
                ));
                assert(crate::integrator::keeps_body(
                    orig.bodies@[c.b as int],
                    self.bodies@[c.b as int],
                ));
                assert(crate::types::body_ok(orig.bodies@[c.a as int]));
                assert(crate::types::body_ok(orig.bodies@[c.b as int]));
                assert(sub[0] == c);
                assert(sub.subrange(1, sub.len() as int) =~= orig.static_contacts@.subrange(
                    k as int + 1,
                    clen as int,
                ));
            }
            let ba = self.bodies[c.a];
            let bb = self.bodies[c.b];
            let nx = c.normal.x as i128;
            let ny = c.normal.y as i128;
            proof {
                crate::math::lemma_mul_abs_bound(
                    ba.pre_solve_vel.x as int,
                    nx as int,
                    COORD_LIMIT as int,
                    NORM_ONE as int,
                );
                crate::math::lemma_mul_abs_bound(
                    ba.pre_solve_vel.y as int,
                    ny as int,
                    COORD_LIMIT as int,
                    NORM_ONE as int,
                );
                crate::math::lemma_mul_abs_bound(
                    ba.vel.x as int,
                    nx as int,
                    COORD_LIMIT as int,
                    NORM_ONE as int,
                );
                crate::math::lemma_mul_abs_bound(
                    ba.vel.y as int,
                    ny as int,
                    COORD_LIMIT as int,
                    NORM_ONE as int,
                );
            }
            let pre_dot = ba.pre_solve_vel.x as i128 * nx + ba.pre_solve_vel.y as i128 * ny;
            let vel_dot = ba.vel.x as i128 * nx + ba.vel.y as i128 * ny;
            proof {
                crate::math::lemma_tdiv_abs_le(
                    pre_dot as int,
                    NORM_ONE as int,
                    2 * COORD_LIMIT,
                );
                crate::math::lemma_tdiv_abs_le(
                    vel_dot as int,
                    NORM_ONE as int,
                    2 * COORD_LIMIT,
                );
            }
            let pre_n = tdiv_i128(pre_dot, NORM_ONE as i128);
            let vn = tdiv_i128(vel_dot, NORM_ONE as i128);
            let rest = tdiv_i128(ba.restitution as i128 + bb.restitution as i128, 2);
            proof {
                crate::math::lemma_tdiv_bound(
                    ba.restitution as int + bb.restitution as int,
                    2,
                );
                crate::math::lemma_mul_abs_bound(
                    rest as int,
                    pre_n as int,
                    REST_ONE as int,
                    2 * COORD_LIMIT,
                );
                crate::math::lemma_tdiv_abs_le(
                    -(rest as int * pre_n as int),
                    REST_ONE as int,
                    2 * COORD_LIMIT,
                );
            }
            let rv0 = tdiv_i128(-(rest * pre_n), REST_ONE as i128);
            let rv = if rv0 > 0 {
                0
            } else {
                rv0
            };
            let s = -vn + rv;
            proof {
                crate::math::lemma_mul_abs_bound(
                    nx as int,
                    s as int,
                    NORM_ONE as int,
                    4 * COORD_LIMIT,
                );
                crate::math::lemma_mul_abs_bound(
                    ny as int,
                    s as int,
                    NORM_ONE as int,
                    4 * COORD_LIMIT,
                );
            }
            let dax = tdiv_i128(nx * s, NORM_ONE as i128);
            let day = tdiv_i128(ny * s, NORM_ONE as i128);
            let na = Body {
                vel: Vec2 {
                    x: sat_i128(ba.vel.x as i128 + dax),
                    y: sat_i128(ba.vel.y as i128 + day),
                },
                ..ba
            };
            self.bodies[c.a] = na;
            proof {
                assert(self.bodies@ =~= vel_static_bodies(bodies0, c));
                assert forall|j: int|
                    0 <= j < orig.bodies@.len() implies #[trigger] crate::integrator::keeps_body(
                    orig.bodies@[j],
                    self.bodies@[j],
                ) by {
                    assert(crate::integrator::keeps_body(orig.bodies@[j], bodies0[j]));
                }
            }
            k = k + 1;
        }
        proof {
            assert(orig.static_contacts@.subrange(clen as int, clen as int) =~= Seq::<
                Contact,
            >::empty());
            crate::integrator::lemma_pointwise_wf(orig, *self);
        }
    }
}

} // verus!
