//! The position solver, dynamic-vs-static sub-passes: a dynamic circle
//! against static circles and against static axis-aligned rectangles.  The
//! whole correction goes to the dynamic body; every confirmed contact is
//! recorded with its normal.

use vstd::prelude::*;

use crate::math::{sat, sat_i128, sqrt_floor, tdiv, tdiv_i128, isqrt_u128, COORD_LIMIT};
use crate::position::{center_dist, circles_overlap, depth_of, norm_x_of, norm_y_of};
use crate::types::{is_dynamic, radius_of, Body, Contact, Shape, Vec2, NORM_ONE};
use crate::world::World;

verus! {

/// Whether the static-circle sub-pass acts on the ordered index pair
/// `(ai, bi)`: a dynamic body against a static circle it truly overlaps,
/// skipping the degenerate concentric case.
pub open spec fn sc_applies(bodies: Seq<Body>, ai: int, bi: int) -> bool {
    let a = bodies[ai];
    let b = bodies[bi];
    &&& is_dynamic(a)
    &&& !is_dynamic(b)
    &&& b.shape is Circle
    &&& circles_overlap(a, b)
    &&& center_dist(a, b) != 0
}

/// One static-circle interaction: the dynamic body takes the entire
/// penetration correction along the normal; the static body never moves.
pub open spec fn sc_bodies(bodies: Seq<Body>, ai: int, bi: int) -> Seq<Body> {
    let a = bodies[ai];
    let b = bodies[bi];
    if !sc_applies(bodies, ai, bi) {
        bodies
    } else {
        let nx = norm_x_of(a, b);
        let ny = norm_y_of(a, b);
        let depth = depth_of(a, b);
        let na = Body {
            pos: Vec2 {
                x: sat(a.pos.x - tdiv(nx * depth, NORM_ONE as int)) as i64,
                y: sat(a.pos.y - tdiv(ny * depth, NORM_ONE as int)) as i64,
            },
            ..a
        };
        bodies.update(ai, na)
    }
}

/// One static-circle interaction appends `(dynamic, static, normal)`, the
/// normal being the direction subtracted from the dynamic position.
pub open spec fn sc_contacts(bodies: Seq<Body>, contacts: Seq<Contact>, ai: int, bi: int) -> Seq<
    Contact,
> {
    let a = bodies[ai];
    let b = bodies[bi];
    if !sc_applies(bodies, ai, bi) {
        contacts
    } else {
        contacts.push(
            Contact {
                a: ai as usize,
                b: bi as usize,
                normal: Vec2 { x: norm_x_of(a, b) as i64, y: norm_y_of(a, b) as i64 },
            },
        )
    }
}

/// The static-circle sub-pass from static index `bi` on, for dynamic index
/// `ai`.
pub open spec fn sc_inner(
    bodies: Seq<Body>,
    contacts: Seq<Contact>,
    ai: int,
    bi: int,
    n: int,
) -> (Seq<Body>, Seq<Contact>)
    decreases n - bi,
{
    if bi < 0 || bi >= n {
        (bodies, contacts)
    } else {
        sc_inner(
            sc_bodies(bodies, ai, bi),
            sc_contacts(bodies, contacts, ai, bi),
            ai,
            bi + 1,
            n,
        )
    }
}

/// The static-circle sub-pass from dynamic index `ai` on.
pub open spec fn sc_outer(bodies: Seq<Body>, contacts: Seq<Contact>, ai: int, n: int) -> (
    Seq<Body>,
    Seq<Contact>,
)
    decreases n - ai,
{
    if ai < 0 || ai >= n {
        (bodies, contacts)
    } else {
        let r = sc_inner(bodies, contacts, ai, 0, n);
        sc_outer(r.0, r.1, ai + 1, n)
    }
}

/// A body that is not dynamic interacts with no static circle.
proof fn lemma_sc_inner_skip(bodies: Seq<Body>, contacts: Seq<Contact>, ai: int, bi: int, n: int)
    requires
        0 <= ai < bodies.len(),
        !is_dynamic(bodies[ai]),
    ensures
        sc_inner(bodies, contacts, ai, bi, n) == (bodies, contacts),
    decreases n - bi,
{
    if !(bi < 0 || bi >= n) {
        lemma_sc_inner_skip(bodies, contacts, ai, bi + 1, n);
    }
}

impl World {
    /// For every dynamic body and every static circle it overlaps, pushes
    /// the entire penetration correction onto the dynamic body and records
    /// the contact.
    pub fn solve_pos_statics(&mut self)
        requires
            old(self).wf(),
        ensures
            final(self).wf(),
            (final(self).bodies@, final(self).static_contacts@) == sc_outer(
                old(self).bodies@,
                old(self).static_contacts@,
                0,
                old(self).bodies@.len() as int,
            ),
            final(self).bodies@.len() == old(self).bodies@.len(),
            forall|j: int|
                0 <= j < old(self).bodies@.len() ==> #[trigger] crate::integrator::keeps_body(
                    old(self).bodies@[j],
                    final(self).bodies@[j],
                ),
            final(self).gravity == old(self).gravity,
            final(self).inv_dt == old(self).inv_dt,
            final(self).pairs@ == old(self).pairs@,
            final(self).contacts@ == old(self).contacts@,
    {
        let ghost orig = *self;
        let ghost total = sc_outer(
            orig.bodies@,
            orig.static_contacts@,
            0,
            orig.bodies@.len() as int,
        );
        let n = self.bodies.len();
        let mut a: usize = 0;
        proof {
            assert forall|j: int|
                0 <= j < orig.bodies@.len() implies #[trigger] crate::integrator::keeps_body(
                orig.bodies@[j],
                self.bodies@[j],
            ) by {
                assert(crate::types::body_ok(orig.bodies@[j]));
            }
        }
        while a < n
            invariant
                orig.wf(),
                0 <= a <= n,
                n == orig.bodies@.len(),
                self.bodies@.len() == n,
                self.gravity == orig.gravity,
                self.inv_dt == orig.inv_dt,
                self.pairs@ == orig.pairs@,
                self.contacts@ == orig.contacts@,
                total == sc_outer(orig.bodies@, orig.static_contacts@, 0, n as int),
                forall|j: int|
                    0 <= j < orig.bodies@.len() ==> #[trigger] crate::integrator::keeps_body(
                        orig.bodies@[j],
                        self.bodies@[j],
                    ),
                crate::types::contacts_ok(self.bodies@, self.static_contacts@),
                sc_outer(self.bodies@, self.static_contacts@, a as int, n as int) == total,
            decreases n - a,
        {
            let ba_entry = self.bodies[a];
            if ba_entry.mass == 0 {
                proof {
                    lemma_sc_inner_skip(self.bodies@, self.static_contacts@, a as int, 0, n as int);
                }
            } else {
                proof {
                    assert(crate::types::body_ok(orig.bodies@[a as int]));
                    assert(crate::integrator::keeps_body(
                        orig.bodies@[a as int],
                        self.bodies@[a as int],
                    ));
                }
                let mut bj: usize = 0;
                while bj < n
                    invariant
                        orig.wf(),
                        0 <= bj <= n,
                        0 <= a < n,
                        n == orig.bodies@.len(),
                        self.bodies@.len() == n,
                        self.gravity == orig.gravity,
                        self.inv_dt == orig.inv_dt,
                        self.pairs@ == orig.pairs@,
                        self.contacts@ == orig.contacts@,
                        total == sc_outer(orig.bodies@, orig.static_contacts@, 0, n as int),
                        forall|j: int|
                            0 <= j < orig.bodies@.len()
                                ==> #[trigger] crate::integrator::keeps_body(
                                orig.bodies@[j],
                                self.bodies@[j],
                            ),
                        crate::types::contacts_ok(self.bodies@, self.static_contacts@),
                        is_dynamic(self.bodies@[a as int]),
                        ({
                            let r = sc_inner(
                                self.bodies@,
                                self.static_contacts@,
                                a as int,
                                bj as int,
                                n as int,
                            );
                            sc_outer(r.0, r.1, a as int + 1, n as int) == total
                        }),
                    decreases n - bj,
                {
                    let ghost bodies0 = self.bodies@;
                    let ghost contacts0 = self.static_contacts@;
                    let ba = self.bodies[a];
                    let bb = self.bodies[bj];
                    proof {
                        assert(crate::integrator::keeps_body(
                            orig.bodies@[a as int],
                            self.bodies@[a as int],
                        ));
                        assert(crate::integrator::keeps_body(
                            orig.bodies@[bj as int],
                            self.bodies@[bj as int],
                        ));
                        assert(crate::types::body_ok(orig.bodies@[a as int]));
                        assert(crate::types::body_ok(orig.bodies@[bj as int]));
                    }
                    let is_static_circle = bb.mass == 0 && matches!(bb.shape, Shape::Circle { .. });
                    if is_static_circle {
                        let dx = bb.pos.x as i128 - ba.pos.x as i128;
                        let dy = bb.pos.y as i128 - ba.pos.y as i128;
                        proof {
                            crate::math::lemma_square_bound(dx as int, 2 * COORD_LIMIT);
                            crate::math::lemma_square_bound(dy as int, 2 * COORD_LIMIT);
                        }
                        let d2 = dx * dx + dy * dy;
                        let ra = crate::broad_phase::circle_radius(&ba);
                        let rb = crate::broad_phase::circle_radius(&bb);
                        let cr = ra as i128 + rb as i128;
                        proof {
                            crate::math::lemma_square_bound(cr as int, 2_000_000);
                        }
                        if d2 < cr * cr {
                            let dist = isqrt_u128(d2 as u128);
                            proof {
                                crate::math::lemma_sqrt_floor(d2 as int);
                            }
                            if dist > 0 {
                                proof {
                                    assert((dist as int) < cr as int) by (nonlinear_arith)
                                        requires
                                            (dist as int) * (dist as int) <= d2 as int,
                                            (d2 as int) < (cr as int) * (cr as int),
                                            dist as int >= 0,
                                            cr as int >= 0,
                                    ;
                                    let axd = if dx >= 0 {
                                        dx as int
                                    } else {
                                        -(dx as int)
                                    };
                                    let ayd = if dy >= 0 {
                                        dy as int
                                    } else {
                                        -(dy as int)
                                    };
                                    assert(axd * axd == (dx as int) * (dx as int))
                                        by (nonlinear_arith)
                                        requires
                                            axd == dx as int || axd == -(dx as int),
                                    ;
                                    assert(ayd * ayd == (dy as int) * (dy as int))
                                        by (nonlinear_arith)
                                        requires
                                            ayd == dy as int || ayd == -(dy as int),
                                    ;
                                    crate::math::lemma_sqrt_floor_square(axd);
                                    crate::math::lemma_sqrt_floor_square(ayd);
                                    crate::math::lemma_sqrt_floor_ordered(axd * axd, d2 as int);
                                    crate::math::lemma_sqrt_floor_ordered(ayd * ayd, d2 as int);
                                    crate::math::lemma_tdiv_abs_le(
                                        dx as int * NORM_ONE,
                                        dist as int,
                                        NORM_ONE as int,
                                    );
                                    crate::math::lemma_tdiv_abs_le(
                                        dy as int * NORM_ONE,
                                        dist as int,
                                        NORM_ONE as int,
                                    );
                                }
                                let nx = tdiv_i128(dx * NORM_ONE as i128, dist as i128);
                                let ny = tdiv_i128(dy * NORM_ONE as i128, dist as i128);
                                let depth = cr - dist as i128;
                                proof {
                                    crate::math::lemma_mul_abs_bound(
                                        nx as int,
                                        depth as int,
                                        NORM_ONE as int,
                                        2_000_000,
                                    );
                                    crate::math::lemma_mul_abs_bound(
                                        ny as int,
                                        depth as int,
                                        NORM_ONE as int,
                                        2_000_000,
                                    );
                                }
                                let cx = tdiv_i128(nx * depth, NORM_ONE as i128);
                                let cy = tdiv_i128(ny * depth, NORM_ONE as i128);
                                let na = Body {
                                    pos: Vec2 {
                                        x: sat_i128(ba.pos.x as i128 - cx),
                                        y: sat_i128(ba.pos.y as i128 - cy),
                                    },
                                    ..ba
                                };
                                self.bodies[a] = na;
                                self.static_contacts.push(
                                    Contact {
                                        a,
                                        b: bj,
                                        normal: Vec2 { x: nx as i64, y: ny as i64 },
                                    },
                                );
                                proof {
                                    assert(sc_applies(bodies0, a as int, bj as int));
                                    assert(self.bodies@ =~= sc_bodies(bodies0, a as int, bj as int));
                                    assert(self.static_contacts@ =~= sc_contacts(
                                        bodies0,
                                        contacts0,
                                        a as int,
                                        bj as int,
                                    ));
                                    assert forall|j: int|
                                        0 <= j < orig.bodies@.len()
                                            implies #[trigger] crate::integrator::keeps_body(
                                        orig.bodies@[j],
                                        self.bodies@[j],
                                    ) by {
                                        assert(crate::integrator::keeps_body(
                                            orig.bodies@[j],
                                            bodies0[j],
                                        ));
                                    }
                                    assert forall|c: int|
                                        0 <= c < self.static_contacts@.len()
                                            implies #[trigger] crate::types::contact_ok(
                                        self.bodies@,
                                        self.static_contacts@[c],
                                    ) by {
                                        if c < contacts0.len() {
                                            assert(crate::types::contact_ok(bodies0, contacts0[c]));
                                        }
                                    }
                                }
                            } else {
                                proof {
                                    assert(!sc_applies(bodies0, a as int, bj as int));
                                }
                            }
                        } else {
                            proof {
                                assert(!sc_applies(bodies0, a as int, bj as int));
                            }
                        }
                    } else {
                        proof {
                            assert(!sc_applies(bodies0, a as int, bj as int));
                        }
                    }
                    bj = bj + 1;
                }
            }
            a = a + 1;
        }
        proof {
            let w2 = World { static_contacts: orig.static_contacts, ..*self };
            crate::integrator::lemma_pointwise_wf(orig, w2);
            assert(self.wf());
        }
    }
}

} // verus!
