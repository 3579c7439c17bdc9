//! The position solver, dynamic-circle-vs-static-rectangle sub-pass, with
//! its three geometric cases: corner contact, vertical-edge contact, and
//! horizontal-edge contact.

use vstd::prelude::*;

use crate::math::{sat, sat_i128, sqrt_floor, tdiv, tdiv_i128, isqrt_u128, COORD_LIMIT};
use crate::types::{is_dynamic, radius_of, Body, Contact, Shape, Vec2, NORM_ONE};
use crate::world::World;

verus! {

pub open spec fn abs_of(x: int) -> int {
    if x < 0 {
        -x
    } else {
        x
    }
}

/// The sign of a scalar, counting zero as positive (the convention of the
/// floating-point `signum` this models).
pub open spec fn sgn_pos(x: int) -> int {
    if x < 0 {
        -1
    } else {
        1
    }
}

pub open spec fn half_w(b: Body) -> int {
    match b.shape {
        Shape::Rect { half_width, .. } => half_width as int,
        Shape::Circle { .. } => 0,
    }
}

pub open spec fn half_h(b: Body) -> int {
    match b.shape {
        Shape::Rect { half_height, .. } => half_height as int,
        Shape::Circle { .. } => 0,
    }
}

/// Per-axis separation of the circle center from the rectangle, measured
/// from the nearest edge (negative inside the slab).
pub open spec fn box_sep_x(a: Body, b: Body) -> int {
    abs_of(a.pos.x - b.pos.x) - half_w(b)
}

pub open spec fn box_sep_y(a: Body, b: Body) -> int {
    abs_of(a.pos.y - b.pos.y) - half_h(b)
}

/// Whether circle `a` touches rectangle `b`: neither axis separation
/// exceeds the radius, and in the corner region the corner distance is
/// within the radius.
pub open spec fn box_touches(a: Body, b: Body) -> bool {
    let sx = box_sep_x(a, b);
    let sy = box_sep_y(a, b);
    let r = radius_of(a);
    !(sx > r || sy > r || (sx > 0 && sy > 0 && sx * sx + sy * sy > r * r))
}

/// The contact normal against a rectangle (x component, scaled by
/// `NORM_ONE`): along the corner diagonal in the corner case, axis-aligned
/// against the nearer edge otherwise, pointing outward from the rectangle.
pub open spec fn box_norm_x(a: Body, b: Body) -> int {
    let sx = box_sep_x(a, b);
    let sy = box_sep_y(a, b);
    if sx > 0 && sy > 0 {
        -sgn_pos(a.pos.x - b.pos.x) * tdiv(sx * NORM_ONE, sqrt_floor(sx * sx + sy * sy))
    } else if sx > sy {
        -sgn_pos(a.pos.x - b.pos.x) * NORM_ONE
    } else {
        0
    }
}

pub open spec fn box_norm_y(a: Body, b: Body) -> int {
    let sx = box_sep_x(a, b);
    let sy = box_sep_y(a, b);
    if sx > 0 && sy > 0 {
        -sgn_pos(a.pos.y - b.pos.y) * tdiv(sy * NORM_ONE, sqrt_floor(sx * sx + sy * sy))
    } else if sx > sy {
        0
    } else {
        -sgn_pos(a.pos.y - b.pos.y) * NORM_ONE
    }
}

/// Penetration depth against a rectangle: radius minus corner distance in
/// the corner case, radius minus the dominant axis separation otherwise.
pub open spec fn box_depth(a: Body, b: Body) -> int {
    let sx = box_sep_x(a, b);
    let sy = box_sep_y(a, b);
    let r = radius_of(a);
    if sx > 0 && sy > 0 {
        r - sqrt_floor(sx * sx + sy * sy)
    } else if sx > sy {
        r - sx
    } else {
        r - sy
    }
}

/// Whether the rectangle sub-pass acts on the ordered index pair
/// `(ai, bi)`: a dynamic body against a static rectangle it touches.
pub open spec fn bx_applies(bodies: Seq<Body>, ai: int, bi: int) -> bool {
    let a = bodies[ai];
    let b = bodies[bi];
    &&& is_dynamic(a)
    &&& !is_dynamic(b)
    &&& b.shape is Rect
    &&& box_touches(a, b)
}

/// One rectangle interaction: the dynamic body takes the entire correction
/// along the normal.
pub open spec fn bx_bodies(bodies: Seq<Body>, ai: int, bi: int) -> Seq<Body> {
    let a = bodies[ai];
    let b = bodies[bi];
    if !bx_applies(bodies, ai, bi) {
        bodies
    } else {
        let nx = box_norm_x(a, b);
        let ny = box_norm_y(a, b);
        let depth = box_depth(a, b);
        let na = Body {
            pos: Vec2 {
                x: sat(a.pos.x - tdiv(nx * depth, NORM_ONE as int)) as i64,
                y: sat(a.pos.y - tdiv(ny * depth, NORM_ONE as int)) as i64,
            },
            ..a
        };
        bodies.update(ai, na)
    }
}

/// One rectangle interaction appends `(dynamic, static, normal)`.
pub open spec fn bx_contacts(bodies: Seq<Body>, contacts: Seq<Contact>, ai: int, bi: int) -> Seq<
    Contact,
> {
    let a = bodies[ai];
    let b = bodies[bi];
    if !bx_applies(bodies, ai, bi) {
        contacts
    } else {
        contacts.push(
            Contact {
                a: ai as usize,
                b: bi as usize,
                normal: Vec2 { x: box_norm_x(a, b) as i64, y: box_norm_y(a, b) as i64 },
            },
        )
    }
}

/// The rectangle sub-pass from static index `bi` on, for dynamic index
/// `ai`.
pub open spec fn bx_inner(
    bodies: Seq<Body>,
    contacts: Seq<Contact>,
    ai: int,
    bi: int,
    n: int,
) -> (Seq<Body>, Seq<Contact>)
    decreases n - bi,
{
    if bi < 0 || bi >= n {
        (bodies, contacts)
    } else {
        bx_inner(
            bx_bodies(bodies, ai, bi),
            bx_contacts(bodies, contacts, ai, bi),
            ai,
            bi + 1,
            n,
        )
    }
}

/// The rectangle sub-pass from dynamic index `ai` on.
pub open spec fn bx_outer(bodies: Seq<Body>, contacts: Seq<Contact>, ai: int, n: int) -> (
    Seq<Body>,
    Seq<Contact>,
)
    decreases n - ai,
{
    if ai < 0 || ai >= n {
        (bodies, contacts)
    } else {
        let r = bx_inner(bodies, contacts, ai, 0, n);
        bx_outer(r.0, r.1, ai + 1, n)
    }
}

/// A body that is not dynamic interacts with no rectangle.
proof fn lemma_bx_inner_skip(bodies: Seq<Body>, contacts: Seq<Contact>, ai: int, bi: int, n: int)
    requires
        0 <= ai < bodies.len(),
        !is_dynamic(bodies[ai]),
    ensures
        bx_inner(bodies, contacts, ai, bi, n) == (bodies, contacts),
    decreases n - bi,
{
    if !(bi < 0 || bi >= n) {
        lemma_bx_inner_skip(bodies, contacts, ai, bi + 1, n);
    }
}

impl World {
    /// For every dynamic circle and every static rectangle it touches,
    /// resolves the contact through the corner or nearest-edge normal,
    /// corrects only the dynamic body, and records the contact.
    pub fn solve_pos_static_boxes(&mut self)
        requires
            old(self).wf(),
        ensures
            final(self).wf(),
            (final(self).bodies@, final(self).static_contacts@) == bx_outer(
                old(self).bodies@,
                old(self).static_contacts@,
                0,
                old(self).bodies@.len() as int,
            ),
            final(self).bodies@.len() == old(self).bodies@.len(),
            forall|j: int|
                0 <= j < old(self).bodies@.len() ==> #[trigger] crate::integrator::keeps_body(
                    old(self).bodies@[j],
                    final(self).bodies@[j],
                ),
            final(self).gravity == old(self).gravity,
            final(self).inv_dt == old(self).inv_dt,
            final(self).pairs@ == old(self).pairs@,
            final(self).contacts@ == old(self).contacts@,
    {
        let ghost orig = *self;
        let ghost total = bx_outer(
            orig.bodies@,
            orig.static_contacts@,
            0,
            orig.bodies@.len() as int,
        );
        let n = self.bodies.len();
        let mut a: usize = 0;
        proof {
            assert forall|j: int|
                0 <= j < orig.bodies@.len() implies #[trigger] crate::integrator::keeps_body(
                orig.bodies@[j],
                self.bodies@[j],
            ) by {
                assert(crate::types::body_ok(orig.bodies@[j]));
            }
        }
        while a < n
            invariant
                orig.wf(),
                0 <= a <= n,
                n == orig.bodies@.len(),
                self.bodies@.len() == n,
                self.gravity == orig.gravity,
                self.inv_dt == orig.inv_dt,
                self.pairs@ == orig.pairs@,
                self.contacts@ == orig.contacts@,
                total == bx_outer(orig.bodies@, orig.static_contacts@, 0, n as int),
                forall|j: int|
                    0 <= j < orig.bodies@.len() ==> #[trigger] crate::integrator::keeps_body(
                        orig.bodies@[j],
                        self.bodies@[j],
                    ),
                crate::types::contacts_ok(self.bodies@, self.static_contacts@),
                bx_outer(self.bodies@, self.static_contacts@, a as int, n as int) == total,
            decreases n - a,
        {
            let ba_entry = self.bodies[a];
            if ba_entry.mass == 0 {
                proof {
                    lemma_bx_inner_skip(self.bodies@, self.static_contacts@, a as int, 0, n as int);
                }
            } else {
                proof {
                    assert(crate::types::body_ok(orig.bodies@[a as int]));
                    assert(crate::integrator::keeps_body(
                        orig.bodies@[a as int],
                        self.bodies@[a as int],
                    ));
                }
                let mut bj: usize = 0;
                while bj < n
                    invariant
                        orig.wf(),
                        0 <= bj <= n,
                        0 <= a < n,
                        n == orig.bodies@.len(),
                        self.bodies@.len() == n,
                        self.gravity == orig.gravity,
                        self.inv_dt == orig.inv_dt,
                        self.pairs@ == orig.pairs@,
                        self.contacts@ == orig.contacts@,
                        total == bx_outer(orig.bodies@, orig.static_contacts@, 0, n as int),
                        forall|j: int|
                            0 <= j < orig.bodies@.len()
                                ==> #[trigger] crate::integrator::keeps_body(
                                orig.bodies@[j],
                                self.bodies@[j],
                            ),
                        crate::types::contacts_ok(self.bodies@, self.static_contacts@),
                        is_dynamic(self.bodies@[a as int]),
                        ({
                            let r = bx_inner(
                                self.bodies@,
                                self.static_contacts@,
                                a as int,
                                bj as int,
                                n as int,
                            );
                            bx_outer(r.0, r.1, a as int + 1, n as int) == total
                        }),
                    decreases n - bj,
                {
                    let ghost bodies0 = self.bodies@;
                    let ghost contacts0 = self.static_contacts@;
                    let ba = self.bodies[a];
                    let bb = self.bodies[bj];
                    proof {
                        assert(crate::integrator::keeps_body(
                            orig.bodies@[a as int],
                            self.bodies@[a as int],
                        ));
                        assert(crate::integrator::keeps_body(
                            orig.bodies@[bj as int],
                            self.bodies@[bj as int],
                        ));
                        assert(crate::types::body_ok(orig.bodies@[a as int]));
                        assert(crate::types::body_ok(orig.bodies@[bj as int]));
                    }
                    let mut handled = false;
                    if bb.mass == 0 {
                        match bb.shape {
                            Shape::Rect { half_width: hw, half_height: hh } => {
                                handled = true;
                                let dxv = ba.pos.x as i128 - bb.pos.x as i128;
                                let dyv = ba.pos.y as i128 - bb.pos.y as i128;
                                let axd = if dxv < 0 {
                                    -dxv
                                } else {
                                    dxv
                                };
                                let ayd = if dyv < 0 {
                                    -dyv
                                } else {
                                    dyv
                                };
                                let sx = axd - hw as i128;
                                let sy = ayd - hh as i128;
                                let r = crate::broad_phase::circle_radius(&ba);
                                if sx > r as i128 || sy > r as i128 {
                                    proof {
                                        assert(!bx_applies(bodies0, a as int, bj as int));
                                    }
                                } else {
                                    let mut skip = false;
                                    let mut nx: i128 = 0;
                                    let mut ny: i128 = 0;
                                    let mut depth: i128 = 0;
                                    if sx > 0 && sy > 0 {
                                        proof {
                                            crate::math::lemma_square_bound(sx as int, 1_000_000);
                                            crate::math::lemma_square_bound(sy as int, 1_000_000);
                                            crate::math::lemma_square_bound(r as int, 1_000_000);
                                        }
                                        let c2 = sx * sx + sy * sy;
                                        if c2 > r as i128 * r as i128 {
                                            skip = true;
                                            proof {
                                                assert(!bx_applies(bodies0, a as int, bj as int));
                                            }
                                        } else {
                                            let cd = isqrt_u128(c2 as u128);
                                            proof {
                                                crate::math::lemma_sqrt_floor(c2 as int);
                                                crate::math::lemma_sqrt_floor_square(sx as int);
                                                crate::math::lemma_sqrt_floor_square(sy as int);
                                                crate::math::lemma_sqrt_floor_ordered(
                                                    (sx as int) * (sx as int),
                                                    c2 as int,
                                                );
                                                crate::math::lemma_sqrt_floor_ordered(
                                                    (sy as int) * (sy as int),
                                                    c2 as int,
                                                );
                                                crate::math::lemma_sqrt_floor_square(r as int);
                                                crate::math::lemma_sqrt_floor_ordered(
                                                    c2 as int,
                                                    (r as int) * (r as int),
                                                );
                                                crate::math::lemma_tdiv_abs_le(
                                                    sx as int * NORM_ONE,
                                                    cd as int,
                                                    NORM_ONE as int,
                                                );
                                                crate::math::lemma_tdiv_abs_le(
                                                    sy as int * NORM_ONE,
                                                    cd as int,
                                                    NORM_ONE as int,
                                                );
                                            }
                                            let tx = tdiv_i128(sx * NORM_ONE as i128, cd as i128);
                                            let ty = tdiv_i128(sy * NORM_ONE as i128, cd as i128);
                                            nx = if dxv < 0 {
                                                tx
                                            } else {
                                                -tx
                                            };
                                            ny = if dyv < 0 {
                                                ty
                                            } else {
                                                -ty
                                            };
                                            depth = r as i128 - cd as i128;
                                            proof {
                                                let av = bodies0[a as int];
                                                let bv = bodies0[bj as int];
                                                assert(box_sep_x(av, bv) == sx as int);
                                                assert(box_sep_y(av, bv) == sy as int);
                                                let snx = sgn_pos(av.pos.x - bv.pos.x);
                                                let sny = sgn_pos(av.pos.y - bv.pos.y);
                                                assert(box_norm_x(av, bv) == -snx * (tx as int));
                                                assert(box_norm_y(av, bv) == -sny * (ty as int));
                                                assert(nx as int == -snx * (tx as int))
                                                    by (nonlinear_arith)
                                                    requires
                                                        (snx == -1 && nx as int == tx as int) || (
                                                        snx == 1 && nx as int == -(tx as int)),
                                                ;
                                                assert(ny as int == -sny * (ty as int))
                                                    by (nonlinear_arith)
                                                    requires
                                                        (sny == -1 && ny as int == ty as int) || (
                                                        sny == 1 && ny as int == -(ty as int)),
                                                ;
                                            }
                                        }
                                    } else if sx > sy {
                                        nx = if dxv < 0 {
                                            NORM_ONE as i128
                                        } else {
                                            -(NORM_ONE as i128)
                                        };
                                        ny = 0;
                                        depth = r as i128 - sx;
                                        proof {
                                            let av = bodies0[a as int];
                                            let bv = bodies0[bj as int];
                                            assert(box_sep_x(av, bv) == sx as int);
                                            assert(box_sep_y(av, bv) == sy as int);
                                            let snx = sgn_pos(av.pos.x - bv.pos.x);
                                            assert(box_norm_x(av, bv) == -snx * (
                                            NORM_ONE as int));
                                            assert(nx as int == -snx * (NORM_ONE as int))
                                                by (nonlinear_arith)
                                                requires
                                                    (snx == -1 && nx as int == NORM_ONE as int)
                                                        || (snx == 1 && nx as int == -(
                                                    NORM_ONE as int)),
                                            ;
                                            assert(ny as int == box_norm_y(av, bv));
                                        }
                                    } else {
                                        nx = 0;
                                        ny = if dyv < 0 {
                                            NORM_ONE as i128
                                        } else {
                                            -(NORM_ONE as i128)
                                        };
                                        depth = r as i128 - sy;
                                        proof {
                                            let av = bodies0[a as int];
                                            let bv = bodies0[bj as int];
                                            assert(box_sep_x(av, bv) == sx as int);
                                            assert(box_sep_y(av, bv) == sy as int);
                                            let sny = sgn_pos(av.pos.y - bv.pos.y);
                                            assert(box_norm_y(av, bv) == -sny * (
                                            NORM_ONE as int));
                                            assert(ny as int == -sny * (NORM_ONE as int))
                                                by (nonlinear_arith)
                                                requires
                                                    (sny == -1 && ny as int == NORM_ONE as int)
                                                        || (sny == 1 && ny as int == -(
                                                    NORM_ONE as int)),
                                            ;
                                            assert(nx as int == box_norm_x(av, bv));
                                        }
                                    }
                                    if !skip {
                                        proof {
                                            let av = bodies0[a as int];
                                            let bv = bodies0[bj as int];
                                            assert(box_sep_x(av, bv) == sx as int);
                                            assert(box_sep_y(av, bv) == sy as int);
                                            assert(radius_of(av) == r as int);
                                            assert(box_depth(av, bv) == depth as int);
                                            assert(bx_applies(bodies0, a as int, bj as int));
                                            assert(nx as int == box_norm_x(
                                                bodies0[a as int],
                                                bodies0[bj as int],
                                            ));
                                            assert(ny as int == box_norm_y(
                                                bodies0[a as int],
                                                bodies0[bj as int],
                                            ));
                                            assert(depth as int == box_depth(
                                                bodies0[a as int],
                                                bodies0[bj as int],
                                            ));
                                            crate::math::lemma_mul_abs_bound(
                                                nx as int,
                                                depth as int,
                                                NORM_ONE as int,
                                                2_000_000,
                                            );
                                            crate::math::lemma_mul_abs_bound(
                                                ny as int,
                                                depth as int,
                                                NORM_ONE as int,
                                                2_000_000,
                                            );
                                        }
                                        let cx = tdiv_i128(nx * depth, NORM_ONE as i128);
                                        let cy = tdiv_i128(ny * depth, NORM_ONE as i128);
                                        let na = Body {
                                            pos: Vec2 {
                                                x: sat_i128(ba.pos.x as i128 - cx),
                                                y: sat_i128(ba.pos.y as i128 - cy),
                                            },
                                            ..ba
                                        };
                                        self.bodies[a] = na;
                                        self.static_contacts.push(
                                            Contact {
                                                a,
                                                b: bj,
                                                normal: Vec2 { x: nx as i64, y: ny as i64 },
                                            },
                                        );
                                        proof {
                                            assert(self.bodies@ =~= bx_bodies(
                                                bodies0,
                                                a as int,
                                                bj as int,
                                            ));
                                            assert(self.static_contacts@ =~= bx_contacts(
                                                bodies0,
                                                contacts0,
                                                a as int,
                                                bj as int,
                                            ));
                                            assert forall|j: int|
                                                0 <= j < orig.bodies@.len()
                                                    implies #[trigger] crate::integrator::keeps_body(
                                                orig.bodies@[j],
                                                self.bodies@[j],
                                            ) by {
                                                assert(crate::integrator::keeps_body(
                                                    orig.bodies@[j],
                                                    bodies0[j],
                                                ));
                                            }
                                            assert forall|c: int|
                                                0 <= c < self.static_contacts@.len()
                                                    implies #[trigger] crate::types::contact_ok(
                                                self.bodies@,
                                                self.static_contacts@[c],
                                            ) by {
                                                if c < contacts0.len() {
                                                    assert(crate::types::contact_ok(
                                                        bodies0,
                                                        contacts0[c],
                                                    ));
                                                }
                                            }
                                        }
                                    }
                                }
                            },
                            Shape::Circle { .. } => {
                            },
                        }
                    }
                    if !handled {
                        proof {
                            assert(!bx_applies(bodies0, a as int, bj as int));
                        }
                    }
                    bj = bj + 1;
                }
            }
            a = a + 1;
        }
        proof {
            let w2 = World { static_contacts: orig.static_contacts, ..*self };
            crate::integrator::lemma_pointwise_wf(orig, w2);
            assert(self.wf());
        }
    }
}

} // verus!
