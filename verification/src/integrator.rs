//! The integrator, the velocity reconciler, the transform sync, and the
//! contact-buffer clear.

use vstd::prelude::*;

use crate::math::{sat, sat_i128, tdiv, tdiv_i128, COORD_LIMIT};
use crate::types::{is_dynamic, Body, Vec2, INV_DT_LIMIT};
use crate::world::World;

verus! {

/// Semi-implicit Euler for one dynamic body: record the previous position,
/// apply one timestep of gravity to the velocity, advance the position by
/// one timestep of the new velocity, and snapshot the pre-solve velocity.
/// Static bodies are untouched.
pub open spec fn integrated_body(b: Body, gravity: Vec2, inv_dt: int) -> Body {
    if !is_dynamic(b) {
        b
    } else {
        let vx = sat(b.vel.x + tdiv(gravity.x as int, inv_dt));
        let vy = sat(b.vel.y + tdiv(gravity.y as int, inv_dt));
        let px = sat(b.pos.x + tdiv(vx, inv_dt));
        let py = sat(b.pos.y + tdiv(vy, inv_dt));
        Body {
            pos: Vec2 { x: px as i64, y: py as i64 },
            prev_pos: b.pos,
            vel: Vec2 { x: vx as i64, y: vy as i64 },
            pre_solve_vel: Vec2 { x: vx as i64, y: vy as i64 },
            ..b
        }
    }
}

/// The reconciled velocity of one dynamic body: the velocity implied by the
/// realized displacement over the step, `(pos - prev_pos) * inv_dt`.
pub open spec fn reconciled_body(b: Body, inv_dt: int) -> Body {
    if !is_dynamic(b) {
        b
    } else {
        Body {
            vel: Vec2 {
                x: sat((b.pos.x - b.prev_pos.x) * inv_dt) as i64,
                y: sat((b.pos.y - b.prev_pos.y) * inv_dt) as i64,
            },
            ..b
        }
    }
}

/// The transform sync: the render-facing position becomes the simulated
/// position.
pub open spec fn synced_body(b: Body) -> Body {
    Body { render_pos: b.pos, ..b }
}

impl World {
    /// For every dynamic body: `prev_pos = pos`, `vel += gravity / inv_dt`,
    /// `pos += vel / inv_dt`, `pre_solve_vel = vel`.  Static bodies are
    /// never visited.
    pub fn integrate(&mut self)
        requires
            old(self).wf(),
        ensures
            final(self).wf(),
            final(self).bodies@.len() == old(self).bodies@.len(),
            forall|i: int|
                0 <= i < old(self).bodies@.len() ==> final(self).bodies@[i] == integrated_body(
                    old(self).bodies@[i],
                    old(self).gravity,
                    old(self).inv_dt as int,
                ),
            final(self).gravity == old(self).gravity,
            final(self).inv_dt == old(self).inv_dt,
            final(self).pairs@ == old(self).pairs@,
            final(self).contacts@ == old(self).contacts@,
            final(self).static_contacts@ == old(self).static_contacts@,
    {
        let ghost orig = *self;
        let gdx = tdiv_i128(self.gravity.x as i128, self.inv_dt as i128);
        let gdy = tdiv_i128(self.gravity.y as i128, self.inv_dt as i128);
        let inv_dt = self.inv_dt;
        let n = self.bodies.len();
        let mut i: usize = 0;
        while i < n
            invariant
                orig.wf(),
                0 <= i <= n,
                n == self.bodies@.len(),
                n == orig.bodies@.len(),
                inv_dt == orig.inv_dt,
                gdx == tdiv(orig.gravity.x as int, orig.inv_dt as int),
                gdy == tdiv(orig.gravity.y as int, orig.inv_dt as int),
                self.gravity == orig.gravity,
                self.inv_dt == orig.inv_dt,
                self.pairs@ == orig.pairs@,
                self.contacts@ == orig.contacts@,
                self.static_contacts@ == orig.static_contacts@,
                forall|j: int|
                    0 <= j < i ==> self.bodies@[j] == integrated_body(
                        orig.bodies@[j],
                        orig.gravity,
                        orig.inv_dt as int,
                    ),
                forall|j: int|
                    0 <= j < i ==> #[trigger] keeps_body(orig.bodies@[j], self.bodies@[j]),
                forall|j: int| i <= j < n ==> self.bodies@[j] == orig.bodies@[j],
            decreases n - i,
        {
            let b = self.bodies[i];
            proof {
                assert(crate::types::body_ok(orig.bodies@[i as int]));
            }
            if b.mass > 0 {
                let vx = sat_i128(b.vel.x as i128 + gdx);
                let vy = sat_i128(b.vel.y as i128 + gdy);
                let px = sat_i128(b.pos.x as i128 + tdiv_i128(vx as i128, inv_dt as i128));
                let py = sat_i128(b.pos.y as i128 + tdiv_i128(vy as i128, inv_dt as i128));
                let nb = Body {
                    pos: Vec2 { x: px, y: py },
                    prev_pos: b.pos,
                    vel: Vec2 { x: vx, y: vy },
                    pre_solve_vel: Vec2 { x: vx, y: vy },
                    ..b
                };
                self.bodies[i] = nb;
            }
            i = i + 1;
        }
        proof {
            lemma_pointwise_wf(orig, *self);
        }
    }

    /// For every dynamic body, recompute the velocity from the realized
    /// positional displacement: `vel = (pos - prev_pos) * inv_dt`.
    pub fn update_vel(&mut self)
        requires
            old(self).wf(),
        ensures
            final(self).wf(),
            final(self).bodies@.len() == old(self).bodies@.len(),
            forall|i: int|
                0 <= i < old(self).bodies@.len() ==> final(self).bodies@[i] == reconciled_body(
                    old(self).bodies@[i],
                    old(self).inv_dt as int,
                ),
            final(self).gravity == old(self).gravity,
            final(self).inv_dt == old(self).inv_dt,
            final(self).pairs@ == old(self).pairs@,
            final(self).contacts@ == old(self).contacts@,
            final(self).static_contacts@ == old(self).static_contacts@,
    {
        let ghost orig = *self;
        let inv_dt = self.inv_dt;
        let n = self.bodies.len();
        let mut i: usize = 0;
        while i < n
            invariant
                orig.wf(),
                0 <= i <= n,
                n == self.bodies@.len(),
                n == orig.bodies@.len(),
                inv_dt == orig.inv_dt,
                self.gravity == orig.gravity,
                self.inv_dt == orig.inv_dt,
                self.pairs@ == orig.pairs@,
                self.contacts@ == orig.contacts@,
                self.static_contacts@ == orig.static_contacts@,
                forall|j: int|
                    0 <= j < i ==> self.bodies@[j] == reconciled_body(
                        orig.bodies@[j],
                        orig.inv_dt as int,
                    ),
                forall|j: int|
                    0 <= j < i ==> #[trigger] keeps_body(orig.bodies@[j], self.bodies@[j]),
                forall|j: int| i <= j < n ==> self.bodies@[j] == orig.bodies@[j],
            decreases n - i,
        {
            let b = self.bodies[i];
            proof {
                assert(crate::types::body_ok(orig.bodies@[i as int]));
            }
            if b.mass > 0 {
                proof {
                    crate::math::lemma_mul_abs_bound(
                        b.pos.x - b.prev_pos.x,
                        inv_dt as int,
                        2 * COORD_LIMIT,
                        INV_DT_LIMIT as int,
                    );
                    crate::math::lemma_mul_abs_bound(
                        b.pos.y - b.prev_pos.y,
                        inv_dt as int,
                        2 * COORD_LIMIT,
                        INV_DT_LIMIT as int,
                    );
                }
                let vx = sat_i128((b.pos.x as i128 - b.prev_pos.x as i128) * inv_dt as i128);
                let vy = sat_i128((b.pos.y as i128 - b.prev_pos.y as i128) * inv_dt as i128);
                let nb = Body { vel: Vec2 { x: vx, y: vy }, ..b };
                self.bodies[i] = nb;
            }
            i = i + 1;
        }
        proof {
            lemma_pointwise_wf(orig, *self);
        }
    }

    /// Copies the simulated position of every body into its render-facing
    /// position.
    pub fn sync_transforms(&mut self)
        requires
            old(self).wf(),
        ensures
            final(self).wf(),
            final(self).bodies@.len() == old(self).bodies@.len(),
            forall|i: int|
                0 <= i < old(self).bodies@.len() ==> final(self).bodies@[i] == synced_body(
                    old(self).bodies@[i],
                ),
            final(self).gravity == old(self).gravity,
            final(self).inv_dt == old(self).inv_dt,
            final(self).pairs@ == old(self).pairs@,
            final(self).contacts@ == old(self).contacts@,
            final(self).static_contacts@ == old(self).static_contacts@,
    {
        let ghost orig = *self;
        let n = self.bodies.len();
        let mut i: usize = 0;
        while i < n
            invariant
                orig.wf(),
                0 <= i <= n,
                n == self.bodies@.len(),
                n == orig.bodies@.len(),
                self.gravity == orig.gravity,
                self.inv_dt == orig.inv_dt,
                self.pairs@ == orig.pairs@,
                self.contacts@ == orig.contacts@,
                self.static_contacts@ == orig.static_contacts@,
                forall|j: int| 0 <= j < i ==> self.bodies@[j] == synced_body(orig.bodies@[j]),
                forall|j: int|
                    0 <= j < i ==> #[trigger] keeps_body(orig.bodies@[j], self.bodies@[j]),
                forall|j: int| i <= j < n ==> self.bodies@[j] == orig.bodies@[j],
            decreases n - i,
        {
            let b = self.bodies[i];
            proof {
                assert(crate::types::body_ok(orig.bodies@[i as int]));
            }
            let nb = Body { render_pos: b.pos, ..b };
            self.bodies[i] = nb;
            i = i + 1;
        }
        proof {
            lemma_pointwise_wf(orig, *self);
        }
    }

    /// Empties both contact buffers; run before the position solve so no
    /// stale contact survives into a new step.
    pub fn clear_contacts(&mut self)
        requires
            old(self).wf(),
        ensures
            final(self).wf(),
            final(self).contacts@.len() == 0,
            final(self).static_contacts@.len() == 0,
            final(self).bodies@ == old(self).bodies@,
            final(self).gravity == old(self).gravity,
            final(self).inv_dt == old(self).inv_dt,
            final(self).pairs@ == old(self).pairs@,
    {
        self.contacts.clear();
        self.static_contacts.clear();
    }
}

/// A solver pass rewrites a body without touching its mass, shape or
/// restitution, and keeps every stored vector bounded.
pub open spec fn keeps_body(ob: Body, nb: Body) -> bool {
    &&& nb.mass == ob.mass
    &&& nb.shape == ob.shape
    &&& nb.restitution == ob.restitution
    &&& crate::types::vec_ok(nb.pos)
    &&& crate::types::vec_ok(nb.prev_pos)
    &&& crate::types::vec_ok(nb.vel)
    &&& crate::types::vec_ok(nb.pre_solve_vel)
    &&& crate::types::vec_ok(nb.render_pos)
}

/// The pointwise passes keep masses, shapes and restitutions intact and all
/// stored vectors bounded, so they preserve world well-formedness.
pub proof fn lemma_pointwise_wf(orig: World, cur: World)
    requires
        orig.wf(),
        cur.bodies@.len() == orig.bodies@.len(),
        cur.gravity == orig.gravity,
        cur.inv_dt == orig.inv_dt,
        cur.pairs@ == orig.pairs@,
        cur.contacts@ == orig.contacts@,
        cur.static_contacts@ == orig.static_contacts@,
        forall|j: int|
            0 <= j < cur.bodies@.len() ==> #[trigger] keeps_body(orig.bodies@[j], cur.bodies@[j]),
    ensures
        cur.wf(),
{
    assert forall|j: int| 0 <= j < cur.bodies@.len() implies crate::types::body_ok(
        #[trigger] cur.bodies@[j],
    ) by {
        assert(crate::types::body_ok(orig.bodies@[j]));
        assert(keeps_body(orig.bodies@[j], cur.bodies@[j]));
    }
    assert forall|k: int| 0 <= k < cur.pairs@.len() implies crate::types::pair_ok(
        cur.bodies@,
        #[trigger] cur.pairs@[k],
    ) by {
        assert(crate::types::pair_ok(orig.bodies@, orig.pairs@[k]));
        let p = cur.pairs@[k];
        assert(keeps_body(orig.bodies@[p.a as int], cur.bodies@[p.a as int]));
        assert(keeps_body(orig.bodies@[p.b as int], cur.bodies@[p.b as int]));
    }
    assert forall|k: int| 0 <= k < cur.contacts@.len() implies crate::types::dyn_contact_ok(
        cur.bodies@,
        #[trigger] cur.contacts@[k],
    ) by {
        assert(crate::types::dyn_contact_ok(orig.bodies@, orig.contacts@[k]));
        let c = cur.contacts@[k];
        assert(keeps_body(orig.bodies@[c.a as int], cur.bodies@[c.a as int]));
        assert(keeps_body(orig.bodies@[c.b as int], cur.bodies@[c.b as int]));
    }
    assert forall|k: int| 0 <= k < cur.static_contacts@.len() implies crate::types::contact_ok(
        cur.bodies@,
        #[trigger] cur.static_contacts@[k],
    ) by {
        assert(crate::types::contact_ok(orig.bodies@, orig.static_contacts@[k]));
        let c = cur.static_contacts@[k];
        assert(keeps_body(orig.bodies@[c.a as int], cur.bodies@[c.a as int]));
    }
}

} // verus!
