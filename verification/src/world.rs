//! The world: the body store, the global gravity, the timestep, and the
//! step-scoped contact buffers.

use vstd::prelude::*;

use crate::math::COORD_LIMIT;
use crate::types::{
    Body, CandidatePair, Contact, Shape, Vec2, bodies_ok, body_ok, contacts_ok, dyn_contacts_ok,
    is_dynamic, pairs_ok, vec_ok, INV_DT_LIMIT, MASS_LIMIT, REST_ONE, SHAPE_LIMIT,
};

verus! {

/// The complete simulation state.  `pairs`, `contacts` and `static_contacts`
/// are transient, step-scoped buffers rebuilt by every step; they never hold
/// state across steps.
pub struct World {
    pub bodies: Vec<Body>,
    /// Process-wide gravity vector, applied to every dynamic body.
    pub gravity: Vec2,
    /// Steps per second; the timestep is `1 / inv_dt` seconds.
    pub inv_dt: i64,
    /// Broad-phase candidate pairs (dynamic-dynamic), descending indices.
    pub pairs: Vec<CandidatePair>,
    /// Dynamic-dynamic contacts confirmed during the position solve.
    pub contacts: Vec<Contact>,
    /// Dynamic-static contacts confirmed during the position solve.
    pub static_contacts: Vec<Contact>,
}

impl World {
    /// Well-formedness: every body is bounded and valid, and the transient
    /// buffers reference the store consistently.  Every solver pass
    /// preserves this invariant.
    pub open spec fn wf(self) -> bool {
        &&& bodies_ok(self.bodies@)
        &&& vec_ok(self.gravity)
        &&& 1 <= self.inv_dt <= INV_DT_LIMIT
        &&& pairs_ok(self.bodies@, self.pairs@)
        &&& dyn_contacts_ok(self.bodies@, self.contacts@)
        &&& contacts_ok(self.bodies@, self.static_contacts@)
    }

    pub fn new(gravity: Vec2, inv_dt: i64) -> (w: World)
        requires
            vec_ok(gravity),
            1 <= inv_dt <= INV_DT_LIMIT,
        ensures
            w.wf(),
            w.bodies@.len() == 0,
            w.gravity == gravity,
            w.inv_dt == inv_dt,
            w.pairs@.len() == 0,
            w.contacts@.len() == 0,
            w.static_contacts@.len() == 0,
    {
        World {
            bodies: Vec::new(),
            gravity,
            inv_dt,
            pairs: Vec::new(),
            contacts: Vec::new(),
            static_contacts: Vec::new(),
        }
    }

    /// Appends a body, keeping the buffers valid (they only reference
    /// existing indices, which survive a push).
    fn push_body(&mut self, body: Body) -> (idx: usize)
        requires
            old(self).wf(),
            body_ok(body),
        ensures
            final(self).wf(),
            final(self).bodies@ == old(self).bodies@.push(body),
            idx == old(self).bodies@.len(),
            final(self).gravity == old(self).gravity,
            final(self).inv_dt == old(self).inv_dt,
            final(self).pairs@ == old(self).pairs@,
            final(self).contacts@ == old(self).contacts@,
            final(self).static_contacts@ == old(self).static_contacts@,
    {
        let idx = self.bodies.len();
        self.bodies.push(body);
        proof {
            assert forall|k: int| 0 <= k < self.pairs@.len() implies crate::types::pair_ok(
                self.bodies@,
                self.pairs@[k],
            ) by {
                assert(crate::types::pair_ok(old(self).bodies@, old(self).pairs@[k]));
            }
            assert forall|k: int| 0 <= k < self.contacts@.len() implies crate::types::dyn_contact_ok(
                self.bodies@,
                self.contacts@[k],
            ) by {
                assert(crate::types::dyn_contact_ok(old(self).bodies@, old(self).contacts@[k]));
            }
            assert forall|k: int|
                0 <= k < self.static_contacts@.len() implies crate::types::contact_ok(
                self.bodies@,
                self.static_contacts@[k],
            ) by {
                assert(crate::types::contact_ok(
                    old(self).bodies@,
                    old(self).static_contacts@[k],
                ));
            }
        }
        idx
    }

    /// Spawns a dynamic circle with the given state; returns its index.
    pub fn add_dynamic_circle(
        &mut self,
        pos: Vec2,
        vel: Vec2,
        radius: i64,
        mass: i64,
        restitution: i64,
    ) -> (idx: usize)
        requires
            old(self).wf(),
            vec_ok(pos),
            vec_ok(vel),
            1 <= radius <= SHAPE_LIMIT,
            1 <= mass <= MASS_LIMIT,
            0 <= restitution <= REST_ONE,
        ensures
            final(self).wf(),
            idx == old(self).bodies@.len(),
            final(self).bodies@ == old(self).bodies@.push(
                Body {
                    pos,
                    prev_pos: pos,
                    vel,
                    pre_solve_vel: vel,
                    render_pos: pos,
                    shape: Shape::Circle { radius },
                    mass,
                    restitution,
                },
            ),
            final(self).gravity == old(self).gravity,
            final(self).inv_dt == old(self).inv_dt,
            final(self).pairs@ == old(self).pairs@,
            final(self).contacts@ == old(self).contacts@,
            final(self).static_contacts@ == old(self).static_contacts@,
    {
        self.push_body(
            Body {
                pos,
                prev_pos: pos,
                vel,
                pre_solve_vel: vel,
                render_pos: pos,
                shape: Shape::Circle { radius },
                mass,
                restitution,
            },
        )
    }

    /// Spawns a static (immovable) circle; returns its index.
    pub fn add_static_circle(&mut self, pos: Vec2, radius: i64, restitution: i64) -> (idx: usize)
        requires
            old(self).wf(),
            vec_ok(pos),
            1 <= radius <= SHAPE_LIMIT,
            0 <= restitution <= REST_ONE,
        ensures
            final(self).wf(),
            idx == old(self).bodies@.len(),
            final(self).bodies@ == old(self).bodies@.push(
                Body {
                    pos,
                    prev_pos: pos,
                    vel: Vec2 { x: 0, y: 0 },
                    pre_solve_vel: Vec2 { x: 0, y: 0 },
                    render_pos: pos,
                    shape: Shape::Circle { radius },
                    mass: 0,
                    restitution,
                },
            ),
            final(self).gravity == old(self).gravity,
            final(self).inv_dt == old(self).inv_dt,
            final(self).pairs@ == old(self).pairs@,
            final(self).contacts@ == old(self).contacts@,
            final(self).static_contacts@ == old(self).static_contacts@,
    {
        self.push_body(
            Body {
                pos,
                prev_pos: pos,
                vel: Vec2 { x: 0, y: 0 },
                pre_solve_vel: Vec2 { x: 0, y: 0 },
                render_pos: pos,
                shape: Shape::Circle { radius },
                mass: 0,
                restitution,
            },
        )
    }

    /// Spawns a static axis-aligned rectangle; returns its index.
    pub fn add_static_rect(
        &mut self,
        pos: Vec2,
        half_width: i64,
        half_height: i64,
        restitution: i64,
    ) -> (idx: usize)
        requires
            old(self).wf(),
            vec_ok(pos),
            1 <= half_width <= SHAPE_LIMIT,
            1 <= half_height <= SHAPE_LIMIT,
            0 <= restitution <= REST_ONE,
        ensures
            final(self).wf(),
            idx == old(self).bodies@.len(),
            final(self).bodies@ == old(self).bodies@.push(
                Body {
                    pos,
                    prev_pos: pos,
                    vel: Vec2 { x: 0, y: 0 },
                    pre_solve_vel: Vec2 { x: 0, y: 0 },
                    render_pos: pos,
                    shape: Shape::Rect { half_width, half_height },
                    mass: 0,
                    restitution,
                },
            ),
            final(self).gravity == old(self).gravity,
            final(self).inv_dt == old(self).inv_dt,
            final(self).pairs@ == old(self).pairs@,
            final(self).contacts@ == old(self).contacts@,
            final(self).static_contacts@ == old(self).static_contacts@,
    {
        self.push_body(
            Body {
                pos,
                prev_pos: pos,
                vel: Vec2 { x: 0, y: 0 },
                pre_solve_vel: Vec2 { x: 0, y: 0 },
                render_pos: pos,
                shape: Shape::Rect { half_width, half_height },
                mass: 0,
                restitution,
            },
        )
    }

    /// The number of bodies in the store.
    pub fn body_count(&self) -> (n: usize)
        ensures
            n == self.bodies@.len(),
    {
        self.bodies.len()
    }

    /// Reads one body.
    pub fn body(&self, idx: usize) -> (b: Body)
        requires
            idx < self.bodies@.len(),
        ensures
            b == self.bodies@[idx as int],
    {
        self.bodies[idx]
    }
}

} // verus!
