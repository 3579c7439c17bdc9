//! The fixed-timestep driver: the named solver stages in their mandatory
//! order, as one function per tick.

use vstd::prelude::*;

use crate::boxes::bx_outer;
use crate::broad_phase::candidate;
use crate::integrator::{integrated_body, reconciled_body, synced_body};
use crate::position::solve_pairs_from;
use crate::position_static::sc_outer;
use crate::types::{is_dynamic, Body, CandidatePair, Contact, Vec2};
use crate::velocity::{vel_pairs_from, vel_statics_from};
use crate::world::World;

verus! {

pub open spec fn integrated_seq(bodies: Seq<Body>, gravity: Vec2, inv_dt: int) -> Seq<Body> {
    Seq::new(bodies.len(), |i: int| integrated_body(bodies[i], gravity, inv_dt))
}

pub open spec fn reconciled_seq(bodies: Seq<Body>, inv_dt: int) -> Seq<Body> {
    Seq::new(bodies.len(), |i: int| reconciled_body(bodies[i], inv_dt))
}

pub open spec fn synced_seq(bodies: Seq<Body>) -> Seq<Body> {
    Seq::new(bodies.len(), |i: int| synced_body(bodies[i]))
}

/// One whole step on a body store, given the candidate pairs the broad
/// phase collected: integrate, solve positions (dynamic pairs, static
/// circles, static rectangles, against freshly cleared contact buffers),
/// reconcile velocities from the realized displacement, solve velocities
/// for both contact lists, and sync transforms.  Yields the new store and
/// the two contact lists.
pub open spec fn step_result(
    bodies: Seq<Body>,
    gravity: Vec2,
    inv_dt: int,
    pairs: Seq<CandidatePair>,
) -> (Seq<Body>, Seq<Contact>, Seq<Contact>) {
    let n = bodies.len() as int;
    let b1 = integrated_seq(bodies, gravity, inv_dt);
    let r2 = solve_pairs_from(b1, Seq::empty(), pairs);
    let r3 = sc_outer(r2.0, Seq::empty(), 0, n);
    let r4 = bx_outer(r3.0, r3.1, 0, n);
    let b5 = reconciled_seq(r4.0, inv_dt);
    let b6 = vel_pairs_from(b5, r2.1);
    let b7 = vel_statics_from(b6, r4.1);
    (synced_seq(b7), r2.1, r4.1)
}

impl World {
    /// Advances the world by one fixed timestep: collect candidate pairs,
    /// integrate, clear the contact buffers, solve positions (three
    /// sub-passes), reconcile velocities from the realized displacement,
    /// solve velocities (two sub-passes), and sync the render positions.
    pub fn step(&mut self)
        requires
            old(self).wf(),
        ensures
            final(self).wf(),
            final(self).bodies@.len() == old(self).bodies@.len(),
            final(self).gravity == old(self).gravity,
            final(self).inv_dt == old(self).inv_dt,
            forall|k: int|
                0 <= k < final(self).pairs@.len() ==> candidate(
                    old(self).bodies@,
                    #[trigger] final(self).pairs@[k].a as int,
                    final(self).pairs@[k].b as int,
                    old(self).inv_dt as int,
                ),
            forall|i: int, j: int|
                #[trigger] candidate(old(self).bodies@, i, j, old(self).inv_dt as int)
                    ==> final(self).pairs@.contains(
                    CandidatePair { a: i as usize, b: j as usize },
                ),
            forall|k1: int, k2: int|
                0 <= k1 < k2 < final(self).pairs@.len() ==> crate::broad_phase::pair_lt(
                    #[trigger] final(self).pairs@[k1],
                    #[trigger] final(self).pairs@[k2],
                ),
            (final(self).bodies@, final(self).contacts@, final(self).static_contacts@)
                == step_result(
                old(self).bodies@,
                old(self).gravity,
                old(self).inv_dt as int,
                final(self).pairs@,
            ),
    {
        let ghost w0 = *self;
        self.collect_collision_pairs();
        let ghost pairs = self.pairs@;
        self.integrate();
        proof {
            assert(self.bodies@ =~= integrated_seq(w0.bodies@, w0.gravity, w0.inv_dt as int));
        }
        let ghost b1 = self.bodies@;
        self.clear_contacts();
        proof {
            assert(self.contacts@ =~= Seq::<Contact>::empty());
            assert(self.static_contacts@ =~= Seq::<Contact>::empty());
        }
        self.solve_pos();
        proof {
            assert(self.contacts@ =~= solve_pairs_from(b1, Seq::empty(), pairs).1);
        }
        let ghost r2 = (self.bodies@, self.contacts@);
        self.solve_pos_statics();
        let ghost r3 = (self.bodies@, self.static_contacts@);
        self.solve_pos_static_boxes();
        let ghost r4 = (self.bodies@, self.static_contacts@);
        self.update_vel();
        proof {
            assert(self.bodies@ =~= reconciled_seq(r4.0, w0.inv_dt as int));
        }
        let ghost b5 = self.bodies@;
        self.solve_vel();
        let ghost b6 = self.bodies@;
        self.solve_vel_statics();
        let ghost b7 = self.bodies@;
        self.sync_transforms();
        proof {
            assert(self.bodies@ =~= synced_seq(b7));
            assert(r2 == solve_pairs_from(b1, Seq::empty(), pairs));
            assert(r3 == sc_outer(r2.0, Seq::empty(), 0, w0.bodies@.len() as int));
            assert(r4 == bx_outer(r3.0, r3.1, 0, w0.bodies@.len() as int));
        }
    }
}

} // verus!
