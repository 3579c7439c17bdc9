//! The body store: per-body components, the transient contact buffers, and
//! their well-formedness predicates.

use vstd::prelude::*;

use crate::math::COORD_LIMIT;

verus! {

/// Largest radius or half-extent of a collider.
pub const SHAPE_LIMIT: i64 = 1_000_000;

/// Largest mass of a dynamic body.
pub const MASS_LIMIT: i64 = 1_000_000;

/// Fixed-point scale of restitution coefficients: `REST_ONE` stands for a
/// coefficient of one (perfectly elastic).
pub const REST_ONE: i64 = 1_000;

/// Fixed-point scale of contact normals: a unit normal has Euclidean length
/// `NORM_ONE`.
pub const NORM_ONE: i64 = 1_000;

/// Largest number of steps per second (the timestep is `1 / inv_dt`
/// seconds).
pub const INV_DT_LIMIT: i64 = 1_000;

/// A two-dimensional vector of fixed-point scalars.
#[derive(Clone, Copy, Debug, PartialEq, Eq, Structural)]
pub struct Vec2 {
    pub x: i64,
    pub y: i64,
}

/// A collider: dynamic bodies are circles; static bodies are circles or
/// axis-aligned rectangles (stored by half-extents).
#[derive(Clone, Copy, Debug, PartialEq, Eq, Structural)]
pub enum Shape {
    Circle { radius: i64 },
    Rect { half_width: i64, half_height: i64 },
}

/// One body of the store.  A positive `mass` marks the body as dynamic; a
/// zero `mass` marks it static (immovable).  `restitution` is a fixed-point
/// coefficient in `[0, REST_ONE]`.
#[derive(Clone, Copy, Debug, PartialEq, Eq, Structural)]
pub struct Body {
    /// Authoritative simulated location.
    pub pos: Vec2,
    /// Location at the top of the current step, recorded by the integrator.
    pub prev_pos: Vec2,
    /// Current velocity (provisional after integration, reconciled from the
    /// realized displacement after the position solve).
    pub vel: Vec2,
    /// Snapshot of the velocity right after integration, before any
    /// position-solve-induced change; the restitution reference.
    pub pre_solve_vel: Vec2,
    /// Render-facing copy of the position, written by the transform sync.
    pub render_pos: Vec2,
    pub shape: Shape,
    pub mass: i64,
    pub restitution: i64,
}

/// A broad-phase candidate pair; always `a > b`, both dynamic.
#[derive(Clone, Copy, Debug, PartialEq, Eq, Structural)]
pub struct CandidatePair {
    pub a: usize,
    pub b: usize,
}

/// A confirmed contact: body indices and the contact normal, scaled by
/// `NORM_ONE`.  For dynamic-dynamic contacts the normal points from `a`
/// toward `b`; for dynamic-static contacts it is the direction subtracted
/// from the dynamic body's position.
#[derive(Clone, Copy, Debug, PartialEq, Eq, Structural)]
pub struct Contact {
    pub a: usize,
    pub b: usize,
    pub normal: Vec2,
}

pub open spec fn is_dynamic(b: Body) -> bool {
    b.mass > 0
}

/// The circle radius of a body (zero for rectangles, which never appear
/// where a radius is read).
pub open spec fn radius_of(b: Body) -> int {
    match b.shape {
        Shape::Circle { radius } => radius as int,
        Shape::Rect { .. } => 0,
    }
}

pub open spec fn vec_ok(v: Vec2) -> bool {
    &&& -COORD_LIMIT <= v.x <= COORD_LIMIT
    &&& -COORD_LIMIT <= v.y <= COORD_LIMIT
}

pub open spec fn shape_ok(s: Shape) -> bool {
    match s {
        Shape::Circle { radius } => 1 <= radius <= SHAPE_LIMIT,
        Shape::Rect { half_width, half_height } => {
            &&& 1 <= half_width <= SHAPE_LIMIT
            &&& 1 <= half_height <= SHAPE_LIMIT
        },
    }
}

/// Well-formedness of one body: bounded state, a valid collider, a bounded
/// non-negative mass, a restitution coefficient in `[0, 1]`, and the rule
/// that every dynamic body is a circle.
pub open spec fn body_ok(b: Body) -> bool {
    &&& vec_ok(b.pos)
    &&& vec_ok(b.prev_pos)
    &&& vec_ok(b.vel)
    &&& vec_ok(b.pre_solve_vel)
    &&& vec_ok(b.render_pos)
    &&& shape_ok(b.shape)
    &&& 0 <= b.mass <= MASS_LIMIT
    &&& 0 <= b.restitution <= REST_ONE
    &&& is_dynamic(b) ==> b.shape is Circle
}

pub open spec fn bodies_ok(bodies: Seq<Body>) -> bool {
    forall|i: int| 0 <= i < bodies.len() ==> #[trigger] body_ok(bodies[i])
}

/// A candidate pair is meaningful for a given store: distinct in-range
/// indices in descending order, both dynamic.
pub open spec fn pair_ok(bodies: Seq<Body>, p: CandidatePair) -> bool {
    &&& p.b < p.a < bodies.len()
    &&& is_dynamic(bodies[p.a as int])
    &&& is_dynamic(bodies[p.b as int])
}

pub open spec fn pairs_ok(bodies: Seq<Body>, pairs: Seq<CandidatePair>) -> bool {
    forall|k: int| 0 <= k < pairs.len() ==> #[trigger] pair_ok(bodies, pairs[k])
}

/// A contact references two distinct in-range bodies, the first dynamic,
/// and carries a normal whose components are bounded by the normal scale.
pub open spec fn contact_ok(bodies: Seq<Body>, c: Contact) -> bool {
    &&& c.a < bodies.len()
    &&& c.b < bodies.len()
    &&& c.a != c.b
    &&& is_dynamic(bodies[c.a as int])
    &&& -NORM_ONE <= c.normal.x <= NORM_ONE
    &&& -NORM_ONE <= c.normal.y <= NORM_ONE
}

/// A dynamic-dynamic contact additionally has a dynamic second body.
pub open spec fn dyn_contact_ok(bodies: Seq<Body>, c: Contact) -> bool {
    &&& contact_ok(bodies, c)
    &&& is_dynamic(bodies[c.b as int])
}

pub open spec fn contacts_ok(bodies: Seq<Body>, contacts: Seq<Contact>) -> bool {
    forall|k: int| 0 <= k < contacts.len() ==> #[trigger] contact_ok(bodies, contacts[k])
}

pub open spec fn dyn_contacts_ok(bodies: Seq<Body>, contacts: Seq<Contact>) -> bool {
    forall|k: int| 0 <= k < contacts.len() ==> #[trigger] dyn_contact_ok(bodies, contacts[k])
}

} // verus!
