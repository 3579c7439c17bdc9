//! Laws of the solver: properties that relate several passes, stated over
//! the same spec functions the passes' contracts use.

use vstd::prelude::*;

use crate::broad_phase::{candidate, pair_lt};
use crate::math::{
    lemma_tdiv_bound, lemma_tdiv_mul_exact, sat, tdiv,
};
use crate::types::{
    is_dynamic, radius_of, Body, CandidatePair, Contact, Vec2, NORM_ONE, REST_ONE,
};
use crate::position::{center_dist, norm_x_of, norm_y_of};
use crate::velocity::vel_pair_bodies;

verus! {

/// Pair collection is symmetric and duplicate-free: under the broad-phase
/// contract (soundness, completeness, strict ordering), a qualifying pair
/// of dynamic bodies appears in the list exactly once, with the larger
/// index first, and never in the reversed order.
pub proof fn lemma_pair_collection_unique(
    bodies: Seq<Body>,
    inv_dt: int,
    pairs: Seq<CandidatePair>,
    i: int,
    j: int,
)
    requires
        forall|k: int|
            0 <= k < pairs.len() ==> candidate(
                bodies,
                #[trigger] pairs[k].a as int,
                pairs[k].b as int,
                inv_dt,
            ),
        forall|a: int, b: int|
            #[trigger] candidate(bodies, a, b, inv_dt) ==> pairs.contains(
                CandidatePair { a: a as usize, b: b as usize },
            ),
        forall|k1: int, k2: int|
            0 <= k1 < k2 < pairs.len() ==> pair_lt(#[trigger] pairs[k1], #[trigger] pairs[k2]),
        candidate(bodies, i, j, inv_dt),
    ensures
        exists|k: int|
            0 <= k < pairs.len() && pairs[k] == (CandidatePair { a: i as usize, b: j as usize }),
        forall|k1: int, k2: int|
            0 <= k1 < pairs.len() && 0 <= k2 < pairs.len() && pairs[k1] == pairs[k2] ==> k1 == k2,
        forall|k: int|
            0 <= k < pairs.len() ==> !((#[trigger] pairs[k]).a as int == j && pairs[k].b as int
                == i),
{
    assert(pairs.contains(CandidatePair { a: i as usize, b: j as usize }));
    assert forall|k1: int, k2: int|
        0 <= k1 < pairs.len() && 0 <= k2 < pairs.len() && pairs[k1] == pairs[k2] implies k1
        == k2 by {
        if k1 < k2 {
            assert(pair_lt(pairs[k1], pairs[k2]));
        } else if k2 < k1 {
            assert(pair_lt(pairs[k2], pairs[k1]));
        }
    }
    assert forall|k: int|
        0 <= k < pairs.len() implies !((#[trigger] pairs[k]).a as int == j && pairs[k].b as int
        == i) by {
        assert(candidate(bodies, pairs[k].a as int, pairs[k].b as int, inv_dt));
    }
}

/// The common setting of the velocity-exchange laws: one dynamic-dynamic
/// contact between equal-mass bodies, its normal the positive x axis, both
/// bodies unchanged since integration (`pre_solve_vel == vel`), every
/// velocity component within the saturation range.
pub open spec fn head_on_setting(bodies: Seq<Body>, c: Contact, m: int) -> bool {
    &&& c.a < bodies.len()
    &&& c.b < bodies.len()
    &&& c.a != c.b
    &&& c.normal == (Vec2 { x: NORM_ONE, y: 0 })
    &&& bodies[c.a as int].mass == m
    &&& bodies[c.b as int].mass == m
    &&& 1 <= m <= crate::types::MASS_LIMIT
    &&& bodies[c.a as int].pre_solve_vel == bodies[c.a as int].vel
    &&& bodies[c.b as int].pre_solve_vel == bodies[c.b as int].vel
    &&& crate::types::vec_ok(bodies[c.a as int].vel)
    &&& crate::types::vec_ok(bodies[c.b as int].vel)
}

/// Shared computation of the velocity-solve scalars in the head-on
/// setting: the normal velocity is the difference of the x components, and
/// the per-body velocity change is `tdiv(s, 2)` with opposite signs.
proof fn lemma_head_on_deltas(bodies: Seq<Body>, c: Contact, m: int, s: int)
    requires
        head_on_setting(bodies, c, m),
    ensures
        tdiv(NORM_ONE as int * s * m, (m + m) * NORM_ONE) == tdiv(s, 2),
        tdiv(0 * s * m, (m + m) * NORM_ONE) == 0,
{
    assert(NORM_ONE as int * s * m == s * (NORM_ONE as int * m)) by (nonlinear_arith);
    assert((m + m) * NORM_ONE == 2 * (NORM_ONE as int * m)) by (nonlinear_arith);
    assert(NORM_ONE as int * m >= 1) by (nonlinear_arith)
        requires
            m >= 1,
    ;
    crate::math::lemma_tdiv_cancel(s, 2, NORM_ONE as int * m);
    assert(0 * s * m == 0) by (nonlinear_arith);
    lemma_tdiv_bound(0, (m + m) * NORM_ONE);
}

/// Two equal-mass bodies approaching head-on with restitution one exchange
/// their normal velocities exactly; the tangential components are
/// untouched.
pub proof fn lemma_elastic_exchange(bodies: Seq<Body>, c: Contact, m: int)
    requires
        head_on_setting(bodies, c, m),
        bodies[c.a as int].restitution == REST_ONE,
        bodies[c.b as int].restitution == REST_ONE,
        bodies[c.a as int].vel.x > bodies[c.b as int].vel.x,
    ensures
        ({
            let r = vel_pair_bodies(bodies, c);
            let va = bodies[c.a as int].vel;
            let vb = bodies[c.b as int].vel;
            &&& r[c.a as int].vel == (Vec2 { x: vb.x, y: va.y })
            &&& r[c.b as int].vel == (Vec2 { x: va.x, y: vb.y })
        }),
{
    let a = bodies[c.a as int];
    let b = bodies[c.b as int];
    let d = a.vel.x - b.vel.x;
    lemma_tdiv_mul_exact(d, NORM_ONE as int);
    assert((a.vel.x - b.vel.x) * (NORM_ONE as int) + (a.vel.y - b.vel.y) * 0 == d * (
    NORM_ONE as int));
    assert(tdiv(a.restitution + b.restitution, 2) == REST_ONE);
    lemma_tdiv_mul_exact(-d, REST_ONE as int);
    assert(-((REST_ONE as int) * d) == (-d) * (REST_ONE as int)) by (nonlinear_arith);
    let s = -d + -d;
    lemma_head_on_deltas(bodies, c, m, s);
    lemma_tdiv_mul_exact(-d, 2);
    assert(s == (-d) * 2);
    assert(tdiv(s, 2) == -d);
    assert(sat(a.vel.x + -d) == b.vel.x);
    assert(sat(b.vel.x - -d) == a.vel.x);
    assert(sat(a.vel.y + 0) == a.vel.y);
    assert(sat(b.vel.y - 0) == b.vel.y);
}

/// Two equal-mass bodies meeting head-on with restitution zero are left
/// with the same normal velocity (their approach velocity is split
/// evenly); the tangential components are untouched.  The approach
/// velocity must be even, or the odd unit is lost to truncation.
pub proof fn lemma_inelastic_merge(bodies: Seq<Body>, c: Contact, m: int)
    requires
        head_on_setting(bodies, c, m),
        bodies[c.a as int].restitution == 0,
        bodies[c.b as int].restitution == 0,
        (bodies[c.a as int].vel.x - bodies[c.b as int].vel.x) % 2 == 0,
    ensures
        ({
            let r = vel_pair_bodies(bodies, c);
            let va = bodies[c.a as int].vel;
            let vb = bodies[c.b as int].vel;
            &&& r[c.a as int].vel.x == r[c.b as int].vel.x
            &&& r[c.a as int].vel.y == va.y
            &&& r[c.b as int].vel.y == vb.y
        }),
{
    let a = bodies[c.a as int];
    let b = bodies[c.b as int];
    let d = a.vel.x - b.vel.x;
    lemma_tdiv_mul_exact(d, NORM_ONE as int);
    assert((a.vel.x - b.vel.x) * (NORM_ONE as int) + (a.vel.y - b.vel.y) * 0 == d * (
    NORM_ONE as int));
    assert(tdiv(a.restitution + b.restitution, 2) == 0);
    assert(-(0 * d) == 0) by (nonlinear_arith);
    lemma_tdiv_bound(0, REST_ONE as int);
    let s = -d;
    lemma_head_on_deltas(bodies, c, m, s);
    let h = d / 2;
    assert(d == 2 * h) by {
        vstd::arithmetic::div_mod::lemma_fundamental_div_mod(d, 2);
    }
    lemma_tdiv_mul_exact(-h, 2);
    assert(s == (-h) * 2);
    assert(tdiv(s, 2) == -h);
    assert(sat(a.vel.x + -h) == a.vel.x - h);
    assert(sat(b.vel.x - -h) == b.vel.x + h);
    assert(a.vel.x - h == b.vel.x + h);
    assert(sat(a.vel.y + 0) == a.vel.y);
    assert(sat(b.vel.y - 0) == b.vel.y);
}


/// The circle contact normal is a unit vector at the `NORM_ONE` scale:
/// both components are bounded by `NORM_ONE`.
pub proof fn lemma_norm_bounds(a: Body, b: Body)
    requires
        center_dist(a, b) >= 1,
    ensures
        -NORM_ONE <= norm_x_of(a, b) <= NORM_ONE,
        -NORM_ONE <= norm_y_of(a, b) <= NORM_ONE,
{
    let dx = b.pos.x - a.pos.x;
    let dy = b.pos.y - a.pos.y;
    let d2 = crate::broad_phase::dist_sq(a.pos, b.pos);
    let dist = center_dist(a, b);
    let axd = if dx >= 0 {
        dx
    } else {
        -dx
    };
    let ayd = if dy >= 0 {
        dy
    } else {
        -dy
    };
    assert(axd * axd == dx * dx && axd * axd >= 0) by (nonlinear_arith)
        requires
            axd == dx || axd == -dx,
    ;
    assert(ayd * ayd == dy * dy && ayd * ayd >= 0) by (nonlinear_arith)
        requires
            ayd == dy || ayd == -dy,
    ;
    crate::math::lemma_sqrt_floor_square(axd);
    crate::math::lemma_sqrt_floor_square(ayd);
    crate::math::lemma_sqrt_floor_ordered(axd * axd, d2);
    crate::math::lemma_sqrt_floor_ordered(ayd * ayd, d2);
    crate::math::lemma_tdiv_abs_le(dx * NORM_ONE, dist, NORM_ONE as int);
    crate::math::lemma_tdiv_abs_le(dy * NORM_ONE, dist, NORM_ONE as int);
}

/// The rectangle contact normal is bounded by `NORM_ONE` in each
/// component.
pub proof fn lemma_box_norm_bounds(a: Body, b: Body)
    requires
        crate::boxes::box_touches(a, b),
    ensures
        -NORM_ONE <= crate::boxes::box_norm_x(a, b) <= NORM_ONE,
        -NORM_ONE <= crate::boxes::box_norm_y(a, b) <= NORM_ONE,
{
    let sx = crate::boxes::box_sep_x(a, b);
    let sy = crate::boxes::box_sep_y(a, b);
    if sx > 0 && sy > 0 {
        let c2 = sx * sx + sy * sy;
        assert(sx * sx >= 0 && sy * sy >= 0) by (nonlinear_arith);
        let cd = crate::math::sqrt_floor(c2);
        crate::math::lemma_sqrt_floor_square(sx);
        crate::math::lemma_sqrt_floor_square(sy);
        crate::math::lemma_sqrt_floor_ordered(sx * sx, c2);
        crate::math::lemma_sqrt_floor_ordered(sy * sy, c2);
        crate::math::lemma_tdiv_abs_le(sx * NORM_ONE, cd, NORM_ONE as int);
        crate::math::lemma_tdiv_abs_le(sy * NORM_ONE, cd, NORM_ONE as int);
        let tx = tdiv(sx * NORM_ONE, cd);
        let ty = tdiv(sy * NORM_ONE, cd);
        assert(-NORM_ONE <= -crate::boxes::sgn_pos(a.pos.x - b.pos.x) * tx <= NORM_ONE)
            by (nonlinear_arith)
            requires
                -(NORM_ONE as int) <= tx <= NORM_ONE as int,
                crate::boxes::sgn_pos(a.pos.x - b.pos.x) == 1 || crate::boxes::sgn_pos(
                    a.pos.x - b.pos.x,
                ) == -1,
        ;
        assert(-NORM_ONE <= -crate::boxes::sgn_pos(a.pos.y - b.pos.y) * ty <= NORM_ONE)
            by (nonlinear_arith)
            requires
                -(NORM_ONE as int) <= ty <= NORM_ONE as int,
                crate::boxes::sgn_pos(a.pos.y - b.pos.y) == 1 || crate::boxes::sgn_pos(
                    a.pos.y - b.pos.y,
                ) == -1,
        ;
    } else {
        assert(-NORM_ONE <= -crate::boxes::sgn_pos(a.pos.x - b.pos.x) * NORM_ONE <= NORM_ONE)
            by (nonlinear_arith)
            requires
                crate::boxes::sgn_pos(a.pos.x - b.pos.x) == 1 || crate::boxes::sgn_pos(
                    a.pos.x - b.pos.x,
                ) == -1,
        ;
        assert(-NORM_ONE <= -crate::boxes::sgn_pos(a.pos.y - b.pos.y) * NORM_ONE <= NORM_ONE)
            by (nonlinear_arith)
            requires
                crate::boxes::sgn_pos(a.pos.y - b.pos.y) == 1 || crate::boxes::sgn_pos(
                    a.pos.y - b.pos.y,
                ) == -1,
        ;
    }
}


/// A pass keeps every body's mass, shape and restitution.
pub open spec fn same_kind(b0: Seq<Body>, b1: Seq<Body>) -> bool {
    &&& b1.len() == b0.len()
    &&& forall|j: int|
        0 <= j < b0.len() ==> {
            let nb = #[trigger] b1[j];
            &&& nb.mass == b0[j].mass
            &&& nb.shape == b0[j].shape
            &&& nb.restitution == b0[j].restitution
        }
}

/// A pass leaves every static body entirely unchanged.
pub open spec fn statics_fixed(b0: Seq<Body>, b1: Seq<Body>) -> bool {
    &&& b1.len() == b0.len()
    &&& forall|j: int| 0 <= j < b0.len() && !is_dynamic(b0[j]) ==> #[trigger] b1[j] == b0[j]
}

proof fn lemma_frames_compose(b0: Seq<Body>, b1: Seq<Body>, b2: Seq<Body>)
    requires
        same_kind(b0, b1),
        statics_fixed(b0, b1),
        same_kind(b1, b2),
        statics_fixed(b1, b2),
    ensures
        same_kind(b0, b2),
        statics_fixed(b0, b2),
{
    assert forall|j: int| 0 <= j < b0.len() && !is_dynamic(b0[j]) implies #[trigger] b2[j] == b0[j] by {
        assert(b1[j] == b0[j]);
    }
    assert forall|j: int|
        0 <= j < b0.len() implies {
            let nb = #[trigger] b2[j];
            &&& nb.mass == b0[j].mass
            &&& nb.shape == b0[j].shape
            &&& nb.restitution == b0[j].restitution
        } by {
        assert(b1[j].mass == b0[j].mass && b1[j].shape == b0[j].shape && b1[j].restitution == b0[j].restitution);
    }
}

proof fn lemma_dyn_contacts_transfer(b0: Seq<Body>, b1: Seq<Body>, contacts: Seq<Contact>)
    requires
        same_kind(b0, b1),
        crate::types::dyn_contacts_ok(b0, contacts),
    ensures
        crate::types::dyn_contacts_ok(b1, contacts),
{
    assert forall|k: int|
        0 <= k < contacts.len() implies #[trigger] crate::types::dyn_contact_ok(
        b1,
        contacts[k],
    ) by {
        assert(crate::types::dyn_contact_ok(b0, contacts[k]));
        let c = contacts[k];
        assert(b1[c.a as int].mass == b0[c.a as int].mass);
        assert(b1[c.b as int].mass == b0[c.b as int].mass);
    }
}

proof fn lemma_contacts_transfer(b0: Seq<Body>, b1: Seq<Body>, contacts: Seq<Contact>)
    requires
        same_kind(b0, b1),
        crate::types::contacts_ok(b0, contacts),
    ensures
        crate::types::contacts_ok(b1, contacts),
{
    assert forall|k: int|
        0 <= k < contacts.len() implies #[trigger] crate::types::contact_ok(b1, contacts[k]) by {
        assert(crate::types::contact_ok(b0, contacts[k]));
        let c = contacts[k];
        assert(b1[c.a as int].mass == b0[c.a as int].mass);
    }
}

/// The dynamic-dynamic position pass moves only the dynamic bodies named
/// by its pairs, keeps every body's kind, and records only well-formed
/// dynamic-dynamic contacts.
pub proof fn lemma_solve_pairs_frame(
    bodies: Seq<Body>,
    contacts: Seq<Contact>,
    pairs: Seq<CandidatePair>,
)
    requires
        crate::types::pairs_ok(bodies, pairs),
        crate::types::dyn_contacts_ok(bodies, contacts),
    ensures
        ({
            let r = crate::position::solve_pairs_from(bodies, contacts, pairs);
            &&& same_kind(bodies, r.0)
            &&& statics_fixed(bodies, r.0)
            &&& crate::types::dyn_contacts_ok(r.0, r.1)
        }),
    decreases pairs.len(),
{
    if pairs.len() > 0 {
        let p = pairs[0];
        assert(crate::types::pair_ok(bodies, p));
        let a = bodies[p.a as int];
        let b = bodies[p.b as int];
        let b1 = crate::position::solve_pair_bodies(bodies, p);
        let c1 = crate::position::solve_pair_contacts(bodies, contacts, p);
        if crate::position::circles_overlap(a, b) && center_dist(a, b) != 0 {
            assert((b.pos.x - a.pos.x) * (b.pos.x - a.pos.x) >= 0) by (nonlinear_arith);
            assert((b.pos.y - a.pos.y) * (b.pos.y - a.pos.y) >= 0) by (nonlinear_arith);
            crate::math::lemma_sqrt_floor(crate::broad_phase::dist_sq(a.pos, b.pos));
            lemma_norm_bounds(a, b);
        }
        assert(same_kind(bodies, b1));
        assert(statics_fixed(bodies, b1));
        assert(crate::types::dyn_contacts_ok(b1, c1)) by {
            lemma_dyn_contacts_transfer(bodies, b1, contacts);
            assert forall|k: int|
                0 <= k < c1.len() implies #[trigger] crate::types::dyn_contact_ok(
                b1,
                c1[k],
            ) by {
                if k < contacts.len() {
                    assert(crate::types::dyn_contact_ok(b1, contacts[k]));
                }
            }
        }
        let rest = pairs.subrange(1, pairs.len() as int);
        assert forall|k: int| 0 <= k < rest.len() implies #[trigger] crate::types::pair_ok(
            b1,
            rest[k],
        ) by {
            assert(crate::types::pair_ok(bodies, pairs[k + 1]));
        }
        lemma_solve_pairs_frame(b1, c1, rest);
        let r = crate::position::solve_pairs_from(bodies, contacts, pairs);
        lemma_frames_compose(bodies, b1, r.0);
    }
}

/// The static-circle pass moves only dynamic bodies, keeps kinds, and
/// records only well-formed contacts.
pub proof fn lemma_sc_inner_frame(
    bodies: Seq<Body>,
    contacts: Seq<Contact>,
    ai: int,
    bi: int,
    n: int,
)
    requires
        n == bodies.len(),
        n <= usize::MAX,
        0 <= ai < n,
        crate::types::contacts_ok(bodies, contacts),
    ensures
        ({
            let r = crate::position_static::sc_inner(bodies, contacts, ai, bi, n);
            &&& same_kind(bodies, r.0)
            &&& statics_fixed(bodies, r.0)
            &&& crate::types::contacts_ok(r.0, r.1)
        }),
    decreases n - bi,
{
    if !(bi < 0 || bi >= n) {
        let a = bodies[ai];
        let b = bodies[bi];
        let b1 = crate::position_static::sc_bodies(bodies, ai, bi);
        let c1 = crate::position_static::sc_contacts(bodies, contacts, ai, bi);
        if crate::position_static::sc_applies(bodies, ai, bi) {
            assert((b.pos.x - a.pos.x) * (b.pos.x - a.pos.x) >= 0) by (nonlinear_arith);
            assert((b.pos.y - a.pos.y) * (b.pos.y - a.pos.y) >= 0) by (nonlinear_arith);
            crate::math::lemma_sqrt_floor(crate::broad_phase::dist_sq(a.pos, b.pos));
            lemma_norm_bounds(a, b);
        }
        assert(same_kind(bodies, b1));
        assert(statics_fixed(bodies, b1));
        assert(crate::types::contacts_ok(b1, c1)) by {
            lemma_contacts_transfer(bodies, b1, contacts);
            assert forall|k: int|
                0 <= k < c1.len() implies #[trigger] crate::types::contact_ok(b1, c1[k]) by {
                if k < contacts.len() {
                    assert(crate::types::contact_ok(b1, contacts[k]));
                } else {
                    assert(crate::position_static::sc_applies(bodies, ai, bi));
                    assert(ai != bi);
                    assert(b1[ai].mass == bodies[ai].mass);
                    assert(is_dynamic(b1[ai]));
                    assert(-NORM_ONE <= norm_x_of(a, b) <= NORM_ONE);
                    assert(-NORM_ONE <= norm_y_of(a, b) <= NORM_ONE);
                    assert(norm_x_of(a, b) as i64 == norm_x_of(a, b));
                    assert(norm_y_of(a, b) as i64 == norm_y_of(a, b));
                    let nc = Contact {
                        a: ai as usize,
                        b: bi as usize,
                        normal: Vec2 {
                            x: norm_x_of(a, b) as i64,
                            y: norm_y_of(a, b) as i64,
                        },
                    };
                    assert(c1[k] == nc);
                    assert(nc.a as int == ai && nc.b as int == bi);
                    assert(crate::types::contact_ok(b1, nc));
                }
            }
        }
        lemma_sc_inner_frame(b1, c1, ai, bi + 1, n);
        let r = crate::position_static::sc_inner(bodies, contacts, ai, bi, n);
        lemma_frames_compose(bodies, b1, r.0);
    }
}

pub proof fn lemma_sc_outer_frame(bodies: Seq<Body>, contacts: Seq<Contact>, ai: int, n: int)
    requires
        n == bodies.len(),
        n <= usize::MAX,
        crate::types::contacts_ok(bodies, contacts),
    ensures
        ({
            let r = crate::position_static::sc_outer(bodies, contacts, ai, n);
            &&& same_kind(bodies, r.0)
            &&& statics_fixed(bodies, r.0)
            &&& crate::types::contacts_ok(r.0, r.1)
        }),
    decreases n - ai,
{
    if !(ai < 0 || ai >= n) {
        lemma_sc_inner_frame(bodies, contacts, ai, 0, n);
        let r1 = crate::position_static::sc_inner(bodies, contacts, ai, 0, n);
        lemma_sc_outer_frame(r1.0, r1.1, ai + 1, n);
        let r = crate::position_static::sc_outer(bodies, contacts, ai, n);
        lemma_frames_compose(bodies, r1.0, r.0);
    }
}

/// The rectangle pass moves only dynamic bodies, keeps kinds, and records
/// only well-formed contacts.
pub proof fn lemma_bx_inner_frame(
    bodies: Seq<Body>,
    contacts: Seq<Contact>,
    ai: int,
    bi: int,
    n: int,
)
    requires
        n == bodies.len(),
        n <= usize::MAX,
        0 <= ai < n,
        crate::types::contacts_ok(bodies, contacts),
    ensures
        ({
            let r = crate::boxes::bx_inner(bodies, contacts, ai, bi, n);
            &&& same_kind(bodies, r.0)
            &&& statics_fixed(bodies, r.0)
            &&& crate::types::contacts_ok(r.0, r.1)
        }),
    decreases n - bi,
{
    if !(bi < 0 || bi >= n) {
        let a = bodies[ai];
        let b = bodies[bi];
        let b1 = crate::boxes::bx_bodies(bodies, ai, bi);
        let c1 = crate::boxes::bx_contacts(bodies, contacts, ai, bi);
        if crate::boxes::bx_applies(bodies, ai, bi) {
            lemma_box_norm_bounds(a, b);
        }
        assert(same_kind(bodies, b1));
        assert(statics_fixed(bodies, b1));
        assert(crate::types::contacts_ok(b1, c1)) by {
            lemma_contacts_transfer(bodies, b1, contacts);
            assert forall|k: int|
                0 <= k < c1.len() implies #[trigger] crate::types::contact_ok(b1, c1[k]) by {
                if k < contacts.len() {
                    assert(crate::types::contact_ok(b1, contacts[k]));
                } else {
                    assert(crate::boxes::bx_applies(bodies, ai, bi));
                    assert(ai != bi);
                    assert(b1[ai].mass == bodies[ai].mass);
                    assert(is_dynamic(b1[ai]));
                    assert(-NORM_ONE <= crate::boxes::box_norm_x(a, b) <= NORM_ONE);
                    assert(-NORM_ONE <= crate::boxes::box_norm_y(a, b) <= NORM_ONE);
                    assert(crate::boxes::box_norm_x(a, b) as i64 == crate::boxes::box_norm_x(a, b));
                    assert(crate::boxes::box_norm_y(a, b) as i64 == crate::boxes::box_norm_y(a, b));
                    let nc = Contact {
                        a: ai as usize,
                        b: bi as usize,
                        normal: Vec2 {
                            x: crate::boxes::box_norm_x(a, b) as i64,
                            y: crate::boxes::box_norm_y(a, b) as i64,
                        },
                    };
                    assert(c1[k] == nc);
                    assert(nc.a as int == ai && nc.b as int == bi);
                    assert(crate::types::contact_ok(b1, nc));
                }
            }
        }
        lemma_bx_inner_frame(b1, c1, ai, bi + 1, n);
        let r = crate::boxes::bx_inner(bodies, contacts, ai, bi, n);
        lemma_frames_compose(bodies, b1, r.0);
    }
}

pub proof fn lemma_bx_outer_frame(bodies: Seq<Body>, contacts: Seq<Contact>, ai: int, n: int)
    requires
        n == bodies.len(),
        n <= usize::MAX,
        crate::types::contacts_ok(bodies, contacts),
    ensures
        ({
            let r = crate::boxes::bx_outer(bodies, contacts, ai, n);
            &&& same_kind(bodies, r.0)
            &&& statics_fixed(bodies, r.0)
            &&& crate::types::contacts_ok(r.0, r.1)
        }),
    decreases n - ai,
{
    if !(ai < 0 || ai >= n) {
        lemma_bx_inner_frame(bodies, contacts, ai, 0, n);
        let r1 = crate::boxes::bx_inner(bodies, contacts, ai, 0, n);
        lemma_bx_outer_frame(r1.0, r1.1, ai + 1, n);
        let r = crate::boxes::bx_outer(bodies, contacts, ai, n);
        lemma_frames_compose(bodies, r1.0, r.0);
    }
}

/// The dynamic-dynamic velocity pass changes only the dynamic bodies its
/// contacts name, and keeps kinds.
pub proof fn lemma_vel_pairs_frame(bodies: Seq<Body>, contacts: Seq<Contact>)
    requires
        crate::types::dyn_contacts_ok(bodies, contacts),
    ensures
        same_kind(bodies, crate::velocity::vel_pairs_from(bodies, contacts)),
        statics_fixed(bodies, crate::velocity::vel_pairs_from(bodies, contacts)),
    decreases contacts.len(),
{
    if contacts.len() > 0 {
        let c = contacts[0];
        assert(crate::types::dyn_contact_ok(bodies, c));
        let b1 = vel_pair_bodies(bodies, c);
        assert(same_kind(bodies, b1));
        assert(statics_fixed(bodies, b1));
        let rest = contacts.subrange(1, contacts.len() as int);
        assert forall|k: int|
            0 <= k < rest.len() implies #[trigger] crate::types::dyn_contact_ok(b1, rest[k]) by {
            assert(crate::types::dyn_contact_ok(bodies, contacts[k + 1]));
        }
        lemma_vel_pairs_frame(b1, rest);
        lemma_frames_compose(bodies, b1, crate::velocity::vel_pairs_from(bodies, contacts));
    }
}

/// The dynamic-static velocity pass changes only the dynamic bodies its
/// contacts name, and keeps kinds.
pub proof fn lemma_vel_statics_frame(bodies: Seq<Body>, contacts: Seq<Contact>)
    requires
        crate::types::contacts_ok(bodies, contacts),
    ensures
        same_kind(bodies, crate::velocity::vel_statics_from(bodies, contacts)),
        statics_fixed(bodies, crate::velocity::vel_statics_from(bodies, contacts)),
    decreases contacts.len(),
{
    if contacts.len() > 0 {
        let c = contacts[0];
        assert(crate::types::contact_ok(bodies, c));
        let b1 = crate::velocity::vel_static_bodies(bodies, c);
        assert(same_kind(bodies, b1));
        assert(statics_fixed(bodies, b1));
        let rest = contacts.subrange(1, contacts.len() as int);
        assert forall|k: int|
            0 <= k < rest.len() implies #[trigger] crate::types::contact_ok(b1, rest[k]) by {
            assert(crate::types::contact_ok(bodies, contacts[k + 1]));
        }
        lemma_vel_statics_frame(b1, rest);
        lemma_frames_compose(bodies, b1, crate::velocity::vel_statics_from(bodies, contacts));
    }
}

/// No spurious force: a whole step leaves every static body's position,
/// velocity and history exactly as they were; only its render position is
/// refreshed to the (unchanged) simulated position.
pub proof fn lemma_static_bodies_rest(
    bodies: Seq<Body>,
    gravity: Vec2,
    inv_dt: int,
    pairs: Seq<CandidatePair>,
    i: int,
)
    requires
        crate::types::bodies_ok(bodies),
        bodies.len() <= usize::MAX,
        1 <= inv_dt,
        forall|k: int|
            0 <= k < pairs.len() ==> candidate(
                bodies,
                #[trigger] pairs[k].a as int,
                pairs[k].b as int,
                inv_dt,
            ),
        0 <= i < bodies.len(),
        (!is_dynamic(bodies[i])),
    ensures
        ({
            let r = crate::step::step_result(bodies, gravity, inv_dt, pairs);
            &&& r.0.len() == bodies.len()
            &&& r.0[i].pos == bodies[i].pos
            &&& r.0[i].vel == bodies[i].vel
            &&& r.0[i].prev_pos == bodies[i].prev_pos
            &&& r.0[i].pre_solve_vel == bodies[i].pre_solve_vel
            &&& r.0[i].render_pos == bodies[i].pos
        }),
{
    let n = bodies.len() as int;
    let b1 = crate::step::integrated_seq(bodies, gravity, inv_dt);
    assert(same_kind(bodies, b1) && statics_fixed(bodies, b1)) by {
        assert forall|j: int|
            0 <= j < bodies.len() implies {
                let nb = #[trigger] b1[j];
                &&& nb.mass == bodies[j].mass
                &&& nb.shape == bodies[j].shape
                &&& nb.restitution == bodies[j].restitution
            } by {
            assert(b1[j] == crate::integrator::integrated_body(bodies[j], gravity, inv_dt));
        }
        assert forall|j: int|
            0 <= j < bodies.len() && !is_dynamic(bodies[j]) implies #[trigger] b1[j] == bodies[j] by {
            assert(b1[j] == crate::integrator::integrated_body(bodies[j], gravity, inv_dt));
        }
    }
    assert forall|k: int| 0 <= k < pairs.len() implies #[trigger] crate::types::pair_ok(
        b1,
        pairs[k],
    ) by {
        assert(candidate(bodies, pairs[k].a as int, pairs[k].b as int, inv_dt));
        assert(b1[pairs[k].a as int].mass == bodies[pairs[k].a as int].mass);
        assert(b1[pairs[k].b as int].mass == bodies[pairs[k].b as int].mass);
    }
    lemma_solve_pairs_frame(b1, Seq::empty(), pairs);
    let r2 = crate::position::solve_pairs_from(b1, Seq::empty(), pairs);
    lemma_sc_outer_frame(r2.0, Seq::empty(), 0, n);
    let r3 = crate::position_static::sc_outer(r2.0, Seq::empty(), 0, n);
    lemma_bx_outer_frame(r3.0, r3.1, 0, n);
    let r4 = crate::boxes::bx_outer(r3.0, r3.1, 0, n);
    let b5 = crate::step::reconciled_seq(r4.0, inv_dt);
    assert(same_kind(r4.0, b5) && statics_fixed(r4.0, b5)) by {
        assert forall|j: int|
            0 <= j < r4.0.len() implies {
                let nb = #[trigger] b5[j];
                &&& nb.mass == r4.0[j].mass
                &&& nb.shape == r4.0[j].shape
                &&& nb.restitution == r4.0[j].restitution
            } by {
            assert(b5[j] == crate::integrator::reconciled_body(r4.0[j], inv_dt));
        }
        assert forall|j: int|
            0 <= j < r4.0.len() && !is_dynamic(r4.0[j]) implies #[trigger] b5[j] == r4.0[j] by {
            assert(b5[j] == crate::integrator::reconciled_body(r4.0[j], inv_dt));
        }
    }
    lemma_frames_compose(bodies, b1, r2.0);
    lemma_frames_compose(bodies, r2.0, r3.0);
    lemma_frames_compose(bodies, r3.0, r4.0);
    lemma_frames_compose(bodies, r4.0, b5);
    lemma_frames_compose(r2.0, r3.0, r4.0);
    lemma_frames_compose(r2.0, r4.0, b5);
    lemma_dyn_contacts_transfer(r2.0, b5, r2.1);
    lemma_vel_pairs_frame(b5, r2.1);
    let b6 = crate::velocity::vel_pairs_from(b5, r2.1);
    lemma_frames_compose(bodies, b5, b6);
    assert(crate::types::contacts_ok(b6, r4.1)) by {
        lemma_frames_compose(r4.0, b5, b6);
        lemma_contacts_transfer(r4.0, b6, r4.1);
    }
    lemma_vel_statics_frame(b6, r4.1);
    let b7 = crate::velocity::vel_statics_from(b6, r4.1);
    lemma_frames_compose(bodies, b6, b7);
    assert(b7[i] == bodies[i]);
    assert(crate::step::step_result(bodies, gravity, inv_dt, pairs).0[i]
        == crate::integrator::synced_body(b7[i]));
}


/// A dynamic index that interacts with no static circle leaves the
/// static-circle sub-pass idle.  The `y + 0` form gives the quantifier an
/// arithmetic trigger, since `sc_applies` itself would not mention `y`
/// in a matchable position at every use site.
proof fn lemma_sc_inner_id(bodies: Seq<Body>, contacts: Seq<Contact>, ai: int, bi: int, n: int)
    requires
        forall|y: int|
            0 <= y < n ==> !crate::position_static::sc_applies(bodies, ai, #[trigger] (y + 0)),
    ensures
        crate::position_static::sc_inner(bodies, contacts, ai, bi, n) == (bodies, contacts),
    decreases n - bi,
{
    if !(bi < 0 || bi >= n) {
        assert(!crate::position_static::sc_applies(bodies, ai, bi + 0));
        lemma_sc_inner_id(bodies, contacts, ai, bi + 1, n);
    }
}

proof fn lemma_sc_outer_id(bodies: Seq<Body>, contacts: Seq<Contact>, ai: int, n: int)
    requires
        forall|x: int, y: int|
            0 <= x < n && 0 <= y < n ==> !crate::position_static::sc_applies(
                bodies,
                x,
                #[trigger] (y + 0 * x),
            ),
    ensures
        crate::position_static::sc_outer(bodies, contacts, ai, n) == (bodies, contacts),
    decreases n - ai,
{
    if !(ai < 0 || ai >= n) {
        assert forall|y: int|
            0 <= y < n implies !crate::position_static::sc_applies(
            bodies,
            ai,
            #[trigger] (y + 0),
        ) by {
            assert(!crate::position_static::sc_applies(bodies, ai, y + 0 * ai));
        }
        lemma_sc_inner_id(bodies, contacts, ai, 0, n);
        lemma_sc_outer_id(bodies, contacts, ai + 1, n);
    }
}

/// A dynamic index that touches no rectangle leaves the rectangle
/// sub-pass idle.
proof fn lemma_bx_inner_id(bodies: Seq<Body>, contacts: Seq<Contact>, ai: int, bi: int, n: int)
    requires
        forall|y: int| 0 <= y < n ==> !crate::boxes::bx_applies(bodies, ai, #[trigger] (y + 0)),
    ensures
        crate::boxes::bx_inner(bodies, contacts, ai, bi, n) == (bodies, contacts),
    decreases n - bi,
{
    if !(bi < 0 || bi >= n) {
        assert(!crate::boxes::bx_applies(bodies, ai, bi + 0));
        lemma_bx_inner_id(bodies, contacts, ai, bi + 1, n);
    }
}

proof fn lemma_bx_outer_id(bodies: Seq<Body>, contacts: Seq<Contact>, ai: int, n: int)
    requires
        forall|x: int, y: int|
            0 <= x < n && 0 <= y < n ==> !crate::boxes::bx_applies(
                bodies,
                x,
                #[trigger] (y + 0 * x),
            ),
    ensures
        crate::boxes::bx_outer(bodies, contacts, ai, n) == (bodies, contacts),
    decreases n - ai,
{
    if !(ai < 0 || ai >= n) {
        assert forall|y: int|
            0 <= y < n implies !crate::boxes::bx_applies(bodies, ai, #[trigger] (y + 0)) by {
            assert(!crate::boxes::bx_applies(bodies, ai, y + 0 * ai));
        }
        lemma_bx_inner_id(bodies, contacts, ai, 0, n);
        lemma_bx_outer_id(bodies, contacts, ai + 1, n);
    }
}


/// Semi-implicit Euler on a lone dynamic body: with no other body to
/// collide with, one step changes the position by one timestep of the
/// post-gravity velocity, and the reconciled velocity equals the realized
/// displacement times `inv_dt`, which lies within one `inv_dt` of the
/// exact `gravity / inv_dt`.
pub proof fn lemma_free_fall(
    bodies: Seq<Body>,
    gravity: Vec2,
    inv_dt: int,
    pairs: Seq<CandidatePair>,
)
    requires
        bodies.len() == 1,
        crate::types::body_ok(bodies[0]),
        is_dynamic(bodies[0]),
        bodies[0].vel == (Vec2 { x: 0, y: 0 }),
        -500_000_000_000_000_000 <= bodies[0].pos.x <= 500_000_000_000_000_000,
        -500_000_000_000_000_000 <= bodies[0].pos.y <= 500_000_000_000_000_000,
        -500_000_000_000_000_000 <= gravity.x <= 500_000_000_000_000_000,
        -500_000_000_000_000_000 <= gravity.y <= 500_000_000_000_000_000,
        1 <= inv_dt,
        forall|k: int|
            0 <= k < pairs.len() ==> candidate(
                bodies,
                #[trigger] pairs[k].a as int,
                pairs[k].b as int,
                inv_dt,
            ),
    ensures
        pairs.len() == 0,
        ({
            let r = crate::step::step_result(bodies, gravity, inv_dt, pairs);
            let vx = tdiv(gravity.x as int, inv_dt);
            let vy = tdiv(gravity.y as int, inv_dt);
            let dx = tdiv(vx, inv_dt);
            let dy = tdiv(vy, inv_dt);
            &&& r.0.len() == 1
            &&& r.0[0].pos.x == bodies[0].pos.x + dx
            &&& r.0[0].pos.y == bodies[0].pos.y + dy
            &&& r.0[0].vel.x == dx * inv_dt
            &&& r.0[0].vel.y == dy * inv_dt
            &&& (vx >= 0 ==> vx - inv_dt < r.0[0].vel.x <= vx)
            &&& (vx < 0 ==> vx <= r.0[0].vel.x < vx + inv_dt)
            &&& (vy >= 0 ==> vy - inv_dt < r.0[0].vel.y <= vy)
            &&& (vy < 0 ==> vy <= r.0[0].vel.y < vy + inv_dt)
        }),
{
    if pairs.len() > 0 {
        assert(candidate(bodies, pairs[0].a as int, pairs[0].b as int, inv_dt));
    }
    let vx = tdiv(gravity.x as int, inv_dt);
    let vy = tdiv(gravity.y as int, inv_dt);
    let dx = tdiv(vx, inv_dt);
    let dy = tdiv(vy, inv_dt);
    lemma_tdiv_bound(gravity.x as int, inv_dt);
    lemma_tdiv_bound(gravity.y as int, inv_dt);
    lemma_tdiv_bound(vx, inv_dt);
    lemma_tdiv_bound(vy, inv_dt);
    let b1 = crate::step::integrated_seq(bodies, gravity, inv_dt);
    assert(b1[0] == crate::integrator::integrated_body(bodies[0], gravity, inv_dt));
    assert(b1[0].vel.x == vx && b1[0].vel.y == vy);
    assert(b1[0].pos.x == bodies[0].pos.x + dx && b1[0].pos.y == bodies[0].pos.y + dy);
    assert(b1[0].prev_pos == bodies[0].pos);
    let e = Seq::<Contact>::empty();
    let r2 = crate::position::solve_pairs_from(b1, e, pairs);
    assert(r2 == (b1, e));
    assert forall|y: int|
        0 <= y < 1 implies !crate::position_static::sc_applies(b1, 0, #[trigger] (y + 0)) by {
        assert(is_dynamic(b1[y + 0]));
    }
    assert forall|x: int, y: int|
        0 <= x < 1 && 0 <= y < 1 implies !crate::position_static::sc_applies(
        b1,
        x,
        #[trigger] (y + 0 * x),
    ) by {
        assert(is_dynamic(b1[y + 0 * x]));
    }
    assert forall|x: int, y: int|
        0 <= x < 1 && 0 <= y < 1 implies !crate::boxes::bx_applies(
        b1,
        x,
        #[trigger] (y + 0 * x),
    ) by {
        assert(is_dynamic(b1[y + 0 * x]));
    }
    lemma_sc_outer_id(b1, e, 0, 1);
    lemma_bx_outer_id(b1, e, 0, 1);
    let r3 = crate::position_static::sc_outer(b1, e, 0, 1);
    let r4 = crate::boxes::bx_outer(r3.0, r3.1, 0, 1);
    assert(r3 == (b1, e) && r4 == (b1, e));
    let b5 = crate::step::reconciled_seq(b1, inv_dt);
    assert(b5[0] == crate::integrator::reconciled_body(b1[0], inv_dt));
    crate::math::lemma_tdiv_times_close(vx, inv_dt);
    crate::math::lemma_tdiv_times_close(vy, inv_dt);
    assert(b5[0].vel.x == sat(dx * inv_dt) && b5[0].vel.y == sat(dy * inv_dt));
    assert(b5[0].vel.x == dx * inv_dt && b5[0].vel.y == dy * inv_dt);
    let b6 = crate::velocity::vel_pairs_from(b5, r2.1);
    assert(b6 == b5);
    let b7 = crate::velocity::vel_statics_from(b6, r4.1);
    assert(b7 == b5);
    let r = crate::step::step_result(bodies, gravity, inv_dt, pairs);
    assert(r.0[0] == crate::integrator::synced_body(b5[0]));
}

/// Idempotence under zero motion: with zero gravity, all dynamic bodies at
/// rest, and every dynamic body strictly clear of every other collider,
/// one step leaves every position and velocity exactly unchanged.
pub proof fn lemma_rest_state_fixed(
    bodies: Seq<Body>,
    inv_dt: int,
    pairs: Seq<CandidatePair>,
    i: int,
)
    requires
        crate::types::bodies_ok(bodies),
        bodies.len() <= usize::MAX,
        1 <= inv_dt,
        forall|j: int|
            0 <= j < bodies.len() && is_dynamic(#[trigger] bodies[j]) ==> bodies[j].vel == (Vec2 {
                x: 0,
                y: 0,
            }),
        forall|x: int, y: int|
            0 <= x < bodies.len() && 0 <= y < bodies.len() && x != y && is_dynamic(bodies[x])
                ==> #[trigger] crate::broad_phase::dist_sq(bodies[x].pos, bodies[y].pos) >= (
            radius_of(bodies[x]) + radius_of(bodies[y])) * (radius_of(bodies[x]) + radius_of(
                bodies[y],
            )),
        forall|x: int, y: int|
            0 <= x < bodies.len() && 0 <= y < bodies.len() && is_dynamic(bodies[x]) && !is_dynamic(
                bodies[y],
            ) ==> !(#[trigger] crate::boxes::box_touches(bodies[x], bodies[y])),
        forall|k: int|
            0 <= k < pairs.len() ==> candidate(
                bodies,
                #[trigger] pairs[k].a as int,
                pairs[k].b as int,
                inv_dt,
            ),
        0 <= i < bodies.len(),
    ensures
        pairs.len() == 0,
        ({
            let r = crate::step::step_result(bodies, Vec2 { x: 0, y: 0 }, inv_dt, pairs);
            &&& r.0.len() == bodies.len()
            &&& r.0[i].pos == bodies[i].pos
            &&& r.0[i].vel == bodies[i].vel
        }),
{
    let n = bodies.len() as int;
    let g = Vec2 { x: 0, y: 0 };
    lemma_tdiv_bound(0, inv_dt);
    if pairs.len() > 0 {
        let p = pairs[0];
        assert(candidate(bodies, p.a as int, p.b as int, inv_dt));
        let a = bodies[p.a as int];
        let b = bodies[p.b as int];
        assert(crate::broad_phase::speed_sq(a.vel) == 0) by (nonlinear_arith)
            requires
                a.vel.x == 0,
                a.vel.y == 0,
        ;
        assert(crate::broad_phase::speed_sq(b.vel) == 0) by (nonlinear_arith)
            requires
                b.vel.x == 0,
                b.vel.y == 0,
        ;
        assert(inv_dt * inv_dt >= 1) by (nonlinear_arith)
            requires
                inv_dt >= 1,
        ;
        lemma_tdiv_bound(0, inv_dt * inv_dt);
        assert(crate::broad_phase::margin_sq(a, b, inv_dt) == 0);
        assert(crate::math::sqrt_floor(0) == 0);
        assert(crate::broad_phase::dist_sq(a.pos, b.pos) >= (radius_of(a) + radius_of(b)) * (
        radius_of(a) + radius_of(b)));
        assert(!crate::broad_phase::close_enough(a, b, inv_dt));
    }
    let b1 = crate::step::integrated_seq(bodies, g, inv_dt);
    assert forall|j: int|
        0 <= j < n implies (#[trigger] b1[j]).pos == bodies[j].pos && b1[j].vel == bodies[j].vel
        && b1[j].mass == bodies[j].mass && b1[j].shape == bodies[j].shape && b1[j].prev_pos == (
        if is_dynamic(bodies[j]) {
            bodies[j].pos
        } else {
            bodies[j].prev_pos
        }) by {
        assert(b1[j] == crate::integrator::integrated_body(bodies[j], g, inv_dt));
        assert(crate::types::body_ok(bodies[j]));
        if is_dynamic(bodies[j]) {
            assert(bodies[j].vel == (Vec2 { x: 0, y: 0 }));
            assert(sat(bodies[j].vel.x + tdiv(0, inv_dt)) == 0);
            assert(sat(bodies[j].pos.x + tdiv(0, inv_dt)) == bodies[j].pos.x);
            assert(sat(bodies[j].pos.y + tdiv(0, inv_dt)) == bodies[j].pos.y);
        }
    }
    let e = Seq::<Contact>::empty();
    let r2 = crate::position::solve_pairs_from(b1, e, pairs);
    assert(r2 == (b1, e));
    assert forall|x: int, y: int|
        0 <= x < n && 0 <= y < n implies !crate::position_static::sc_applies(
        b1,
        x,
        #[trigger] (y + 0 * x),
    ) by {
        let yy = y + 0 * x;
        if is_dynamic(b1[x]) && !is_dynamic(b1[yy]) {
            assert(is_dynamic(bodies[x]) && !is_dynamic(bodies[yy]));
            assert(x != yy);
            assert(crate::broad_phase::dist_sq(bodies[x].pos, bodies[yy].pos) >= (radius_of(
                bodies[x],
            ) + radius_of(bodies[yy])) * (radius_of(bodies[x]) + radius_of(bodies[yy])));
            assert(!crate::position::circles_overlap(b1[x], b1[yy]));
        }
    }
    assert forall|x: int, y: int|
        0 <= x < n && 0 <= y < n implies !crate::boxes::bx_applies(
        b1,
        x,
        #[trigger] (y + 0 * x),
    ) by {
        let yy = y + 0 * x;
        if is_dynamic(b1[x]) && !is_dynamic(b1[yy]) {
            assert(is_dynamic(bodies[x]) && !is_dynamic(bodies[yy]));
            assert(!crate::boxes::box_touches(bodies[x], bodies[yy]));
            assert(crate::boxes::box_sep_x(b1[x], b1[yy]) == crate::boxes::box_sep_x(
                bodies[x],
                bodies[yy],
            ));
            assert(crate::boxes::box_sep_y(b1[x], b1[yy]) == crate::boxes::box_sep_y(
                bodies[x],
                bodies[yy],
            ));
            assert(!crate::boxes::box_touches(b1[x], b1[yy]));
        }
    }
    lemma_sc_outer_id(b1, e, 0, n);
    lemma_bx_outer_id(b1, e, 0, n);
    let r3 = crate::position_static::sc_outer(b1, e, 0, n);
    let r4 = crate::boxes::bx_outer(r3.0, r3.1, 0, n);
    assert(r3 == (b1, e) && r4 == (b1, e));
    let b5 = crate::step::reconciled_seq(b1, inv_dt);
    assert forall|j: int|
        0 <= j < n implies (#[trigger] b5[j]).pos == bodies[j].pos && b5[j].vel == bodies[j].vel by {
        assert(b5[j] == crate::integrator::reconciled_body(b1[j], inv_dt));
        if is_dynamic(b1[j]) {
            assert(b1[j].pos.x - b1[j].prev_pos.x == 0 && b1[j].pos.y - b1[j].prev_pos.y == 0);
            assert((b1[j].pos.x - b1[j].prev_pos.x) * inv_dt == 0) by (nonlinear_arith)
                requires
                    b1[j].pos.x - b1[j].prev_pos.x == 0,
            ;
            assert((b1[j].pos.y - b1[j].prev_pos.y) * inv_dt == 0) by (nonlinear_arith)
                requires
                    b1[j].pos.y - b1[j].prev_pos.y == 0,
            ;
            assert(bodies[j].vel == (Vec2 { x: 0, y: 0 }));
        }
    }
    let b6 = crate::velocity::vel_pairs_from(b5, r2.1);
    assert(b6 == b5);
    let b7 = crate::velocity::vel_statics_from(b6, r4.1);
    assert(b7 == b5);
    let r = crate::step::step_result(bodies, g, inv_dt, pairs);
    assert(r.0[i] == crate::integrator::synced_body(b7[i]));
}


/// Stable equilibrium on a rectangle: a dynamic circle with zero velocity
/// and zero restitution sitting exactly on the top face of a static
/// rectangle, under downward gravity whose one-tick fall stays within the
/// radius, is restored exactly by every step: position and velocity are
/// unchanged (no sinking, no jitter).
pub proof fn lemma_box_rest_equilibrium(
    bodies: Seq<Body>,
    gravity: Vec2,
    inv_dt: int,
    pairs: Seq<CandidatePair>,
)
    requires
        bodies.len() == 2,
        crate::types::body_ok(bodies[0]),
        crate::types::body_ok(bodies[1]),
        is_dynamic(bodies[0]),
        bodies[0].vel == (Vec2 { x: 0, y: 0 }),
        bodies[0].restitution == 0,
        bodies[1].mass == 0,
        bodies[1].shape is Rect,
        bodies[1].restitution == 0,
        gravity.x == 0,
        -500_000_000_000_000_000 <= gravity.y <= 0,
        -500_000_000_000_000_000 <= bodies[0].pos.y <= 500_000_000_000_000_000,
        1 <= inv_dt,
        bodies[0].pos.y == bodies[1].pos.y + crate::boxes::half_h(bodies[1]) + radius_of(
            bodies[0],
        ),
        crate::boxes::abs_of(bodies[0].pos.x - bodies[1].pos.x) <= crate::boxes::half_w(
            bodies[1],
        ),
        -tdiv(tdiv(gravity.y as int, inv_dt), inv_dt) <= radius_of(bodies[0]),
        forall|k: int|
            0 <= k < pairs.len() ==> candidate(
                bodies,
                #[trigger] pairs[k].a as int,
                pairs[k].b as int,
                inv_dt,
            ),
    ensures
        pairs.len() == 0,
        ({
            let r = crate::step::step_result(bodies, gravity, inv_dt, pairs);
            &&& r.0.len() == 2
            &&& r.0[0].pos == bodies[0].pos
            &&& r.0[0].vel == (Vec2 { x: 0, y: 0 })
            &&& r.0[1].pos == bodies[1].pos
            &&& r.0[1].vel == bodies[1].vel
        }),
{
    if pairs.len() > 0 {
        assert(candidate(bodies, pairs[0].a as int, pairs[0].b as int, inv_dt));
    }
    let a0 = bodies[0];
    let bx = bodies[1];
    let r = radius_of(a0);
    let hh = crate::boxes::half_h(bx);
    let hw = crate::boxes::half_w(bx);
    let vyp = tdiv(gravity.y as int, inv_dt);
    let dy = tdiv(vyp, inv_dt);
    lemma_tdiv_bound(gravity.y as int, inv_dt);
    lemma_tdiv_bound(vyp, inv_dt);
    lemma_tdiv_bound(0, inv_dt);
    let b1 = crate::step::integrated_seq(bodies, gravity, inv_dt);
    assert(b1[0] == crate::integrator::integrated_body(a0, gravity, inv_dt));
    assert(b1[1] == crate::integrator::integrated_body(bx, gravity, inv_dt));
    assert(b1[1] == bx);
    assert(b1[0].vel == (Vec2 { x: 0, y: vyp as i64 }));
    assert(b1[0].pos.x == a0.pos.x && b1[0].pos.y == a0.pos.y + dy);
    assert(b1[0].prev_pos == a0.pos);
    let e = Seq::<Contact>::empty();
    let r2 = crate::position::solve_pairs_from(b1, e, pairs);
    assert(r2 == (b1, e));
    // the static-circle pass is idle: the only static body is a rectangle
    assert forall|x: int, y: int|
        0 <= x < 2 && 0 <= y < 2 implies !crate::position_static::sc_applies(
        b1,
        x,
        #[trigger] (y + 0 * x),
    ) by {
        let yy = y + 0 * x;
        if x == 1 {
            assert(!is_dynamic(b1[x]));
        } else if yy == 0 {
            assert(is_dynamic(b1[yy]));
        } else {
            assert(!(b1[yy].shape is Circle));
        }
    }
    lemma_sc_outer_id(b1, e, 0, 2);
    let r3 = crate::position_static::sc_outer(b1, e, 0, 2);
    assert(r3 == (b1, e));
    // the rectangle pass restores the circle exactly onto the top face
    assert(crate::boxes::box_sep_x(b1[0], b1[1]) <= 0);
    assert(crate::boxes::abs_of(b1[0].pos.y - b1[1].pos.y) == hh + r + dy);
    assert(crate::boxes::box_sep_y(b1[0], b1[1]) == r + dy);
    assert(crate::boxes::box_touches(b1[0], b1[1]));
    assert(crate::boxes::bx_applies(b1, 0, 1));
    assert(crate::boxes::box_norm_x(b1[0], b1[1]) == 0);
    assert(crate::boxes::box_norm_y(b1[0], b1[1]) == -(NORM_ONE as int)) by {
        assert(crate::boxes::sgn_pos(b1[0].pos.y - b1[1].pos.y) == 1);
    }
    assert(crate::boxes::box_depth(b1[0], b1[1]) == -dy);
    let b2 = crate::boxes::bx_bodies(b1, 0, 1);
    let c2 = crate::boxes::bx_contacts(b1, e, 0, 1);
    assert(0 * (-dy) == 0) by (nonlinear_arith);
    assert(-(NORM_ONE as int) * (-dy) == dy * (NORM_ONE as int)) by (nonlinear_arith);
    lemma_tdiv_mul_exact(dy, NORM_ONE as int);
    assert(b2[0].pos == a0.pos);
    assert(b2[0].vel == b1[0].vel && b2[0].prev_pos == a0.pos && b2[0].pre_solve_vel == b1[0].pre_solve_vel);
    assert(b2[1] == bx);
    assert(c2.len() == 1 && c2[0] == (Contact { a: 0, b: 1, normal: Vec2 { x: 0i64, y: -1000i64 } }));
    // walk the rectangle sub-pass over both indices
    assert(!crate::boxes::bx_applies(b1, 0, 0)) by {
        assert(is_dynamic(b1[0]));
    }
    assert(crate::boxes::bx_inner(b2, c2, 0, 2, 2) == (b2, c2));
    assert(crate::boxes::bx_inner(b1, e, 0, 1, 2) == (b2, c2));
    assert(crate::boxes::bx_bodies(b1, 0, 0) == b1 && crate::boxes::bx_contacts(b1, e, 0, 0)
        == e);
    assert(crate::boxes::bx_inner(b1, e, 0, 0, 2) == (b2, c2));
    assert forall|y: int| 0 <= y < 2 implies !crate::boxes::bx_applies(
        b2,
        1,
        #[trigger] (y + 0),
    ) by {
        assert(!is_dynamic(b2[1]));
    }
    lemma_bx_inner_id(b2, c2, 1, 0, 2);
    assert(crate::boxes::bx_outer(b2, c2, 2, 2) == (b2, c2));
    assert(crate::boxes::bx_outer(b2, c2, 1, 2) == (b2, c2));
    assert(crate::boxes::bx_outer(b1, e, 0, 2) == (b2, c2));
    let r4 = crate::boxes::bx_outer(r3.0, r3.1, 0, 2);
    assert(r4 == (b2, c2));
    // reconciliation: the realized displacement is zero
    let b5 = crate::step::reconciled_seq(b2, inv_dt);
    assert(b5[0] == crate::integrator::reconciled_body(b2[0], inv_dt));
    assert((b2[0].pos.x - b2[0].prev_pos.x) * inv_dt == 0) by (nonlinear_arith)
        requires
            b2[0].pos.x - b2[0].prev_pos.x == 0,
    ;
    assert((b2[0].pos.y - b2[0].prev_pos.y) * inv_dt == 0) by (nonlinear_arith)
        requires
            b2[0].pos.y - b2[0].prev_pos.y == 0,
    ;
    assert(b5[0].pos == a0.pos && b5[0].vel == (Vec2 { x: 0, y: 0 }));
    assert(b5[1] == crate::integrator::reconciled_body(bx, inv_dt));
    assert(b5[1] == bx);
    let b6 = crate::velocity::vel_pairs_from(b5, r2.1);
    assert(b6 == b5);
    // the single static contact carries no impulse: the reconciled normal
    // velocity is zero and restitution is zero
    let b7 = crate::velocity::vel_statics_from(b6, r4.1);
    assert(b7 == b5) by {
        let c = c2[0];
        let pn = tdiv(
            b5[0].pre_solve_vel.x * 0 + b5[0].pre_solve_vel.y * (-1000), NORM_ONE as int);
        assert(b5[0].pre_solve_vel.x * 0 == 0) by (nonlinear_arith);
        assert(0int * 0 == 0 && 0int * (-1000) == 0) by (nonlinear_arith);
        assert(tdiv(0, NORM_ONE as int) == 0) by {
            lemma_tdiv_bound(0, NORM_ONE as int);
        }
        assert(tdiv(b5[0].restitution + b5[1].restitution, 2) == 0) by {
            lemma_tdiv_bound(0, 2);
        }
        assert(-(0 * pn) == 0) by (nonlinear_arith);
        let bv = crate::velocity::vel_static_bodies(b5, c);
        assert(bv[0].vel == (Vec2 { x: 0, y: 0 }));
        assert(bv =~= b5);
        assert(c2.subrange(1, 1) =~= Seq::<Contact>::empty());
        assert(crate::velocity::vel_statics_from(bv, c2.subrange(1, 1)) == bv);
    }
    let res = crate::step::step_result(bodies, gravity, inv_dt, pairs);
    assert(res.0[0] == crate::integrator::synced_body(b5[0]));
    assert(res.0[1] == crate::integrator::synced_body(b5[1]));
}

} // verus!
