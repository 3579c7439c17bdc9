use xpbd2d::math::COORD_LIMIT;
use xpbd2d::types::{Contact, Shape, Vec2};
use xpbd2d::world::World;

const G_Y: i64 = -9_800_000;
const INV_DT: i64 = 60;

fn v(x: i64, y: i64) -> Vec2 {
    Vec2 { x, y }
}

#[test]
fn static_circles_never_move() {
    let mut w = World::new(v(0, G_Y), INV_DT);
    w.add_static_circle(v(0, 0), 100_000, 500);
    w.add_static_circle(v(150_000, 0), 40_000, 500);
    for _ in 0..5 {
        w.step();
    }
    assert_eq!(w.body(0).pos, v(0, 0));
    assert_eq!(w.body(1).pos, v(150_000, 0));
    assert_eq!(w.body(0).vel, v(0, 0));
    assert_eq!(w.body(1).vel, v(0, 0));
}

#[test]
fn free_fall_matches_semi_implicit_euler() {
    let mut w = World::new(v(0, G_Y), INV_DT);
    w.add_dynamic_circle(v(0, 0), v(0, 0), 100_000, 1, 0);
    w.step();
    // velocity after gravity: -9_800_000 / 60 = -163_333
    // position advance: -163_333 / 60 = -2_722
    // reconciled velocity: -2_722 * 60 = -163_320
    let b = w.body(0);
    assert_eq!(b.pos, v(0, -2_722));
    assert_eq!(b.vel, v(0, -163_320));
    // within one velocity quantum (INV_DT) of the exact -163_333
    assert!((b.vel.y - -163_333).abs() < INV_DT);
}

#[test]
fn elastic_head_on_exchanges_velocities() {
    let mut w = World::new(v(0, 0), INV_DT);
    w.add_dynamic_circle(v(-90_000, 0), v(300, 0), 100_000, 5, 1000);
    w.add_dynamic_circle(v(90_000, 0), v(-300, 0), 100_000, 5, 1000);
    // the two circles already overlap; the recorded normal points from
    // body 0 toward body 1, along +x
    w.contacts.push(Contact { a: 0, b: 1, normal: v(1000, 0) });
    w.solve_vel();
    assert_eq!(w.body(0).vel, v(-300, 0));
    assert_eq!(w.body(1).vel, v(300, 0));
}

#[test]
fn inelastic_head_on_equalizes_velocities() {
    let mut w = World::new(v(0, 0), INV_DT);
    w.add_dynamic_circle(v(-90_000, 0), v(300, 0), 100_000, 5, 0);
    w.add_dynamic_circle(v(90_000, 0), v(-100, 0), 100_000, 5, 0);
    w.contacts.push(Contact { a: 0, b: 1, normal: v(1000, 0) });
    w.solve_vel();
    assert_eq!(w.body(0).vel.x, w.body(1).vel.x);
    assert_eq!(w.body(0).vel, v(100, 0));
    assert_eq!(w.body(1).vel, v(100, 0));
}

#[test]
fn circle_rests_on_box_without_sinking_or_jitter() {
    let mut w = World::new(v(0, G_Y), INV_DT);
    let ball = w.add_dynamic_circle(v(0, 0), v(0, 0), 100_000, 1, 0);
    w.add_static_rect(v(0, -600_000), 500_000, 500_000, 0);
    for _ in 0..100 {
        w.step();
        // at the end of every step the ball sits exactly on the box top
        assert_eq!(w.body(ball).pos, v(0, 0));
        assert_eq!(w.body(ball).vel, v(0, 0));
    }
}

#[test]
fn pair_collection_is_unique_and_ordered() {
    let mut w = World::new(v(0, 0), INV_DT);
    w.add_dynamic_circle(v(0, 0), v(0, 0), 100_000, 1, 0);
    w.add_dynamic_circle(v(150_000, 0), v(0, 0), 100_000, 1, 0);
    w.add_dynamic_circle(v(0, 100_000), v(0, 0), 100_000, 1, 0);
    // far away: no pair with anyone
    w.add_dynamic_circle(v(9_000_000, 0), v(0, 0), 100_000, 1, 0);
    // statics never appear in the pair list
    w.add_static_circle(v(0, -150_000), 100_000, 0);
    w.collect_collision_pairs();
    let got: Vec<(usize, usize)> = w.pairs.iter().map(|p| (p.a, p.b)).collect();
    assert_eq!(got, vec![(1, 0), (2, 0), (2, 1)]);
    for p in &w.pairs {
        assert!(p.a > p.b);
    }
}

#[test]
fn broad_phase_margin_catches_fast_approach() {
    let mut w = World::new(v(0, 0), INV_DT);
    // gap of 100 between the circles' edges
    w.add_dynamic_circle(v(0, 0), v(3000, 0), 100, 1, 0);
    w.add_dynamic_circle(v(300, 0), v(-3000, 0), 100, 1, 0);
    w.collect_collision_pairs();
    // margin = isqrt(4 * (3000^2 + 3000^2) / 60^2) = 141, so the expanded
    // combined radius 341 covers the center distance 300
    assert_eq!(w.pairs.len(), 1);
    assert_eq!((w.pairs[0].a, w.pairs[0].b), (1, 0));

    let mut slow = World::new(v(0, 0), INV_DT);
    slow.add_dynamic_circle(v(0, 0), v(100, 0), 100, 1, 0);
    slow.add_dynamic_circle(v(300, 0), v(-100, 0), 100, 1, 0);
    slow.collect_collision_pairs();
    assert_eq!(slow.pairs.len(), 0);
}

#[test]
fn position_solve_splits_by_inverse_mass() {
    let mut w = World::new(v(0, 0), INV_DT);
    w.add_dynamic_circle(v(0, 0), v(0, 0), 1000, 1, 0);
    w.add_dynamic_circle(v(1500, 0), v(0, 0), 1000, 3, 0);
    w.collect_collision_pairs();
    w.solve_pos();
    // penetration 500 split 3:1 toward the lighter body
    assert_eq!(w.body(0).pos, v(-375, 0));
    assert_eq!(w.body(1).pos, v(1625, 0));
    // the pair is stored as (1, 0), so the normal points from body 1
    // toward body 0, along -x
    assert_eq!(w.contacts.len(), 1);
    assert_eq!((w.contacts[0].a, w.contacts[0].b), (1, 0));
    assert_eq!(w.contacts[0].normal, v(-1000, 0));
}

#[test]
fn static_circle_takes_no_correction() {
    let mut w = World::new(v(0, 0), INV_DT);
    w.add_dynamic_circle(v(0, 0), v(0, 0), 1000, 2, 0);
    w.add_static_circle(v(1500, 0), 1000, 0);
    w.solve_pos_statics();
    // the dynamic body takes the whole 500 of penetration
    assert_eq!(w.body(0).pos, v(-500, 0));
    assert_eq!(w.body(1).pos, v(1500, 0));
    assert_eq!(w.static_contacts.len(), 1);
    assert_eq!(w.static_contacts[0].normal, v(1000, 0));
}

#[test]
fn box_corner_contact_resolves_along_diagonal() {
    let mut w = World::new(v(0, 0), INV_DT);
    // circle center at 45 degrees off the box corner (500_000, 500_000),
    // corner distance isqrt(2 * 70_000^2) = 98_994, just inside the radius
    w.add_dynamic_circle(v(570_000, 570_000), v(0, 0), 100_000, 1, 0);
    w.add_static_rect(v(0, 0), 500_000, 500_000, 0);
    w.solve_pos_static_boxes();
    assert_eq!(w.static_contacts.len(), 1);
    let n = w.static_contacts[0].normal;
    // the normal follows the corner diagonal, not an axis
    assert_eq!(n, v(-707, -707));
    // penetration 100_000 - 98_994 = 1_006; correction tdiv(707*1006, 1000)
    assert_eq!(w.body(0).pos, v(570_711, 570_711));
}

#[test]
fn box_edge_contact_is_axis_aligned() {
    let mut w = World::new(v(0, 0), INV_DT);
    w.add_dynamic_circle(v(0, 590_000), v(0, 0), 100_000, 1, 0);
    w.add_static_rect(v(0, 0), 500_000, 500_000, 0);
    w.solve_pos_static_boxes();
    assert_eq!(w.static_contacts.len(), 1);
    assert_eq!(w.static_contacts[0].normal, v(0, -1000));
    // pushed back up to rest exactly on the box top
    assert_eq!(w.body(0).pos, v(0, 600_000));
}

#[test]
fn rest_state_is_bit_for_bit_stable() {
    let mut w = World::new(v(0, 0), INV_DT);
    w.add_dynamic_circle(v(0, 0), v(0, 0), 100_000, 1, 500);
    w.add_dynamic_circle(v(400_000, 0), v(0, 0), 100_000, 2, 500);
    w.add_static_circle(v(-400_000, 0), 100_000, 500);
    w.add_static_rect(v(0, -700_000), 500_000, 500_000, 500);
    let before: Vec<(Vec2, Vec2)> = (0..w.body_count()).map(|i| {
        let b = w.body(i);
        (b.pos, b.vel)
    }).collect();
    for _ in 0..10 {
        w.step();
    }
    for i in 0..w.body_count() {
        let b = w.body(i);
        assert_eq!(b.pos, before[i].0);
        assert_eq!(b.vel, before[i].1);
    }
}

#[test]
fn concentric_circles_are_skipped() {
    let mut w = World::new(v(0, 0), INV_DT);
    w.add_dynamic_circle(v(0, 0), v(0, 0), 1000, 1, 0);
    w.add_dynamic_circle(v(0, 0), v(0, 0), 1000, 1, 0);
    w.collect_collision_pairs();
    assert_eq!(w.pairs.len(), 1);
    w.solve_pos();
    // the degenerate zero-distance contact has no defined normal: skipped
    assert_eq!(w.contacts.len(), 0);
    assert_eq!(w.body(0).pos, v(0, 0));
    assert_eq!(w.body(1).pos, v(0, 0));
}

#[test]
fn transform_sync_mirrors_position() {
    let mut w = World::new(v(0, G_Y), INV_DT);
    w.add_dynamic_circle(v(12_345, 678), v(0, 0), 100_000, 1, 0);
    w.step();
    let b = w.body(0);
    assert_eq!(b.render_pos, b.pos);
}

#[test]
fn bounce_off_static_floor_restores_separating_velocity() {
    let mut w = World::new(v(0, 0), INV_DT);
    // moving down into the floor circle, full restitution on both
    w.add_dynamic_circle(v(0, 1900), v(0, -60_000), 1000, 1, 1000);
    w.add_static_circle(v(0, 0), 1000, 1000);
    // one step: integrate moves the circle down 1000 into contact, the
    // position solve pushes it out to rest on the floor, and the velocity
    // solve restores the full approach speed as separating velocity
    w.step();
    let b = w.body(0);
    assert_eq!(b.pos, v(0, 2000));
    assert_eq!(b.vel, v(0, 60_000));
}

#[test]
fn world_accessors_report_bodies() {
    let mut w = World::new(v(0, 0), INV_DT);
    assert_eq!(w.body_count(), 0);
    let i = w.add_dynamic_circle(v(1, 2), v(3, 4), 10, 5, 6);
    let j = w.add_static_rect(v(7, 8), 9, 10, 11);
    assert_eq!((i, j), (0, 1));
    assert_eq!(w.body_count(), 2);
    let b0 = w.body(0);
    assert_eq!(b0.pos, v(1, 2));
    assert_eq!(b0.vel, v(3, 4));
    assert_eq!(b0.pre_solve_vel, v(3, 4));
    assert_eq!(b0.prev_pos, v(1, 2));
    assert_eq!(b0.mass, 5);
    assert_eq!(b0.restitution, 6);
    assert!(matches!(b0.shape, Shape::Circle { radius: 10 }));
    let b1 = w.body(1);
    assert_eq!(b1.mass, 0);
    assert!(matches!(b1.shape, Shape::Rect { half_width: 9, half_height: 10 }));
}

#[test]
fn reconciled_velocity_saturates_at_coordinate_limit() {
    let mut w = World::new(v(0, 0), INV_DT);
    w.add_dynamic_circle(v(0, 0), v(0, 0), 1000, 1, 0);
    // a displacement of the full coordinate range in one step would imply
    // a velocity beyond the stored range; the store saturates instead
    w.bodies[0].prev_pos = v(-COORD_LIMIT, 0);
    w.bodies[0].pos = v(COORD_LIMIT, 0);
    w.update_vel();
    assert_eq!(w.body(0).vel, v(COORD_LIMIT, 0));
}
