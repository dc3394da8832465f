use particle_sim::{
    calc_collision, calc_coloumb, calc_damping, calc_gravity, calc_wall_collision,
    collision_detected, isqrt_exec, recalc_position, Particle, ParticleError,
};

fn body(mass: i64, radius: i64, x: i64, y: i64, vx: i64, vy: i64, charge: i64) -> Particle {
    Particle::new(mass, radius, x, y, vx, vy, charge).unwrap()
}

fn dist_sq(a: &Particle, b: &Particle) -> i128 {
    let dx = (a.pos_x - b.pos_x) as i128;
    let dy = (a.pos_y - b.pos_y) as i128;
    dx * dx + dy * dy
}

#[test]
fn head_on_equal_masses_swap_velocities() {
    let mut a = body(1, 6, 0, 0, 1, 0, 0);
    let mut b = body(1, 6, 10, 0, -1, 0, 0);
    assert!(collision_detected(&a, &b));
    let before = dist_sq(&a, &b);
    calc_collision(&mut a, &mut b);
    assert_eq!((a.vel_x, b.vel_x), (-1, 1));
    assert_eq!((a.vel_y, b.vel_y), (0, 0));
    // The overlap of 2 units is pushed out by floor(2 / sqrt 2) = 1 on each
    // axis of the lighter-or-equal first body, which opens no gap.
    assert_eq!((a.pos_x, a.pos_y), (-1, 1));
    assert_eq!((b.pos_x, b.pos_y), (10, 0));
    assert!(dist_sq(&a, &b) > before);
    assert!(dist_sq(&a, &b) <= 12 * 12);
}

#[test]
fn heavier_first_body_pushes_second_horizontally() {
    let mut a = body(5, 6, 0, 0, 0, 0, 0);
    let mut b = body(1, 6, 10, 0, 0, 0, 0);
    calc_collision(&mut a, &mut b);
    assert_eq!((a.pos_x, a.pos_y), (0, 0));
    assert_eq!((b.pos_x, b.pos_y), (11, 0));
    assert_eq!((a.vel_x, b.vel_x), (0, 0));
}

#[test]
fn collision_conserves_momentum_within_rounding() {
    let mut a = body(3, 10, 0, 0, 7, 2, 0);
    let mut b = body(5, 10, 12, 5, -4, 1, 0);
    let px = 3 * a.vel_x + 5 * b.vel_x;
    let py = 3 * a.vel_y + 5 * b.vel_y;
    calc_collision(&mut a, &mut b);
    let qx = 3 * a.vel_x + 5 * b.vel_x;
    let qy = 3 * a.vel_y + 5 * b.vel_y;
    assert!((qx - px).abs() < 5);
    assert!((qy - py).abs() < 5);
    assert!(a.vel_x < 7);
}

#[test]
fn collision_conserves_energy_when_far_enough_apart() {
    // Radii 6 and 6: floor 72 <= distance squared 100, so the collision is
    // perfectly elastic and here exact.
    let mut a = body(2, 6, 0, 0, 3, 0, 0);
    let mut b = body(2, 6, 10, 0, -1, 0, 0);
    let e0 = 2 * (a.vel_x * a.vel_x + a.vel_y * a.vel_y) + 2 * (b.vel_x * b.vel_x + b.vel_y * b.vel_y);
    calc_collision(&mut a, &mut b);
    let e1 = 2 * (a.vel_x * a.vel_x + a.vel_y * a.vel_y) + 2 * (b.vel_x * b.vel_x + b.vel_y * b.vel_y);
    assert_eq!((a.vel_x, b.vel_x), (-1, 3));
    assert_eq!(e0, e1);
}

#[test]
fn repeated_resolution_separates_overlapping_pair() {
    let mut a = body(4, 20, 0, 0, 0, 0, 0);
    let mut b = body(4, 20, 5, 3, 0, 0, 0);
    let reach = 40i128;
    let mut rounds = 0;
    // Overlapping while the distance rounded up is below the reach.
    while dist_sq(&a, &b) <= (reach - 1) * (reach - 1) {
        let before = dist_sq(&a, &b);
        calc_collision(&mut a, &mut b);
        assert!(dist_sq(&a, &b) > before);
        assert!(dist_sq(&a, &b) <= reach * reach);
        rounds += 1;
        assert!(rounds <= reach * reach);
    }
    assert!(rounds >= 1);
}

#[test]
fn detection_counts_tangent_circles() {
    let a = body(1, 6, 0, 0, 0, 0, 0);
    assert!(collision_detected(&a, &body(1, 6, 12, 0, 0, 0, 0)));
    assert!(!collision_detected(&a, &body(1, 6, 13, 0, 0, 0, 0)));
    assert!(collision_detected(&a, &body(1, 6, 0, 0, 0, 0, 0)));
}

#[test]
fn gravity_pulls_bodies_together() {
    let mut a = body(10, 1, 0, 0, 0, 0, 0);
    let mut b = body(10, 1, 3, 4, 0, 0, 0);
    calc_gravity(&mut a, &mut b, 1000);
    // 1000 * 10 * 3 / (25 * 5) = 240 and 1000 * 10 * 4 / 125 = 320.
    assert_eq!((a.vel_x, a.vel_y), (240, 320));
    assert_eq!((b.vel_x, b.vel_y), (-240, -320));
    assert_eq!((a.pos_x, b.pos_x), (0, 3));
}

#[test]
fn gravity_role_swap_gives_same_changes() {
    let a = body(7, 1, -13, 29, 5, -3, 0);
    let b = body(3, 1, 41, -17, -2, 8, 0);
    let (mut a1, mut b1) = (a, b);
    calc_gravity(&mut a1, &mut b1, 12345);
    let (mut a2, mut b2) = (a, b);
    calc_gravity(&mut b2, &mut a2, 12345);
    assert_eq!(a1, a2);
    assert_eq!(b1, b2);
    assert_ne!(a1, a);
}

#[test]
fn gravity_on_coincident_bodies_is_bounded() {
    let mut a = body(10, 1, 5, 5, 1, 1, 0);
    let mut b = body(10, 1, 5, 5, -1, -1, 0);
    calc_gravity(&mut a, &mut b, 1000);
    assert_eq!((a.vel_x, a.vel_y, b.vel_x, b.vel_y), (1, 1, -1, -1));
}

#[test]
fn coulomb_like_charges_repel() {
    let mut a = body(1, 1, 0, 0, 0, 0, 10);
    let mut b = body(1, 1, 3, 4, 0, 0, 10);
    calc_coloumb(&mut a, &mut b, 1000);
    // 1000 * 100 * 3 / (1 * 125) = 2400 and 1000 * 100 * 4 / 125 = 3200.
    assert_eq!((a.vel_x, a.vel_y), (-2400, -3200));
    assert_eq!((b.vel_x, b.vel_y), (2400, 3200));
}

#[test]
fn coulomb_unlike_charges_attract_by_mass() {
    let mut a = body(2, 1, 0, 0, 0, 0, 10);
    let mut b = body(4, 1, 3, 4, 0, 0, -10);
    calc_coloumb(&mut a, &mut b, 1000);
    assert_eq!((a.vel_x, a.vel_y), (1200, 1600));
    assert_eq!((b.vel_x, b.vel_y), (-600, -800));
}

#[test]
fn damping_scales_velocity() {
    let mut a = body(1, 1, 0, 0, 1000, -1000, 0);
    calc_damping(&mut a, 100_000);
    assert_eq!((a.vel_x, a.vel_y), (900, -900));
    let mut b = body(1, 1, 0, 0, 7, -7, 0);
    calc_damping(&mut b, 0);
    assert_eq!((b.vel_x, b.vel_y), (7, -7));
}

#[test]
fn wall_reflects_body_half_a_radius_from_the_edge() {
    let mut a = body(1, 20, 990, 500, 5, 0, 0);
    calc_wall_collision(&mut a, 1000, 1000);
    assert_eq!(a.vel_x, -5);
    assert_eq!(a.pos_x, 990);
    let inside = body(1, 20, 500, 500, 5, -5, 0);
    let mut c = inside;
    calc_wall_collision(&mut c, 1000, 1000);
    assert_eq!(c, inside);
}

#[test]
fn wall_reflects_at_zero_edges() {
    let mut a = body(1, 20, 10, 5, -3, -4, 0);
    calc_wall_collision(&mut a, 1000, 1000);
    assert_eq!((a.vel_x, a.vel_y), (3, 4));
    // Moving inward already: left as it is.
    let mut b = body(1, 20, 10, 5, 3, 4, 0);
    calc_wall_collision(&mut b, 1000, 1000);
    assert_eq!((b.vel_x, b.vel_y), (3, 4));
}

#[test]
fn speed_clamp_rescales_to_the_limit() {
    let mut a = body(1, 1, 0, 0, 300, 400, 0);
    recalc_position(&mut a, 100);
    assert_eq!((a.vel_x, a.vel_y), (60, 80));
    assert_eq!((a.pos_x, a.pos_y), (60, 80));
    let mut b = body(1, 1, 0, 0, 1000, 1, 0);
    recalc_position(&mut b, 10);
    assert_eq!((b.vel_x, b.vel_y), (9, 0));
    assert!(b.vel_x * b.vel_x + b.vel_y * b.vel_y <= 100);
}

#[test]
fn slow_body_moves_by_its_velocity() {
    let mut a = body(1, 1, 5, 6, -2, 3, 0);
    recalc_position(&mut a, 100);
    assert_eq!((a.pos_x, a.pos_y, a.vel_x, a.vel_y), (3, 9, -2, 3));
}

#[test]
fn integer_square_roots() {
    assert_eq!(isqrt_exec(0), 0);
    assert_eq!(isqrt_exec(1), 1);
    assert_eq!(isqrt_exec(3), 1);
    assert_eq!(isqrt_exec(99), 9);
    assert_eq!(isqrt_exec(100), 10);
    assert_eq!(isqrt_exec(1_000_001), 1000);
    assert_eq!(isqrt_exec(u64::MAX as u128), 4_294_967_295);
    assert_eq!(isqrt_exec(1u128 << 126), 1u128 << 63);
    assert_eq!(isqrt_exec((1u128 << 126) - 1), (1u128 << 63) - 1);
}

#[test]
fn particle_constructor_rejects_bad_fields() {
    assert_eq!(Particle::new(0, 1, 0, 0, 0, 0, 0), Err(ParticleError::NonPositiveMass));
    assert_eq!(Particle::new(-3, 0, 0, 0, 0, 0, 0), Err(ParticleError::NonPositiveMass));
    assert_eq!(Particle::new(1, 0, 0, 0, 0, 0, 0), Err(ParticleError::NonPositiveRadius));
    assert_eq!(Particle::new(1, 1, i64::MAX, 0, 0, 0, 0), Err(ParticleError::OutOfRange));
    let p = Particle::new(2, 3, 4, 5, 6, 7, -8).unwrap();
    assert_eq!((p.mass, p.radius, p.pos_x, p.pos_y, p.vel_x, p.vel_y, p.charge), (2, 3, 4, 5, 6, 7, -8));
    assert!(!p.drag_detect);
}

#[test]
fn push_never_opens_a_gap() {
    for d in 1..12 {
        for (ma, mb) in [(1, 1), (2, 1), (1, 2)] {
            let mut a = body(ma, 6, 0, 0, 0, 0, 0);
            let mut b = body(mb, 6, d, d / 2, 0, 0, 0);
            let before = dist_sq(&a, &b);
            calc_collision(&mut a, &mut b);
            assert!(dist_sq(&a, &b) >= before);
            if before <= 144 {
                assert!(dist_sq(&a, &b) <= 144);
            } else {
                assert_eq!(dist_sq(&a, &b), before);
            }
        }
    }
}

#[test]
fn gravity_uses_the_exact_distance() {
    let mut a = body(1, 1, 0, 0, 0, 0, 0);
    let mut b = body(1, 1, 1, 1, 0, 0, 0);
    calc_gravity(&mut a, &mut b, 1000);
    // 1000 / 2^(3/2) = 353.55, rounded toward zero.
    assert_eq!((a.vel_x, a.vel_y), (353, 353));
    assert_eq!((b.vel_x, b.vel_y), (-353, -353));
}

#[test]
fn coulomb_uses_the_exact_distance() {
    let mut a = body(1, 1, 0, 0, 0, 0, 1);
    let mut b = body(1, 1, 1, 1, 0, 0, 1);
    calc_coloumb(&mut a, &mut b, 1000);
    assert_eq!((a.vel_x, a.vel_y), (-353, -353));
    assert_eq!((b.vel_x, b.vel_y), (353, 353));
}

#[test]
fn weak_coulomb_force_rounds_to_zero_but_never_attracts_like_charges() {
    let mut a = body(1, 1, 0, 0, 0, 0, 1);
    let mut b = body(1, 1, 1000, 0, 0, 0, 1);
    calc_coloumb(&mut a, &mut b, 1);
    assert_eq!((a.vel_x, b.vel_x), (0, 0));
    let mut c = body(1, 1, 0, 0, 0, 0, 1);
    let mut d = body(1, 1, 30, 0, 0, 0, 1);
    calc_coloumb(&mut c, &mut d, 100_000);
    // 100000 / 900 = 111.1: pushed apart.
    assert_eq!((c.vel_x, d.vel_x), (-111, 111));
}

#[test]
fn gravity_undone_by_swapped_opposite_impulse() {
    let a = body(7, 1, -13, 29, 5, -3, 0);
    let b = body(3, 1, 41, -17, -2, 8, 0);
    let (mut a1, mut b1) = (a, b);
    calc_gravity(&mut a1, &mut b1, 123_456);
    assert_ne!(a1, a);
    calc_gravity(&mut b1, &mut a1, -123_456);
    assert_eq!(a1, a);
    assert_eq!(b1, b);
}
