use particle_sim::{
    add_particle, detect_drag, enable_collisions, enable_pause, end_drag, expand_all,
    get_collection, get_params, handle_drag, params_are_valid, remove_particle, set_c_val,
    set_collection, set_d_val, set_params, shrink_all, slow_down, speed_up, step_system,
    Particle, SysParams, SCALE,
};

fn body(mass: i64, radius: i64, x: i64, y: i64, vx: i64, vy: i64) -> Particle {
    Particle::new(mass, radius, x, y, vx, vy, 0).unwrap()
}

fn session(coll: Vec<Particle>) -> SysParams {
    SysParams {
        coll,
        collisions_on: false,
        gravity_on: false,
        elec_on: false,
        damping_on: false,
        grid_on: false,
        vectors_on: false,
        is_paused: false,
        c_val: 1000,
        g_val: 0,
        k_val: 0,
        d_val: 0,
        width: 10_000,
        height: 10_000,
    }
}

#[test]
fn step_resolves_the_head_on_pair() {
    let mut p = session(vec![body(1, 6, 100, 100, 1, 0), body(1, 6, 110, 100, -1, 0)]);
    enable_collisions(&mut p, true);
    step_system(&mut p);
    // Velocities swap, the first body is pushed out by 1 on each axis, then
    // each body moves by its new velocity.
    assert_eq!((p.coll[0].vel_x, p.coll[1].vel_x), (-1, 1));
    assert_eq!((p.coll[0].pos_x, p.coll[0].pos_y), (98, 101));
    assert_eq!((p.coll[1].pos_x, p.coll[1].pos_y), (111, 100));
}

#[test]
fn stepping_resting_overlap_shrinks_it() {
    let mut p = session(vec![body(3, 30, 1000, 1000, 0, 0), body(3, 30, 1010, 1000, 0, 0)]);
    enable_collisions(&mut p, true);
    let gap = |p: &SysParams| {
        let dx = p.coll[0].pos_x - p.coll[1].pos_x;
        let dy = p.coll[0].pos_y - p.coll[1].pos_y;
        dx * dx + dy * dy
    };
    let mut last = gap(&p);
    let mut ticks = 0;
    while last <= 59 * 59 {
        step_system(&mut p);
        let now = gap(&p);
        assert!(now > last);
        assert!(now <= 60 * 60);
        last = now;
        ticks += 1;
        assert!(ticks <= 3600);
    }
}

#[test]
fn paused_step_changes_nothing() {
    let b = body(1, 6, 100, 100, 5, 5);
    let mut p = session(vec![b]);
    enable_pause(&mut p, true);
    step_system(&mut p);
    assert_eq!(p.coll, vec![b]);
}

#[test]
fn step_integrates_and_contains() {
    let mut p = session(vec![body(1, 10, 9_995, 50, 20, 0)]);
    step_system(&mut p);
    // Moves to 10 015, past the wall while moving out: reflected.
    assert_eq!((p.coll[0].pos_x, p.coll[0].vel_x), (10_015, -20));
}

#[test]
fn step_with_gravity_draws_bodies_together() {
    let mut p = session(vec![body(10, 1, 1000, 1000, 0, 0), body(10, 1, 1003, 1004, 0, 0)]);
    p.gravity_on = true;
    p.g_val = 1000;
    step_system(&mut p);
    assert_eq!((p.coll[0].vel_x, p.coll[0].vel_y), (240, 320));
    assert_eq!((p.coll[1].vel_x, p.coll[1].vel_y), (-240, -320));
}

#[test]
fn step_damps_before_integrating() {
    let mut p = session(vec![body(1, 1, 500, 500, 100, 0)]);
    p.damping_on = true;
    assert!(set_d_val(&mut p, 500_000));
    step_system(&mut p);
    assert_eq!((p.coll[0].vel_x, p.coll[0].pos_x), (50, 550));
}

#[test]
fn speed_controls_scale_velocities() {
    let mut p = session(vec![body(1, 1, 0, 0, 100, -50)]);
    speed_up(&mut p);
    assert_eq!((p.coll[0].vel_x, p.coll[0].vel_y), (120, -60));
    slow_down(&mut p);
    assert_eq!((p.coll[0].vel_x, p.coll[0].vel_y), (96, -48));
}

#[test]
fn resizing_recomputes_mass_from_area() {
    let mut p = session(vec![body(1, 10 * SCALE, 0, 0, 0, 0)]);
    expand_all(&mut p);
    assert_eq!((p.coll[0].radius, p.coll[0].mass), (3072, 452));
    let mut q = session(vec![body(1, 10 * SCALE, 0, 0, 0, 0)]);
    shrink_all(&mut q);
    assert_eq!((q.coll[0].radius, q.coll[0].mass), (1792, 153));
}

#[test]
fn dragging_moves_and_stops_a_body() {
    let mut p = session(vec![body(1, 10, 100, 100, 5, 5), body(1, 10, 500, 500, 5, 5)]);
    detect_drag(&mut p, 105, 95);
    assert!(p.coll[0].drag_detect);
    assert!(!p.coll[1].drag_detect);
    handle_drag(&mut p, 300, 200);
    assert_eq!((p.coll[0].pos_x, p.coll[0].pos_y, p.coll[0].vel_x, p.coll[0].vel_y), (300, 200, 0, 0));
    assert_eq!((p.coll[1].pos_x, p.coll[1].vel_x), (500, 5));
    end_drag(&mut p);
    assert!(!p.coll[0].drag_detect);
}

#[test]
fn collection_edits_validate_bodies() {
    let mut p = session(vec![]);
    assert_eq!(remove_particle(&mut p), None);
    let b = body(2, 3, 4, 5, 6, 7);
    assert!(add_particle(&mut p, b));
    let mut bad = b;
    bad.mass = 0;
    assert!(!add_particle(&mut p, bad));
    assert_eq!(get_collection(&p), vec![b]);
    assert!(!set_collection(&mut p, vec![b, bad]));
    assert_eq!(p.coll.len(), 1);
    assert!(set_collection(&mut p, vec![b, b]));
    assert_eq!(p.coll.len(), 2);
    assert_eq!(remove_particle(&mut p), Some(b));
    assert_eq!(p.coll.len(), 1);
}

#[test]
fn settings_reject_values_out_of_range() {
    let mut p = session(vec![]);
    assert!(!set_c_val(&mut p, 0));
    assert_eq!(p.c_val, 1000);
    assert!(set_c_val(&mut p, 5));
    assert_eq!(p.c_val, 5);
    assert!(!set_d_val(&mut p, 1_000_000));
    assert!(params_are_valid(&p));
    let mut bad = session(vec![]);
    bad.width = 0;
    assert!(!params_are_valid(&bad));
    assert!(!set_params(&mut p, bad));
    assert_eq!(p.width, 10_000);
    let copy = get_params(&p);
    assert_eq!((copy.c_val, copy.width, copy.coll.len()), (5, 10_000, 0));
}

#[test]
fn field_probe_points_toward_a_mass() {
    let mut p = session(vec![body(10, 1, 0, 0, 0, 0)]);
    p.gravity_on = true;
    p.g_val = 1000;
    let probe = particle_sim::field_probe(&p, 3, 4);
    assert_eq!((probe.vel_x, probe.vel_y), (-240, -320));
    assert_eq!((probe.pos_x, probe.pos_y), (3, 4));
    assert_eq!(p.coll[0].vel_x, 0);
}

#[test]
fn field_probe_is_pushed_by_like_charge() {
    let mut p = session(vec![Particle::new(1, 1, 0, 0, 0, 0, 100).unwrap()]);
    p.elec_on = true;
    p.k_val = 1000;
    let probe = particle_sim::field_probe(&p, 3, 4);
    // 1000 * 100 * 3 / 125 = 2400 away from the charge.
    assert_eq!((probe.vel_x, probe.vel_y), (2400, 3200));
}
