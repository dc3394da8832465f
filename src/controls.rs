//! Operations on a session between ticks: the collection, the settings, and
//! the pointer's dragging of bodies.
use vstd::prelude::*;
use crate::arith::{
    div_trunc, lemma_mul_bound, lemma_trunc_div_bound, saturate_exec, trunc_div, SCALE,
};
use crate::models::{
    all_wf, Particle, SysParams, CHARGE_MAX, COEF_MAX, DAMPING_DENOM, MASS_MAX, POS_MAX, RADIUS_MAX, VEL_MAX,
};
use crate::phys::with_vel;
use crate::stepper::same_settings;

verus! {

/// `v` limited to `[lo, hi]`.
pub open spec fn bounded(v: int, lo: int, hi: int) -> int {
    if v < lo {
        lo
    } else if v > hi {
        hi
    } else {
        v
    }
}

/// The body with its velocity scaled by `num / den`.
pub open spec fn vel_scaled(b: Particle, num: int, den: int) -> Particle {
    with_vel(b, trunc_div(b.vel_x * num, den), trunc_div(b.vel_y * num, den))
}

/// Mass of a disc of the given radius (in length units) at unit density per
/// square pixel: `π r²` with `π ≈ 355 / 113`, kept within `[1, MASS_MAX]`.
pub open spec fn disc_mass(radius: int) -> int {
    bounded((355 * (radius * radius)) / (113 * SCALE * SCALE), 1, MASS_MAX as int)
}

/// The body with its radius scaled by `num / den` (kept within
/// `[1, RADIUS_MAX]`) and its mass recomputed from the new radius.
pub open spec fn resized(b: Particle, num: int, den: int) -> Particle {
    let r = bounded((b.radius * num) / den, 1, RADIUS_MAX as int);
    Particle { radius: r as i64, mass: disc_mass(r) as i64, ..b }
}

/// The pointer at `(x, y)` lies strictly inside the body's bounding square.
pub open spec fn under_pointer(b: Particle, x: int, y: int) -> bool {
    &&& b.pos_x + b.radius > x && b.pos_x - b.radius < x
    &&& b.pos_y + b.radius > y && b.pos_y - b.radius < y
}

/// The body after a press at `(x, y)`: marked as dragged when under the
/// pointer, unchanged otherwise.
pub open spec fn grabbed(b: Particle, x: int, y: int) -> Particle {
    if under_pointer(b, x, y) {
        Particle { drag_detect: true, ..b }
    } else {
        b
    }
}

/// The body after the pointer moved to `(x, y)`: a dragged body sits at the
/// pointer, at rest.
pub open spec fn dragged(b: Particle, x: int, y: int) -> Particle {
    if b.drag_detect {
        Particle { pos_x: x as i64, pos_y: y as i64, vel_x: 0, vel_y: 0, ..b }
    } else {
        b
    }
}

/// Scales every body's velocity by `num / den`.
fn scale_velocities(p: &mut SysParams, num: i64, den: i64)
    requires
        old(p).wf(),
        0 <= num <= 8,
        1 <= den <= 8,
    ensures
        final(p).coll@ == old(p).coll@.map_values(|b: Particle| vel_scaled(b, num as int, den as int)),
        same_settings(*final(p), *old(p)),
        final(p).wf(),
{
    let ghost s0 = p.coll@;
    let n = p.coll.len();
    let mut k: usize = 0;
    while k < n
        invariant
            k <= n,
            n == s0.len(),
            p.coll@.len() == n,
            all_wf(s0),
            all_wf(p.coll@),
            forall|m: int| 0 <= m < k ==> p.coll@[m] == vel_scaled(#[trigger] s0[m], num as int, den as int),
            forall|m: int| k <= m < n ==> p.coll@[m] == s0[m],
            same_settings(*p, *old(p)),
            p.settings_wf(),
            0 <= num <= 8,
            1 <= den <= 8,
        decreases n - k,
    {
        let mut b = p.coll[k];
        proof {
            lemma_mul_bound(b.vel_x as int, num as int, 0x4000_0000, 8);
            lemma_mul_bound(b.vel_y as int, num as int, 0x4000_0000, 8);
            lemma_trunc_div_bound(b.vel_x * num, den as int, 0x2_0000_0000);
            lemma_trunc_div_bound(b.vel_y * num, den as int, 0x2_0000_0000);
        }
        let vx = div_trunc(b.vel_x as i128 * num as i128, den as i128);
        let vy = div_trunc(b.vel_y as i128 * num as i128, den as i128);
        b.vel_x = saturate_exec(vx, VEL_MAX);
        b.vel_y = saturate_exec(vy, VEL_MAX);
        p.coll.set(k, b);
        k = k + 1;
    }
    assert(p.coll@ =~= s0.map_values(|b: Particle| vel_scaled(b, num as int, den as int)));
}

/// Speeds every body up by a fifth.
pub fn speed_up(p: &mut SysParams)
    requires
        old(p).wf(),
    ensures
        final(p).coll@ == old(p).coll@.map_values(|b: Particle| vel_scaled(b, 6, 5)),
        same_settings(*final(p), *old(p)),
        final(p).wf(),
{
    scale_velocities(p, 6, 5);
}

/// Slows every body down by a fifth.
pub fn slow_down(p: &mut SysParams)
    requires
        old(p).wf(),
    ensures
        final(p).coll@ == old(p).coll@.map_values(|b: Particle| vel_scaled(b, 4, 5)),
        same_settings(*final(p), *old(p)),
        final(p).wf(),
{
    scale_velocities(p, 4, 5);
}

/// Computes `disc_mass(radius)`.
fn disc_mass_exec(radius: i64) -> (m: i64)
    requires
        1 <= radius <= RADIUS_MAX,
    ensures
        m == disc_mass(radius as int),
{
    proof {
        lemma_mul_bound(radius as int, radius as int, 0x1000_0000, 0x1000_0000);
    }
    let sq: i128 = (radius as i128) * (radius as i128);
    let m: i128 = (355 * sq) / (113 * (SCALE as i128) * (SCALE as i128));
    if m < 1 {
        1
    } else if m > MASS_MAX as i128 {
        MASS_MAX
    } else {
        m as i64
    }
}

/// Scales every body's radius by `num / den` and recomputes its mass.
fn resize_all(p: &mut SysParams, num: i64, den: i64)
    requires
        old(p).wf(),
        0 <= num <= 8,
        1 <= den <= 16,
    ensures
        final(p).coll@ == old(p).coll@.map_values(|b: Particle| resized(b, num as int, den as int)),
        same_settings(*final(p), *old(p)),
        final(p).wf(),
{
    let ghost s0 = p.coll@;
    let n = p.coll.len();
    let mut k: usize = 0;
    while k < n
        invariant
            k <= n,
            n == s0.len(),
            p.coll@.len() == n,
            all_wf(s0),
            all_wf(p.coll@),
            forall|m: int| 0 <= m < k ==> p.coll@[m] == resized(#[trigger] s0[m], num as int, den as int),
            forall|m: int| k <= m < n ==> p.coll@[m] == s0[m],
            same_settings(*p, *old(p)),
            p.settings_wf(),
            0 <= num <= 8,
            1 <= den <= 16,
        decreases n - k,
    {
        let mut b = p.coll[k];
        proof {
            assert(p.coll@[k as int].wf());
            lemma_mul_bound(b.radius as int, num as int, 0x1000_0000, 8);
        }
        let r0: i64 = (b.radius * num) / den;
        let r: i64 = if r0 < 1 {
            1
        } else if r0 > RADIUS_MAX {
            RADIUS_MAX
        } else {
            r0
        };
        b.radius = r;
        b.mass = disc_mass_exec(r);
        p.coll.set(k, b);
        k = k + 1;
    }
    assert(p.coll@ =~= s0.map_values(|b: Particle| resized(b, num as int, den as int)));
}

/// Grows every body's radius by a fifth; masses follow the new area.
pub fn expand_all(p: &mut SysParams)
    requires
        old(p).wf(),
    ensures
        final(p).coll@ == old(p).coll@.map_values(|b: Particle| resized(b, 6, 5)),
        same_settings(*final(p), *old(p)),
        final(p).wf(),
{
    resize_all(p, 6, 5);
}

/// Shrinks every body's radius to seven tenths; masses follow the new area.
pub fn shrink_all(p: &mut SysParams)
    requires
        old(p).wf(),
    ensures
        final(p).coll@ == old(p).coll@.map_values(|b: Particle| resized(b, 7, 10)),
        same_settings(*final(p), *old(p)),
        final(p).wf(),
{
    resize_all(p, 7, 10);
}

/// Marks as dragged every body whose bounding square holds the pointer.
pub fn detect_drag(p: &mut SysParams, x: i64, y: i64)
    requires
        old(p).wf(),
    ensures
        final(p).coll@ == old(p).coll@.map_values(|b: Particle| grabbed(b, x as int, y as int)),
        same_settings(*final(p), *old(p)),
        final(p).wf(),
{
    let ghost s0 = p.coll@;
    let n = p.coll.len();
    let mut k: usize = 0;
    while k < n
        invariant
            k <= n,
            n == s0.len(),
            p.coll@.len() == n,
            all_wf(s0),
            all_wf(p.coll@),
            forall|m: int| 0 <= m < k ==> p.coll@[m] == grabbed(#[trigger] s0[m], x as int, y as int),
            forall|m: int| k <= m < n ==> p.coll@[m] == s0[m],
            same_settings(*p, *old(p)),
            p.settings_wf(),
        decreases n - k,
    {
        let mut b = p.coll[k];
        let (px, py, r) = (b.pos_x as i128, b.pos_y as i128, b.radius as i128);
        let (cx, cy) = (x as i128, y as i128);
        if px + r > cx && px - r < cx && py + r > cy && py - r < cy {
            b.drag_detect = true;
        }
        p.coll.set(k, b);
        k = k + 1;
    }
    assert(p.coll@ =~= s0.map_values(|b: Particle| grabbed(b, x as int, y as int)));
}

/// Moves every dragged body to the pointer and stops it.
pub fn handle_drag(p: &mut SysParams, x: i64, y: i64)
    requires
        old(p).wf(),
        -POS_MAX <= x <= POS_MAX,
        -POS_MAX <= y <= POS_MAX,
    ensures
        final(p).coll@ == old(p).coll@.map_values(|b: Particle| dragged(b, x as int, y as int)),
        same_settings(*final(p), *old(p)),
        final(p).wf(),
{
    let ghost s0 = p.coll@;
    let n = p.coll.len();
    let mut k: usize = 0;
    while k < n
        invariant
            k <= n,
            n == s0.len(),
            p.coll@.len() == n,
            all_wf(s0),
            all_wf(p.coll@),
            forall|m: int| 0 <= m < k ==> p.coll@[m] == dragged(#[trigger] s0[m], x as int, y as int),
            forall|m: int| k <= m < n ==> p.coll@[m] == s0[m],
            same_settings(*p, *old(p)),
            p.settings_wf(),
            -POS_MAX <= x <= POS_MAX,
            -POS_MAX <= y <= POS_MAX,
        decreases n - k,
    {
        let mut b = p.coll[k];
        if b.drag_detect {
            b.pos_x = x;
            b.pos_y = y;
            b.vel_x = 0;
            b.vel_y = 0;
        }
        p.coll.set(k, b);
        k = k + 1;
    }
    assert(p.coll@ =~= s0.map_values(|b: Particle| dragged(b, x as int, y as int)));
}

/// Releases every dragged body.
pub fn end_drag(p: &mut SysParams)
    requires
        old(p).wf(),
    ensures
        final(p).coll@ == old(p).coll@.map_values(|b: Particle| Particle { drag_detect: false, ..b }),
        same_settings(*final(p), *old(p)),
        final(p).wf(),
{
    let ghost s0 = p.coll@;
    let n = p.coll.len();
    let mut k: usize = 0;
    while k < n
        invariant
            k <= n,
            n == s0.len(),
            p.coll@.len() == n,
            all_wf(s0),
            all_wf(p.coll@),
            forall|m: int| 0 <= m < k ==> p.coll@[m] == (Particle { drag_detect: false, ..#[trigger] s0[m] }),
            forall|m: int| k <= m < n ==> p.coll@[m] == s0[m],
            same_settings(*p, *old(p)),
            p.settings_wf(),
        decreases n - k,
    {
        let mut b = p.coll[k];
        b.drag_detect = false;
        p.coll.set(k, b);
        k = k + 1;
    }
    assert(p.coll@ =~= s0.map_values(|b: Particle| Particle { drag_detect: false, ..b }));
}

/// Turns collision resolution on or off.
pub fn enable_collisions(p: &mut SysParams, c_on: bool)
    ensures
        *final(p) == (SysParams { collisions_on: c_on, ..*old(p) }),
{
    p.collisions_on = c_on;
}

/// Pauses or resumes the simulation.
pub fn enable_pause(p: &mut SysParams, pause: bool)
    ensures
        *final(p) == (SysParams { is_paused: pause, ..*old(p) }),
{
    p.is_paused = pause;
}

/// Turns gravity on or off.
pub fn enable_gravity(p: &mut SysParams, g_on: bool)
    ensures
        *final(p) == (SysParams { gravity_on: g_on, ..*old(p) }),
{
    p.gravity_on = g_on;
}

/// Turns the Coulomb force on or off.
pub fn enable_electrostatics(p: &mut SysParams, e_on: bool)
    ensures
        *final(p) == (SysParams { elec_on: e_on, ..*old(p) }),
{
    p.elec_on = e_on;
}

/// Turns damping on or off.
pub fn enable_damping(p: &mut SysParams, d_on: bool)
    ensures
        *final(p) == (SysParams { damping_on: d_on, ..*old(p) }),
{
    p.damping_on = d_on;
}

/// Turns the background grid of the display on or off.
pub fn enable_grid(p: &mut SysParams, grid_on: bool)
    ensures
        *final(p) == (SysParams { grid_on: grid_on, ..*old(p) }),
{
    p.grid_on = grid_on;
}

/// Turns the display of force vectors on or off.
pub fn enable_vectors(p: &mut SysParams, vec_on: bool)
    ensures
        *final(p) == (SysParams { vectors_on: vec_on, ..*old(p) }),
{
    p.vectors_on = vec_on;
}

/// Sets the speed limit; it must lie in `1 ..= VEL_MAX`. Returns whether the value was taken; a value
/// out of range leaves the session unchanged.
pub fn set_c_val(p: &mut SysParams, v: i64) -> (ok: bool)
    ensures
        ok == (1 <= v <= VEL_MAX),
        ok ==> *final(p) == (SysParams { c_val: v, ..*old(p) }),
        !ok ==> *final(p) == *old(p),
{
    if 1 <= v && v <= VEL_MAX {
        p.c_val = v;
        true
    } else {
        false
    }
}

/// Sets the gravity constant; its magnitude must not exceed `COEF_MAX`. Returns whether the value was taken; a value
/// out of range leaves the session unchanged.
pub fn set_g_val(p: &mut SysParams, v: i64) -> (ok: bool)
    ensures
        ok == (-COEF_MAX <= v <= COEF_MAX),
        ok ==> *final(p) == (SysParams { g_val: v, ..*old(p) }),
        !ok ==> *final(p) == *old(p),
{
    if -COEF_MAX <= v && v <= COEF_MAX {
        p.g_val = v;
        true
    } else {
        false
    }
}

/// Sets the Coulomb constant; its magnitude must not exceed `COEF_MAX`. Returns whether the value was taken; a value
/// out of range leaves the session unchanged.
pub fn set_k_val(p: &mut SysParams, v: i64) -> (ok: bool)
    ensures
        ok == (-COEF_MAX <= v <= COEF_MAX),
        ok ==> *final(p) == (SysParams { k_val: v, ..*old(p) }),
        !ok ==> *final(p) == *old(p),
{
    if -COEF_MAX <= v && v <= COEF_MAX {
        p.k_val = v;
        true
    } else {
        false
    }
}

/// Sets the damping fraction, in parts of `DAMPING_DENOM`; it must lie in `0 .. DAMPING_DENOM`. Returns whether the value was taken; a value
/// out of range leaves the session unchanged.
pub fn set_d_val(p: &mut SysParams, v: i64) -> (ok: bool)
    ensures
        ok == (0 <= v < DAMPING_DENOM),
        ok ==> *final(p) == (SysParams { d_val: v, ..*old(p) }),
        !ok ==> *final(p) == *old(p),
{
    if 0 <= v && v < DAMPING_DENOM {
        p.d_val = v;
        true
    } else {
        false
    }
}

/// Sets the arena width; it must lie in `1 ..= POS_MAX`. Returns whether the value was taken; a value
/// out of range leaves the session unchanged.
pub fn set_width(p: &mut SysParams, v: i64) -> (ok: bool)
    ensures
        ok == (1 <= v <= POS_MAX),
        ok ==> *final(p) == (SysParams { width: v, ..*old(p) }),
        !ok ==> *final(p) == *old(p),
{
    if 1 <= v && v <= POS_MAX {
        p.width = v;
        true
    } else {
        false
    }
}

/// Sets the arena height; it must lie in `1 ..= POS_MAX`. Returns whether the value was taken; a value
/// out of range leaves the session unchanged.
pub fn set_height(p: &mut SysParams, v: i64) -> (ok: bool)
    ensures
        ok == (1 <= v <= POS_MAX),
        ok ==> *final(p) == (SysParams { height: v, ..*old(p) }),
        !ok ==> *final(p) == *old(p),
{
    if 1 <= v && v <= POS_MAX {
        p.height = v;
        true
    } else {
        false
    }
}

/// Whether a body lies within the bounds the physics is built for.
pub fn particle_is_valid(b: &Particle) -> (r: bool)
    ensures
        r == b.wf(),
{
    1 <= b.mass && b.mass <= MASS_MAX && 1 <= b.radius && b.radius <= RADIUS_MAX && -POS_MAX
        <= b.pos_x && b.pos_x <= POS_MAX && -POS_MAX <= b.pos_y && b.pos_y <= POS_MAX && -VEL_MAX
        <= b.vel_x && b.vel_x <= VEL_MAX && -VEL_MAX <= b.vel_y && b.vel_y <= VEL_MAX
        && -CHARGE_MAX <= b.charge && b.charge <= CHARGE_MAX
}

/// Whether every body of the collection is valid.
pub fn collection_is_valid(coll: &Vec<Particle>) -> (r: bool)
    ensures
        r == all_wf(coll@),
{
    let mut k: usize = 0;
    while k < coll.len()
        invariant
            k <= coll.len(),
            forall|m: int| 0 <= m < k ==> (#[trigger] coll@[m]).wf(),
        decreases coll.len() - k,
    {
        if !particle_is_valid(&coll[k]) {
            return false;
        }
        k = k + 1;
    }
    true
}

/// Whether the settings and every body are valid.
pub fn params_are_valid(p: &SysParams) -> (r: bool)
    ensures
        r == p.wf(),
{
    1 <= p.c_val && p.c_val <= VEL_MAX && -COEF_MAX <= p.g_val && p.g_val <= COEF_MAX && -COEF_MAX
        <= p.k_val && p.k_val <= COEF_MAX && 0 <= p.d_val && p.d_val < DAMPING_DENOM && 1
        <= p.width && p.width <= POS_MAX && 1 <= p.height && p.height <= POS_MAX
        && collection_is_valid(&p.coll)
}

/// Replaces the whole session, settings and bodies, when the new one is
/// valid. Returns whether it was taken.
pub fn set_params(p: &mut SysParams, state: SysParams) -> (ok: bool)
    ensures
        ok == state.wf(),
        ok ==> *final(p) == state,
        !ok ==> *final(p) == *old(p),
{
    if params_are_valid(&state) {
        *p = state;
        true
    } else {
        false
    }
}

/// Replaces the bodies when all of them are valid. Returns whether they
/// were taken.
pub fn set_collection(p: &mut SysParams, collection: Vec<Particle>) -> (ok: bool)
    ensures
        ok == all_wf(collection@),
        ok ==> *final(p) == (SysParams { coll: collection, ..*old(p) }),
        !ok ==> *final(p) == *old(p),
{
    if collection_is_valid(&collection) {
        p.coll = collection;
        true
    } else {
        false
    }
}

/// Appends a body when it is valid. Returns whether it was taken.
pub fn add_particle(p: &mut SysParams, particle: Particle) -> (ok: bool)
    ensures
        ok == particle.wf(),
        ok ==> final(p).coll@ == old(p).coll@.push(particle),
        !ok ==> final(p).coll@ == old(p).coll@,
        same_settings(*final(p), *old(p)),
{
    if particle_is_valid(&particle) {
        p.coll.push(particle);
        true
    } else {
        false
    }
}

/// Removes the most recently added body, if any.
pub fn remove_particle(p: &mut SysParams) -> (removed: Option<Particle>)
    ensures
        old(p).coll@.len() == 0 ==> removed.is_none() && final(p).coll@ == old(p).coll@,
        old(p).coll@.len() > 0 ==> removed == Some(old(p).coll@.last()) && final(p).coll@
            == old(p).coll@.drop_last(),
        same_settings(*final(p), *old(p)),
{
    p.coll.pop()
}

/// A copy of the bodies.
pub fn get_collection(p: &SysParams) -> (r: Vec<Particle>)
    ensures
        r@ == p.coll@,
{
    let mut out: Vec<Particle> = Vec::new();
    let mut k: usize = 0;
    while k < p.coll.len()
        invariant
            k <= p.coll.len(),
            out@ == p.coll@.subrange(0, k as int),
        decreases p.coll.len() - k,
    {
        out.push(p.coll[k]);
        k = k + 1;
        assert(out@ =~= p.coll@.subrange(0, k as int));
    }
    assert(out@ =~= p.coll@);
    out
}

/// A copy of the whole session.
pub fn get_params(p: &SysParams) -> (r: SysParams)
    ensures
        r.coll@ == p.coll@,
        same_settings(r, *p),
{
    let coll = get_collection(p);
    SysParams {
        coll,
        collisions_on: p.collisions_on,
        gravity_on: p.gravity_on,
        elec_on: p.elec_on,
        damping_on: p.damping_on,
        grid_on: p.grid_on,
        vectors_on: p.vectors_on,
        is_paused: p.is_paused,
        c_val: p.c_val,
        g_val: p.g_val,
        k_val: p.k_val,
        d_val: p.d_val,
        width: p.width,
        height: p.height,
    }
}

} // verus!
