//! One simulation tick: the pairwise sweep over every unordered pair, then
//! the per-body pass.
use vstd::prelude::*;
use crate::models::{all_wf, Particle, SysParams, POS_MAX};
use crate::phys::{
    calc_collision, calc_coloumb, calc_damping, calc_gravity, calc_wall_collision,
    collision_detected, collision_pair, coulomb_pair, damped, gravity_pair, integrated,
    recalc_position, touching, walled,
};

verus! {

/// One pair after the enabled pairwise laws, in the fixed order gravity,
/// electrostatics, collision (resolved only when the bodies touch).
pub open spec fn interact(a: Particle, b: Particle, p: SysParams) -> (Particle, Particle) {
    let g = if p.gravity_on {
        gravity_pair(a, b, p.g_val as int)
    } else {
        (a, b)
    };
    let e = if p.elec_on {
        coulomb_pair(g.0, g.1, p.k_val as int)
    } else {
        g
    };
    if p.collisions_on && touching(e.0, e.1) {
        collision_pair(e.0, e.1)
    } else {
        e
    }
}

/// The sequence after the interaction of bodies `i` and `j`.
pub open spec fn pair_step(s: Seq<Particle>, p: SysParams, i: int, j: int) -> Seq<Particle> {
    let r = interact(s[i], s[j], p);
    s.update(i, r.0).update(j, r.1)
}

/// Row `i` of the sweep on `s`, over the partners `i + 1 .. j`.
pub open spec fn sweep_row(s: Seq<Particle>, p: SysParams, i: int, j: int) -> Seq<Particle>
    decreases j - i,
{
    if j <= i + 1 {
        s
    } else {
        pair_step(sweep_row(s, p, i, j - 1), p, i, j - 1)
    }
}

/// The rows `0 .. i` of the sweep on `s`: every pair whose first index is
/// below `i`, each visited once, in order.
pub open spec fn sweep(s: Seq<Particle>, p: SysParams, i: int) -> Seq<Particle>
    decreases i,
{
    if i <= 0 {
        s
    } else {
        sweep_row(sweep(s, p, i - 1), p, i - 1, s.len() as int)
    }
}

/// One body after the per-body pass: damping when enabled, then the
/// integration step, then wall containment.
pub open spec fn settle(b: Particle, p: SysParams) -> Particle {
    let d = if p.damping_on {
        damped(b, p.d_val as int)
    } else {
        b
    };
    walled(integrated(d, p.c_val as int), p.width as int, p.height as int)
}

/// The bodies after one tick that is not paused.
pub open spec fn stepped(s: Seq<Particle>, p: SysParams) -> Seq<Particle> {
    sweep(s, p, s.len() as int).map_values(|b: Particle| settle(b, p))
}

/// The settings of two sessions agree.
pub open spec fn same_settings(a: SysParams, b: SysParams) -> bool {
    &&& a.collisions_on == b.collisions_on
    &&& a.gravity_on == b.gravity_on
    &&& a.elec_on == b.elec_on
    &&& a.damping_on == b.damping_on
    &&& a.grid_on == b.grid_on
    &&& a.vectors_on == b.vectors_on
    &&& a.is_paused == b.is_paused
    &&& a.c_val == b.c_val
    &&& a.g_val == b.g_val
    &&& a.k_val == b.k_val
    &&& a.d_val == b.d_val
    &&& a.width == b.width
    &&& a.height == b.height
}

/// Applies the enabled pairwise laws to one pair.
fn interact_exec(a: &mut Particle, b: &mut Particle, p: &SysParams)
    requires
        old(a).wf(),
        old(b).wf(),
        p.settings_wf(),
    ensures
        (*final(a), *final(b)) == interact(*old(a), *old(b), *p),
        final(a).wf(),
        final(b).wf(),
{
    if p.gravity_on {
        calc_gravity(a, b, p.g_val);
    }
    if p.elec_on {
        calc_coloumb(a, b, p.k_val);
    }
    if p.collisions_on {
        if collision_detected(a, b) {
            calc_collision(a, b);
        }
    }
}

/// Applies the per-body laws to one body.
fn settle_exec(b: &mut Particle, p: &SysParams)
    requires
        old(b).wf(),
        p.settings_wf(),
    ensures
        *final(b) == settle(*old(b), *p),
        final(b).wf(),
{
    if p.damping_on {
        calc_damping(b, p.d_val);
    }
    recalc_position(b, p.c_val);
    calc_wall_collision(b, p.width, p.height);
}

/// Advances the session by one tick, unless it is paused: every unordered
/// pair of bodies interacts once, then every body is damped, integrated and
/// contained.
pub fn step_system(p: &mut SysParams)
    requires
        old(p).wf(),
    ensures
        final(p).coll@ == (if old(p).is_paused {
            old(p).coll@
        } else {
            stepped(old(p).coll@, *old(p))
        }),
        same_settings(*final(p), *old(p)),
        final(p).wf(),
{
    if p.is_paused {
        return;
    }
    let ghost cfg: SysParams = *p;
    let ghost s0 = p.coll@;
    let n = p.coll.len();
    let mut i: usize = 0;
    while i < n
        invariant
            n == s0.len(),
            i <= n,
            p.coll@.len() == n,
            p.coll@ == sweep(s0, cfg, i as int),
            all_wf(p.coll@),
            p.settings_wf(),
            same_settings(*p, cfg),
        decreases n - i,
    {
        let ghost row_start = p.coll@;
        let mut j: usize = i + 1;
        while j < n
            invariant
                n == s0.len(),
                i < n,
                i + 1 <= j <= n,
                p.coll@.len() == n,
                p.coll@ == sweep_row(row_start, cfg, i as int, j as int),
                row_start == sweep(s0, cfg, i as int),
                all_wf(p.coll@),
                p.settings_wf(),
                same_settings(*p, cfg),
            decreases n - j,
        {
            let mut a = p.coll[i];
            let mut b = p.coll[j];
            interact_exec(&mut a, &mut b, p);
            p.coll.set(i, a);
            p.coll.set(j, b);
            j = j + 1;
        }
        i = i + 1;
    }
    let ghost mid = p.coll@;
    let mut k: usize = 0;
    while k < n
        invariant
            k <= n,
            mid.len() == n,
            p.coll@.len() == n,
            all_wf(mid),
            all_wf(p.coll@),
            forall|m: int| 0 <= m < k ==> p.coll@[m] == settle(#[trigger] mid[m], cfg),
            forall|m: int| k <= m < n ==> p.coll@[m] == mid[m],
            p.settings_wf(),
            same_settings(*p, cfg),
        decreases n - k,
    {
        let mut b = p.coll[k];
        settle_exec(&mut b, p);
        p.coll.set(k, b);
        k = k + 1;
    }
    assert(p.coll@ =~= mid.map_values(|b: Particle| settle(b, cfg)));
}

/// A probe after feeling the enabled long-range forces of the first `k`
/// bodies of `s`, each acting on it as the first body of the pair. The
/// bodies themselves are not changed.
pub open spec fn probed(s: Seq<Particle>, p: SysParams, probe: Particle, k: int) -> Particle
    decreases k,
{
    if k <= 0 {
        probe
    } else {
        let q = probed(s, p, probe, k - 1);
        let g = if p.gravity_on {
            gravity_pair(s[k - 1], q, p.g_val as int).1
        } else {
            q
        };
        if p.elec_on {
            coulomb_pair(s[k - 1], g, p.k_val as int).1
        } else {
            g
        }
    }
}

/// The velocity that a unit-mass, unit-charge probe at rest at `(x, y)`
/// picks up from every body's gravity and Coulomb force in one tick: the
/// direction of the force field there. The session is left unchanged.
pub fn field_probe(p: &SysParams, x: i64, y: i64) -> (r: Particle)
    requires
        p.wf(),
        -POS_MAX <= x <= POS_MAX,
        -POS_MAX <= y <= POS_MAX,
    ensures
        r == probed(
            p.coll@,
            *p,
            Particle {
                mass: 1,
                radius: 1,
                pos_x: x,
                pos_y: y,
                vel_x: 0,
                vel_y: 0,
                charge: 1,
                drag_detect: false,
            },
            p.coll@.len() as int,
        ),
{
    let ghost probe0 = Particle {
        mass: 1,
        radius: 1,
        pos_x: x,
        pos_y: y,
        vel_x: 0,
        vel_y: 0,
        charge: 1,
        drag_detect: false,
    };
    let mut probe = Particle {
        mass: 1,
        radius: 1,
        pos_x: x,
        pos_y: y,
        vel_x: 0,
        vel_y: 0,
        charge: 1,
        drag_detect: false,
    };
    let n = p.coll.len();
    let mut k: usize = 0;
    while k < n
        invariant
            k <= n,
            n == p.coll@.len(),
            p.wf(),
            probe.wf(),
            probe == probed(p.coll@, *p, probe0, k as int),
        decreases n - k,
    {
        let mut b = p.coll[k];
        proof {
            assert(p.coll@[k as int].wf());
        }
        if p.gravity_on {
            calc_gravity(&mut b, &mut probe, p.g_val);
        }
        let mut c = p.coll[k];
        if p.elec_on {
            calc_coloumb(&mut c, &mut probe, p.k_val);
        }
        k = k + 1;
    }
    probe
}

} // verus!
