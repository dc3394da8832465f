//! The pairwise force laws, collision detection and resolution, and the
//! single-body damping, integration and wall reflection.
use vstd::prelude::*;
use vstd::math::abs;
use vstd::arithmetic::div_mod::{lemma_fundamental_div_mod, lemma_mod_pos_bound};
use crate::arith::{
    lemma_isqrt, lemma_trunc_div_neg, SQRT_ARG_MAX, ceil_sqrt, ceil_sqrt_exec, div_trunc, isqrt, isqrt_exec, lemma_ceil_sqrt, lemma_mul_bound,
    lemma_mul_pos, lemma_trunc_div_bound, saturate, saturate_exec, trunc_div,
};
use crate::models::{Particle, COEF_MAX, DAMPING_DENOM, MASS_MAX, POS_MAX, VEL_MAX};

verus! {

/// Horizontal offset of `a` from `b`.
pub open spec fn sep_x(a: Particle, b: Particle) -> int {
    a.pos_x - b.pos_x
}

/// Vertical offset of `a` from `b`.
pub open spec fn sep_y(a: Particle, b: Particle) -> int {
    a.pos_y - b.pos_y
}

/// Squared distance between the centres.
pub open spec fn dist_sq(a: Particle, b: Particle) -> int {
    sep_x(a, b) * sep_x(a, b) + sep_y(a, b) * sep_y(a, b)
}

/// Squared distances below this bound (`2^42`) get the cube of their
/// distance exactly, rounded down.
pub const EXACT_CUBE_R2: i128 = 0x400_0000_0000;

/// Cube of the centre distance, `r³`, with `r²` floored at one square unit
/// so that coincident centres never divide by zero. Below `EXACT_CUBE_R2`
/// it is `⌊r³⌋ = ⌊√(r²·r²·r²)⌋`; above, `r² · ⌊r⌋`, which then lies within a
/// relative `2^-21` of `r³`.
pub open spec fn dist_cubed(r2: int) -> int {
    let f = if r2 < 1 {
        1
    } else {
        r2
    };
    if f < EXACT_CUBE_R2 {
        isqrt((f * f * f) as nat) as int
    } else {
        f * isqrt(f as nat)
    }
}

/// The velocity with its components saturated at `VEL_MAX`.
pub open spec fn with_vel(p: Particle, vx: int, vy: int) -> Particle {
    Particle {
        vel_x: saturate(vx, VEL_MAX as int) as i64,
        vel_y: saturate(vy, VEL_MAX as int) as i64,
        ..p
    }
}

/// The position with its components saturated at `POS_MAX`.
pub open spec fn with_pos(p: Particle, x: int, y: int) -> Particle {
    Particle {
        pos_x: saturate(x, POS_MAX as int) as i64,
        pos_y: saturate(y, POS_MAX as int) as i64,
        ..p
    }
}

/// Numerators below this magnitude (`2^63`) can be squared exactly.
pub const EXACT_NUM_MAX: i128 = 0x8000_0000_0000_0000;

/// `r²` floored at one square unit.
pub open spec fn floored(r2: int) -> int {
    if r2 < 1 {
        1
    } else {
        r2
    }
}

/// `n / (m · r³)` can be rounded exactly with 128-bit arithmetic: `n²` and
/// `m² · r⁶` both stay within `SQRT_ARG_MAX`.
pub open spec fn cube_exact(n: int, m: int, r2: int) -> bool {
    let f = floored(r2);
    &&& f < EXACT_CUBE_R2
    &&& -EXACT_NUM_MAX < n < EXACT_NUM_MAX
    &&& f * f * f <= (SQRT_ARG_MAX as int) / (m * m)
}

/// `n / (m · r³)` rounded toward zero, where `r = √r2` (with `r²` floored at
/// one square unit). Where `cube_exact` holds this is exact:
/// `⌊|n| / (m · r³)⌋ = ⌊√(n² / (m² · r⁶))⌋` with the sign of `n`. Elsewhere
/// it divides by `m · dist_cubed(r2)`, which only happens for offsets or
/// constants near the bounds of `models`.
pub open spec fn inverse_cube(n: int, m: int, r2: int) -> int {
    let f = floored(r2);
    if cube_exact(n, m, r2) {
        let k = isqrt(((n * n) / (m * m * (f * f * f))) as nat) as int;
        if n >= 0 {
            k
        } else {
            -k
        }
    } else {
        trunc_div(n, m * dist_cubed(r2))
    }
}

/// Gravity's kick on a body along one axis: `g · m / r² · (d / r)`, where
/// `m` is the other body's mass and `d` the offset along the axis, rounded
/// toward zero. A kick below one velocity unit rounds to zero.
pub open spec fn gravity_kick(g: int, m: int, d: int, r2: int) -> int {
    inverse_cube(g * m * d, 1, r2)
}

/// Both bodies after one gravity interaction: `a` is drawn toward `b` and
/// `b` toward `a`.
pub open spec fn gravity_pair(a: Particle, b: Particle, g: int) -> (Particle, Particle) {
    let r2 = dist_sq(a, b);
    (
        with_vel(
            a,
            a.vel_x - gravity_kick(g, b.mass as int, sep_x(a, b), r2),
            a.vel_y - gravity_kick(g, b.mass as int, sep_y(a, b), r2),
        ),
        with_vel(
            b,
            b.vel_x + gravity_kick(g, a.mass as int, sep_x(a, b), r2),
            b.vel_y + gravity_kick(g, a.mass as int, sep_y(a, b), r2),
        ),
    )
}

/// Coulomb's kick on a body of mass `m` along one axis:
/// `k · q / (m · r²) · (d / r)`, where `q` is the product of the charges,
/// rounded toward zero. A kick below one velocity unit rounds to zero.
pub open spec fn coulomb_kick(k: int, q: int, m: int, d: int, r2: int) -> int {
    inverse_cube(k * q * d, m, r2)
}

/// Both bodies after one Coulomb interaction: like charges push apart,
/// unlike charges pull together.
pub open spec fn coulomb_pair(a: Particle, b: Particle, k: int) -> (Particle, Particle) {
    let r2 = dist_sq(a, b);
    let q = a.charge * b.charge;
    (
        with_vel(
            a,
            a.vel_x + coulomb_kick(k, q, a.mass as int, sep_x(a, b), r2),
            a.vel_y + coulomb_kick(k, q, a.mass as int, sep_y(a, b), r2),
        ),
        with_vel(
            b,
            b.vel_x - coulomb_kick(k, q, b.mass as int, sep_x(a, b), r2),
            b.vel_y - coulomb_kick(k, q, b.mass as int, sep_y(a, b), r2),
        ),
    )
}

/// Facts on the offsets and distance of two well-formed bodies.
proof fn lemma_geometry(a: Particle, b: Particle)
    requires
        a.wf(),
        b.wf(),
    ensures
        -0x8000_0000 <= sep_x(a, b) <= 0x8000_0000,
        -0x8000_0000 <= sep_y(a, b) <= 0x8000_0000,
        0 <= sep_x(a, b) * sep_x(a, b) <= 0x4000_0000_0000_0000,
        0 <= sep_y(a, b) * sep_y(a, b) <= 0x4000_0000_0000_0000,
        0 <= dist_sq(a, b) <= 0x8000_0000_0000_0000,
{
    lemma_mul_bound(sep_x(a, b), sep_x(a, b), 0x8000_0000, 0x8000_0000);
    lemma_mul_bound(sep_y(a, b), sep_y(a, b), 0x8000_0000, 0x8000_0000);
    assert(sep_x(a, b) * sep_x(a, b) >= 0) by (nonlinear_arith);
    assert(sep_y(a, b) * sep_y(a, b) >= 0) by (nonlinear_arith);
}

/// The cube of a distance is at least one unit.
pub proof fn lemma_dist_cubed_pos(r2: int)
    ensures
        dist_cubed(r2) >= 1,
{
    let f = if r2 < 1 {
        1
    } else {
        r2
    };
    if f < EXACT_CUBE_R2 {
        assert(f * f * f >= 1) by (nonlinear_arith)
            requires
                f >= 1,
        {
        }
        lemma_isqrt((f * f * f) as nat);
        let c = isqrt((f * f * f) as nat);
        assert(c >= 1) by (nonlinear_arith)
            requires
                f * f * f < (c + 1) * (c + 1),
                f * f * f >= 1,
        {
        }
    } else {
        lemma_isqrt(f as nat);
        let c = isqrt(f as nat);
        assert(f * c >= 1) by (nonlinear_arith)
            requires
                f < (c + 1) * (c + 1),
                f >= 1,
        {
        }
    }
}

/// A change `delta` follows the sign of `d`: it is non-negative when `d` is
/// positive, non-positive when `d` is negative, and zero when `d` is zero.
pub open spec fn follows(delta: int, d: int) -> bool {
    &&& d > 0 ==> delta >= 0
    &&& d < 0 ==> delta <= 0
    &&& d == 0 ==> delta == 0
}

/// The velocity of `after` differs from that of `before` along the offset
/// `(dx, dy)` or not at all, axis by axis.
pub open spec fn kicked_along(before: Particle, after: Particle, dx: int, dy: int) -> bool {
    &&& follows(after.vel_x - before.vel_x, dx)
    &&& follows(after.vel_y - before.vel_y, dy)
}

proof fn lemma_kick_follows(c: int, d: int, m: int, r2: int)
    requires
        m >= 1,
    ensures
        c >= 0 ==> follows(inverse_cube(c * d, m, r2), d),
        c <= 0 ==> follows(inverse_cube(c * d, m, r2), -d),
{
    let n = c * d;
    assert(c >= 0 && d > 0 ==> n >= 0) by (nonlinear_arith)
        requires
            n == c * d,
    {
    }
    assert(c >= 0 && d < 0 ==> n <= 0) by (nonlinear_arith)
        requires
            n == c * d,
    {
    }
    assert(c <= 0 && d > 0 ==> n <= 0) by (nonlinear_arith)
        requires
            n == c * d,
    {
    }
    assert(c <= 0 && d < 0 ==> n >= 0) by (nonlinear_arith)
        requires
            n == c * d,
    {
    }
    assert(d == 0 ==> n == 0) by (nonlinear_arith)
        requires
            n == c * d,
    {
    }
    lemma_inverse_cube(n, m, r2);
}

proof fn lemma_saturated_follows(v: int, k: int, d: int)
    requires
        -VEL_MAX <= v <= VEL_MAX,
        follows(k, d),
    ensures
        follows(saturate(v + k, VEL_MAX as int) - v, d),
{
}

/// Gravity with `G ≥ 0` never repels: each body's velocity changes toward
/// the other body on every axis, or not at all.
pub proof fn lemma_gravity_attracts(a: Particle, b: Particle, g: int)
    requires
        a.wf(),
        b.wf(),
        g >= 0,
    ensures
        kicked_along(a, gravity_pair(a, b, g).0, -sep_x(a, b), -sep_y(a, b)),
        kicked_along(b, gravity_pair(a, b, g).1, sep_x(a, b), sep_y(a, b)),
{
    let r2 = dist_sq(a, b);
    lemma_dist_cubed_pos(r2);
    assert(g * a.mass >= 0 && g * b.mass >= 0) by (nonlinear_arith)
        requires
            g >= 0,
            a.mass >= 1,
            b.mass >= 1,
    {
    }
    lemma_kick_follows(g * b.mass, sep_x(a, b), 1, r2);
    lemma_kick_follows(g * b.mass, sep_y(a, b), 1, r2);
    lemma_kick_follows(g * a.mass, sep_x(a, b), 1, r2);
    lemma_kick_follows(g * a.mass, sep_y(a, b), 1, r2);
    let kax = gravity_kick(g, b.mass as int, sep_x(a, b), r2);
    let kay = gravity_kick(g, b.mass as int, sep_y(a, b), r2);
    lemma_saturated_follows(a.vel_x as int, -kax, -sep_x(a, b));
    lemma_saturated_follows(a.vel_y as int, -kay, -sep_y(a, b));
    lemma_saturated_follows(b.vel_x as int, gravity_kick(g, a.mass as int, sep_x(a, b), r2), sep_x(a, b));
    lemma_saturated_follows(b.vel_y as int, gravity_kick(g, a.mass as int, sep_y(a, b), r2), sep_y(a, b));
}

/// The Coulomb law with `K ≥ 0` never attracts like charges nor repels
/// unlike ones: for like charges each body's velocity changes away from the
/// other on every axis, or not at all; for unlike charges toward it; with an
/// uncharged body nothing changes. A change smaller than one velocity unit
/// rounds to zero, so weak forces may leave the velocities as they are.
pub proof fn lemma_coulomb_signs(a: Particle, b: Particle, k: int)
    requires
        a.wf(),
        b.wf(),
        k >= 0,
    ensures
        a.charge * b.charge > 0 ==> kicked_along(a, coulomb_pair(a, b, k).0, sep_x(a, b), sep_y(a, b))
            && kicked_along(b, coulomb_pair(a, b, k).1, -sep_x(a, b), -sep_y(a, b)),
        a.charge * b.charge < 0 ==> kicked_along(a, coulomb_pair(a, b, k).0, -sep_x(a, b), -sep_y(a, b))
            && kicked_along(b, coulomb_pair(a, b, k).1, sep_x(a, b), sep_y(a, b)),
        a.charge * b.charge == 0 ==> coulomb_pair(a, b, k) == (a, b),
{
    let r2 = dist_sq(a, b);
    let q = a.charge * b.charge;
    lemma_dist_cubed_pos(r2);
    let dc = dist_cubed(r2);
    assert(a.mass * dc >= 1 && b.mass * dc >= 1) by (nonlinear_arith)
        requires
            a.mass >= 1,
            b.mass >= 1,
            dc >= 1,
    {
    }
    assert(q > 0 ==> k * q >= 0) by (nonlinear_arith)
        requires
            k >= 0,
    {
    }
    assert(q < 0 ==> k * q <= 0) by (nonlinear_arith)
        requires
            k >= 0,
    {
    }
    assert(q == 0 ==> k * q == 0) by (nonlinear_arith);
    let dx = sep_x(a, b);
    let dy = sep_y(a, b);
    lemma_kick_follows(k * q, dx, a.mass as int, r2);
    lemma_kick_follows(k * q, dy, a.mass as int, r2);
    lemma_kick_follows(k * q, dx, b.mass as int, r2);
    lemma_kick_follows(k * q, dy, b.mass as int, r2);
    let kax = coulomb_kick(k, q, a.mass as int, dx, r2);
    let kay = coulomb_kick(k, q, a.mass as int, dy, r2);
    let kbx = coulomb_kick(k, q, b.mass as int, dx, r2);
    let kby = coulomb_kick(k, q, b.mass as int, dy, r2);
    if q > 0 {
        lemma_saturated_follows(a.vel_x as int, kax, dx);
        lemma_saturated_follows(a.vel_y as int, kay, dy);
        lemma_saturated_follows(b.vel_x as int, -kbx, -dx);
        lemma_saturated_follows(b.vel_y as int, -kby, -dy);
    } else if q < 0 {
        lemma_saturated_follows(a.vel_x as int, kax, -dx);
        lemma_saturated_follows(a.vel_y as int, kay, -dy);
        lemma_saturated_follows(b.vel_x as int, -kbx, dx);
        lemma_saturated_follows(b.vel_y as int, -kby, dy);
    } else {
        assert(k * q * dx == 0 && k * q * dy == 0) by (nonlinear_arith)
            requires
                k * q == 0,
        {
        }
        lemma_inverse_cube(0, a.mass as int, r2);
        lemma_inverse_cube(0, b.mass as int, r2);
    }
}

/// With an uncharged body the Coulomb law changes nothing, whatever `K`.
proof fn lemma_coulomb_uncharged(a: Particle, b: Particle, k: int)
    requires
        a.wf(),
        b.wf(),
    ensures
        a.charge * b.charge == 0 ==> coulomb_pair(a, b, k) == (a, b),
{
    let q = a.charge * b.charge;
    if q == 0 {
        let r2 = dist_sq(a, b);
        lemma_dist_cubed_pos(r2);
        let dc = dist_cubed(r2);
        assert(a.mass * dc >= 1 && b.mass * dc >= 1) by (nonlinear_arith)
            requires
                a.mass >= 1,
                b.mass >= 1,
                dc >= 1,
        {
        }
        assert(k * q * sep_x(a, b) == 0 && k * q * sep_y(a, b) == 0) by (nonlinear_arith)
            requires
                q == 0,
        {
        }
        lemma_inverse_cube(0, a.mass as int, r2);
        lemma_inverse_cube(0, b.mass as int, r2);
    }
}

/// Facts on `inverse_cube`: it has the sign of `n`, is no larger than `n`,
/// is odd in `n`, and where `cube_exact` holds its magnitude `k` is the exact
/// quotient rounded down: `k · m · r³ <= |n| < (k + 1) · m · r³`, squared.
pub proof fn lemma_inverse_cube(n: int, m: int, r2: int)
    requires
        m >= 1,
    ensures
        n >= 0 ==> 0 <= inverse_cube(n, m, r2) <= n,
        n <= 0 ==> n <= inverse_cube(n, m, r2) <= 0,
        inverse_cube(-n, m, r2) == -inverse_cube(n, m, r2),
        cube_exact(n, m, r2) ==> ({
            let k = abs(inverse_cube(n, m, r2)) as int;
            let f = floored(r2);
            &&& k * k * (m * m * (f * f * f)) <= n * n
            &&& n * n < (k + 1) * (k + 1) * (m * m * (f * f * f))
        }),
{
    let f = floored(r2);
    lemma_dist_cubed_pos(r2);
    let dc = dist_cubed(r2);
    assert(m * dc >= 1) by (nonlinear_arith)
        requires
            m >= 1,
            dc >= 1,
    {
    }
    assert((-n) * (-n) == n * n) by (nonlinear_arith);
    assert(cube_exact(-n, m, r2) == cube_exact(n, m, r2));
    if cube_exact(n, m, r2) {
        let den = m * m * (f * f * f);
        assert(den >= 1 && n * n >= 0) by (nonlinear_arith)
            requires
                m >= 1,
                f >= 1,
                den == m * m * (f * f * f),
        {
        }
        let h = (n * n) / den;
        lemma_fundamental_div_mod(n * n, den);
        lemma_mod_pos_bound(n * n, den);
        assert(h * den <= n * n < (h + 1) * den && 0 <= h <= n * n) by (nonlinear_arith)
            requires
                n * n == den * h + (n * n) % den,
                0 <= (n * n) % den < den,
                den >= 1,
                n * n >= 0,
        {
        }
        lemma_isqrt(h as nat);
        let k = isqrt(h as nat) as int;
        assert(k * k * den <= n * n && n * n < (k + 1) * (k + 1) * den) by (nonlinear_arith)
            requires
                k * k <= h,
                h < (k + 1) * (k + 1),
                h * den <= n * n < (h + 1) * den,
                den >= 1,
                k >= 0,
        {
        }
        assert(k <= abs(n)) by (nonlinear_arith)
            requires
                k * k <= h,
                h <= n * n,
                k >= 0,
        {
        }
    } else {
        lemma_trunc_div_bound(n, m * dc, abs(n) as int);
        lemma_trunc_div_neg(n, m * dc);
    }
}

/// Computes `inverse_cube(n, m, r2)`.
fn inverse_cube_exec(n: i128, m: i128, r2: i128) -> (r: i128)
    requires
        1 <= m <= MASS_MAX,
        0 <= r2 <= 0x8000_0000_0000_0000,
        -0x80_0000_0000_0000_0000_0000_0000_0000 <= n <= 0x80_0000_0000_0000_0000_0000_0000_0000,
    ensures
        r == inverse_cube(n as int, m as int, r2 as int),
        -0x80_0000_0000_0000_0000_0000_0000_0000 <= r <= 0x80_0000_0000_0000_0000_0000_0000_0000,
{
    proof {
        lemma_inverse_cube(n as int, m as int, r2 as int);
    }
    let f: i128 = if r2 < 1 {
        1
    } else {
        r2
    };
    if f < EXACT_CUBE_R2 && -EXACT_NUM_MAX < n && n < EXACT_NUM_MAX {
        assert(1 <= f * f <= 0x10_0000_0000_0000_0000_0000) by (nonlinear_arith)
            requires
                1 <= f <= 0x400_0000_0000,
        {
        }
        assert(1 <= (f * f) * f <= 0x4000_0000_0000_0000_0000_0000_0000_0000) by (nonlinear_arith)
            requires
                1 <= f <= 0x400_0000_0000,
                1 <= f * f <= 0x10_0000_0000_0000_0000_0000,
        {
        }
        assert(1 <= m * m <= 0x1_0000_0000_0000) by (nonlinear_arith)
            requires
                1 <= m <= 0x100_0000,
        {
        }
        let f3: u128 = (f * f * f) as u128;
        let m2: u128 = (m * m) as u128;
        if f3 <= SQRT_ARG_MAX / m2 {
            proof {
                lemma_fundamental_div_mod(SQRT_ARG_MAX as int, m2 as int);
                lemma_mod_pos_bound(SQRT_ARG_MAX as int, m2 as int);
                let a = SQRT_ARG_MAX as int;
                assert(m2 * f3 <= a) by (nonlinear_arith)
                    requires
                        f3 <= a / (m2 as int),
                        a == (m2 as int) * (a / (m2 as int)) + a % (m2 as int),
                        0 <= a % (m2 as int),
                        m2 >= 1,
                {
                }
                assert(n * n < 0x4000_0000_0000_0000_0000_0000_0000_0000) by (nonlinear_arith)
                    requires
                        -0x8000_0000_0000_0000 < n < 0x8000_0000_0000_0000,
                {
                }
                assert(n * n >= 0) by (nonlinear_arith);
                lemma_mul_pos(m2 as int, f3 as int);
            }
            let den: u128 = m2 * f3;
            let nn: u128 = (n * n) as u128;
            let k = isqrt_exec(nn / den) as i128;
            proof {
                assert(f3 as int == f * f * f && m2 as int == m * m);
                assert(cube_exact(n as int, m as int, r2 as int));
            }
            return if n >= 0 {
                k
            } else {
                -k
            };
        }
    }
    let dc = dist_cubed_exec(r2);
    proof {
        lemma_mul_bound(m as int, dc as int, 0x100_0000, 0x8000_0000_0000_0000_0000_0000);
        lemma_mul_pos(m as int, dc as int);
    }
    div_trunc(n, m * dc)
}

/// Computes `dist_cubed(r2)` for a squared distance of two bodies.
fn dist_cubed_exec(r2: i128) -> (r: i128)
    requires
        0 <= r2 <= 0x8000_0000_0000_0000,
    ensures
        r == dist_cubed(r2 as int),
        1 <= r <= 0x8000_0000_0000_0000_0000_0000,
{
    let f: i128 = if r2 < 1 {
        1
    } else {
        r2
    };
    if f < EXACT_CUBE_R2 {
        assert(1 <= f * f <= 0x10_0000_0000_0000_0000_0000) by (nonlinear_arith)
            requires
                1 <= f <= 0x400_0000_0000,
        {
        }
        assert(1 <= (f * f) * f <= 0x4000_0000_0000_0000_0000_0000_0000_0000) by (nonlinear_arith)
            requires
                1 <= f <= 0x400_0000_0000,
                1 <= f * f <= 0x10_0000_0000_0000_0000_0000,
        {
        }
        let c = isqrt_exec((f * f * f) as u128);
        assert(1 <= c <= 0x8000_0000_0000_0000) by (nonlinear_arith)
            requires
                c * c <= f * f * f,
                f * f * f < (c + 1) * (c + 1),
                1 <= f * f * f,
                c <= 0x8000_0000_0000_0000,
        {
        }
        c as i128
    } else {
        let s = isqrt_exec(f as u128);
        assert(1 <= s <= 0x1_0000_0000) by (nonlinear_arith)
            requires
                s * s <= f,
                f < (s + 1) * (s + 1),
                1 <= f <= 0x8000_0000_0000_0000,
        {
        }
        assert(1 <= f * s <= 0x8000_0000_0000_0000_0000_0000) by (nonlinear_arith)
            requires
                1 <= s <= 0x1_0000_0000,
                1 <= f <= 0x8000_0000_0000_0000,
        {
        }
        f * (s as i128)
    }
}

/// Applies Newtonian gravity to a pair: each body's velocity changes by
/// `G · m_other / r²` along the line of centres, toward the other body.
/// Each component is rounded toward zero (exactly, see `inverse_cube`), so
/// a pull weaker than one velocity unit per tick leaves it unchanged; with
/// `G ≥ 0` no body is ever pushed away.
pub fn calc_gravity(e1: &mut Particle, e2: &mut Particle, g: i64)
    requires
        old(e1).wf(),
        old(e2).wf(),
        -COEF_MAX <= g <= COEF_MAX,
    ensures
        (*final(e1), *final(e2)) == gravity_pair(*old(e1), *old(e2), g as int),
        final(e1).wf(),
        final(e2).wf(),
        g >= 0 ==> kicked_along(*old(e1), *final(e1), -sep_x(*old(e1), *old(e2)), -sep_y(
            *old(e1),
            *old(e2),
        )) && kicked_along(*old(e2), *final(e2), sep_x(*old(e1), *old(e2)), sep_y(*old(e1), *old(e2))),
{
    proof {
        if g >= 0 {
            lemma_gravity_attracts(*e1, *e2, g as int);
        }
        lemma_geometry(*e1, *e2);
    }
    let dx: i128 = e1.pos_x as i128 - e2.pos_x as i128;
    let dy: i128 = e1.pos_y as i128 - e2.pos_y as i128;
    let r2: i128 = dx * dx + dy * dy;
    proof {
        lemma_mul_bound(g as int, e1.mass as int, 0x100_0000_0000, 0x100_0000);
        lemma_mul_bound(g as int, e2.mass as int, 0x100_0000_0000, 0x100_0000);
    }
    let g1: i128 = (g as i128) * (e1.mass as i128);
    let g2: i128 = (g as i128) * (e2.mass as i128);
    proof {
        lemma_mul_bound(g1 as int, dx as int, 0x1_0000_0000_0000_0000, 0x8000_0000);
        lemma_mul_bound(g1 as int, dy as int, 0x1_0000_0000_0000_0000, 0x8000_0000);
        lemma_mul_bound(g2 as int, dx as int, 0x1_0000_0000_0000_0000, 0x8000_0000);
        lemma_mul_bound(g2 as int, dy as int, 0x1_0000_0000_0000_0000, 0x8000_0000);
    }
    let ax = inverse_cube_exec(g2 * dx, 1, r2);
    let ay = inverse_cube_exec(g2 * dy, 1, r2);
    let bx = inverse_cube_exec(g1 * dx, 1, r2);
    let by = inverse_cube_exec(g1 * dy, 1, r2);
    e1.vel_x = saturate_exec(e1.vel_x as i128 - ax, VEL_MAX);
    e1.vel_y = saturate_exec(e1.vel_y as i128 - ay, VEL_MAX);
    e2.vel_x = saturate_exec(e2.vel_x as i128 + bx, VEL_MAX);
    e2.vel_y = saturate_exec(e2.vel_y as i128 + by, VEL_MAX);
}

/// Applies the Coulomb force to a pair: each body's velocity changes by
/// `K · q_a · q_b / (m · r²)` along the line of centres, away from the other
/// body for like charges. Each component is rounded toward zero (exactly,
/// see `inverse_cube`): a force weaker than one velocity unit per tick
/// leaves the velocity unchanged, and with `K ≥ 0` like charges never
/// attract nor unlike ones repel.
pub fn calc_coloumb(e1: &mut Particle, e2: &mut Particle, k: i64)
    requires
        old(e1).wf(),
        old(e2).wf(),
        -COEF_MAX <= k <= COEF_MAX,
    ensures
        (*final(e1), *final(e2)) == coulomb_pair(*old(e1), *old(e2), k as int),
        final(e1).wf(),
        final(e2).wf(),
        k >= 0 && old(e1).charge * old(e2).charge > 0 ==> kicked_along(
            *old(e1),
            *final(e1),
            sep_x(*old(e1), *old(e2)),
            sep_y(*old(e1), *old(e2)),
        ) && kicked_along(*old(e2), *final(e2), -sep_x(*old(e1), *old(e2)), -sep_y(*old(e1), *old(e2))),
        k >= 0 && old(e1).charge * old(e2).charge < 0 ==> kicked_along(
            *old(e1),
            *final(e1),
            -sep_x(*old(e1), *old(e2)),
            -sep_y(*old(e1), *old(e2)),
        ) && kicked_along(*old(e2), *final(e2), sep_x(*old(e1), *old(e2)), sep_y(*old(e1), *old(e2))),
        old(e1).charge * old(e2).charge == 0 ==> *final(e1) == *old(e1) && *final(e2) == *old(e2),
{
    proof {
        if k >= 0 {
            lemma_coulomb_signs(*e1, *e2, k as int);
        } else {
            lemma_coulomb_signs(*e1, *e2, 0);
            lemma_coulomb_uncharged(*e1, *e2, k as int);
        }
        lemma_geometry(*e1, *e2);
    }
    let dx: i128 = e1.pos_x as i128 - e2.pos_x as i128;
    let dy: i128 = e1.pos_y as i128 - e2.pos_y as i128;
    let r2: i128 = dx * dx + dy * dy;
    proof {
        lemma_mul_bound(e1.charge as int, e2.charge as int, 0x100_0000, 0x100_0000);
    }
    let q: i128 = (e1.charge as i128) * (e2.charge as i128);
    proof {
        lemma_mul_bound(k as int, q as int, 0x100_0000_0000, 0x1_0000_0000_0000);
    }
    let kq: i128 = (k as i128) * q;
    proof {
        let m: int = 0x100_0000_0000_0000_0000_0000int;
        lemma_mul_bound(kq as int, dx as int, m, 0x8000_0000);
        lemma_mul_bound(kq as int, dy as int, m, 0x8000_0000);
    }
    let ax = inverse_cube_exec(kq * dx, e1.mass as i128, r2);
    let ay = inverse_cube_exec(kq * dy, e1.mass as i128, r2);
    let bx = inverse_cube_exec(kq * dx, e2.mass as i128, r2);
    let by = inverse_cube_exec(kq * dy, e2.mass as i128, r2);
    e1.vel_x = saturate_exec(e1.vel_x as i128 + ax, VEL_MAX);
    e1.vel_y = saturate_exec(e1.vel_y as i128 + ay, VEL_MAX);
    e2.vel_x = saturate_exec(e2.vel_x as i128 - bx, VEL_MAX);
    e2.vel_y = saturate_exec(e2.vel_y as i128 - by, VEL_MAX);
}

/// The two bodies touch: the centre distance is at most the sum of the
/// radii. Tangent circles count as touching; no extra tolerance is added.
pub open spec fn touching(a: Particle, b: Particle) -> bool {
    dist_sq(a, b) <= (a.radius + b.radius) * (a.radius + b.radius)
}

/// Whether two bodies touch or overlap.
pub fn collision_detected(e1: &Particle, e2: &Particle) -> (r: bool)
    requires
        e1.wf(),
        e2.wf(),
    ensures
        r == touching(*e1, *e2),
{
    proof {
        lemma_geometry(*e1, *e2);
    }
    let dx: i128 = e1.pos_x as i128 - e2.pos_x as i128;
    let dy: i128 = e1.pos_y as i128 - e2.pos_y as i128;
    let reach: i128 = e1.radius as i128 + e2.radius as i128;
    proof {
        lemma_mul_bound(reach as int, reach as int, 0x2000_0000, 0x2000_0000);
    }
    dx * dx + dy * dy <= reach * reach
}

/// Floor of the squared distance used by the collision impulse,
/// `r_a² + r_b²`: it bounds the impulse as the centres come together, and
/// pairs at least that far apart collide perfectly elastically. The larger
/// floor `(r_a + r_b)²` was not chosen: it would damp every collision of
/// overlapping bodies, so that even a head-on pair of equal masses no longer
/// exchanged its velocities.
pub open spec fn impact_floor(a: Particle, b: Particle) -> int {
    a.radius * a.radius + b.radius * b.radius
}

/// The squared distance of the impulse formula, floored by `impact_floor`.
pub open spec fn impact_sq(a: Particle, b: Particle) -> int {
    if dist_sq(a, b) < impact_floor(a, b) {
        impact_floor(a, b)
    } else {
        dist_sq(a, b)
    }
}

/// Inner product of the offset `a - b` and the relative velocity `v_a - v_b`;
/// negative while the bodies approach.
pub open spec fn closing(a: Particle, b: Particle) -> int {
    sep_x(a, b) * (a.vel_x - b.vel_x) + sep_y(a, b) * (a.vel_y - b.vel_y)
}

/// Velocity change along one axis of an elastic collision for a body whose
/// partner has mass `m`: `2m / (m_a + m_b) · closing / r² · d`.
pub open spec fn bounce(m: int, a: Particle, b: Particle, d: int) -> int {
    trunc_div(2 * m * closing(a, b) * d, (a.mass + b.mass) * impact_sq(a, b))
}

/// How far the two discs overlap: sum of radii minus the centre distance
/// rounded up. Positive only while they interpenetrate by at least part of a
/// unit, so a push of at most this much never opens a gap.
pub open spec fn overlap(a: Particle, b: Particle) -> int {
    a.radius + b.radius - ceil_sqrt(dist_sq(a, b) as nat)
}

/// Diagonal de-penetration step for an overlap `o`: `o / √2` rounded down,
/// so that a push of this much on both axes covers at most `o`; zero when
/// there is no overlap.
pub open spec fn push_diag(o: int) -> int {
    if o > 0 {
        isqrt(((o * o) / 2) as nat) as int
    } else {
        0
    }
}

/// Horizontal de-penetration step: `push_diag(o)`, but at least one unit for
/// any positive overlap, so that every resolution makes progress.
pub open spec fn push_x(o: int) -> int {
    if o > 0 && push_diag(o) == 0 {
        1
    } else {
        push_diag(o)
    }
}

/// Both bodies after an elastic collision along the line of centres,
/// followed by de-penetration. The heavier body stays put: when `a` is
/// heavier, `b` is pushed horizontally away from it by `push_x`; otherwise
/// `a` is pushed away from `b` by `push_x` horizontally and `push_diag`
/// vertically. This is an approximation, not an exact separation: it
/// removes part of the overlap and never more than all of it.
pub open spec fn collision_pair(a: Particle, b: Particle) -> (Particle, Particle) {
    let a1 = with_vel(
        a,
        a.vel_x - bounce(b.mass as int, a, b, sep_x(a, b)),
        a.vel_y - bounce(b.mass as int, a, b, sep_y(a, b)),
    );
    let b1 = with_vel(
        b,
        b.vel_x + bounce(a.mass as int, a, b, sep_x(a, b)),
        b.vel_y + bounce(a.mass as int, a, b, sep_y(a, b)),
    );
    let px = push_x(overlap(a, b));
    let py = push_diag(overlap(a, b));
    if a.mass > b.mass {
        let x = if sep_x(a, b) < 0 {
            b.pos_x + px
        } else {
            b.pos_x - px
        };
        (a1, with_pos(b1, x, b.pos_y as int))
    } else {
        let x = if sep_x(a, b) < 0 {
            a.pos_x - px
        } else {
            a.pos_x + px
        };
        let y = if sep_y(a, b) < 0 {
            a.pos_y - py
        } else {
            a.pos_y + py
        };
        (with_pos(a1, x, y), b1)
    }
}

/// The de-penetration push keeps the moved body within `POS_MAX` without
/// saturating.
pub open spec fn push_in_range(a: Particle, b: Particle) -> bool {
    let px = push_x(overlap(a, b));
    let py = push_diag(overlap(a, b));
    if a.mass > b.mass {
        -POS_MAX <= b.pos_x - px && b.pos_x + px <= POS_MAX
    } else {
        &&& -POS_MAX <= a.pos_x - px && a.pos_x + px <= POS_MAX
        &&& -POS_MAX <= a.pos_y - py && a.pos_y + py <= POS_MAX
    }
}

/// Facts on the two pushes for a positive overlap.
pub proof fn lemma_push_bounds(o: int)
    requires
        o >= 1,
    ensures
        0 <= push_diag(o),
        2 * push_diag(o) * push_diag(o) <= o * o,
        1 <= push_x(o) <= o,
        push_x(o) == push_diag(o) || (push_x(o) == 1 && push_diag(o) == 0),
{
    let h = (o * o) / 2;
    assert(0 <= h && 2 * h <= o * o) by (nonlinear_arith)
        requires
            o >= 1,
            h == (o * o) / 2,
    {
    }
    lemma_isqrt(h as nat);
    let p = isqrt(h as nat) as int;
    assert(p <= o && 2 * p * p <= o * o) by (nonlinear_arith)
        requires
            p * p <= h,
            2 * h <= o * o,
            o >= 1,
            p >= 0,
    {
    }
}

/// A push that moves each offset component away from zero by at most
/// `(px, py)` keeps the squared distance between `r2` and `(c + o)²`, where
/// `c` bounds the distance from above and `o` is the overlap.
proof fn lemma_push_geometry(dx: int, dy: int, nx: int, ny: int, c: int, o: int, px: int, py: int)
    requires
        dx * dx + dy * dy <= c * c,
        c >= 0,
        o >= 1,
        px >= 0,
        py >= 0,
        (px == py && 2 * px * px <= o * o) || (py == 0 && px <= o),
        abs(dx) <= abs(nx) <= abs(dx) + px,
        abs(dy) <= abs(ny) <= abs(dy) + py,
    ensures
        dx * dx + dy * dy <= nx * nx + ny * ny <= (c + o) * (c + o),
{
    let ax = abs(dx) as int;
    let ay = abs(dy) as int;
    let bx = abs(nx) as int;
    let by = abs(ny) as int;
    assert(ax * ax == dx * dx && ay * ay == dy * dy && bx * bx == nx * nx && by * by == ny * ny)
        by (nonlinear_arith)
        requires
            ax == abs(dx),
            ay == abs(dy),
            bx == abs(nx),
            by == abs(ny),
    {
    }
    assert(ax * ax <= bx * bx <= (ax + px) * (ax + px)) by (nonlinear_arith)
        requires
            0 <= ax <= bx <= ax + px,
    {
    }
    assert(ay * ay <= by * by <= (ay + py) * (ay + py)) by (nonlinear_arith)
        requires
            0 <= ay <= by <= ay + py,
    {
    }
    assert(ax <= c && ay <= c) by (nonlinear_arith)
        requires
            ax * ax + ay * ay <= c * c,
            ax >= 0,
            ay >= 0,
            c >= 0,
    {
    }
    if px == py && 2 * px * px <= o * o {
        let p = px;
        assert((ax + ay) * (ax + ay) <= 2 * (c * c)) by (nonlinear_arith)
            requires
                ax * ax + ay * ay <= c * c,
        {
        }
        assert(p * (ax + ay) <= c * o) by (nonlinear_arith)
            requires
                (ax + ay) * (ax + ay) <= 2 * (c * c),
                2 * p * p <= o * o,
                p >= 0,
                ax >= 0,
                ay >= 0,
                c >= 0,
                o >= 1,
        {
        }
        assert((ax + p) * (ax + p) + (ay + p) * (ay + p) <= (c + o) * (c + o)) by (nonlinear_arith)
            requires
                ax * ax + ay * ay <= c * c,
                p * (ax + ay) <= c * o,
                2 * p * p <= o * o,
        {
        }
    } else {
        assert((ax + px) * (ax + px) + ay * ay <= (c + o) * (c + o)) by (nonlinear_arith)
            requires
                ax * ax + ay * ay <= c * c,
                0 <= ax <= c,
                0 <= px <= o,
                py == 0,
        {
        }
    }
}

/// De-penetration never opens a gap and never brings the pair closer: for an
/// overlapping pair the squared distance after resolution lies between the
/// old one and `(r_a + r_b)²`; it grows by at least one when the push does
/// not saturate. Without overlap the positions are left as they are.
pub proof fn lemma_collision_push(a: Particle, b: Particle)
    requires
        a.wf(),
        b.wf(),
    ensures
        overlap(a, b) > 0 ==> dist_sq(a, b) <= dist_sq(collision_pair(a, b).0, collision_pair(a, b).1)
            <= (a.radius + b.radius) * (a.radius + b.radius),
        overlap(a, b) > 0 && push_in_range(a, b) ==> dist_sq(a, b) + 1 <= dist_sq(
            collision_pair(a, b).0,
            collision_pair(a, b).1,
        ),
        overlap(a, b) <= 0 ==> dist_sq(collision_pair(a, b).0, collision_pair(a, b).1) == dist_sq(
            a,
            b,
        ),
        overlap(a, b) <= 0 ==> collision_pair(a, b).0.pos_x == a.pos_x && collision_pair(a, b).0.pos_y
            == a.pos_y && collision_pair(a, b).1.pos_x == b.pos_x && collision_pair(a, b).1.pos_y
            == b.pos_y,
{
    let r = collision_pair(a, b);
    let o = overlap(a, b);
    let dx = sep_x(a, b);
    let dy = sep_y(a, b);
    let q = dist_sq(a, b);
    let c = ceil_sqrt(q as nat) as int;
    assert(q >= 0) by (nonlinear_arith)
        requires
            q == dx * dx + dy * dy,
    {
    }
    lemma_ceil_sqrt(q as nat);
    if o > 0 {
        lemma_push_bounds(o);
        let px = push_x(o);
        let py = push_diag(o);
        let nx = sep_x(r.0, r.1);
        let ny = sep_y(r.0, r.1);
        if a.mass > b.mass {
            assert(ny == dy);
            lemma_push_geometry(dx, dy, nx, ny, c, o, px, 0);
            if push_in_range(a, b) {
                assert(abs(nx) == abs(dx) + px);
            }
        } else {
            lemma_push_geometry(dx, dy, nx, ny, c, o, px, py);
            if push_in_range(a, b) {
                assert(abs(nx) == abs(dx) + px);
            }
        }
        assert(c + o == a.radius + b.radius);
        if push_in_range(a, b) {
            let ax = abs(dx) as int;
            assert((ax + px) * (ax + px) >= ax * ax + 1) by (nonlinear_arith)
                requires
                    ax >= 0,
                    px >= 1,
            {
            }
            assert(ax * ax == dx * dx && (ax + px) * (ax + px) == nx * nx) by (nonlinear_arith)
                requires
                    ax == abs(dx),
                    abs(nx) == ax + px,
            {
            }
            assert(dy * dy <= ny * ny) by (nonlinear_arith)
                requires
                    abs(dy) <= abs(ny),
            {
            }
        }
    }
}

/// Computes the pushes `(push_x, push_diag)` of `overlap(a, b)` from the
/// reach `r_a + r_b` and the squared distance.
fn push_exec(reach: i128, r2: i128) -> (p: (i128, i128))
    requires
        2 <= reach <= 0x2000_0000,
        0 <= r2 <= 0x8000_0000_0000_0000,
    ensures
        p.0 == push_x(reach - ceil_sqrt(r2 as nat)),
        p.1 == push_diag(reach - ceil_sqrt(r2 as nat)),
        0 <= p.0 <= 0x2000_0000,
        0 <= p.1 <= 0x2000_0000,
{
    let d = ceil_sqrt_exec(r2 as u128);
    proof {
        lemma_ceil_sqrt(r2 as nat);
    }
    if d >= reach as u128 {
        return (0, 0);
    }
    let o: i128 = reach - d as i128;
    proof {
        lemma_push_bounds(o as int);
        lemma_mul_bound(o as int, o as int, 0x2000_0000, 0x2000_0000);
        assert(o * o >= 0) by (nonlinear_arith);
    }
    let half: u128 = ((o * o) / 2) as u128;
    let p = isqrt_exec(half) as i128;
    if p == 0 {
        (1, 0)
    } else {
        (p, p)
    }
}

/// Resolves a touching pair: exchanges momentum along the line of centres as
/// an elastic collision, then pushes the lighter body out of the overlap.
pub fn calc_collision(e1: &mut Particle, e2: &mut Particle)
    requires
        old(e1).wf(),
        old(e2).wf(),
    ensures
        (*final(e1), *final(e2)) == collision_pair(*old(e1), *old(e2)),
        final(e1).wf(),
        final(e2).wf(),
        overlap(*old(e1), *old(e2)) > 0 ==> dist_sq(*old(e1), *old(e2)) <= dist_sq(
            *final(e1),
            *final(e2),
        ) <= (old(e1).radius + old(e2).radius) * (old(e1).radius + old(e2).radius),
        overlap(*old(e1), *old(e2)) > 0 && push_in_range(*old(e1), *old(e2)) ==> dist_sq(
            *old(e1),
            *old(e2),
        ) < dist_sq(*final(e1), *final(e2)),
{
    proof {
        lemma_collision_push(*e1, *e2);
        lemma_geometry(*e1, *e2);
        lemma_mul_bound(e1.radius as int, e1.radius as int, 0x1000_0000, 0x1000_0000);
        lemma_mul_bound(e2.radius as int, e2.radius as int, 0x1000_0000, 0x1000_0000);
        lemma_mul_pos(e1.radius as int, e1.radius as int);
        lemma_mul_pos(e2.radius as int, e2.radius as int);
    }
    let dx: i128 = e1.pos_x as i128 - e2.pos_x as i128;
    let dy: i128 = e1.pos_y as i128 - e2.pos_y as i128;
    let r2: i128 = dx * dx + dy * dy;
    let floor: i128 = (e1.radius as i128) * (e1.radius as i128) + (e2.radius as i128) * (
    e2.radius as i128);
    let mag: i128 = if r2 < floor {
        floor
    } else {
        r2
    };
    let dvx: i128 = e1.vel_x as i128 - e2.vel_x as i128;
    let dvy: i128 = e1.vel_y as i128 - e2.vel_y as i128;
    proof {
        lemma_mul_bound(dx as int, dvx as int, 0x8000_0000, 0x8000_0000);
        lemma_mul_bound(dy as int, dvy as int, 0x8000_0000, 0x8000_0000);
    }
    let inner: i128 = dx * dvx + dy * dvy;
    let total: i128 = e1.mass as i128 + e2.mass as i128;
    proof {
        lemma_mul_bound(total as int, mag as int, 0x200_0000, 0x8000_0000_0000_0000);
        lemma_mul_pos(total as int, mag as int);
        lemma_mul_bound(2 * e1.mass as int, inner as int, 0x200_0000, 0x8000_0000_0000_0000);
        lemma_mul_bound(2 * e2.mass as int, inner as int, 0x200_0000, 0x8000_0000_0000_0000);
    }
    let den: i128 = total * mag;
    let w1: i128 = 2 * (e1.mass as i128) * inner;
    let w2: i128 = 2 * (e2.mass as i128) * inner;
    proof {
        let m: int = 0x100_0000_0000_0000_0000_0000int;
        lemma_mul_bound(w1 as int, dx as int, m, 0x8000_0000);
        lemma_mul_bound(w1 as int, dy as int, m, 0x8000_0000);
        lemma_mul_bound(w2 as int, dx as int, m, 0x8000_0000);
        lemma_mul_bound(w2 as int, dy as int, m, 0x8000_0000);
    }
    let ax = div_trunc(w2 * dx, den);
    let ay = div_trunc(w2 * dy, den);
    let bx = div_trunc(w1 * dx, den);
    let by = div_trunc(w1 * dy, den);
    proof {
        let m: int = 0x80_0000_0000_0000_0000_0000_0000_0000int;
        lemma_trunc_div_bound((w2 * dx) as int, den as int, m);
        lemma_trunc_div_bound((w2 * dy) as int, den as int, m);
        lemma_trunc_div_bound((w1 * dx) as int, den as int, m);
        lemma_trunc_div_bound((w1 * dy) as int, den as int, m);
    }
    let reach: i128 = e1.radius as i128 + e2.radius as i128;
    let (px, py) = push_exec(reach, r2);
    let heavier_first = e1.mass > e2.mass;
    e1.vel_x = saturate_exec(e1.vel_x as i128 - ax, VEL_MAX);
    e1.vel_y = saturate_exec(e1.vel_y as i128 - ay, VEL_MAX);
    e2.vel_x = saturate_exec(e2.vel_x as i128 + bx, VEL_MAX);
    e2.vel_y = saturate_exec(e2.vel_y as i128 + by, VEL_MAX);
    if heavier_first {
        let x: i128 = if dx < 0 {
            e2.pos_x as i128 + px
        } else {
            e2.pos_x as i128 - px
        };
        e2.pos_x = saturate_exec(x, POS_MAX);
    } else {
        let x: i128 = if dx < 0 {
            e1.pos_x as i128 - px
        } else {
            e1.pos_x as i128 + px
        };
        let y: i128 = if dy < 0 {
            e1.pos_y as i128 - py
        } else {
            e1.pos_y as i128 + py
        };
        e1.pos_x = saturate_exec(x, POS_MAX);
        e1.pos_y = saturate_exec(y, POS_MAX);
    }
}

/// The body after one tick of damping by the fraction `d / DAMPING_DENOM`:
/// each velocity component is scaled by `1 - d / DAMPING_DENOM`.
pub open spec fn damped(b: Particle, d: int) -> Particle {
    with_vel(
        b,
        trunc_div(b.vel_x * (DAMPING_DENOM - d), DAMPING_DENOM as int),
        trunc_div(b.vel_y * (DAMPING_DENOM - d), DAMPING_DENOM as int),
    )
}

/// Scales the velocity by `1 - d / DAMPING_DENOM`.
pub fn calc_damping(e1: &mut Particle, d_val: i64)
    requires
        old(e1).wf(),
        0 <= d_val < DAMPING_DENOM,
    ensures
        *final(e1) == damped(*old(e1), d_val as int),
        final(e1).wf(),
{
    let keep: i128 = (DAMPING_DENOM - d_val) as i128;
    proof {
        lemma_mul_bound(e1.vel_x as int, keep as int, 0x4000_0000, 1_000_000);
        lemma_mul_bound(e1.vel_y as int, keep as int, 0x4000_0000, 1_000_000);
    }
    let vx = div_trunc(e1.vel_x as i128 * keep, DAMPING_DENOM as i128);
    let vy = div_trunc(e1.vel_y as i128 * keep, DAMPING_DENOM as i128);
    proof {
        lemma_trunc_div_bound((e1.vel_x as i128 * keep) as int, DAMPING_DENOM as int, 0x40_0000_0000_0000);
        lemma_trunc_div_bound((e1.vel_y as i128 * keep) as int, DAMPING_DENOM as int, 0x40_0000_0000_0000);
    }
    e1.vel_x = saturate_exec(vx, VEL_MAX);
    e1.vel_y = saturate_exec(vy, VEL_MAX);
}

/// Squared speed of a body.
pub open spec fn speed_sq(b: Particle) -> int {
    b.vel_x * b.vel_x + b.vel_y * b.vel_y
}

/// The body with its speed limited to `c`: a faster velocity is rescaled by
/// `c / |v|` (with `|v|` rounded up, so the result never exceeds `c`).
pub open spec fn speed_limited(b: Particle, c: int) -> Particle {
    if speed_sq(b) > c * c {
        let t = ceil_sqrt(speed_sq(b) as nat) as int;
        with_vel(b, trunc_div(b.vel_x * c, t), trunc_div(b.vel_y * c, t))
    } else {
        b
    }
}

/// The body after one unit time step: speed limited to `c`, then moved by
/// its velocity.
pub open spec fn integrated(b: Particle, c: int) -> Particle {
    let v = speed_limited(b, c);
    with_pos(v, v.pos_x + v.vel_x, v.pos_y + v.vel_y)
}

/// Limits the speed to `max_speed`, then advances the position by the
/// velocity (unit-time Euler step).
pub fn recalc_position(p: &mut Particle, max_speed: i64)
    requires
        old(p).wf(),
        1 <= max_speed <= VEL_MAX,
    ensures
        *final(p) == integrated(*old(p), max_speed as int),
        final(p).wf(),
{
    let vx: i128 = p.vel_x as i128;
    let vy: i128 = p.vel_y as i128;
    let c: i128 = max_speed as i128;
    proof {
        lemma_mul_bound(vx as int, vx as int, 0x4000_0000, 0x4000_0000);
        lemma_mul_bound(vy as int, vy as int, 0x4000_0000, 0x4000_0000);
        lemma_mul_bound(c as int, c as int, 0x4000_0000, 0x4000_0000);
        assert(vx * vx >= 0) by (nonlinear_arith);
        assert(vy * vy >= 0) by (nonlinear_arith);
        assert(c * c >= 1) by (nonlinear_arith)
            requires
                c >= 1,
        {
        }
    }
    let q: i128 = vx * vx + vy * vy;
    if q > c * c {
        let t = ceil_sqrt_exec(q as u128);
        proof {
            lemma_ceil_sqrt(q as nat);
            lemma_mul_bound(vx as int, c as int, 0x4000_0000, 0x4000_0000);
            lemma_mul_bound(vy as int, c as int, 0x4000_0000, 0x4000_0000);
        }
        let nx = div_trunc(vx * c, t as i128);
        let ny = div_trunc(vy * c, t as i128);
        proof {
            lemma_trunc_div_bound((vx * c) as int, t as int, 0x1000_0000_0000_0000);
            lemma_trunc_div_bound((vy * c) as int, t as int, 0x1000_0000_0000_0000);
        }
        p.vel_x = saturate_exec(nx, VEL_MAX);
        p.vel_y = saturate_exec(ny, VEL_MAX);
    }
    p.pos_x = saturate_exec(p.pos_x as i128 + p.vel_x as i128, POS_MAX);
    p.pos_y = saturate_exec(p.pos_y as i128 + p.vel_y as i128, POS_MAX);
}

/// One axis of wall reflection: a body whose leading edge is past `bound`
/// while moving outward, or whose trailing edge is below zero while moving
/// outward, has that velocity component negated.
pub open spec fn reflect(pos: int, radius: int, v: int, bound: int) -> int {
    if pos + radius > bound && v > 0 {
        -v
    } else if pos - radius < 0 && v < 0 {
        -v
    } else {
        v
    }
}

/// The body after wall containment in the arena `[0, width] × [0, height]`.
/// The position is left as it is.
pub open spec fn walled(b: Particle, width: int, height: int) -> Particle {
    Particle {
        vel_x: reflect(b.pos_x as int, b.radius as int, b.vel_x as int, width) as i64,
        vel_y: reflect(b.pos_y as int, b.radius as int, b.vel_y as int, height) as i64,
        ..b
    }
}

/// Reflects the velocity of a body that has crossed a wall while moving
/// outward.
pub fn calc_wall_collision(e1: &mut Particle, width: i64, height: i64)
    requires
        old(e1).wf(),
        1 <= width <= POS_MAX,
        1 <= height <= POS_MAX,
    ensures
        *final(e1) == walled(*old(e1), width as int, height as int),
        final(e1).wf(),
{
    if e1.pos_y as i128 + e1.radius as i128 > height as i128 && e1.vel_y > 0 {
        e1.vel_y = -e1.vel_y;
    } else if (e1.pos_y as i128) - (e1.radius as i128) < 0 && e1.vel_y < 0 {
        e1.vel_y = -e1.vel_y;
    }
    if e1.pos_x as i128 + e1.radius as i128 > width as i128 && e1.vel_x > 0 {
        e1.vel_x = -e1.vel_x;
    } else if (e1.pos_x as i128) - (e1.radius as i128) < 0 && e1.vel_x < 0 {
        e1.vel_x = -e1.vel_x;
    }
}

} // verus!
