//! Properties of the physics laws, stated over their specifications.
use vstd::prelude::*;
use crate::arith::{
    ceil_sqrt, lemma_ceil_sqrt, lemma_trunc_div_abs, lemma_trunc_div_residual,
    trunc_div,
};
use crate::models::{Particle, SysParams, DAMPING_DENOM, POS_MAX, VEL_MAX};
use crate::stepper::{interact, pair_step, settle, stepped, sweep, sweep_row};
use crate::phys::{
    bounce, closing, collision_pair, damped, impact_floor, lemma_collision_push, lemma_push_bounds,
    overlap, push_in_range, speed_limited, touching, dist_sq, gravity_kick, gravity_pair, impact_sq,
    integrated, sep_x, sep_y, speed_sq, walled,
};
use vstd::math::{abs, max};

verus! {

proof fn lemma_dist_sq_symmetric(a: Particle, b: Particle)
    ensures
        dist_sq(b, a) == dist_sq(a, b),
        sep_x(b, a) == -sep_x(a, b),
        sep_y(b, a) == -sep_y(a, b),
{
    let x = sep_x(a, b);
    let y = sep_y(a, b);
    assert((-x) * (-x) == x * x) by (nonlinear_arith);
    assert((-y) * (-y) == y * y) by (nonlinear_arith);
}

proof fn lemma_gravity_kick_odd(g: int, m: int, d: int, r2: int)
    ensures
        gravity_kick(g, m, -d, r2) == -gravity_kick(g, m, d, r2),
{
    assert(g * m * (-d) == -(g * m * d)) by (nonlinear_arith);
    crate::phys::lemma_inverse_cube(g * m * d, 1, r2);
}

/// Gravity is antisymmetric in the roles of its two bodies: applying it to
/// `(b, a)` gives each body exactly the change that applying it to `(a, b)`
/// gives, so the impulse of one ordering undoes the opposite impulse of the
/// other.
pub proof fn lemma_gravity_role_swap(a: Particle, b: Particle, g: int)
    ensures
        gravity_pair(b, a, g).0 == gravity_pair(a, b, g).1,
        gravity_pair(b, a, g).1 == gravity_pair(a, b, g).0,
{
    lemma_dist_sq_symmetric(a, b);
    let r2 = dist_sq(a, b);
    lemma_gravity_kick_odd(g, a.mass as int, sep_x(a, b), r2);
    lemma_gravity_kick_odd(g, a.mass as int, sep_y(a, b), r2);
    lemma_gravity_kick_odd(g, b.mass as int, sep_x(a, b), r2);
    lemma_gravity_kick_odd(g, b.mass as int, sep_y(a, b), r2);
}

/// The velocities that one gravity interaction computes lie within
/// `VEL_MAX` before saturation.
pub open spec fn gravity_in_range(a: Particle, b: Particle, g: int) -> bool {
    let r2 = dist_sq(a, b);
    &&& -VEL_MAX <= a.vel_x - gravity_kick(g, b.mass as int, sep_x(a, b), r2) <= VEL_MAX
    &&& -VEL_MAX <= a.vel_y - gravity_kick(g, b.mass as int, sep_y(a, b), r2) <= VEL_MAX
    &&& -VEL_MAX <= b.vel_x + gravity_kick(g, a.mass as int, sep_x(a, b), r2) <= VEL_MAX
    &&& -VEL_MAX <= b.vel_y + gravity_kick(g, a.mass as int, sep_y(a, b), r2) <= VEL_MAX
}

proof fn lemma_gravity_kick_reversed(g: int, m: int, d: int, r2: int)
    ensures
        gravity_kick(-g, m, -d, r2) == gravity_kick(g, m, d, r2),
{
    assert((-g) * m * (-d) == g * m * d) by (nonlinear_arith);
}

/// Gravity's impulse is undone by the opposite impulse with the roles
/// swapped: applying it to `(b', a')` with constant `-G`, after it turned
/// `(a, b)` into `(a', b')` with `G`, restores both bodies exactly, when the
/// first application saturates no velocity.
pub proof fn lemma_gravity_inverse(a: Particle, b: Particle, g: int)
    requires
        a.wf(),
        b.wf(),
        gravity_in_range(a, b, g),
    ensures
        gravity_pair(gravity_pair(a, b, g).1, gravity_pair(a, b, g).0, -g).0 == b,
        gravity_pair(gravity_pair(a, b, g).1, gravity_pair(a, b, g).0, -g).1 == a,
{
    let r = gravity_pair(a, b, g);
    lemma_dist_sq_symmetric(a, b);
    assert(sep_x(r.1, r.0) == -sep_x(a, b) && sep_y(r.1, r.0) == -sep_y(a, b));
    assert(dist_sq(r.1, r.0) == dist_sq(a, b));
    let r2 = dist_sq(a, b);
    lemma_gravity_kick_reversed(g, a.mass as int, sep_x(a, b), r2);
    lemma_gravity_kick_reversed(g, a.mass as int, sep_y(a, b), r2);
    lemma_gravity_kick_reversed(g, b.mass as int, sep_x(a, b), r2);
    lemma_gravity_kick_reversed(g, b.mass as int, sep_y(a, b), r2);
}

/// Wall containment: a body whose centre lies half a radius short of the
/// right wall (`pos_x = width - radius / 2`) and moves right has its
/// horizontal velocity negated; a body lying wholly inside the arena keeps
/// its velocity.
pub proof fn lemma_wall_containment(b: Particle, width: int, height: int)
    ensures
        2 * b.pos_x == 2 * width - b.radius && b.radius > 0 && b.vel_x > 0 ==> walled(
            b,
            width,
            height,
        ).vel_x == -b.vel_x,
        b.radius <= b.pos_x <= width - b.radius && b.radius <= b.pos_y <= height - b.radius
            ==> walled(b, width, height) == b,
{
}

/// The speed clamp: a body faster than `c` leaves the integration step with
/// speed at most `c`, and short of `c` only by the rounding of each
/// component toward zero (less than one unit per component).
pub proof fn lemma_speed_clamp(b: Particle, c: int)
    requires
        b.wf(),
        1 <= c <= VEL_MAX,
        speed_sq(b) > c * c,
    ensures
        speed_sq(integrated(b, c)) <= c * c,
        (abs(integrated(b, c).vel_x as int) + 1) * (abs(integrated(b, c).vel_x as int) + 1) + (abs(
            integrated(b, c).vel_y as int,
        ) + 1) * (abs(integrated(b, c).vel_y as int) + 1) > (c - 1) * (c - 1),
{
    let q = speed_sq(b);
    let vx = b.vel_x as int;
    let vy = b.vel_y as int;
    assert(vx * vx >= 0 && vy * vy >= 0) by (nonlinear_arith);
    lemma_ceil_sqrt(q as nat);
    let t = ceil_sqrt(q as nat) as int;
    assert(t > c) by (nonlinear_arith)
        requires
            q <= t * t,
            q > c * c,
            c >= 1,
            t >= 0,
    {
    }
    let nx = trunc_div(vx * c, t);
    let ny = trunc_div(vy * c, t);
    lemma_trunc_div_abs(vx * c, t);
    lemma_trunc_div_abs(vy * c, t);
    let ax = abs(vx) as int;
    let ay = abs(vy) as int;
    let mx = abs(nx) as int;
    let my = abs(ny) as int;
    assert(abs(vx * c) == ax * c && abs(vy * c) == ay * c) by (nonlinear_arith)
        requires
            c >= 1,
            ax == abs(vx),
            ay == abs(vy),
    {
    }
    assert(ax * ax == vx * vx && ay * ay == vy * vy) by (nonlinear_arith)
        requires
            ax == abs(vx),
            ay == abs(vy),
    {
    }
    assert(mx * mx == nx * nx && my * my == ny * ny) by (nonlinear_arith)
        requires
            mx == abs(nx),
            my == abs(ny),
    {
    }
    // Each component is at most `c`, so no saturation happens.
    assert(mx <= c && my <= c) by (nonlinear_arith)
        requires
            mx * t <= ax * c,
            my * t <= ay * c,
            ax * ax + ay * ay == q,
            q <= t * t,
            t > c,
            c >= 1,
            ax >= 0,
            ay >= 0,
            mx >= 0,
            my >= 0,
    {
    }
    let r = integrated(b, c);
    assert(r.vel_x == nx && r.vel_y == ny);
    assert((mx * mx + my * my) * (t * t) <= q * (c * c)) by (nonlinear_arith)
        requires
            mx * t <= ax * c,
            my * t <= ay * c,
            ax * ax + ay * ay == q,
            t >= 1,
            c >= 1,
            ax >= 0,
            ay >= 0,
            mx >= 0,
            my >= 0,
    {
    }
    assert(mx * mx + my * my <= c * c) by (nonlinear_arith)
        requires
            (mx * mx + my * my) * (t * t) <= q * (c * c),
            q <= t * t,
            t >= 1,
            c >= 1,
    {
    }
    let ux = ax * c;
    let uy = ay * c;
    let wx = (mx + 1) * t;
    let wy = (my + 1) * t;
    assert(ux >= 0 && uy >= 0) by (nonlinear_arith)
        requires
            ax >= 0,
            ay >= 0,
            c >= 1,
            ux == ax * c,
            uy == ay * c,
    {
    }
    assert(ux * ux < wx * wx) by (nonlinear_arith)
        requires
            0 <= ux < wx,
    {
    }
    assert(uy * uy < wy * wy) by (nonlinear_arith)
        requires
            0 <= uy < wy,
    {
    }
    assert(ux * ux + uy * uy == q * (c * c)) by (nonlinear_arith)
        requires
            ux == ax * c,
            uy == ay * c,
            ax * ax + ay * ay == q,
    {
    }
    assert(wx * wx + wy * wy == ((mx + 1) * (mx + 1) + (my + 1) * (my + 1)) * (t * t))
        by (nonlinear_arith)
        requires
            wx == (mx + 1) * t,
            wy == (my + 1) * t,
    {
    }
    assert((t - 1) * c >= (c - 1) * t) by (nonlinear_arith)
        requires
            t > c,
            c >= 1,
    {
    }
    assert(q * (c * c) >= (c - 1) * (c - 1) * (t * t)) by (nonlinear_arith)
        requires
            (t - 1) * (t - 1) < q,
            (t - 1) * c >= (c - 1) * t,
            t > c,
            c >= 1,
    {
    }
    assert((mx + 1) * (mx + 1) + (my + 1) * (my + 1) > (c - 1) * (c - 1)) by (nonlinear_arith)
        requires
            ((mx + 1) * (mx + 1) + (my + 1) * (my + 1)) * (t * t) > (c - 1) * (c - 1) * (t * t),
            t >= 1,
    {
    }
}

/// Two bodies' shares of one exact impulse `x`, each rounded toward zero
/// after division by its own mass, differ in momentum by less than the
/// larger mass.
proof fn lemma_shared_rounding(ma: int, mb: int, na: int, nb: int, d: int)
    requires
        ma >= 1,
        mb >= 1,
        d >= 1,
        ma * na == mb * nb,
    ensures
        -max(ma, mb) < mb * trunc_div(nb, d) - ma * trunc_div(na, d) < max(ma, mb),
{
    lemma_trunc_div_abs(na, d);
    lemma_trunc_div_abs(nb, d);
    let qa = trunc_div(na, d);
    let qb = trunc_div(nb, d);
    let ea = abs(qa) as int;
    let eb = abs(qb) as int;
    let fa = abs(na) as int;
    let fb = abs(nb) as int;
    let x = ma * fa;
    assert(x == mb * fb && (na >= 0 <==> nb >= 0)) by (nonlinear_arith)
        requires
            ma >= 1,
            mb >= 1,
            ma * na == mb * nb,
            fa == abs(na),
            fb == abs(nb),
            x == ma * fa,
    {
    }
    assert(ma * ea * d <= x < ma * (ea + 1) * d) by (nonlinear_arith)
        requires
            ea * d <= fa < (ea + 1) * d,
            x == ma * fa,
            ma >= 1,
    {
    }
    assert(mb * eb * d <= x < mb * (eb + 1) * d) by (nonlinear_arith)
        requires
            eb * d <= fb < (eb + 1) * d,
            x == mb * fb,
            mb >= 1,
    {
    }
    assert(mb * eb - ma * ea < ma && ma * ea - mb * eb < mb) by (nonlinear_arith)
        requires
            ma * ea * d <= x < ma * (ea + 1) * d,
            mb * eb * d <= x < mb * (eb + 1) * d,
            d >= 1,
    {
    }
    if na >= 0 {
        assert(qa == ea && qb == eb);
    } else {
        assert(qa == -ea && qb == -eb);
        assert(mb * qb - ma * qa == -(mb * eb - ma * ea)) by (nonlinear_arith)
            requires
                qa == -ea,
                qb == -eb,
        {
        }
    }
}

/// Momentum of the pair along the horizontal axis.
pub open spec fn momentum_x(a: Particle, b: Particle) -> int {
    a.mass * a.vel_x + b.mass * b.vel_x
}

/// Momentum of the pair along the vertical axis.
pub open spec fn momentum_y(a: Particle, b: Particle) -> int {
    a.mass * a.vel_y + b.mass * b.vel_y
}

/// The velocities that a collision of `a` and `b` computes lie within
/// `VEL_MAX` before saturation.
pub open spec fn bounce_in_range(a: Particle, b: Particle) -> bool {
    &&& -VEL_MAX <= a.vel_x - bounce(b.mass as int, a, b, sep_x(a, b)) <= VEL_MAX
    &&& -VEL_MAX <= a.vel_y - bounce(b.mass as int, a, b, sep_y(a, b)) <= VEL_MAX
    &&& -VEL_MAX <= b.vel_x + bounce(a.mass as int, a, b, sep_x(a, b)) <= VEL_MAX
    &&& -VEL_MAX <= b.vel_y + bounce(a.mass as int, a, b, sep_y(a, b)) <= VEL_MAX
}

proof fn lemma_bounce_axis(a: Particle, b: Particle, d: int)
    requires
        a.wf(),
        b.wf(),
    ensures
        -max(a.mass as int, b.mass as int) < b.mass * bounce(a.mass as int, a, b, d) - a.mass
            * bounce(b.mass as int, a, b, d) < max(a.mass as int, b.mass as int),
{
    let ma = a.mass as int;
    let mb = b.mass as int;
    let c = closing(a, b);
    let den = (ma + mb) * impact_sq(a, b);
    assert(a.radius * a.radius >= 1 && b.radius * b.radius >= 1) by (nonlinear_arith)
        requires
            a.radius >= 1,
            b.radius >= 1,
    {
    }
    assert(den >= 1) by (nonlinear_arith)
        requires
            ma + mb >= 2,
            impact_sq(a, b) >= 2,
            den == (ma + mb) * impact_sq(a, b),
    {
    }
    assert(ma * (2 * mb * c * d) == mb * (2 * ma * c * d)) by (nonlinear_arith);
    lemma_shared_rounding(ma, mb, 2 * mb * c * d, 2 * ma * c * d, den);
}

/// Momentum conservation: resolving a collision changes the pair's total
/// momentum along each axis by less than the larger mass (one unit of
/// velocity rounding), whenever no velocity saturates.
pub proof fn lemma_collision_momentum(a: Particle, b: Particle)
    requires
        a.wf(),
        b.wf(),
        bounce_in_range(a, b),
    ensures
        -max(a.mass as int, b.mass as int) < momentum_x(collision_pair(a, b).0, collision_pair(
            a,
            b,
        ).1) - momentum_x(a, b) < max(a.mass as int, b.mass as int),
        -max(a.mass as int, b.mass as int) < momentum_y(collision_pair(a, b).0, collision_pair(
            a,
            b,
        ).1) - momentum_y(a, b) < max(a.mass as int, b.mass as int),
{
    let r = collision_pair(a, b);
    let ma = a.mass as int;
    let mb = b.mass as int;
    let qax = bounce(mb, a, b, sep_x(a, b));
    let qay = bounce(mb, a, b, sep_y(a, b));
    let qbx = bounce(ma, a, b, sep_x(a, b));
    let qby = bounce(ma, a, b, sep_y(a, b));
    assert(r.0.vel_x == a.vel_x - qax && r.0.vel_y == a.vel_y - qay);
    assert(r.1.vel_x == b.vel_x + qbx && r.1.vel_y == b.vel_y + qby);
    assert(r.0.mass == ma && r.1.mass == mb);
    lemma_bounce_axis(a, b, sep_x(a, b));
    lemma_bounce_axis(a, b, sep_y(a, b));
    assert(momentum_x(r.0, r.1) - momentum_x(a, b) == mb * qbx - ma * qax) by (nonlinear_arith)
        requires
            r.0.vel_x == a.vel_x - qax,
            r.1.vel_x == b.vel_x + qbx,
            r.0.mass == ma,
            r.1.mass == mb,
            a.mass == ma,
            b.mass == mb,
    {
    }
    assert(momentum_y(r.0, r.1) - momentum_y(a, b) == mb * qby - ma * qay) by (nonlinear_arith)
        requires
            r.0.vel_y == a.vel_y - qay,
            r.1.vel_y == b.vel_y + qby,
            r.0.mass == ma,
            r.1.mass == mb,
            a.mass == ma,
            b.mass == mb,
    {
    }
}

/// The pair after `n` successive collision resolutions.
pub open spec fn resolve_times(a: Particle, b: Particle, n: nat) -> (Particle, Particle)
    decreases n,
{
    if n == 0 {
        (a, b)
    } else {
        let r = resolve_times(a, b, (n - 1) as nat);
        collision_pair(r.0, r.1)
    }
}

/// `p` lies within `m` of `q`.
pub open spec fn near(p: int, q: int, m: int) -> bool {
    q - m <= p <= q + m
}

/// Every coordinate of both bodies lies at least `m` inside `POS_MAX`.
pub open spec fn inside_by(a: Particle, b: Particle, m: int) -> bool {
    &&& -POS_MAX + m <= a.pos_x <= POS_MAX - m
    &&& -POS_MAX + m <= a.pos_y <= POS_MAX - m
    &&& -POS_MAX + m <= b.pos_x <= POS_MAX - m
    &&& -POS_MAX + m <= b.pos_y <= POS_MAX - m
}

proof fn lemma_resolve_progress(a: Particle, b: Particle, n: nat)
    requires
        a.wf(),
        b.wf(),
        inside_by(a, b, n * (a.radius + b.radius)),
    ensures
        resolve_times(a, b, n).0.wf(),
        resolve_times(a, b, n).1.wf(),
        resolve_times(a, b, n).0.radius == a.radius,
        resolve_times(a, b, n).1.radius == b.radius,
        resolve_times(a, b, n).0.mass == a.mass,
        resolve_times(a, b, n).1.mass == b.mass,
        near(resolve_times(a, b, n).0.pos_x as int, a.pos_x as int, n * (a.radius + b.radius)),
        near(resolve_times(a, b, n).0.pos_y as int, a.pos_y as int, n * (a.radius + b.radius)),
        near(resolve_times(a, b, n).1.pos_x as int, b.pos_x as int, n * (a.radius + b.radius)),
        near(resolve_times(a, b, n).1.pos_y as int, b.pos_y as int, n * (a.radius + b.radius)),
        overlap(resolve_times(a, b, n).0, resolve_times(a, b, n).1) > 0 ==> dist_sq(
            resolve_times(a, b, n).0,
            resolve_times(a, b, n).1,
        ) >= dist_sq(a, b) + n,
    decreases n,
{
    if n > 0 {
        let rr = a.radius + b.radius;
        let m = (n - 1) as nat;
        assert(n * rr == m * rr + rr) by (nonlinear_arith)
            requires
                m == n - 1,
        {
        }
        assert(m * rr >= 0) by (nonlinear_arith)
            requires
                rr >= 0,
        {
        }
        lemma_resolve_progress(a, b, m);
        let r = resolve_times(a, b, m);
        let o = overlap(r.0, r.1);
        let next = collision_pair(r.0, r.1);
        assert(resolve_times(a, b, n) == next);
        assert(o <= rr);
        lemma_collision_push(r.0, r.1);
        if o > 0 {
            lemma_push_bounds(o);
            assert(push_in_range(r.0, r.1));
        }
    }
}

/// Non-penetration converges: `(r_a + r_b)²` successive resolutions leave
/// the pair without overlap, for bodies far enough inside the position
/// bounds that no push saturates.
pub proof fn lemma_depenetration_converges(a: Particle, b: Particle)
    requires
        a.wf(),
        b.wf(),
        inside_by(
            a,
            b,
            (a.radius + b.radius) * (a.radius + b.radius) * (a.radius + b.radius),
        ),
    ensures
        overlap(
            resolve_times(a, b, ((a.radius + b.radius) * (a.radius + b.radius)) as nat).0,
            resolve_times(a, b, ((a.radius + b.radius) * (a.radius + b.radius)) as nat).1,
        ) <= 0,
{
    let rr = a.radius + b.radius;
    assert(rr * rr >= 0) by (nonlinear_arith);
    let n = (rr * rr) as nat;
    lemma_resolve_progress(a, b, n);
    let r = resolve_times(a, b, n);
    if overlap(r.0, r.1) > 0 {
        let q = dist_sq(r.0, r.1);
        assert(dist_sq(a, b) >= 0) by (nonlinear_arith)
            requires
                dist_sq(a, b) == sep_x(a, b) * sep_x(a, b) + sep_y(a, b) * sep_y(a, b),
        {
        }
        lemma_ceil_sqrt(q as nat);
        let c = ceil_sqrt(q as nat) as int;
        assert(c >= rr) by (nonlinear_arith)
            requires
                q <= c * c,
                q >= rr * rr,
                rr >= 0,
                c >= 0,
        {
        }
    }
}

/// Twice the pair's kinetic energy.
pub open spec fn kinetic2(a: Particle, b: Particle) -> int {
    a.mass * speed_sq(a) + b.mass * speed_sq(b)
}

/// Common denominator of the exact collision update when the pair is at
/// least `impact_floor` apart: `(m_a + m_b) · r²`.
pub open spec fn bounce_denom(a: Particle, b: Particle) -> int {
    (a.mass + b.mass) * dist_sq(a, b)
}

/// The exact new velocity of `a` along one axis, times `bounce_denom`.
pub open spec fn exact_a(a: Particle, b: Particle, v: int, d: int) -> int {
    bounce_denom(a, b) * v - 2 * b.mass * closing(a, b) * d
}

/// The exact new velocity of `b` along one axis, times `bounce_denom`.
pub open spec fn exact_b(a: Particle, b: Particle, v: int, d: int) -> int {
    bounce_denom(a, b) * v + 2 * a.mass * closing(a, b) * d
}

proof fn lemma_square_sub(x: int, y: int)
    ensures
        (x - y) * (x - y) == x * x - 2 * (x * y) + y * y,
{
    assert((x - y) * (x - y) == x * x - 2 * (x * y) + y * y) by (nonlinear_arith);
}

proof fn lemma_square_add(x: int, y: int)
    ensures
        (x + y) * (x + y) == x * x + 2 * (x * y) + y * y,
{
    assert((x + y) * (x + y) == x * x + 2 * (x * y) + y * y) by (nonlinear_arith);
}

proof fn lemma_mul_swap(a: int, b: int, c: int, e: int)
    ensures
        (a * b) * (c * e) == (a * c) * (b * e),
{
    assert((a * b) * (c * e) == (a * c) * (b * e)) by (nonlinear_arith);
}

proof fn lemma_mul_sum(a: int, b: int, c: int)
    ensures
        a * (b + c) == a * b + a * c,
        a * (b - c) == a * b - a * c,
{
    assert(a * (b + c) == a * b + a * c) by (nonlinear_arith);
    assert(a * (b - c) == a * b - a * c) by (nonlinear_arith);
}

proof fn lemma_scaled_parts(d: int, k: int, vx: int, vy: int, dx: int, dy: int)
    ensures
        (d * vx) * (d * vx) + (d * vy) * (d * vy) == (d * d) * (vx * vx + vy * vy),
        (d * vx) * (k * dx) + (d * vy) * (k * dy) == (d * k) * (vx * dx + vy * dy),
        (k * dx) * (k * dx) + (k * dy) * (k * dy) == (k * k) * (dx * dx + dy * dy),
{
    lemma_mul_swap(d, vx, d, vx);
    lemma_mul_swap(d, vy, d, vy);
    lemma_mul_swap(d, vx, k, dx);
    lemma_mul_swap(d, vy, k, dy);
    lemma_mul_swap(k, dx, k, dx);
    lemma_mul_swap(k, dy, k, dy);
    lemma_mul_sum(d * d, vx * vx, vy * vy);
    lemma_mul_sum(d * k, vx * dx, vy * dy);
    lemma_mul_sum(k * k, dx * dx, dy * dy);
}

/// `|d·v - k·δ|² = d²|v|² - 2dk (v·δ) + k²|δ|²` in two dimensions.
proof fn lemma_scaled_square_sub(d: int, k: int, vx: int, vy: int, dx: int, dy: int)
    ensures
        (d * vx - k * dx) * (d * vx - k * dx) + (d * vy - k * dy) * (d * vy - k * dy) == (d * d)
            * (vx * vx + vy * vy) - 2 * ((d * k) * (vx * dx + vy * dy)) + (k * k) * (dx * dx + dy
            * dy),
{
    lemma_scaled_parts(d, k, vx, vy, dx, dy);
    lemma_square_sub(d * vx, k * dx);
    lemma_square_sub(d * vy, k * dy);
}

/// `|d·v + k·δ|² = d²|v|² + 2dk (v·δ) + k²|δ|²` in two dimensions.
proof fn lemma_scaled_square_add(d: int, k: int, vx: int, vy: int, dx: int, dy: int)
    ensures
        (d * vx + k * dx) * (d * vx + k * dx) + (d * vy + k * dy) * (d * vy + k * dy) == (d * d)
            * (vx * vx + vy * vy) + 2 * ((d * k) * (vx * dx + vy * dy)) + (k * k) * (dx * dx + dy
            * dy),
{
    lemma_scaled_parts(d, k, vx, vy, dx, dy);
    lemma_square_add(d * vx, k * dx);
    lemma_square_add(d * vy, k * dy);
}

proof fn lemma_mul_twice(a: int, y: int)
    ensures
        a * (2 * y) == 2 * (a * y),
{
    assert(a * (2 * y) == 2 * (a * y)) by (nonlinear_arith);
}

proof fn lemma_energy_identity(
    ma: int,
    mb: int,
    vax: int,
    vay: int,
    vbx: int,
    vby: int,
    dx: int,
    dy: int,
)
    ensures
        ({
            let s = dx * dx + dy * dy;
            let c = dx * (vax - vbx) + dy * (vay - vby);
            let d = (ma + mb) * s;
            let uax = d * vax - 2 * mb * c * dx;
            let uay = d * vay - 2 * mb * c * dy;
            let ubx = d * vbx + 2 * ma * c * dx;
            let uby = d * vby + 2 * ma * c * dy;
            ma * (uax * uax + uay * uay) + mb * (ubx * ubx + uby * uby) == d * d * (ma * (vax
                * vax + vay * vay) + mb * (vbx * vbx + vby * vby))
        }),
{
    let s = dx * dx + dy * dy;
    let c = dx * (vax - vbx) + dy * (vay - vby);
    let d = (ma + mb) * s;
    let ka = 2 * mb * c;
    let kb = 2 * ma * c;
    let pa = vax * dx + vay * dy;
    let pb = vbx * dx + vby * dy;
    let a2 = vax * vax + vay * vay;
    let b2 = vbx * vbx + vby * vby;
    let uax = d * vax - 2 * mb * c * dx;
    let uay = d * vay - 2 * mb * c * dy;
    let ubx = d * vbx + 2 * ma * c * dx;
    let uby = d * vby + 2 * ma * c * dy;
    lemma_mul_sum(dx, vax, vbx);
    lemma_mul_sum(dy, vay, vby);
    assert(dx * vax == vax * dx && dy * vay == vay * dy && dx * vbx == vbx * dx && dy * vby == vby * dy)
        by (nonlinear_arith);
    assert(c == pa - pb);
    assert(2 * mb * c * dx == ka * dx && 2 * mb * c * dy == ka * dy);
    assert(2 * ma * c * dx == kb * dx && 2 * ma * c * dy == kb * dy);
    lemma_scaled_square_sub(d, ka, vax, vay, dx, dy);
    lemma_scaled_square_add(d, kb, vbx, vby, dx, dy);
    let ea = (d * d) * a2 - 2 * ((d * ka) * pa) + (ka * ka) * s;
    let eb = (d * d) * b2 + 2 * ((d * kb) * pb) + (kb * kb) * s;
    assert(uax * uax + uay * uay == ea);
    assert(ubx * ubx + uby * uby == eb);
    // With x = m_a m_b c: m_a k_a = m_b k_b = 2x.
    let x = ma * mb * c;
    assert(ma * ka == 2 * x && mb * kb == 2 * x) by (nonlinear_arith)
        requires
            ka == 2 * mb * c,
            kb == 2 * ma * c,
            x == ma * mb * c,
    {
    }
    assert(ma * ((d * ka) * pa) == (2 * x) * (d * pa) && mb * ((d * kb) * pb) == (2 * x) * (d
        * pb)) by (nonlinear_arith)
        requires
            ma * ka == 2 * x,
            mb * kb == 2 * x,
    {
    }
    assert(ma * ((ka * ka) * s) == (2 * x) * (ka * s) && mb * ((kb * kb) * s) == (2 * x) * (kb
        * s)) by (nonlinear_arith)
        requires
            ma * ka == 2 * x,
            mb * kb == 2 * x,
    {
    }
    lemma_mul_sum(d, pa, pb);
    lemma_mul_sum(2 * x, d * pa, d * pb);
    lemma_mul_sum(2 * x, ka * s, kb * s);
    assert(ka * s + kb * s == 2 * c * d) by (nonlinear_arith)
        requires
            ka == 2 * mb * c,
            kb == 2 * ma * c,
            d == (ma + mb) * s,
    {
    }
    lemma_mul_sum(ma, (d * d) * a2 - 2 * ((d * ka) * pa), (ka * ka) * s);
    lemma_mul_sum(ma, (d * d) * a2, 2 * ((d * ka) * pa));
    lemma_mul_sum(mb, (d * d) * b2 + 2 * ((d * kb) * pb), (kb * kb) * s);
    lemma_mul_sum(mb, (d * d) * b2, 2 * ((d * kb) * pb));
    assert(ma * ((d * d) * a2) + mb * ((d * d) * b2) == d * d * (ma * a2 + mb * b2))
        by (nonlinear_arith);
    lemma_mul_twice(ma, (d * ka) * pa);
    lemma_mul_twice(mb, (d * kb) * pb);
    assert((2 * x) * (2 * c * d) == 2 * ((2 * x) * (d * c))) by (nonlinear_arith);
    assert(d * pa - d * pb == d * c);
}

/// Kinetic-energy conservation of the collision law: for a pair at least
/// `impact_floor` apart, the exact elastic update (scaled by its common
/// denominator) keeps the pair's kinetic energy, and each computed velocity
/// component is that exact value rounded toward zero by less than one unit.
pub proof fn lemma_collision_energy(a: Particle, b: Particle)
    requires
        a.wf(),
        b.wf(),
        bounce_in_range(a, b),
        dist_sq(a, b) >= impact_floor(a, b),
    ensures
        a.mass * (exact_a(a, b, a.vel_x as int, sep_x(a, b)) * exact_a(a, b, a.vel_x as int, sep_x(a, b))
            + exact_a(a, b, a.vel_y as int, sep_y(a, b)) * exact_a(a, b, a.vel_y as int, sep_y(a, b)))
            + b.mass * (exact_b(a, b, b.vel_x as int, sep_x(a, b)) * exact_b(a, b, b.vel_x as int, sep_x(a, b))
            + exact_b(a, b, b.vel_y as int, sep_y(a, b)) * exact_b(a, b, b.vel_y as int, sep_y(a, b)))
            == bounce_denom(a, b) * bounce_denom(a, b) * kinetic2(a, b),
        -bounce_denom(a, b) < bounce_denom(a, b) * collision_pair(a, b).0.vel_x - exact_a(a, b, a.vel_x as int, sep_x(a, b)) < bounce_denom(a, b),
        -bounce_denom(a, b) < bounce_denom(a, b) * collision_pair(a, b).0.vel_y - exact_a(a, b, a.vel_y as int, sep_y(a, b)) < bounce_denom(a, b),
        -bounce_denom(a, b) < bounce_denom(a, b) * collision_pair(a, b).1.vel_x - exact_b(a, b, b.vel_x as int, sep_x(a, b)) < bounce_denom(a, b),
        -bounce_denom(a, b) < bounce_denom(a, b) * collision_pair(a, b).1.vel_y - exact_b(a, b, b.vel_y as int, sep_y(a, b)) < bounce_denom(a, b),
{
    lemma_energy_identity(
        a.mass as int,
        b.mass as int,
        a.vel_x as int,
        a.vel_y as int,
        b.vel_x as int,
        b.vel_y as int,
        sep_x(a, b),
        sep_y(a, b),
    );
    let d = bounce_denom(a, b);
    assert(impact_sq(a, b) == dist_sq(a, b));
    assert(a.radius * a.radius >= 1 && b.radius * b.radius >= 1) by (nonlinear_arith)
        requires
            a.radius >= 1,
            b.radius >= 1,
    {
    }
    assert(d >= 1) by (nonlinear_arith)
        requires
            a.mass + b.mass >= 2,
            dist_sq(a, b) >= 2,
            d == (a.mass + b.mass) * dist_sq(a, b),
    {
    }
    let c = closing(a, b);
    let r = collision_pair(a, b);
    let nax = 2 * b.mass * c * sep_x(a, b);
    let nay = 2 * b.mass * c * sep_y(a, b);
    let nbx = 2 * a.mass * c * sep_x(a, b);
    let nby = 2 * a.mass * c * sep_y(a, b);
    lemma_trunc_div_residual(nax, d);
    lemma_trunc_div_residual(nay, d);
    lemma_trunc_div_residual(nbx, d);
    lemma_trunc_div_residual(nby, d);
    assert(r.0.vel_x == a.vel_x - trunc_div(nax, d));
    assert(r.0.vel_y == a.vel_y - trunc_div(nay, d));
    assert(r.1.vel_x == b.vel_x + trunc_div(nbx, d));
    assert(r.1.vel_y == b.vel_y + trunc_div(nby, d));
    assert(d * (a.vel_x - trunc_div(nax, d)) - (d * a.vel_x - nax) == nax - d * trunc_div(nax, d)) by (nonlinear_arith);
    assert(d * (a.vel_y - trunc_div(nay, d)) - (d * a.vel_y - nay) == nay - d * trunc_div(nay, d)) by (nonlinear_arith);
    assert(d * (b.vel_x + trunc_div(nbx, d)) - (d * b.vel_x + nbx) == -(nbx - d * trunc_div(nbx, d))) by (nonlinear_arith);
    assert(d * (b.vel_y + trunc_div(nby, d)) - (d * b.vel_y + nby) == -(nby - d * trunc_div(nby, d))) by (nonlinear_arith);
}

/// The body is at rest.
pub open spec fn at_rest(b: Particle) -> bool {
    b.vel_x == 0 && b.vel_y == 0
}

proof fn lemma_zero_quotient(d: int)
    requires
        d >= 1,
    ensures
        trunc_div(0, d) == 0,
{
    assert(0int / d == 0) by (nonlinear_arith)
        requires
            d >= 1,
    {
    }
}

/// A body at rest stays where it is, and at rest, through the per-body pass.
proof fn lemma_settle_at_rest(b: Particle, p: SysParams)
    requires
        b.wf(),
        at_rest(b),
        p.settings_wf(),
    ensures
        settle(b, p) == b,
{
    lemma_zero_quotient(DAMPING_DENOM as int);
    assert(b.vel_x * (DAMPING_DENOM - p.d_val) == 0 && b.vel_y * (DAMPING_DENOM - p.d_val) == 0)
        by (nonlinear_arith)
        requires
            b.vel_x == 0,
            b.vel_y == 0,
    {
    }
    assert(speed_sq(b) == 0) by (nonlinear_arith)
        requires
            b.vel_x == 0,
            b.vel_y == 0,
            speed_sq(b) == b.vel_x * b.vel_x + b.vel_y * b.vel_y,
    {
    }
    let d = if p.damping_on {
        damped(b, p.d_val as int)
    } else {
        b
    };
    assert(d == b);
    assert(p.c_val * p.c_val >= 1) by (nonlinear_arith)
        requires
            p.c_val >= 1,
    {
    }
    assert(speed_limited(b, p.c_val as int) == b);
    assert(integrated(b, p.c_val as int) == b);
}

/// Non-penetration under stepping: with gravity and electrostatics off and
/// collisions on, one tick of two overlapping bodies at rest strictly
/// increases the squared distance between their centres and leaves both at
/// rest, so the next tick does so again while they overlap; provided the
/// push does not saturate.
pub proof fn lemma_step_separates_resting_pair(a: Particle, b: Particle, p: SysParams)
    requires
        a.wf(),
        b.wf(),
        p.settings_wf(),
        !p.gravity_on,
        !p.elec_on,
        p.collisions_on,
        at_rest(a),
        at_rest(b),
        overlap(a, b) > 0,
        push_in_range(a, b),
    ensures
        stepped(seq![a, b], p).len() == 2,
        stepped(seq![a, b], p)[0].wf(),
        stepped(seq![a, b], p)[1].wf(),
        at_rest(stepped(seq![a, b], p)[0]),
        at_rest(stepped(seq![a, b], p)[1]),
        stepped(seq![a, b], p)[0].radius == a.radius,
        stepped(seq![a, b], p)[1].radius == b.radius,
        stepped(seq![a, b], p)[0].mass == a.mass,
        stepped(seq![a, b], p)[1].mass == b.mass,
        dist_sq(stepped(seq![a, b], p)[0], stepped(seq![a, b], p)[1]) >= dist_sq(a, b) + 1,
        dist_sq(stepped(seq![a, b], p)[0], stepped(seq![a, b], p)[1]) <= (a.radius + b.radius) * (
        a.radius + b.radius),
{
    let s = seq![a, b];
    // Both at rest: the collision exchanges no momentum.
    assert(closing(a, b) == 0) by (nonlinear_arith)
        requires
            a.vel_x == 0,
            a.vel_y == 0,
            b.vel_x == 0,
            b.vel_y == 0,
            closing(a, b) == sep_x(a, b) * (a.vel_x - b.vel_x) + sep_y(a, b) * (a.vel_y - b.vel_y),
    {
    }
    let den = (a.mass + b.mass) * impact_sq(a, b);
    assert(a.radius * a.radius >= 1 && b.radius * b.radius >= 1) by (nonlinear_arith)
        requires
            a.radius >= 1,
            b.radius >= 1,
    {
    }
    assert(den >= 1) by (nonlinear_arith)
        requires
            a.mass + b.mass >= 2,
            impact_sq(a, b) >= 2,
            den == (a.mass + b.mass) * impact_sq(a, b),
    {
    }
    lemma_zero_quotient(den);
    let c = closing(a, b);
    let (ma, mb, dx, dy) = (a.mass as int, b.mass as int, sep_x(a, b), sep_y(a, b));
    assert(2 * mb * c * dx == 0 && 2 * mb * c * dy == 0 && 2 * ma * c * dx == 0 && 2 * ma * c * dy
        == 0) by (nonlinear_arith)
        requires
            c == 0,
    {
    }
    assert(bounce(mb, a, b, dx) == 0 && bounce(mb, a, b, dy) == 0);
    assert(bounce(ma, a, b, dx) == 0 && bounce(ma, a, b, dy) == 0);
    assert(overlap(a, b) > 0 ==> touching(a, b)) by {
        let q = dist_sq(a, b);
        let rr = a.radius + b.radius;
        assert(q >= 0) by (nonlinear_arith)
            requires
                q == sep_x(a, b) * sep_x(a, b) + sep_y(a, b) * sep_y(a, b),
        {
        }
        lemma_ceil_sqrt(q as nat);
        let c = ceil_sqrt(q as nat) as int;
        assert(q <= rr * rr) by (nonlinear_arith)
            requires
                c < rr,
                q <= c * c,
                c >= 0,
        {
        }
    }
    let r = collision_pair(a, b);
    lemma_collision_push(a, b);
    assert(interact(a, b, p) == r);
    assert(sweep_row(s, p, 0, 1) == s);
    assert(sweep_row(s, p, 0, 2) == pair_step(s, p, 0, 1));
    assert(sweep(s, p, 1) == sweep_row(sweep(s, p, 0), p, 0, 2));
    assert(sweep(s, p, 1) == pair_step(s, p, 0, 1));
    assert(sweep_row(sweep(s, p, 1), p, 1, 2) == sweep(s, p, 1));
    assert(sweep(s, p, 2) == sweep(s, p, 1));
    let mid = sweep(s, p, 2);
    assert(mid =~= seq![r.0, r.1]);
    assert(r.0.wf() && r.1.wf());
    assert(at_rest(r.0) && at_rest(r.1));
    lemma_settle_at_rest(r.0, p);
    lemma_settle_at_rest(r.1, p);
    assert(stepped(s, p) =~= seq![r.0, r.1]);
}

} // verus!
