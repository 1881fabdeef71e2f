//! What an elastic collision conserves: momentum, up to the rounding of the
//! quotients, and kinetic energy where nothing is rounded.

use vstd::prelude::*;
use crate::vector::{Vec2, quotient};
use crate::utils::{rebound, rebound_exact};

verus! {

/// One component of the relative velocity along the line of centres:
/// `((v1 - v2).(s1 - s2)) d / |s1 - s2|^2`, rounded toward zero, with `d` the
/// x component of `s1 - s2` or, for `vertical`, the y component.
pub open spec fn along_centres(v1: Vec2, v2: Vec2, s1: Vec2, s2: Vec2, vertical: bool) -> int {
    let dx = s1.x - s2.x;
    let dy = s1.y - s2.y;
    let along = (v1.x - v2.x) * dx + (v1.y - v2.y) * dy;
    quotient(along * (if vertical { dy } else { dx }), dx * dx + dy * dy)
}

/// The share of `q` that a particle takes whose partner has the mass `other`,
/// of the total mass `total`: `2 other q / total`, rounded toward zero.
pub open spec fn share(q: int, other: int, total: int) -> int {
    quotient(2 * other * q, total)
}

/// The larger of two masses.
pub open spec fn larger_mass(m1: int, m2: int) -> int {
    if m1 >= m2 {
        m1
    } else {
        m2
    }
}

/// Rounding toward zero is the same on both sides of zero.
pub proof fn lemma_quotient_odd(a: int, b: int)
    requires
        b > 0,
    ensures
        quotient(-a, b) == -quotient(a, b),
{
    if a == 0 {
        assert(0int / b == 0) by (nonlinear_arith)
            requires
                b > 0,
        ;
    }
}

/// A quotient rounded toward zero is less than one away from the true one,
/// on the side of zero.
pub proof fn lemma_quotient_near(a: int, b: int)
    requires
        b > 0,
    ensures
        a >= 0 ==> b * quotient(a, b) <= a < b * quotient(a, b) + b,
        a <= 0 ==> b * quotient(a, b) - b < a <= b * quotient(a, b),
{
    if a >= 0 {
        assert(b * (a / b) <= a < b * (a / b) + b) by (nonlinear_arith)
            requires
                b > 0,
        ;
    } else {
        let n = -a;
        assert(b * (n / b) <= n < b * (n / b) + b) by (nonlinear_arith)
            requires
                b > 0,
        ;
        assert(b * (-(n / b)) == -(b * (n / b))) by (nonlinear_arith);
    }
}

/// What the two particles exchange: the first gives up its share of the
/// relative velocity along the line of centres, and the second gains its own
/// share of the same.
pub proof fn lemma_exchange(v1: Vec2, v2: Vec2, s1: Vec2, s2: Vec2, m1: int, m2: int)
    requires
        s1 != s2,
        m1 + m2 > 0,
    ensures
        rebound_exact(v1, v2, s1, s2, m1, m2) == (
            v1.x - share(along_centres(v1, v2, s1, s2, false), m2, m1 + m2),
            v1.y - share(along_centres(v1, v2, s1, s2, true), m2, m1 + m2),
        ),
        rebound_exact(v2, v1, s2, s1, m2, m1) == (
            v2.x + share(along_centres(v1, v2, s1, s2, false), m1, m1 + m2),
            v2.y + share(along_centres(v1, v2, s1, s2, true), m1, m1 + m2),
        ),
        (s1.x - s2.x) * (s1.x - s2.x) + (s1.y - s2.y) * (s1.y - s2.y) > 0,
{
    let dx = s1.x - s2.x;
    let dy = s1.y - s2.y;
    let d2 = dx * dx + dy * dy;
    let along = (v1.x - v2.x) * dx + (v1.y - v2.y) * dy;
    let back = (v2.x - v1.x) * (s2.x - s1.x) + (v2.y - v1.y) * (s2.y - s1.y);
    let e2 = (s2.x - s1.x) * (s2.x - s1.x) + (s2.y - s1.y) * (s2.y - s1.y);
    assert(back == along && e2 == d2 && d2 > 0) by (nonlinear_arith)
        requires
            dx == s1.x - s2.x,
            dy == s1.y - s2.y,
            d2 == dx * dx + dy * dy,
            along == (v1.x - v2.x) * dx + (v1.y - v2.y) * dy,
            back == (v2.x - v1.x) * (s2.x - s1.x) + (v2.y - v1.y) * (s2.y - s1.y),
            e2 == (s2.x - s1.x) * (s2.x - s1.x) + (s2.y - s1.y) * (s2.y - s1.y),
            dx != 0 || dy != 0,
    ;
    let qx = quotient(along * dx, d2);
    let qy = quotient(along * dy, d2);
    assert(along * (s2.x - s1.x) == -(along * dx) && along * (s2.y - s1.y) == -(along * dy))
        by (nonlinear_arith)
        requires
            dx == s1.x - s2.x,
            dy == s1.y - s2.y,
    ;
    lemma_quotient_odd(along * dx, d2);
    lemma_quotient_odd(along * dy, d2);
    assert(2 * m1 * (-qx) == -(2 * m1 * qx) && 2 * m1 * (-qy) == -(2 * m1 * qy))
        by (nonlinear_arith);
    lemma_quotient_odd(2 * m1 * qx, m1 + m2);
    lemma_quotient_odd(2 * m1 * qy, m1 + m2);
}

/// The two shares balance, up to rounding: what the second particle gains in
/// momentum differs from what the first gives up by less than the larger of
/// the two masses.
pub proof fn lemma_shares_balance(q: int, m1: int, m2: int)
    requires
        m1 > 0,
        m2 > 0,
    ensures
        -larger_mass(m1, m2) < m2 * share(q, m1, m1 + m2) - m1 * share(q, m2, m1 + m2)
            < larger_mass(m1, m2),
        q >= 0 ==> -m2 < m2 * share(q, m1, m1 + m2) - m1 * share(q, m2, m1 + m2) < m1,
        q <= 0 ==> -m1 < m2 * share(q, m1, m1 + m2) - m1 * share(q, m2, m1 + m2) < m2,
{
    let total = m1 + m2;
    let a1 = 2 * m2 * q;
    let a2 = 2 * m1 * q;
    let k1 = share(q, m2, total);
    let k2 = share(q, m1, total);
    lemma_quotient_near(a1, total);
    lemma_quotient_near(a2, total);
    assert(m1 * a1 == m2 * a2) by (nonlinear_arith)
        requires
            a1 == 2 * m2 * q,
            a2 == 2 * m1 * q,
    ;
    assert((q >= 0 ==> a1 >= 0 && a2 >= 0) && (q <= 0 ==> a1 <= 0 && a2 <= 0))
        by (nonlinear_arith)
        requires
            a1 == 2 * m2 * q,
            a2 == 2 * m1 * q,
            m1 > 0,
            m2 > 0,
    ;
    let t1 = total * k1;
    let t2 = total * k2;
    let gap = m2 * k2 - m1 * k1;
    assert(total * gap == m2 * t2 - m1 * t1) by (nonlinear_arith)
        requires
            t1 == total * k1,
            t2 == total * k2,
            gap == m2 * k2 - m1 * k1,
    ;
    if q >= 0 {
        // t1 in (a1 - total, a1], t2 in (a2 - total, a2]
        assert(m2 * t2 <= m2 * a2 && m2 * t2 > m2 * a2 - m2 * total) by (nonlinear_arith)
            requires
                t2 <= a2 < t2 + total,
                m2 > 0,
        ;
        assert(m1 * t1 <= m1 * a1 && m1 * t1 > m1 * a1 - m1 * total) by (nonlinear_arith)
            requires
                t1 <= a1 < t1 + total,
                m1 > 0,
        ;
        assert(-m2 < gap < m1) by (nonlinear_arith)
            requires
                -(m2 * total) < total * gap < m1 * total,
                total > 0,
        ;
    } else {
        assert(m2 * t2 >= m2 * a2 && m2 * t2 < m2 * a2 + m2 * total) by (nonlinear_arith)
            requires
                t2 - total < a2 <= t2,
                m2 > 0,
        ;
        assert(m1 * t1 >= m1 * a1 && m1 * t1 < m1 * a1 + m1 * total) by (nonlinear_arith)
            requires
                t1 - total < a1 <= t1,
                m1 > 0,
        ;
        assert(-m1 < gap < m2) by (nonlinear_arith)
            requires
                -(m1 * total) < total * gap < m2 * total,
                total > 0,
        ;
    }
}

/// Conservation of momentum, up to rounding: after a collision the total
/// momentum differs from what it was by less than the larger of the two
/// masses, in each component, as long as no component of a velocity leaves the
/// range of coordinates. The difference comes from rounding the two shares
/// toward zero.
pub proof fn lemma_momentum_within_rounding(
    v1: Vec2,
    v2: Vec2,
    s1: Vec2,
    s2: Vec2,
    m1: int,
    m2: int,
)
    requires
        m1 > 0,
        m2 > 0,
        s1 != s2,
    ensures
        ({
            let a = rebound_exact(v1, v2, s1, s2, m1, m2);
            let b = rebound_exact(v2, v1, s2, s1, m2, m1);
            &&& -larger_mass(m1, m2) < (m1 * a.0 + m2 * b.0) - (m1 * v1.x + m2 * v2.x)
                < larger_mass(m1, m2)
            &&& -larger_mass(m1, m2) < (m1 * a.1 + m2 * b.1) - (m1 * v1.y + m2 * v2.y)
                < larger_mass(m1, m2)
        }),
{
    let qx = along_centres(v1, v2, s1, s2, false);
    let qy = along_centres(v1, v2, s1, s2, true);
    let total = m1 + m2;
    lemma_exchange(v1, v2, s1, s2, m1, m2);
    lemma_shares_balance(qx, m1, m2);
    lemma_shares_balance(qy, m1, m2);
    let k1x = share(qx, m2, total);
    let k2x = share(qx, m1, total);
    let k1y = share(qy, m2, total);
    let k2y = share(qy, m1, total);
    assert(m1 * (v1.x - k1x) + m2 * (v2.x + k2x) - (m1 * v1.x + m2 * v2.x) == m2 * k2x - m1 * k1x)
        by (nonlinear_arith);
    assert(m1 * (v1.y - k1y) + m2 * (v2.y + k2y) - (m1 * v1.y + m2 * v2.y) == m2 * k2y - m1 * k1y)
        by (nonlinear_arith);
}

/// Conservation of momentum: two particles of one and the same mass leave a
/// collision with exactly the sum of the velocities that they came with, as
/// long as no component leaves the range of coordinates.
pub proof fn lemma_equal_masses_keep_momentum(v1: Vec2, v2: Vec2, s1: Vec2, s2: Vec2, m: int)
    requires
        m > 0,
        s1 != s2,
    ensures
        rebound_exact(v1, v2, s1, s2, m, m).0 + rebound_exact(v2, v1, s2, s1, m, m).0 == v1.x
            + v2.x,
        rebound_exact(v1, v2, s1, s2, m, m).1 + rebound_exact(v2, v1, s2, s1, m, m).1 == v1.y
            + v2.y,
        ({
            let a = rebound_exact(v1, v2, s1, s2, m, m);
            let b = rebound_exact(v2, v1, s2, s1, m, m);
            i32::MIN <= a.0 <= i32::MAX && i32::MIN <= a.1 <= i32::MAX && i32::MIN <= b.0
                <= i32::MAX && i32::MIN <= b.1 <= i32::MAX ==> {
                &&& rebound(v1, v2, s1, s2, m, m).x + rebound(v2, v1, s2, s1, m, m).x == v1.x
                    + v2.x
                &&& rebound(v1, v2, s1, s2, m, m).y + rebound(v2, v1, s2, s1, m, m).y == v1.y
                    + v2.y
            }
        }),
{
    lemma_exchange(v1, v2, s1, s2, m, m);
}

/// A multiple divided by its factor is the other factor.
pub proof fn lemma_quotient_of_multiple(a: int, b: int)
    requires
        b > 0,
    ensures
        quotient(b * a, b) == a,
{
    if a >= 0 {
        assert(b * a >= 0 && (b * a) / b == a) by (nonlinear_arith)
            requires
                b > 0,
                a >= 0,
        ;
    } else {
        assert(b * a < 0 && (-(b * a)) / b == -a) by (nonlinear_arith)
            requires
                b > 0,
                a < 0,
        ;
    }
}

/// Nothing is rounded in the collision: the relative velocity along the line
/// of centres is a whole number in both components, and so is each particle's
/// share of it.
pub open spec fn nothing_rounded(v1: Vec2, v2: Vec2, s1: Vec2, s2: Vec2, m1: int, m2: int) -> bool {
    let dx = s1.x - s2.x;
    let dy = s1.y - s2.y;
    let d2 = dx * dx + dy * dy;
    let along = (v1.x - v2.x) * dx + (v1.y - v2.y) * dy;
    let qx = along_centres(v1, v2, s1, s2, false);
    let qy = along_centres(v1, v2, s1, s2, true);
    &&& qx * d2 == along * dx
    &&& qy * d2 == along * dy
    &&& share(qx, m2, m1 + m2) * (m1 + m2) == 2 * m2 * qx
    &&& share(qy, m2, m1 + m2) * (m1 + m2) == 2 * m2 * qy
    &&& share(qx, m1, m1 + m2) * (m1 + m2) == 2 * m1 * qx
    &&& share(qy, m1, m1 + m2) * (m1 + m2) == 2 * m1 * qy
}

/// Conservation of momentum and of kinetic energy: where nothing is rounded,
/// two particles leave a collision with the total momentum and the total of
/// mass times squared velocity that they came with, as long as no component
/// leaves the range of coordinates.
pub proof fn lemma_exact_collision_conserves(
    v1: Vec2,
    v2: Vec2,
    s1: Vec2,
    s2: Vec2,
    m1: int,
    m2: int,
)
    requires
        m1 > 0,
        m2 > 0,
        s1 != s2,
        nothing_rounded(v1, v2, s1, s2, m1, m2),
    ensures
        ({
            let a = rebound_exact(v1, v2, s1, s2, m1, m2);
            let b = rebound_exact(v2, v1, s2, s1, m2, m1);
            &&& m1 * a.0 + m2 * b.0 == m1 * v1.x + m2 * v2.x
            &&& m1 * a.1 + m2 * b.1 == m1 * v1.y + m2 * v2.y
            &&& m1 * (a.0 * a.0 + a.1 * a.1) + m2 * (b.0 * b.0 + b.1 * b.1) == m1 * (v1.x * v1.x
                + v1.y * v1.y) + m2 * (v2.x * v2.x + v2.y * v2.y)
        }),
{
    let dx = s1.x - s2.x;
    let dy = s1.y - s2.y;
    let d2 = dx * dx + dy * dy;
    let ux = v1.x - v2.x;
    let uy = v1.y - v2.y;
    let along = ux * dx + uy * dy;
    let total = m1 + m2;
    let qx = along_centres(v1, v2, s1, s2, false);
    let qy = along_centres(v1, v2, s1, s2, true);
    let k1x = share(qx, m2, total);
    let k1y = share(qy, m2, total);
    let k2x = share(qx, m1, total);
    let k2y = share(qy, m1, total);
    lemma_exchange(v1, v2, s1, s2, m1, m2);
    // the momentum that changes hands
    let jx = m1 * k1x;
    let jy = m1 * k1y;
    lemma_handed_over(qx, m1, m2, k1x, k2x);
    lemma_handed_over(qy, m1, m2, k1y, k2y);
    // what is taken from the relative velocity is as long as it is along itself
    lemma_projection(ux, uy, dx, dy, qx, qy);
    let c = 2 * m1 * m2;
    lemma_scaled_dot(total, jx, jy, c, qx, qy, qx, qy);
    lemma_scaled_dot(total, jx, jy, c, qx, qy, ux, uy);
    assert(jx * qx + jy * qy == jx * ux + jy * uy) by (nonlinear_arith)
        requires
            total * (jx * qx + jy * qy) == total * (jx * ux + jy * uy),
            total > 0,
    ;
    lemma_energy_step(v1.x as int, v2.x as int, k1x, k2x, m1, m2, jx, qx);
    lemma_energy_step(v1.y as int, v2.y as int, k1y, k2y, m1, m2, jy, qy);
    assert(2 * (jx * qx) - 2 * (jx * ux) + 2 * (jy * qy) - 2 * (jy * uy) == 0);
    assert(m1 * (v1.x * v1.x + v1.y * v1.y) == m1 * (v1.x * v1.x) + m1 * (v1.y * v1.y)
        && m2 * (v2.x * v2.x + v2.y * v2.y) == m2 * (v2.x * v2.x) + m2 * (v2.y * v2.y))
        by (nonlinear_arith);
    let ax = v1.x - k1x;
    let ay = v1.y - k1y;
    let bx = v2.x + k2x;
    let by = v2.y + k2y;
    assert(m1 * (ax * ax + ay * ay) == m1 * (ax * ax) + m1 * (ay * ay) && m2 * (bx * bx + by * by)
        == m2 * (bx * bx) + m2 * (by * by)) by (nonlinear_arith);
}

/// A dot product with a scaled vector: where `t j == c q` in both components,
/// `t (j.w) == c (q.w)`.
proof fn lemma_scaled_dot(t: int, jx: int, jy: int, c: int, qx: int, qy: int, wx: int, wy: int)
    requires
        t * jx == c * qx,
        t * jy == c * qy,
    ensures
        t * (jx * wx + jy * wy) == c * (qx * wx + qy * wy),
{
    assert(t * (jx * wx) == (t * jx) * wx) by (nonlinear_arith);
    assert(t * (jy * wy) == (t * jy) * wy) by (nonlinear_arith);
    assert((c * qx) * wx == c * (qx * wx)) by (nonlinear_arith);
    assert((c * qy) * wy == c * (qy * wy)) by (nonlinear_arith);
    assert(t * (jx * wx + jy * wy) == t * (jx * wx) + t * (jy * wy)) by (nonlinear_arith);
    assert(c * (qx * wx + qy * wy) == c * (qx * wx) + c * (qy * wy)) by (nonlinear_arith);
}

/// Where both shares are whole, the two particles hand over one and the same
/// momentum `j`, the two shares add up to twice the velocity along the line
/// of centres, and `j` is that velocity times `2 m1 m2 / (m1 + m2)`.
proof fn lemma_handed_over(q: int, m1: int, m2: int, k1: int, k2: int)
    requires
        m1 > 0,
        m2 > 0,
        k1 * (m1 + m2) == 2 * m2 * q,
        k2 * (m1 + m2) == 2 * m1 * q,
    ensures
        m1 * k1 == m2 * k2,
        k1 + k2 == 2 * q,
        (m1 + m2) * (m1 * k1) == 2 * m1 * m2 * q,
{
    let total = m1 + m2;
    assert(total * (m1 * k1) == 2 * m1 * m2 * q) by (nonlinear_arith)
        requires
            k1 * total == 2 * m2 * q,
    ;
    assert(total * (m2 * k2) == 2 * m1 * m2 * q) by (nonlinear_arith)
        requires
            k2 * total == 2 * m1 * q,
    ;
    assert(m1 * k1 == m2 * k2) by (nonlinear_arith)
        requires
            total * (m1 * k1) == total * (m2 * k2),
            total > 0,
    ;
    assert(total * (k1 + k2) == total * (2 * q)) by (nonlinear_arith)
        requires
            k1 * total == 2 * m2 * q,
            k2 * total == 2 * m1 * q,
            total == m1 + m2,
    ;
    assert(k1 + k2 == 2 * q) by (nonlinear_arith)
        requires
            total * (k1 + k2) == total * (2 * q),
            total > 0,
    ;
}

/// The whole projection `q` of `u` on `d` is as long as `u` is along it:
/// `q.q == q.u`.
proof fn lemma_projection(ux: int, uy: int, dx: int, dy: int, qx: int, qy: int)
    requires
        dx * dx + dy * dy > 0,
        qx * (dx * dx + dy * dy) == (ux * dx + uy * dy) * dx,
        qy * (dx * dx + dy * dy) == (ux * dx + uy * dy) * dy,
    ensures
        qx * qx + qy * qy == qx * ux + qy * uy,
{
    let d2 = dx * dx + dy * dy;
    let along = ux * dx + uy * dy;
    let took = qx * qx + qy * qy;
    let gave = qx * ux + qy * uy;
    let px = qx * d2;
    let py = qy * d2;
    assert(px * px == along * along * (dx * dx)) by (nonlinear_arith)
        requires
            px == along * dx,
    ;
    assert(py * py == along * along * (dy * dy)) by (nonlinear_arith)
        requires
            py == along * dy,
    ;
    assert(along * along * (dx * dx) + along * along * (dy * dy) == along * along * d2)
        by (nonlinear_arith)
        requires
            d2 == dx * dx + dy * dy,
    ;
    assert(took * d2 * d2 == px * px + py * py) by (nonlinear_arith)
        requires
            px == qx * d2,
            py == qy * d2,
            took == qx * qx + qy * qy,
    ;
    assert(gave * d2 == px * ux + py * uy) by (nonlinear_arith)
        requires
            px == qx * d2,
            py == qy * d2,
            gave == qx * ux + qy * uy,
    ;
    assert(px * ux + py * uy == along * along) by (nonlinear_arith)
        requires
            px == along * dx,
            py == along * dy,
            along == ux * dx + uy * dy,
    ;
    assert(gave * d2 * d2 == along * along * d2) by (nonlinear_arith)
        requires
            gave * d2 == along * along,
    ;
    assert(took == gave) by (nonlinear_arith)
        requires
            took * d2 * d2 == gave * d2 * d2,
            d2 > 0,
    ;
}

/// One component of the change in mass times squared velocity, where the
/// particles hand over the momentum `j` and the shares add up to `2 q`.
proof fn lemma_energy_step(v1: int, v2: int, k1: int, k2: int, m1: int, m2: int, j: int, q: int)
    requires
        j == m1 * k1,
        j == m2 * k2,
        k1 + k2 == 2 * q,
    ensures
        m1 * ((v1 - k1) * (v1 - k1)) + m2 * ((v2 + k2) * (v2 + k2)) == m1 * (v1 * v1) + m2 * (v2
            * v2) + 2 * (j * q) - 2 * (j * (v1 - v2)),
        m1 * (v1 - k1) + m2 * (v2 + k2) == m1 * v1 + m2 * v2,
{
    assert(m1 * ((v1 - k1) * (v1 - k1)) == m1 * (v1 * v1) - 2 * (m1 * k1) * v1 + (m1 * k1) * k1)
        by (nonlinear_arith);
    assert(m2 * ((v2 + k2) * (v2 + k2)) == m2 * (v2 * v2) + 2 * (m2 * k2) * v2 + (m2 * k2) * k2)
        by (nonlinear_arith);
    assert(j * k1 + j * k2 == 2 * (j * q)) by (nonlinear_arith)
        requires
            k1 + k2 == 2 * q,
    ;
    assert(2 * j * v1 - 2 * j * v2 == 2 * (j * (v1 - v2))) by (nonlinear_arith);
    assert(m1 * (v1 - k1) + m2 * (v2 + k2) == m1 * v1 + m2 * v2 - m1 * k1 + m2 * k2)
        by (nonlinear_arith);
}

/// Conservation of kinetic energy for equal masses: where the relative
/// velocity along the line of centres is a whole number in both components,
/// two particles of one and the same mass leave a collision with the squares
/// of their velocities adding up to what they added up to before, as long as
/// no component leaves the range of coordinates.
pub proof fn lemma_equal_masses_keep_energy(v1: Vec2, v2: Vec2, s1: Vec2, s2: Vec2, m: int)
    requires
        m > 0,
        s1 != s2,
        ({
            let dx = s1.x - s2.x;
            let dy = s1.y - s2.y;
            let along = (v1.x - v2.x) * dx + (v1.y - v2.y) * dy;
            &&& along_centres(v1, v2, s1, s2, false) * (dx * dx + dy * dy) == along * dx
            &&& along_centres(v1, v2, s1, s2, true) * (dx * dx + dy * dy) == along * dy
        }),
    ensures
        ({
            let a = rebound_exact(v1, v2, s1, s2, m, m);
            let b = rebound_exact(v2, v1, s2, s1, m, m);
            a.0 * a.0 + a.1 * a.1 + b.0 * b.0 + b.1 * b.1 == v1.x * v1.x + v1.y * v1.y + v2.x
                * v2.x + v2.y * v2.y
        }),
{
    let qx = along_centres(v1, v2, s1, s2, false);
    let qy = along_centres(v1, v2, s1, s2, true);
    assert(2 * m * qx == (m + m) * qx && 2 * m * qy == (m + m) * qy) by (nonlinear_arith);
    lemma_quotient_of_multiple(qx, m + m);
    lemma_quotient_of_multiple(qy, m + m);
    assert(qx * (m + m) == 2 * m * qx && qy * (m + m) == 2 * m * qy) by (nonlinear_arith);
    lemma_exact_collision_conserves(v1, v2, s1, s2, m, m);
    let a = rebound_exact(v1, v2, s1, s2, m, m);
    let b = rebound_exact(v2, v1, s2, s1, m, m);
    let before = v1.x * v1.x + v1.y * v1.y + v2.x * v2.x + v2.y * v2.y;
    let after = a.0 * a.0 + a.1 * a.1 + b.0 * b.0 + b.1 * b.1;
    assert(after == before) by (nonlinear_arith)
        requires
            m * (a.0 * a.0 + a.1 * a.1) + m * (b.0 * b.0 + b.1 * b.1) == m * (v1.x * v1.x + v1.y
                * v1.y) + m * (v2.x * v2.x + v2.y * v2.y),
            after == a.0 * a.0 + a.1 * a.1 + b.0 * b.0 + b.1 * b.1,
            before == v1.x * v1.x + v1.y * v1.y + v2.x * v2.x + v2.y * v2.y,
            m > 0,
    ;
}

} // verus!
