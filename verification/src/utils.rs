use vstd::prelude::*;
use crate::vector::{Vec2, saturate, saturated, quotient, span_product, SPAN};
use crate::store::{ParticleStore, ParticleRecord, StoreError};

verus! {

/// Why a pair of particles was not resolved.
#[derive(Clone, Copy, Debug, PartialEq, Eq, Structural)]
pub enum CollisionError {
    /// The two centres coincide, so there is no line of centres.
    DegenerateCollision,
}

/// Record `index` of the store.
pub fn get_entity(index: usize, store: &ParticleStore) -> (result: Result<
    ParticleRecord,
    StoreError,
>)
    ensures
        index < store@.count() ==> result == Ok::<ParticleRecord, StoreError>(
            store@.record(index as int),
        ),
        index >= store@.count() ==> result == Err::<ParticleRecord, StoreError>(
            StoreError::IndexOutOfRange,
        ),
{
    store.record(index)
}

/// One component of the change of velocity in an elastic collision. With
/// `along` the relative velocity times the line of centres, `d` this
/// component of the line of centres and `d2` its squared length, the
/// velocity along the line of centres is `along * d / d2`; the particle
/// takes the share `2 * other_mass / total_mass` of it. Both quotients are
/// rounded toward zero.
pub open spec fn impulse(along: int, d: int, d2: int, other_mass: int, total_mass: int) -> int {
    quotient(2 * other_mass * quotient(along * d, d2), total_mass)
}

/// The velocity after an elastic collision of the particle with velocity
/// `v1` at `s1` and mass `m1`, with the particle with velocity `v2` at `s2`
/// and mass `m2`: `v1 - (2 m2 / (m1 + m2)) ((v1 - v2).(s1 - s2) / |s1 - s2|^2) (s1 - s2)`,
/// each component held to the range of coordinates.
pub open spec fn rebound(v1: Vec2, v2: Vec2, s1: Vec2, s2: Vec2, m1: int, m2: int) -> Vec2 {
    let exact = rebound_exact(v1, v2, s1, s2, m1, m2);
    Vec2 { x: saturate(exact.0), y: saturate(exact.1) }
}

/// The components of `rebound` before they are held to the range of
/// coordinates.
pub open spec fn rebound_exact(v1: Vec2, v2: Vec2, s1: Vec2, s2: Vec2, m1: int, m2: int) -> (
    int,
    int,
) {
    let dx = s1.x - s2.x;
    let dy = s1.y - s2.y;
    let d2 = dx * dx + dy * dy;
    let along = (v1.x - v2.x) * dx + (v1.y - v2.y) * dy;
    (v1.x - impulse(along, dx, d2, m2, m1 + m2), v1.y - impulse(along, dy, d2, m2, m1 + m2))
}

/// The velocity along the line of centres is no more than twice the
/// relative velocity.
proof fn lemma_along_bound(a: int, b: int, dx: int, dy: int, d: int)
    requires
        -SPAN <= a <= SPAN,
        -SPAN <= b <= SPAN,
        d == dx || d == dy,
        dx * dx + dy * dy > 0,
    ensures
        -2 * SPAN <= quotient((a * dx + b * dy) * d, dx * dx + dy * dy) <= 2 * SPAN,
{
    let d2 = dx * dx + dy * dy;
    let n = (a * dx + b * dy) * d;
    let bound = 2 * SPAN * d2;
    assert(-bound <= n <= bound) by (nonlinear_arith)
        requires
            bound == 2 * SPAN * d2,
            -SPAN <= a <= SPAN,
            -SPAN <= b <= SPAN,
            d == dx || d == dy,
            d2 == dx * dx + dy * dy,
            n == (a * dx + b * dy) * d,
    ;
    if n >= 0 {
        assert(n / d2 <= 2 * SPAN) by (nonlinear_arith)
            requires
                0 <= n <= bound,
                bound == 2 * SPAN * d2,
                d2 > 0,
        ;
        assert(n / d2 >= 0) by (nonlinear_arith)
            requires
                0 <= n,
                d2 > 0,
        ;
    } else {
        assert((-n) / d2 <= 2 * SPAN) by (nonlinear_arith)
            requires
                0 <= -n <= bound,
                bound == 2 * SPAN * d2,
                d2 > 0,
        ;
        assert((-n) / d2 >= 0) by (nonlinear_arith)
            requires
                0 <= -n,
                d2 > 0,
        ;
    }
}

/// The quotient of `a` by a positive `b`, rounded toward zero.
fn divide(a: i128, b: i128) -> (q: i128)
    requires
        b > 0,
        a > i128::MIN,
    ensures
        q == quotient(a as int, b as int),
        a >= 0 ==> 0 <= q <= a,
        a <= 0 ==> a <= q <= 0,
{
    proof {
        if a >= 0 {
            assert(0 <= a as int / b as int <= a) by (nonlinear_arith)
                requires
                    a >= 0,
                    b > 0,
            ;
        } else {
            assert(0 <= (-a) as int / b as int <= -a) by (nonlinear_arith)
                requires
                    -a >= 0,
                    b > 0,
            ;
        }
    }
    a / b
}

/// One component of the change of velocity; see `impulse`.
fn impulse_of(a: i128, b: i128, dx: i128, dy: i128, d: i128, other_mass: i64, total_mass: i128) -> (k:
    i128)
    requires
        -SPAN <= a <= SPAN,
        -SPAN <= b <= SPAN,
        -SPAN <= dx <= SPAN,
        -SPAN <= dy <= SPAN,
        d == dx || d == dy,
        dx * dx + dy * dy > 0,
        0 < other_mass,
        other_mass < total_mass,
    ensures
        k == impulse(a * dx + b * dy, d as int, dx * dx + dy * dy, other_mass as int, total_mass as int),
        -4 * SPAN * 0x8000_0000_0000_0000 <= k <= 4 * SPAN * 0x8000_0000_0000_0000,
{
    let d2 = span_product(dx, dx) + span_product(dy, dy);
    let along = span_product(a, dx) + span_product(b, dy);
    assert(-2 * SPAN * SPAN * SPAN <= along * d <= 2 * SPAN * SPAN * SPAN) by (nonlinear_arith)
        requires
            -2 * SPAN * SPAN <= along <= 2 * SPAN * SPAN,
            -SPAN <= d <= SPAN,
    ;
    let q = divide(along * d, d2);
    proof {
        lemma_along_bound(a as int, b as int, dx as int, dy as int, d as int);
    }
    let m: i128 = other_mass as i128;
    assert(-4 * SPAN * 0x8000_0000_0000_0000 <= 2 * m * q <= 4 * SPAN * 0x8000_0000_0000_0000)
        by (nonlinear_arith)
        requires
            0 < m <= 0x8000_0000_0000_0000,
            -2 * SPAN <= q <= 2 * SPAN,
    ;
    divide(2 * m * q, total_mass)
}

/// The velocity of the first particle after the collision; see `rebound`.
fn rebound_of(v1: Vec2, v2: Vec2, s1: Vec2, s2: Vec2, m1: i64, m2: i64) -> (v: Vec2)
    requires
        s1 != s2,
        m1 > 0,
        m2 > 0,
    ensures
        v == rebound(v1, v2, s1, s2, m1 as int, m2 as int),
{
    let dx: i128 = s1.x as i128 - s2.x as i128;
    let dy: i128 = s1.y as i128 - s2.y as i128;
    let a: i128 = v1.x as i128 - v2.x as i128;
    let b: i128 = v1.y as i128 - v2.y as i128;
    let total: i128 = m1 as i128 + m2 as i128;
    assert(dx * dx + dy * dy > 0) by (nonlinear_arith)
        requires
            dx != 0 || dy != 0,
    ;
    let kx = impulse_of(a, b, dx, dy, dx, m2, total);
    let ky = impulse_of(a, b, dx, dy, dy, m2, total);
    Vec2 { x: saturated(v1.x as i128 - kx), y: saturated(v1.y as i128 - ky) }
}

/// Resolves an elastic collision of two particles with velocities `v1`,
/// `v2`, centres `s1`, `s2` and masses `m1`, `m2`, and returns their new
/// velocities. Two particles with one and the same centre are refused.
pub fn process_collision(v1: Vec2, v2: Vec2, s1: Vec2, s2: Vec2, m1: i64, m2: i64) -> (result:
    Result<(Vec2, Vec2), CollisionError>)
    requires
        m1 > 0,
        m2 > 0,
    ensures
        s1 == s2 ==> result == Err::<(Vec2, Vec2), CollisionError>(
            CollisionError::DegenerateCollision,
        ),
        s1 != s2 ==> result == Ok::<(Vec2, Vec2), CollisionError>(
            (
                rebound(v1, v2, s1, s2, m1 as int, m2 as int),
                rebound(v2, v1, s2, s1, m2 as int, m1 as int),
            ),
        ),
{
    if s1.x == s2.x && s1.y == s2.y {
        return Err(CollisionError::DegenerateCollision);
    }
    Ok((rebound_of(v1, v2, s1, s2, m1, m2), rebound_of(v2, v1, s2, s1, m2, m1)))
}

/// The vertex indices of a circle drawn as a fan of `point_count` triangles
/// round vertex 0, the centre: triangle `i` has the vertices `0, i, i + 1`,
/// and a last triangle `0, point_count, 1` closes the fan.
pub open spec fn fan_indices(point_count: u32) -> Seq<u32> {
    Seq::new(
        3 * point_count as nat + 3,
        |k: int|
            if k >= 3 * point_count {
                if k % 3 == 0 {
                    0u32
                } else if k % 3 == 1 {
                    point_count
                } else {
                    1u32
                }
            } else if k % 3 == 0 {
                0u32
            } else if k % 3 == 1 {
                (k / 3) as u32
            } else {
                (k / 3 + 1) as u32
            },
    )
}

/// The vertex indices of a circle of `point_count` points; see `fan_indices`.
pub fn circle_indices(point_count: u32) -> (indices: Vec<u32>)
    ensures
        indices@ == fan_indices(point_count),
{
    let mut indices: Vec<u32> = Vec::new();
    let mut i: u32 = 0;
    while i < point_count
        invariant
            i <= point_count,
            indices@.len() == 3 * i,
            forall|k: int| 0 <= k < indices@.len() ==> indices@[k] == fan_indices(point_count)[k],
        decreases point_count - i,
    {
        indices.push(0);
        indices.push(i);
        indices.push(i + 1);
        i += 1;
    }
    indices.push(0);
    indices.push(point_count);
    indices.push(1);
    indices
}

} // verus!
