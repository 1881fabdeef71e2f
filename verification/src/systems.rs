use vstd::prelude::*;
use crate::vector::{Vec2, saturate, saturated};
use crate::components::{EntityIndex, Velocity, DeltaTime};
use crate::store::{ParticleStore, ParticleRecord, StoreError};

verus! {

/// Where a coordinate `p` stands after moving with velocity `v` for `dt`:
/// `p + v * dt`, held to the range of coordinates.
pub open spec fn advance(p: i32, v: i32, dt: i32) -> i32 {
    saturate(p + v * dt)
}

/// A position after moving with `vel` for `dt`.
pub open spec fn advanced(position: Vec2, vel: Vec2, dt: i32) -> Vec2 {
    Vec2 { x: advance(position.x, vel.x, dt), y: advance(position.y, vel.y, dt) }
}

/// One axis of wall reflection for a circle of radius `r` at `p` moving with
/// `v` between the walls at 0 and `extent`: the coordinate and the velocity
/// afterwards. A circle that reaches below 0 is set to touch the wall at 0 and
/// turned round; otherwise one that reaches beyond `extent` is set to touch
/// that wall and turned round; otherwise nothing changes. A circle that just
/// touches a wall is in contact with neither.
pub open spec fn reflect(p: i32, v: i32, r: i32, extent: i32) -> (i32, i32) {
    if p - r < 0 {
        (r, saturate(-v))
    } else if p + r > extent {
        (saturate(extent - r), saturate(-v))
    } else {
        (p, v)
    }
}

fn advance_axis(p: i32, v: i32, dt: i32) -> (q: i32)
    ensures
        q == advance(p, v, dt),
{
    let step: i128 = crate::vector::span_product(v as i128, dt as i128);
    saturated(p as i128 + step)
}

fn reflect_axis(p: i32, v: i32, r: i32, extent: i32) -> (out: (i32, i32))
    ensures
        out == reflect(p, v, r, extent),
{
    if (p as i64) - (r as i64) < 0 {
        (r, saturated(-(v as i128)))
    } else if (p as i64) + (r as i64) > extent as i64 {
        (saturated(extent as i128 - r as i128), saturated(-(v as i128)))
    } else {
        (p, v)
    }
}

/// Moves the particle `index` with its velocity for the time `dt`.
pub fn update_positions(
    index: &EntityIndex,
    vel: &Velocity,
    store: &mut ParticleStore,
    dt: &DeltaTime,
) -> (result: Result<(), StoreError>)
    ensures
        index.0 < old(store)@.count() ==> {
            &&& result == Ok::<(), StoreError>(())
            &&& final(store)@ == old(store)@.with_record(
                index.0 as int,
                ParticleRecord {
                    position: advanced(old(store)@.record(index.0 as int).position, vel.0, dt.0),
                    ..old(store)@.record(index.0 as int)
                },
            )
        },
        index.0 >= old(store)@.count() ==> {
            &&& result == Err::<(), StoreError>(StoreError::IndexOutOfRange)
            &&& final(store)@ == old(store)@
        },
{
    match store.position(index.0) {
        Ok(pos) => {
            let moved = Vec2 {
                x: advance_axis(pos.x, vel.0.x, dt.0),
                y: advance_axis(pos.y, vel.0.y, dt.0),
            };
            store.set_position(index.0, moved)
        },
        Err(e) => Err(e),
    }
}

/// Reflects the particle `index` at the walls of the arena of the given
/// `size` (width, height), on each axis by itself.
pub fn check_wall_collision(
    index: &EntityIndex,
    vel: &mut Velocity,
    size: &(i32, i32),
    store: &mut ParticleStore,
) -> (result: Result<(), StoreError>)
    ensures
        index.0 < old(store)@.count() ==> {
            let before = old(store)@.record(index.0 as int);
            let (x, vx) = reflect(before.position.x, old(vel).0.x, before.radius, size.0);
            let (y, vy) = reflect(before.position.y, old(vel).0.y, before.radius, size.1);
            &&& result == Ok::<(), StoreError>(())
            &&& *final(vel) == Velocity(Vec2 { x: vx, y: vy })
            &&& final(store)@ == old(store)@.with_record(
                index.0 as int,
                ParticleRecord { position: Vec2 { x, y }, ..before },
            )
        },
        index.0 >= old(store)@.count() ==> {
            &&& result == Err::<(), StoreError>(StoreError::IndexOutOfRange)
            &&& final(store)@ == old(store)@
            &&& *final(vel) == *old(vel)
        },
{
    match store.record(index.0) {
        Ok(r) => {
            let (x, vx) = reflect_axis(r.position.x, vel.0.x, r.radius, size.0);
            let (y, vy) = reflect_axis(r.position.y, vel.0.y, r.radius, size.1);
            *vel = Velocity(Vec2 { x: vx, y: vy });
            store.set_position(index.0, Vec2 { x, y })
        },
        Err(e) => Err(e),
    }
}

/// Wall reflection puts a circle between the walls: with a radius that is
/// not negative and an arena at least as wide as the circle, the circle
/// afterwards reaches neither below 0 nor beyond `extent`. Its speed is what
/// it was; only the direction may have turned.
pub proof fn lemma_reflect_between_walls(p: i32, v: i32, r: i32, extent: i32)
    requires
        0 <= r,
        2 * r <= extent,
    ensures
        r <= reflect(p, v, r, extent).0 <= extent - r,
        reflect(p, v, r, extent).1 == v || reflect(p, v, r, extent).1 == saturate(-v),
        0 <= p - r && p + r <= extent ==> reflect(p, v, r, extent) == (p, v),
{
}

/// A circle that reaches below the wall at 0 while moving toward it leaves
/// the reflection touching that wall and moving away from it with the same
/// speed.
pub proof fn lemma_reflect_low_wall(p: i32, v: i32, r: i32, extent: i32)
    requires
        p - r < 0,
        i32::MIN < v,
    ensures
        reflect(p, v, r, extent) == (r, (-v) as i32),
{
}

/// The far wall mirrors the near one: a circle that reaches beyond `extent`,
/// and not below 0, leaves the reflection touching the far wall and moving
/// away from it with the same speed.
pub proof fn lemma_reflect_far_wall(p: i32, v: i32, r: i32, extent: i32)
    requires
        0 <= p - r,
        p + r > extent,
        i32::MIN < v,
        i32::MIN <= extent - r <= i32::MAX,
    ensures
        reflect(p, v, r, extent) == ((extent - r) as i32, (-v) as i32),
{
}

/// A particle at rest stays where it is: with velocity zero a position does
/// not move, whatever the time, and between the walls nothing is reflected.
pub proof fn lemma_rest_stays(position: Vec2, r: i32, size: (i32, i32), dt: i32)
    requires
        0 <= position.x - r,
        position.x + r <= size.0,
        0 <= position.y - r,
        position.y + r <= size.1,
    ensures
        advanced(position, Vec2 { x: 0, y: 0 }, dt) == position,
        reflect(position.x, 0, r, size.0) == (position.x, 0i32),
        reflect(position.y, 0, r, size.1) == (position.y, 0i32),
{
    assert(0 * dt == 0) by (nonlinear_arith);
}

} // verus!
