use particle_sim::components::{DeltaTime, EntityIndex, Velocity};
use particle_sim::store::{Layout, ParticleRecord, ParticleStore, StoreError};
use particle_sim::systems::{check_wall_collision, update_positions};
use particle_sim::utils::{circle_indices, process_collision, CollisionError};
use particle_sim::vector::{vec2, Vec2};

fn one_particle(x: i32, y: i32, radius: i32) -> ParticleStore {
    let mut store = ParticleStore::construct(2, Layout::Minimal);
    store.append(ParticleRecord { position: vec2(x, y), radius, color: None }).unwrap();
    store
}

#[test]
fn head_on_collision_of_equal_masses_swaps_velocities() {
    let (v1, v2) =
        process_collision(vec2(30, 0), vec2(-30, 0), vec2(0, 0), vec2(20, 0), 100, 100).unwrap();
    assert_eq!(v1, vec2(-30, 0));
    assert_eq!(v2, vec2(30, 0));
    // momentum and kinetic energy are what they were
    assert_eq!(100 * v1.x + 100 * v2.x, 100 * 30 + 100 * -30);
    assert_eq!(100 * (v1.x * v1.x) + 100 * (v2.x * v2.x), 100 * 900 + 100 * 900);
}

#[test]
fn unequal_masses_conserve_momentum() {
    // m1 = 1, m2 = 3, along x: v1' = v1 - (6/4)(v1 - v2), v2' = v2 - (2/4)(v2 - v1)
    let (v1, v2) = process_collision(vec2(40, 0), vec2(0, 0), vec2(0, 0), vec2(10, 0), 1, 3).unwrap();
    assert_eq!(v1, vec2(-20, 0));
    assert_eq!(v2, vec2(20, 0));
    assert_eq!(1 * v1.x + 3 * v2.x, 1 * 40 + 3 * 0);
    assert_eq!(1 * v1.x * v1.x + 3 * v2.x * v2.x, 1 * 40 * 40);
}

#[test]
fn rounding_changes_momentum_by_less_than_the_larger_mass() {
    // shares 4/3 and 2/3 of one unit are rounded to 1 and 0
    let (v1, v2) = process_collision(vec2(1, 0), vec2(0, 0), vec2(0, 0), vec2(1, 0), 1, 2).unwrap();
    assert_eq!(v1, vec2(0, 0));
    assert_eq!(v2, vec2(0, 0));
    let change = (1 * v1.x + 2 * v2.x) - (1 * 1 + 2 * 0);
    assert!(-2 < change && change < 2);
}

#[test]
fn oblique_collision_changes_only_the_part_along_the_centres() {
    // line of centres along y; the x parts of the velocities stay
    let (v1, v2) =
        process_collision(vec2(7, 10), vec2(-3, -10), vec2(5, 0), vec2(5, 8), 4, 4).unwrap();
    assert_eq!(v1, vec2(7, -10));
    assert_eq!(v2, vec2(-3, 10));
}

#[test]
fn quotients_round_toward_zero() {
    // d = (1, 1), d2 = 2, relative velocity (3, 0): along = -3 from the first side,
    // along * d / d2 = 3 / 2 -> 1, share 2 * 1 * 1 / 2 = 1
    let (v1, v2) = process_collision(vec2(3, 0), vec2(0, 0), vec2(0, 0), vec2(1, 1), 1, 1).unwrap();
    assert_eq!(v1, vec2(2, -1));
    assert_eq!(v2, vec2(1, 1));
}

#[test]
fn coincident_centres_are_refused() {
    assert_eq!(
        process_collision(vec2(1, 2), vec2(3, 4), vec2(5, 5), vec2(5, 5), 1, 1),
        Err(CollisionError::DegenerateCollision)
    );
}

#[test]
fn collision_at_the_extremes_saturates() {
    let (v1, v2) = process_collision(
        vec2(i32::MAX, 0),
        vec2(i32::MIN, 0),
        vec2(i32::MIN, 0),
        vec2(i32::MAX, 0),
        1,
        i64::MAX,
    )
    .unwrap();
    assert_eq!(v1.x, i32::MIN);
    assert_eq!(v1.y, 0);
    assert_eq!(v2, vec2(i32::MIN, 0));
}

#[test]
fn position_advances_by_velocity_times_dt() {
    let mut store = one_particle(100, 200, 10);
    let r = update_positions(&EntityIndex(0), &Velocity(vec2(3, -4)), &mut store, &DeltaTime(5));
    assert_eq!(r, Ok(()));
    assert_eq!(store.position(0), Ok(vec2(115, 180)));
    assert_eq!(store.radius(0), Ok(10));
}

#[test]
fn position_stops_at_the_end_of_the_coordinate_range() {
    let mut store = one_particle(i32::MAX - 1, i32::MIN + 1, 10);
    let r = update_positions(&EntityIndex(0), &Velocity(vec2(1000, -1000)), &mut store, &DeltaTime(1000));
    assert_eq!(r, Ok(()));
    assert_eq!(store.position(0), Ok(vec2(i32::MAX, i32::MIN)));
}

#[test]
fn systems_check_the_index() {
    let mut store = one_particle(100, 200, 10);
    let mut vel = Velocity(vec2(1, 1));
    assert_eq!(
        update_positions(&EntityIndex(1), &vel, &mut store, &DeltaTime(1)),
        Err(StoreError::IndexOutOfRange)
    );
    assert_eq!(
        check_wall_collision(&EntityIndex(1), &mut vel, &(800, 800), &mut store),
        Err(StoreError::IndexOutOfRange)
    );
    assert_eq!(vel, Velocity(vec2(1, 1)));
    assert_eq!(store.position(0), Ok(vec2(100, 200)));
}

#[test]
fn particle_reflects_at_the_left_wall() {
    let mut store = one_particle(2, 400, 10);
    let mut vel = Velocity(vec2(-50, 0));
    update_positions(&EntityIndex(0), &vel, &mut store, &DeltaTime(1)).unwrap();
    assert_eq!(store.position(0), Ok(vec2(-48, 400)));
    check_wall_collision(&EntityIndex(0), &mut vel, &(800, 800), &mut store).unwrap();
    assert_eq!(store.position(0), Ok(vec2(10, 400)));
    assert_eq!(vel, Velocity(vec2(50, 0)));
}

#[test]
fn particle_reflects_at_each_wall() {
    // right wall: a circle that just touches it is not in contact
    let mut store = one_particle(790, 400, 10);
    let mut vel = Velocity(vec2(5, 7));
    check_wall_collision(&EntityIndex(0), &mut vel, &(800, 800), &mut store).unwrap();
    assert_eq!(store.position(0), Ok(vec2(790, 400)));
    assert_eq!(vel, Velocity(vec2(5, 7)));
    // one unit beyond it is
    let mut store = one_particle(791, 400, 10);
    let mut vel = Velocity(vec2(5, 7));
    check_wall_collision(&EntityIndex(0), &mut vel, &(800, 800), &mut store).unwrap();
    assert_eq!(store.position(0), Ok(vec2(790, 400)));
    assert_eq!(vel, Velocity(vec2(-5, 7)));
    // left wall: just touching is no contact either
    let mut store = one_particle(10, 400, 10);
    let mut vel = Velocity(vec2(-5, 7));
    check_wall_collision(&EntityIndex(0), &mut vel, &(800, 800), &mut store).unwrap();
    assert_eq!(store.position(0), Ok(vec2(10, 400)));
    assert_eq!(vel, Velocity(vec2(-5, 7)));
    // top wall
    let mut store = one_particle(400, 9, 10);
    let mut vel = Velocity(vec2(5, -7));
    check_wall_collision(&EntityIndex(0), &mut vel, &(800, 800), &mut store).unwrap();
    assert_eq!(store.position(0), Ok(vec2(400, 10)));
    assert_eq!(vel, Velocity(vec2(5, 7)));
    // bottom wall, and left wall at once
    let mut store = one_particle(0, 795, 10);
    let mut vel = Velocity(vec2(-1, 1));
    check_wall_collision(&EntityIndex(0), &mut vel, &(800, 800), &mut store).unwrap();
    assert_eq!(store.position(0), Ok(vec2(10, 790)));
    assert_eq!(vel, Velocity(vec2(1, -1)));
    // touching two walls: nothing changes
    let mut store = one_particle(10, 790, 10);
    let mut vel = Velocity(vec2(-1, 1));
    check_wall_collision(&EntityIndex(0), &mut vel, &(800, 800), &mut store).unwrap();
    assert_eq!(store.position(0), Ok(vec2(10, 790)));
    assert_eq!(vel, Velocity(vec2(-1, 1)));
}

#[test]
fn circle_wider_than_the_arena_is_set_to_the_low_wall() {
    let mut store = one_particle(50, 50, 500);
    let mut vel = Velocity(vec2(1, i32::MIN));
    check_wall_collision(&EntityIndex(0), &mut vel, &(800, 800), &mut store).unwrap();
    assert_eq!(store.position(0), Ok(vec2(500, 500)));
    assert_eq!(vel, Velocity(vec2(-1, i32::MAX)));
}

#[test]
fn squared_distance_is_exact() {
    assert_eq!(vec2(1, 2).distance_squared(Vec2 { x: 4, y: 6 }), 25);
    assert_eq!(vec2(0, 0).distance_squared(vec2(0, 0)), 0);
    assert_eq!(
        vec2(i32::MIN, i32::MIN).distance_squared(vec2(i32::MAX, i32::MAX)),
        2 * (u32::MAX as i128) * (u32::MAX as i128)
    );
}

#[test]
fn circle_is_a_fan_of_triangles() {
    assert_eq!(circle_indices(0), vec![0, 0, 1]);
    assert_eq!(circle_indices(3), vec![0, 0, 1, 0, 1, 2, 0, 2, 3, 0, 3, 1]);
    assert_eq!(circle_indices(8).len(), 27);
}
