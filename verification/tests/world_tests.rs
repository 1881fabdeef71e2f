use particle_sim::components::{DeltaTime, EntityIndex, InstanceCount, Mass, Velocity};
use particle_sim::store::{Color, Layout, StoreError};
use particle_sim::vector::vec2;
use particle_sim::world::{random_request, InputEvent, SimEntity, SimulationWorld, SpawnRequest};

fn request(x: i32, y: i32, vx: i32, vy: i32, radius: i32) -> SpawnRequest {
    SpawnRequest { position: vec2(x, y), velocity: vec2(vx, vy), radius, color: None }
}

#[test]
fn new_world_is_empty() {
    let world = SimulationWorld::new(4, Layout::Extended, 800, 600, 32);
    assert_eq!(world.count(), 0);
    assert_eq!(world.size(), (800, 600));
    assert_eq!(world.store().capacity(), 4);
    assert_eq!(world.instance_count(), Some(InstanceCount(0)));
    assert_eq!(world.entity(0), Err(StoreError::IndexOutOfRange));
}

#[test]
fn spawn_appends_record_and_entity() {
    let mut world = SimulationWorld::new(4, Layout::Extended, 800, 800, 32);
    let r = SpawnRequest {
        position: vec2(100, 200),
        velocity: vec2(-3, 4),
        radius: 10,
        color: Some(Color { red: 1, green: 2, blue: 3 }),
    };
    assert_eq!(world.spawn(r), Ok(EntityIndex(0)));
    assert_eq!(world.spawn(request(5, 6, 0, 0, 7)), Ok(EntityIndex(1)));
    assert_eq!(world.count(), 2);
    assert_eq!(world.instance_count(), Some(InstanceCount(2)));
    assert_eq!(
        world.entity(0),
        Ok(SimEntity { index: EntityIndex(0), velocity: Velocity(vec2(-3, 4)), mass: Mass(100) })
    );
    assert_eq!(
        world.entity(1),
        Ok(SimEntity { index: EntityIndex(1), velocity: Velocity(vec2(0, 0)), mass: Mass(49) })
    );
    assert_eq!(world.store().get_view(), &[100, 200, 10, 1, 2, 3, 5, 6, 7, 0, 0, 0]);
}

#[test]
fn spawn_doubles_a_full_store() {
    let mut world = SimulationWorld::new(0, Layout::Minimal, 800, 800, 32);
    let capacities = [1, 2, 4, 4, 8];
    for (i, c) in capacities.iter().enumerate() {
        assert_eq!(world.spawn(request(10 * i as i32, 0, 0, 0, 1)), Ok(EntityIndex(i)));
        assert_eq!(world.store().capacity(), *c);
    }
    for i in 0..5 {
        assert_eq!(world.store().position(i), Ok(vec2(10 * i as i32, 0)));
    }
}

#[test]
fn largest_radius_has_a_mass() {
    let mut world = SimulationWorld::new(1, Layout::Minimal, 800, 800, 32);
    world.spawn(request(0, 0, 0, 0, i32::MAX)).unwrap();
    assert_eq!(world.entity(0).unwrap().mass, Mass(i32::MAX as i64 * i32::MAX as i64));
}

#[test]
fn wall_reflection_after_one_step() {
    let mut world = SimulationWorld::new(4, Layout::Minimal, 800, 800, 32);
    world.spawn(request(2, 400, -50, 0, 10)).unwrap();
    world.integrate(DeltaTime(1));
    assert_eq!(world.store().position(0), Ok(vec2(10, 400)));
    assert_eq!(world.entity(0).unwrap().velocity, Velocity(vec2(50, 0)));
}

#[test]
fn resting_particles_do_not_drift() {
    let mut world = SimulationWorld::new(4, Layout::Minimal, 800, 800, 4);
    let places = [vec2(100, 100), vec2(400, 400), vec2(700, 150)];
    for p in places.iter() {
        world.spawn(request(p.x, p.y, 0, 0, 10)).unwrap();
    }
    let before: Vec<i32> = world.store().get_view().to_vec();
    for _ in 0..10 {
        world.tick(&Vec::new(), DeltaTime(16));
    }
    assert_eq!(world.store().get_view(), before.as_slice());
    for (i, p) in places.iter().enumerate() {
        assert_eq!(world.store().position(i), Ok(*p));
        assert_eq!(world.entity(i).unwrap().velocity, Velocity(vec2(0, 0)));
    }
}

#[test]
fn tick_resolves_a_pair_once() {
    let mut world = SimulationWorld::new(4, Layout::Minimal, 800, 800, 4);
    // after one step of dt 1 the centres are 20 apart: touching
    world.spawn(request(360, 400, 30, 0, 10)).unwrap();
    world.spawn(request(440, 400, -30, 0, 10)).unwrap();
    world.spawn(request(100, 100, 1, 2, 10)).unwrap();
    world.tick(&Vec::new(), DeltaTime(1));
    assert_eq!(world.store().position(0), Ok(vec2(390, 400)));
    assert_eq!(world.store().position(1), Ok(vec2(410, 400)));
    assert_eq!(world.entity(0).unwrap().velocity, Velocity(vec2(-30, 0)));
    assert_eq!(world.entity(1).unwrap().velocity, Velocity(vec2(30, 0)));
    // the third particle touches nothing
    assert_eq!(world.store().position(2), Ok(vec2(101, 102)));
    assert_eq!(world.entity(2).unwrap().velocity, Velocity(vec2(1, 2)));
    // the two now move apart
    world.tick(&Vec::new(), DeltaTime(1));
    assert_eq!(world.store().position(0), Ok(vec2(360, 400)));
    assert_eq!(world.store().position(1), Ok(vec2(440, 400)));
    assert_eq!(world.entity(0).unwrap().velocity, Velocity(vec2(-30, 0)));
    assert_eq!(world.entity(1).unwrap().velocity, Velocity(vec2(30, 0)));
}

#[test]
fn coincident_particles_are_passed_over() {
    let mut world = SimulationWorld::new(4, Layout::Minimal, 800, 800, 4);
    world.spawn(request(400, 400, 0, 0, 10)).unwrap();
    world.spawn(request(400, 400, 0, 0, 10)).unwrap();
    let index = world.build_index();
    assert_eq!(index.len(), 2);
    world.resolve_collisions(&index);
    assert_eq!(world.entity(0).unwrap().velocity, Velocity(vec2(0, 0)));
    assert_eq!(world.entity(1).unwrap().velocity, Velocity(vec2(0, 0)));
}

#[test]
fn index_holds_the_particles_inside_the_arena() {
    let mut world = SimulationWorld::new(4, Layout::Minimal, 800, 800, 1);
    world.spawn(request(100, 100, 0, 0, 10)).unwrap();
    world.spawn(request(900, 100, 0, 0, 10)).unwrap();
    world.spawn(request(700, 700, 0, 0, 10)).unwrap();
    let index = world.build_index();
    assert_eq!(index.len(), 2);
    assert_eq!(index.query(vec2(400, 400), 2000), vec![0, 2]);
    // stale indices in an index built earlier are passed over
    let mut other = SimulationWorld::new(4, Layout::Minimal, 800, 800, 1);
    other.spawn(request(100, 100, 5, 5, 10)).unwrap();
    other.resolve_collisions(&index);
    assert_eq!(other.entity(0).unwrap().velocity, Velocity(vec2(5, 5)));
}

#[test]
fn events_are_taken_in_order() {
    let mut world = SimulationWorld::new(1, Layout::Minimal, 800, 800, 4);
    let events = vec![
        InputEvent::Spawn(request(100, 100, 0, 0, 10)),
        InputEvent::WallBoundsChanged { width: 300, height: 200 },
        InputEvent::Spawn(request(295, 100, 0, 0, 10)),
    ];
    world.tick(&events, DeltaTime(1));
    assert_eq!(world.count(), 2);
    assert_eq!(world.size(), (300, 200));
    assert_eq!(world.store().position(0), Ok(vec2(100, 100)));
    // the second particle reached beyond the new right wall
    assert_eq!(world.store().position(1), Ok(vec2(290, 100)));

    world.apply(InputEvent::WallBoundsChanged { width: 800, height: 800 });
    assert_eq!(world.size(), (800, 800));
    world.set_bounds(10, 20);
    assert_eq!(world.size(), (10, 20));
}

#[test]
fn random_requests_stay_in_range_and_vary() {
    let mut low = 0;
    let mut seen_other = false;
    for _ in 0..200 {
        let r = random_request(vec2(5, 6), 10, 30, 255);
        assert_eq!(r.position, vec2(5, 6));
        assert_eq!(r.radius, 10);
        assert!(-30 <= r.velocity.x && r.velocity.x < 30);
        assert!(-30 <= r.velocity.y && r.velocity.y < 30);
        let c = r.color.unwrap();
        for channel in [c.red, c.green, c.blue] {
            assert!(0 <= channel && channel <= 255);
        }
        if r.velocity.x == -30 {
            low += 1;
        } else {
            seen_other = true;
        }
    }
    assert!(seen_other);
    assert!(low < 200);
    // a range of one value leaves no choice
    let r = random_request(vec2(0, 0), 1, 1, 0);
    assert!(r.velocity.x == -1 || r.velocity.x == 0);
    assert_eq!(r.color, Some(Color { red: 0, green: 0, blue: 0 }));
}

#[test]
fn burst_spawns_at_one_place() {
    let mut world = SimulationWorld::new(2, Layout::Extended, 800, 800, 32);
    world.spawn(request(1, 2, 3, 4, 5)).unwrap();
    assert_eq!(world.spawn_burst(vec2(400, 300), 10, 30, 255, 100), 100);
    assert_eq!(world.count(), 101);
    assert_eq!(world.store().position(0), Ok(vec2(1, 2)));
    assert_eq!(world.entity(0).unwrap().velocity, Velocity(vec2(3, 4)));
    for i in 1..101 {
        assert_eq!(world.store().position(i), Ok(vec2(400, 300)));
        assert_eq!(world.store().radius(i), Ok(10));
        let e = world.entity(i).unwrap();
        assert_eq!(e.index, EntityIndex(i));
        assert_eq!(e.mass, Mass(100));
        assert!(-30 <= e.velocity.0.x && e.velocity.0.x < 30);
        assert!(-30 <= e.velocity.0.y && e.velocity.0.y < 30);
    }
    assert_eq!(world.spawn_burst(vec2(0, 0), 10, 30, 255, 0), 0);
    assert_eq!(world.count(), 101);
}
