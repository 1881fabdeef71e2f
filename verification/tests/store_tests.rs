use particle_sim::components::EntityIndex;
use particle_sim::store::{Color, Layout, ParticleRecord, ParticleStore, StoreError};
use particle_sim::utils::get_entity;
use particle_sim::vector::vec2;

fn plain(x: i32, y: i32, radius: i32) -> ParticleRecord {
    ParticleRecord { position: vec2(x, y), radius, color: None }
}

fn coloured(x: i32, y: i32, radius: i32, red: i32, green: i32, blue: i32) -> ParticleRecord {
    ParticleRecord { position: vec2(x, y), radius, color: Some(Color { red, green, blue }) }
}

#[test]
fn fresh_store_is_empty() {
    let store = ParticleStore::construct(8, Layout::Extended);
    assert_eq!(store.count(), 0);
    assert_eq!(store.capacity(), 8);
    assert_eq!(store.layout(), Layout::Extended);
    assert_eq!(store.get_view(), &[] as &[i32]);
    assert_eq!(Layout::Minimal.elements(), 3);
    assert_eq!(Layout::Extended.elements(), 6);
}

#[test]
fn append_then_read_returns_the_record() {
    let mut store = ParticleStore::construct(4, Layout::Extended);
    let r = coloured(12, -7, 10, 255, 128, 0);
    assert_eq!(store.append(r), Ok(EntityIndex(0)));
    assert_eq!(store.record(0), Ok(r));
    assert_eq!(store.position(0), Ok(vec2(12, -7)));
    assert_eq!(store.radius(0), Ok(10));
    assert_eq!(store.color(0), Ok(Some(Color { red: 255, green: 128, blue: 0 })));
    assert_eq!(get_entity(0, &store), Ok(r));

    let mut small = ParticleStore::construct(4, Layout::Minimal);
    let p = plain(3, 4, 5);
    assert_eq!(small.append(p), Ok(EntityIndex(0)));
    assert_eq!(small.record(0), Ok(p));
    assert_eq!(small.color(0), Ok(None));
}

#[test]
fn view_is_flat_in_field_order() {
    let mut store = ParticleStore::construct(4, Layout::Extended);
    store.append(coloured(1, 2, 3, 4, 5, 6)).unwrap();
    store.append(coloured(7, 8, 9, 10, 11, 12)).unwrap();
    assert_eq!(store.get_view(), &[1, 2, 3, 4, 5, 6, 7, 8, 9, 10, 11, 12]);
    assert_eq!(store.count(), 2);

    let mut small = ParticleStore::construct(4, Layout::Minimal);
    small.append(plain(1, 2, 3)).unwrap();
    small.append(plain(4, 5, 6)).unwrap();
    assert_eq!(small.get_view(), &[1, 2, 3, 4, 5, 6]);
}

#[test]
fn layout_decides_whether_colour_is_kept() {
    let mut small = ParticleStore::construct(2, Layout::Minimal);
    small.append(coloured(1, 2, 3, 9, 9, 9)).unwrap();
    assert_eq!(small.record(0), Ok(plain(1, 2, 3)));
    assert_eq!(small.get_view(), &[1, 2, 3]);

    let mut large = ParticleStore::construct(2, Layout::Extended);
    large.append(plain(1, 2, 3)).unwrap();
    assert_eq!(large.record(0), Ok(coloured(1, 2, 3, 0, 0, 0)));
}

#[test]
fn growth_keeps_every_record() {
    let mut store = ParticleStore::construct(3, Layout::Extended);
    let records = [coloured(1, 2, 3, 4, 5, 6), coloured(-1, -2, 3, 0, 0, 0), coloured(9, 9, 1, 7, 7, 7)];
    for r in records.iter() {
        store.append(*r).unwrap();
    }
    let before: Vec<i32> = store.get_view().to_vec();
    assert_eq!(store.grow(10), before.as_slice());
    assert_eq!(store.capacity(), 10);
    assert_eq!(store.count(), 3);
    assert_eq!(store.get_view(), before.as_slice());
    for (i, r) in records.iter().enumerate() {
        assert_eq!(store.record(i), Ok(*r));
    }
    // growing to exactly the number of records is allowed
    store.grow(3);
    assert_eq!(store.capacity(), 3);
    assert_eq!(store.get_view(), before.as_slice());
}

#[test]
fn fifth_append_fails_until_grown() {
    let mut store = ParticleStore::construct(4, Layout::Minimal);
    for i in 0..4 {
        assert_eq!(store.append(plain(i, i * 2, 10)), Ok(EntityIndex(i as usize)));
    }
    assert_eq!(store.append(plain(4, 8, 10)), Err(StoreError::CapacityExceeded));
    assert_eq!(store.count(), 4);
    store.grow(8);
    assert_eq!(store.append(plain(4, 8, 10)), Ok(EntityIndex(4)));
    for i in 0..4 {
        assert_eq!(store.record(i as usize), Ok(plain(i, i * 2, 10)));
    }
    assert_eq!(store.record(4), Ok(plain(4, 8, 10)));
}

#[test]
fn zero_capacity_store_refuses_every_append() {
    let mut store = ParticleStore::construct(0, Layout::Minimal);
    assert_eq!(store.append(plain(0, 0, 1)), Err(StoreError::CapacityExceeded));
    store.grow(1);
    assert_eq!(store.append(plain(0, 0, 1)), Ok(EntityIndex(0)));
}

#[test]
fn accessors_check_the_index() {
    let mut store = ParticleStore::construct(4, Layout::Extended);
    store.append(coloured(1, 2, 3, 4, 5, 6)).unwrap();
    assert_eq!(store.record(1), Err(StoreError::IndexOutOfRange));
    assert_eq!(store.position(1), Err(StoreError::IndexOutOfRange));
    assert_eq!(store.radius(7), Err(StoreError::IndexOutOfRange));
    assert_eq!(store.color(usize::MAX), Err(StoreError::IndexOutOfRange));
    assert_eq!(get_entity(1, &store), Err(StoreError::IndexOutOfRange));
    assert_eq!(store.set_position(1, vec2(0, 0)), Err(StoreError::IndexOutOfRange));
    assert_eq!(store.set_radius(1, 1), Err(StoreError::IndexOutOfRange));
    assert_eq!(
        store.set_color(1, Color { red: 0, green: 0, blue: 0 }),
        Err(StoreError::IndexOutOfRange)
    );
    assert_eq!(store.set_record(1, plain(0, 0, 1)), Err(StoreError::IndexOutOfRange));
    assert_eq!(store.get_view(), &[1, 2, 3, 4, 5, 6]);
}

#[test]
fn mutators_change_one_record_only() {
    let mut store = ParticleStore::construct(4, Layout::Extended);
    store.append(coloured(1, 2, 3, 4, 5, 6)).unwrap();
    store.append(coloured(7, 8, 9, 10, 11, 12)).unwrap();
    store.append(coloured(13, 14, 15, 16, 17, 18)).unwrap();
    assert_eq!(store.set_position(1, vec2(-70, -80)), Ok(()));
    assert_eq!(store.get_view(), &[1, 2, 3, 4, 5, 6, -70, -80, 9, 10, 11, 12, 13, 14, 15, 16, 17, 18]);
    assert_eq!(store.set_radius(2, 99), Ok(()));
    assert_eq!(store.set_color(0, Color { red: 40, green: 50, blue: 60 }), Ok(()));
    assert_eq!(store.get_view(), &[1, 2, 3, 40, 50, 60, -70, -80, 9, 10, 11, 12, 13, 14, 99, 16, 17, 18]);
    assert_eq!(store.set_record(1, coloured(0, 0, 1, 2, 3, 4)), Ok(()));
    assert_eq!(store.get_view(), &[1, 2, 3, 40, 50, 60, 0, 0, 1, 2, 3, 4, 13, 14, 99, 16, 17, 18]);

    let mut small = ParticleStore::construct(2, Layout::Minimal);
    small.append(plain(1, 2, 3)).unwrap();
    assert_eq!(small.set_color(0, Color { red: 1, green: 1, blue: 1 }), Ok(()));
    assert_eq!(small.get_view(), &[1, 2, 3]);
}
