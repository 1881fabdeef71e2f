use vstd::prelude::*;
use crate::vector::Vec2;

verus! {

/// The number of records to draw, as the renderer takes it.
#[derive(Clone, Copy, Debug, PartialEq, Eq, Structural)]
pub struct InstanceCount(pub i32);

/// Velocity of a particle, in units per time step unit.
#[derive(Clone, Copy, Debug, PartialEq, Eq, Structural)]
pub struct Velocity(pub Vec2);

/// Stable handle of a particle's record in the store: its position in the
/// order of appending. It is never reused and survives growth.
#[derive(Clone, Copy, Debug, PartialEq, Eq, Structural)]
pub struct EntityIndex(pub usize);

/// Mass of a particle; by convention the square of its radius.
#[derive(Clone, Copy, Debug, PartialEq, Eq, Structural)]
pub struct Mass(pub i64);

/// Length of one tick, in time step units.
#[derive(Clone, Copy, Debug, PartialEq, Eq, Structural)]
pub struct DeltaTime(pub i32);

} // verus!
