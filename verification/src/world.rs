use vstd::prelude::*;
use crate::vector::Vec2;
use crate::components::{EntityIndex, Velocity, Mass, DeltaTime, InstanceCount};
use crate::store::{
    ParticleStore, ParticleRecord, StoreError, StoreView, Layout, Color, lemma_with_record,
    lemma_stored_matching, lemma_appended, max_elements, element_limit,
};
use crate::systems::{advanced, reflect, update_positions, check_wall_collision};
use crate::quadtree::{QuadTree, Rect, Tree, circles_touch, cc_intersection};
use crate::utils::{rebound, process_collision};

verus! {

/// A particle as the simulation sees it: the index of its record, its
/// velocity and its mass.
#[derive(Clone, Copy, Debug, PartialEq, Eq, Structural)]
pub struct SimEntity {
    pub index: EntityIndex,
    pub velocity: Velocity,
    pub mass: Mass,
}

/// A request for a new particle.
#[derive(Clone, Copy, Debug, PartialEq, Eq, Structural)]
pub struct SpawnRequest {
    pub position: Vec2,
    pub velocity: Vec2,
    pub radius: i32,
    pub color: Option<Color>,
}

/// What the input source hands over at the start of a tick.
#[derive(Clone, Copy, Debug, PartialEq, Eq, Structural)]
pub enum InputEvent {
    Spawn(SpawnRequest),
    WallBoundsChanged { width: i32, height: i32 },
}

impl SpawnRequest {
    /// The record that the request asks for.
    pub open spec fn record(self) -> ParticleRecord {
        ParticleRecord { position: self.position, radius: self.radius, color: self.color }
    }

    /// The entity that the request asks for, with `index` for its record.
    /// Its mass is the square of its radius.
    pub open spec fn entity(self, index: nat) -> SimEntity {
        SimEntity {
            index: EntityIndex(index as usize),
            velocity: Velocity(self.velocity),
            mass: Mass((self.radius * self.radius) as i64),
        }
    }
}

/// The mathematical value of a world.
pub struct WorldView {
    pub store: StoreView,
    pub entities: Seq<SimEntity>,
    /// Width and height of the arena.
    pub size: (i32, i32),
    /// How many circles a node of the spatial index holds itself.
    pub node_capacity: nat,
}

impl WorldView {
    /// The store is well-formed, there is one entity for each record, in the
    /// order of the records, and every particle has a positive radius and the
    /// square of it for its mass.
    pub open spec fn wf(self) -> bool {
        &&& self.store.wf()
        &&& self.entities.len() == self.store.count()
        &&& forall|i: int| 0 <= i < self.entities.len() ==> #[trigger] self.particle_wf(i)
    }

    /// Particle `i` has its place in the order for its index, a positive
    /// radius, and the square of the radius for its mass.
    pub open spec fn particle_wf(self, i: int) -> bool {
        &&& self.entities[i].index == EntityIndex(i as usize)
        &&& self.store.record(i).radius > 0
        &&& self.entities[i].mass.0 == self.store.record(i).radius * self.store.record(i).radius
    }

    /// The capacity that a full store of capacity `capacity` grows to.
    pub open spec fn doubled(capacity: nat) -> nat {
        if capacity == 0 {
            1
        } else {
            2 * capacity
        }
    }

    /// The world after a spawn that the store has or can make room for.
    pub open spec fn spawned(self, request: SpawnRequest) -> WorldView {
        WorldView {
            store: StoreView {
                capacity: if self.store.count() < self.store.capacity {
                    self.store.capacity
                } else {
                    Self::doubled(self.store.capacity)
                },
                flat: self.store.flat + self.store.layout.encode(request.record()),
                ..self.store
            },
            entities: self.entities.push(request.entity(self.store.count())),
            ..self
        }
    }

    /// The store has room for one more record, or can be grown to twice its
    /// capacity.
    pub open spec fn can_spawn(self) -> bool {
        ||| self.store.count() < self.store.capacity
        ||| Self::doubled(self.store.capacity) * self.store.layout.stride() <= max_elements()
    }
}

/// The simulation: the store of particle records, the entities, and the
/// bounds of the arena.
pub struct SimulationWorld {
    store: ParticleStore,
    entities: Vec<SimEntity>,
    size: (i32, i32),
    node_capacity: usize,
}

impl View for SimulationWorld {
    type V = WorldView;

    closed spec fn view(&self) -> WorldView {
        WorldView {
            store: self.store@,
            entities: self.entities@,
            size: self.size,
            node_capacity: self.node_capacity as nat,
        }
    }
}

impl SimulationWorld {
    /// An empty world with room for `initial_capacity` records of `layout`,
    /// an arena of the given width and height, and a spatial index whose
    /// nodes hold `node_capacity` circles each.
    pub fn new(
        initial_capacity: usize,
        layout: Layout,
        width: i32,
        height: i32,
        node_capacity: usize,
    ) -> (world: Self)
        requires
            initial_capacity * layout.stride() <= max_elements(),
        ensures
            world@ == (WorldView {
                store: StoreView { layout, capacity: initial_capacity as nat, flat: Seq::empty() },
                entities: Seq::empty(),
                size: (width, height),
                node_capacity: node_capacity as nat,
            }),
            world@.wf(),
    {
        Self {
            store: ParticleStore::construct(initial_capacity, layout),
            entities: Vec::new(),
            size: (width, height),
            node_capacity,
        }
    }

    /// The store, for the renderer to take its view from.
    pub fn store(&self) -> (store: &ParticleStore)
        ensures
            store@ == self@.store,
    {
        &self.store
    }

    /// The number of particles.
    pub fn count(&self) -> (count: usize)
        ensures
            count == self@.store.count(),
    {
        self.store.count()
    }

    /// Width and height of the arena.
    pub fn size(&self) -> (size: (i32, i32))
        ensures
            size == self@.size,
    {
        self.size
    }

    /// Entity `index`, or `IndexOutOfRange`.
    pub fn entity(&self, index: usize) -> (result: Result<SimEntity, StoreError>)
        ensures
            index < self@.entities.len() ==> result == Ok::<SimEntity, StoreError>(
                self@.entities[index as int],
            ),
            index >= self@.entities.len() ==> result == Err::<SimEntity, StoreError>(
                StoreError::IndexOutOfRange,
            ),
    {
        if index < self.entities.len() {
            Ok(self.entities[index])
        } else {
            Err(StoreError::IndexOutOfRange)
        }
    }

    /// Takes new bounds for the arena. They hold for the walls at once and for
    /// the spatial index from its next rebuild.
    pub fn set_bounds(&mut self, width: i32, height: i32)
        ensures
            final(self)@ == (WorldView { size: (width, height), ..old(self)@ }),
            old(self)@.wf() ==> final(self)@.wf(),
    {
        self.size = (width, height);
        proof {
            if old(self)@.wf() {
                assert forall|i: int| 0 <= i < self@.entities.len() implies #[trigger] self@.particle_wf(
                    i,
                ) by {
                    assert(old(self)@.particle_wf(i));
                }
            }
        }
    }
}

impl SimulationWorld {
    /// Adds a particle. A full store is first grown to twice its capacity
    /// (to one record where it had room for none). Where backing storage
    /// cannot be that large the request is refused with `CapacityExceeded`,
    /// and the world stays as it is.
    pub fn spawn(&mut self, request: SpawnRequest) -> (result: Result<EntityIndex, StoreError>)
        requires
            old(self)@.wf(),
            request.radius > 0,
        ensures
            final(self)@.wf(),
            old(self)@.can_spawn() ==> {
                &&& result == Ok::<EntityIndex, StoreError>(
                    EntityIndex(old(self)@.store.count() as usize),
                )
                &&& final(self)@ == old(self)@.spawned(request)
            },
            !old(self)@.can_spawn() ==> {
                &&& result == Err::<EntityIndex, StoreError>(StoreError::CapacityExceeded)
                &&& final(self)@ == old(self)@
            },
    {
        let count = self.store.count();
        let capacity = self.store.capacity();
        let stride = self.store.layout().elements();
        if count >= capacity {
            let limit = element_limit();
            let doubled = if capacity == 0 {
                1
            } else if capacity <= limit / 2 {
                2 * capacity
            } else {
                proof {
                    assert(2 * capacity * stride > limit) by (nonlinear_arith)
                        requires
                            2 * capacity > limit,
                            stride >= 1,
                    ;
                }
                return Err(StoreError::CapacityExceeded);
            };
            if doubled > limit / stride {
                proof {
                    assert(doubled * stride > limit) by (nonlinear_arith)
                        requires
                            doubled > limit / stride,
                            stride > 0,
                    ;
                }
                return Err(StoreError::CapacityExceeded);
            }
            proof {
                assert(doubled * stride <= limit) by (nonlinear_arith)
                    requires
                        doubled <= limit / stride,
                        stride > 0,
                ;
            }
            self.store.grow(doubled);
        }
        let ghost before = self.store@;
        let radius = request.radius as i64;
        assert(0 < radius * radius <= 0x4000_0000_0000_0000) by (nonlinear_arith)
            requires
                0 < radius <= 0x7FFF_FFFF,
        ;
        let record = ParticleRecord {
            position: request.position,
            radius: request.radius,
            color: request.color,
        };
        match self.store.append(record) {
            Ok(index) => {
                self.entities.push(
                    SimEntity {
                        index,
                        velocity: Velocity(request.velocity),
                        mass: Mass(radius * radius),
                    },
                );
                proof {
                    let n = before.count() as int;
                    assert(self@.store.count() == n + 1);
                    assert forall|i: int| 0 <= i < self@.entities.len() implies #[trigger] self@.particle_wf(i) by {
                        if i < n {
                            assert(old(self)@.particle_wf(i));
                            assert(self@.entities[i] == old(self)@.entities[i]);
                            assert(self@.store.record(i) == old(self)@.store.record(i));
                        } else {
                            assert(self@.store.record(i) == before.layout.stored(record));
                        }
                    }
                }
                Ok(index)
            },
            Err(e) => Err(e),
        }
    }
}

/// One particle after a tick's motion: the record moved with `velocity` for
/// `dt` and then reflected at the walls of the arena of the given `size`,
/// and the velocity after the reflection.
pub open spec fn stepped(record: ParticleRecord, velocity: Vec2, dt: i32, size: (i32, i32)) -> (
    ParticleRecord,
    Vec2,
) {
    let moved = advanced(record.position, velocity, dt);
    let (x, vx) = reflect(moved.x, velocity.x, record.radius, size.0);
    let (y, vy) = reflect(moved.y, velocity.y, record.radius, size.1);
    (ParticleRecord { position: Vec2 { x, y }, ..record }, Vec2 { x: vx, y: vy })
}

impl WorldView {
    /// `self` is `before` with the first `n` particles moved for `dt` and
    /// reflected at the walls, and the others as they were.
    pub open spec fn moved_from(self, before: WorldView, n: nat, dt: i32) -> bool {
        &&& self.size == before.size
        &&& self.node_capacity == before.node_capacity
        &&& self.store.layout == before.store.layout
        &&& self.store.capacity == before.store.capacity
        &&& self.store.count() == before.store.count()
        &&& self.entities.len() == before.entities.len()
        &&& forall|i: int|
            0 <= i < before.entities.len() ==> {
                let old_entity = #[trigger] before.entities[i];
                let step = stepped(before.store.record(i), old_entity.velocity.0, dt, self.size);
                if i < n {
                    &&& self.store.record(i) == step.0
                    &&& self.entities[i] == (SimEntity {
                        velocity: Velocity(step.1),
                        ..old_entity
                    })
                } else {
                    &&& self.store.record(i) == before.store.record(i)
                    &&& self.entities[i] == old_entity
                }
            }
    }
}

/// A world that has the particles of a well-formed world, with the radius
/// and mass that each had, is well-formed.
pub proof fn lemma_same_particles_keep_wf(before: WorldView, after: WorldView)
    requires
        before.wf(),
        after.store.wf(),
        after.store.count() == before.store.count(),
        after.entities.len() == before.entities.len(),
        forall|i: int|
            0 <= i < before.entities.len() ==> {
                &&& (#[trigger] after.entities[i]).index == before.entities[i].index
                &&& after.entities[i].mass == before.entities[i].mass
                &&& after.store.record(i).radius == before.store.record(i).radius
            },
    ensures
        after.wf(),
{
    assert forall|i: int| 0 <= i < after.entities.len() implies #[trigger] after.particle_wf(i) by {
        assert(before.particle_wf(i));
        assert(after.entities[i].mass == before.entities[i].mass);
    }
}

impl SimulationWorld {
    /// Moves every particle with its velocity for the time `dt`, then
    /// reflects it at the walls. Radius, colour and mass stay.
    pub fn integrate(&mut self, dt: DeltaTime)
        requires
            old(self)@.wf(),
        ensures
            final(self)@.wf(),
            final(self)@.moved_from(old(self)@, old(self)@.entities.len(), dt.0),
    {
        let n = self.entities.len();
        let size = self.size;
        let mut i: usize = 0;
        while i < n
            invariant
                i <= n,
                n == old(self)@.entities.len(),
                size == old(self)@.size,
                old(self)@.wf(),
                self@.wf(),
                self@.moved_from(old(self)@, i as nat, dt.0),
            decreases n - i,
        {
            let ghost start = self@;
            let entity = self.entities[i];
            let mut velocity = entity.velocity;
            let ghost r0 = start.store.record(i as int);
            proof {
                assert(old(self)@.entities[i as int] == entity);
                lemma_stored_matching(start.store.layout, r0);
            }
            let _ = update_positions(&EntityIndex(i), &velocity, &mut self.store, &dt);
            let ghost r1 = ParticleRecord { position: advanced(r0.position, velocity.0, dt.0), ..r0 };
            let ghost middle = self@;
            proof {
                lemma_with_record(start.store, i as int, r1);
                lemma_stored_matching(start.store.layout, r1);
            }
            let _ = check_wall_collision(&EntityIndex(i), &mut velocity, &size, &mut self.store);
            let ghost r2 = stepped(r0, entity.velocity.0, dt.0, size).0;
            proof {
                lemma_with_record(middle.store, i as int, r2);
                lemma_stored_matching(start.store.layout, r2);
            }
            self.entities.set(i, SimEntity { velocity, ..entity });
            proof {
                assert forall|j: int| 0 <= j < start.entities.len() implies {
                    &&& (#[trigger] self@.entities[j]).index == start.entities[j].index
                    &&& self@.entities[j].mass == start.entities[j].mass
                    &&& self@.store.record(j).radius == start.store.record(j).radius
                } by {
                    if j != i {
                        assert(self@.store.record(j) == start.store.record(j));
                    }
                }
                lemma_same_particles_keep_wf(start, self@);
                assert forall|j: int| 0 <= j < old(self)@.entities.len() implies {
                    let old_entity = #[trigger] old(self)@.entities[j];
                    let step = stepped(
                        old(self)@.store.record(j),
                        old_entity.velocity.0,
                        dt.0,
                        self@.size,
                    );
                    if j < i + 1 {
                        &&& self@.store.record(j) == step.0
                        &&& self@.entities[j] == (SimEntity {
                            velocity: Velocity(step.1),
                            ..old_entity
                        })
                    } else {
                        &&& self@.store.record(j) == old(self)@.store.record(j)
                        &&& self@.entities[j] == old_entity
                    }
                } by {
                    if j != i {
                        assert(self@.store.record(j) == start.store.record(j));
                        assert(self@.entities[j] == start.entities[j]);
                    }
                }
            }
            i += 1;
        }
    }
}

impl WorldView {
    /// The boundary of the spatial index: the arena.
    pub open spec fn arena(self) -> Rect {
        Rect { left: 0, top: 0, width: self.size.0, height: self.size.1 }
    }

    /// The circle of particle `i` as the spatial index holds it: position,
    /// radius, and the index for its payload.
    pub open spec fn circle(self, i: int) -> (Vec2, i32, usize) {
        (self.store.record(i).position, self.store.record(i).radius, i as usize)
    }

    /// The spatial index over the first `n` particles: the circle of each
    /// inserted, in the order of the records.
    pub open spec fn index_over(self, n: nat) -> Tree<usize>
        decreases n,
    {
        if n == 0 {
            Tree::leaf(self.arena(), self.node_capacity)
        } else {
            self.index_over((n - 1) as nat).push(self.circle(n - 1))
        }
    }

    /// The velocities of the particles, in the order of the records.
    pub open spec fn velocities(self) -> Seq<Vec2> {
        Seq::new(self.entities.len(), |i: int| self.entities[i].velocity.0)
    }

    /// The world with `velocities` for the velocities of its particles.
    pub open spec fn with_velocities(self, velocities: Seq<Vec2>) -> WorldView {
        WorldView {
            entities: Seq::new(
                self.entities.len(),
                |i: int| SimEntity { velocity: Velocity(velocities[i]), ..self.entities[i] },
            ),
            ..self
        }
    }

    /// Particles `i` and `j` are to be resolved against each other: `i` comes
    /// before `j`, so that a pair is taken from one side only, their circles
    /// touch, and their centres differ.
    pub open spec fn collides(self, i: int, j: int) -> bool {
        let a = self.store.record(i);
        let b = self.store.record(j);
        &&& 0 <= i < j < self.entities.len()
        &&& circles_touch(a.position, a.radius, b.position, b.radius)
        &&& a.position != b.position
    }

    /// The velocities after looking at the pair `i`, `j`: where the two
    /// collide, each has rebounded from the other; otherwise nothing has
    /// changed.
    pub open spec fn pair_resolved(self, velocities: Seq<Vec2>, i: int, j: int) -> Seq<Vec2> {
        if self.collides(i, j) {
            let a = self.store.record(i);
            let b = self.store.record(j);
            let mi = self.entities[i].mass.0 as int;
            let mj = self.entities[j].mass.0 as int;
            velocities.update(
                i,
                rebound(velocities[i], velocities[j], a.position, b.position, mi, mj),
            ).update(j, rebound(velocities[j], velocities[i], b.position, a.position, mj, mi))
        } else {
            velocities
        }
    }

    /// The velocities after looking at particle `i` together with each of
    /// the first `k` of `candidates`, in their order.
    pub open spec fn neighbours_resolved(
        self,
        velocities: Seq<Vec2>,
        i: int,
        candidates: Seq<usize>,
        k: nat,
    ) -> Seq<Vec2>
        decreases k,
    {
        if k == 0 {
            velocities
        } else {
            self.pair_resolved(
                self.neighbours_resolved(velocities, i, candidates, (k - 1) as nat),
                i,
                candidates[k - 1] as int,
            )
        }
    }

    /// The velocities after the first `n` particles have each been looked
    /// at together with what `index` reports for their circle.
    pub open spec fn all_resolved(self, velocities: Seq<Vec2>, index: Tree<usize>, n: nat) -> Seq<
        Vec2,
    >
        decreases n,
    {
        if n == 0 {
            velocities
        } else {
            let r = self.store.record(n - 1);
            let candidates = index.query(r.position, r.radius);
            self.neighbours_resolved(
                self.all_resolved(velocities, index, (n - 1) as nat),
                n - 1,
                candidates,
                candidates.len(),
            )
        }
    }
}

impl SimulationWorld {
    /// Builds the spatial index over the particles as they stand now.
    pub fn build_index(&self) -> (index: QuadTree<usize>)
        ensures
            index@ == self@.index_over(self@.store.count()),
            index@.wf(),
    {
        let n = self.store.count();
        let boundary = Rect { left: 0, top: 0, width: self.size.0, height: self.size.1 };
        let mut index: QuadTree<usize> = QuadTree::new(self.node_capacity, boundary);
        let mut i: usize = 0;
        while i < n
            invariant
                i <= n,
                n == self@.store.count(),
                index@ == self@.index_over(i as nat),
                index@.wf(),
            decreases n - i,
        {
            match self.store.record(i) {
                Ok(r) => {
                    index.push((r.position, r.radius, i));
                },
                Err(_) => {},
            }
            i += 1;
        }
        index
    }
}

/// Whatever the velocities, a well-formed world stays well-formed.
pub proof fn lemma_velocities_keep_wf(world: WorldView, velocities: Seq<Vec2>)
    requires
        world.wf(),
    ensures
        world.with_velocities(velocities).wf(),
        world.with_velocities(velocities).store == world.store,
        world.with_velocities(velocities).entities.len() == world.entities.len(),
{
    let after = world.with_velocities(velocities);
    assert forall|i: int| 0 <= i < after.entities.len() implies #[trigger] after.particle_wf(i) by {
        assert(world.particle_wf(i));
    }
}

impl SimulationWorld {
    /// Looks at particle `i` together with particle `j` and lets them
    /// rebound from each other where they collide.
    fn resolve_pair(&mut self, i: usize, j: usize)
        requires
            old(self)@.wf(),
            i < old(self)@.entities.len(),
        ensures
            final(self)@ == old(self)@.with_velocities(
                old(self)@.pair_resolved(old(self)@.velocities(), i as int, j as int),
            ),
            final(self)@.wf(),
    {
        let ghost before = self@;
        proof {
            assert(before.with_velocities(before.velocities()).entities =~= before.entities);
        }
        if i < j && j < self.entities.len() {
            let a = self.store.record(i);
            let b = self.store.record(j);
            match (a, b) {
                (Ok(a), Ok(b)) => {
                    if cc_intersection(a.position, a.radius, b.position, b.radius) {
                        let first = self.entities[i];
                        let second = self.entities[j];
                        assert(before.particle_wf(i as int) && before.particle_wf(j as int));
                        assert(before.entities[i as int].mass.0 > 0 && before.entities[j as int].mass.0
                            > 0) by (nonlinear_arith)
                            requires
                                before.entities[i as int].mass.0 == a.radius * a.radius,
                                before.entities[j as int].mass.0 == b.radius * b.radius,
                                a.radius > 0,
                                b.radius > 0,
                        ;
                        match process_collision(
                            first.velocity.0,
                            second.velocity.0,
                            a.position,
                            b.position,
                            first.mass.0,
                            second.mass.0,
                        ) {
                            Ok((v1, v2)) => {
                                self.entities.set(i, SimEntity { velocity: Velocity(v1), ..first });
                                self.entities.set(j, SimEntity { velocity: Velocity(v2), ..second });
                                proof {
                                    let after = before.pair_resolved(
                                        before.velocities(),
                                        i as int,
                                        j as int,
                                    );
                                    assert(self@.entities =~= before.with_velocities(
                                        after,
                                    ).entities);
                                    lemma_velocities_keep_wf(before, after);
                                }
                            },
                            Err(_) => {},
                        }
                    }
                },
                _ => {},
            }
        }
    }

    /// Resolves the collisions of this tick. For each particle in turn,
    /// `index` is asked for the circles that touch its own; the particle is
    /// then looked at together with each particle reported, in the order
    /// reported. A pair is resolved from the side of the particle with the
    /// lower index only, so each pair rebounds once. Particles with one and
    /// the same centre are passed over. Only velocities change.
    pub fn resolve_collisions(&mut self, index: &QuadTree<usize>)
        requires
            old(self)@.wf(),
        ensures
            final(self)@ == old(self)@.with_velocities(
                old(self)@.all_resolved(
                    old(self)@.velocities(),
                    index@,
                    old(self)@.entities.len(),
                ),
            ),
            final(self)@.wf(),
    {
        let n = self.entities.len();
        let ghost before = self@;
        let ghost mut current = before.velocities();
        proof {
            assert(before.with_velocities(current).entities =~= before.entities);
        }
        let mut i: usize = 0;
        while i < n
            invariant
                i <= n,
                n == before.entities.len(),
                before.wf(),
                self@.wf(),
                current.len() == n,
                current == before.all_resolved(before.velocities(), index@, i as nat),
                self@ == before.with_velocities(current),
            decreases n - i,
        {
            let ghost r = before.store.record(i as int);
            let ghost reported = index@.query(r.position, r.radius);
            match self.store.record(i) {
                Ok(own) => {
                    let candidates = index.query(own.position, own.radius);
                    proof {
                        // the clone of an index is the index
                        assert(candidates@ =~= reported);
                    }
                    let mut k: usize = 0;
                    while k < candidates.len()
                        invariant
                            k <= candidates.len(),
                            i < n,
                            n == before.entities.len(),
                            candidates@ == reported,
                            before.wf(),
                            self@.wf(),
                            current.len() == n,
                            current == before.neighbours_resolved(
                                before.all_resolved(before.velocities(), index@, i as nat),
                                i as int,
                                reported,
                                k as nat,
                            ),
                            self@ == before.with_velocities(current),
                        decreases candidates.len() - k,
                    {
                        let j = candidates[k];
                        let ghost start = self@;
                        self.resolve_pair(i, j);
                        proof {
                            assert(start.velocities() =~= current);
                            let next = before.pair_resolved(current, i as int, j as int);
                            assert(start.pair_resolved(current, i as int, j as int) == next);
                            assert(self@.entities =~= before.with_velocities(next).entities);
                            current = next;
                        }
                        k += 1;
                    }
                },
                Err(_) => {},
            }
            i += 1;
        }
    }
}

impl InputEvent {
    /// A spawn request asks for a positive radius; other events are always
    /// in order.
    pub open spec fn valid(self) -> bool {
        match self {
            InputEvent::Spawn(request) => request.radius > 0,
            InputEvent::WallBoundsChanged { .. } => true,
        }
    }
}

impl WorldView {
    /// The world after one input event: a spawn that there is or can be made
    /// room for adds its particle, one that there is no room for is dropped;
    /// new bounds replace the old.
    pub open spec fn applied(self, event: InputEvent) -> WorldView {
        match event {
            InputEvent::Spawn(request) => if self.can_spawn() {
                self.spawned(request)
            } else {
                self
            },
            InputEvent::WallBoundsChanged { width, height } => WorldView {
                size: (width, height),
                ..self
            },
        }
    }

    /// The world after the first `n` of `events`, in their order.
    pub open spec fn after_events(self, events: Seq<InputEvent>, n: nat) -> WorldView
        decreases n,
    {
        if n == 0 {
            self
        } else {
            self.after_events(events, (n - 1) as nat).applied(events[n - 1])
        }
    }

    /// The velocities of the particles after moving for `dt` and reflecting
    /// at the walls.
    pub open spec fn integrated_velocities(self, dt: i32) -> Seq<Vec2> {
        Seq::new(
            self.entities.len(),
            |i: int| stepped(self.store.record(i), self.entities[i].velocity.0, dt, self.size).1,
        )
    }

    /// The velocities after the collisions of a tick have been resolved, with
    /// a spatial index built afresh over all particles.
    pub open spec fn collided(self) -> Seq<Vec2> {
        self.all_resolved(
            self.velocities(),
            self.index_over(self.entities.len()),
            self.entities.len(),
        )
    }

    /// `self` is what one tick of length `dt` with the input `events` makes
    /// of `before`: the events are taken in their order; then every particle
    /// is moved and reflected at the walls; then the collisions are resolved,
    /// which changes velocities only.
    pub open spec fn ticked_from(self, before: WorldView, events: Seq<InputEvent>, dt: i32) -> bool {
        let start = before.after_events(events, events.len());
        let moved = self.with_velocities(start.integrated_velocities(dt));
        &&& moved.moved_from(start, start.entities.len(), dt)
        &&& self == moved.with_velocities(moved.collided())
    }
}

impl SimulationWorld {
    /// Takes one input event.
    pub fn apply(&mut self, event: InputEvent)
        requires
            old(self)@.wf(),
            event.valid(),
        ensures
            final(self)@ == old(self)@.applied(event),
            final(self)@.wf(),
    {
        match event {
            InputEvent::Spawn(request) => {
                let _ = self.spawn(request);
            },
            InputEvent::WallBoundsChanged { width, height } => {
                self.set_bounds(width, height);
            },
        }
    }

    /// One tick: take the input events, move every particle for `dt` and
    /// reflect it at the walls, build the spatial index afresh, and resolve
    /// the collisions. Afterwards the store's view is ready for the renderer.
    pub fn tick(&mut self, events: &Vec<InputEvent>, dt: DeltaTime)
        requires
            old(self)@.wf(),
            forall|i: int| 0 <= i < events.len() ==> (#[trigger] events[i]).valid(),
        ensures
            final(self)@.wf(),
            final(self)@.ticked_from(old(self)@, events@, dt.0),
    {
        let mut i: usize = 0;
        while i < events.len()
            invariant
                i <= events.len(),
                self@.wf(),
                self@ == old(self)@.after_events(events@, i as nat),
                forall|i: int| 0 <= i < events.len() ==> (#[trigger] events[i]).valid(),
            decreases events.len() - i,
        {
            self.apply(events[i]);
            i += 1;
        }
        let ghost start = self@;
        self.integrate(dt);
        let ghost moved = self@;
        let index = self.build_index();
        self.resolve_collisions(&index);
        proof {
            assert(moved.velocities() =~= start.integrated_velocities(dt.0));
            assert(self@.with_velocities(moved.velocities()).entities =~= moved.entities);
        }
    }

    /// The number of records for the renderer to draw.
    pub fn instance_count(&self) -> (result: Option<InstanceCount>)
        ensures
            self@.store.count() <= i32::MAX ==> result == Some(
                InstanceCount(self@.store.count() as i32),
            ),
            self@.store.count() > i32::MAX ==> result is None,
    {
        let count = self.store.count();
        if count <= i32::MAX as usize {
            Some(InstanceCount(count as i32))
        } else {
            None
        }
    }
}

/// A whole number drawn at random from `low..high`, by `rand::random_range`
/// on the thread's generator. Assumed of it: the number lies in the range,
/// as its documentation says. It panics on an empty range, which the
/// precondition leaves out.
#[verifier::external_body]
fn random_between(low: i32, high: i32) -> (v: i32)
    requires
        low < high,
    ensures
        low <= v < high,
{
    rand::random_range(low..high)
}

impl SpawnRequest {
    /// The request is one of a burst at `position` with `radius`: each
    /// component of the velocity lies in `-speed..speed`, and each colour
    /// channel in `0..=brightest`.
    pub open spec fn of_burst(self, position: Vec2, radius: i32, speed: i32, brightest: i32) -> bool {
        &&& self.position == position
        &&& self.radius == radius
        &&& -speed <= self.velocity.x < speed
        &&& -speed <= self.velocity.y < speed
        &&& match self.color {
            Some(c) => 0 <= c.red <= brightest && 0 <= c.green <= brightest && 0 <= c.blue
                <= brightest,
            None => false,
        }
    }
}

impl WorldView {
    /// Particle `i` is one of a burst at `position` with `radius`: there it
    /// stands, with that radius; each component of its velocity lies in
    /// `-speed..speed`; and its colour, where the layout keeps one, has each
    /// channel in `0..=brightest`.
    pub open spec fn from_burst(
        self,
        i: int,
        position: Vec2,
        radius: i32,
        speed: i32,
        brightest: i32,
    ) -> bool {
        let r = self.store.record(i);
        let v = self.entities[i].velocity.0;
        &&& r.position == position
        &&& r.radius == radius
        &&& -speed <= v.x < speed
        &&& -speed <= v.y < speed
        &&& match r.color {
            Some(c) => 0 <= c.red <= brightest && 0 <= c.green <= brightest && 0 <= c.blue
                <= brightest,
            None => !self.store.layout.has_color(),
        }
    }
}

/// A request for a particle at `position` with `radius`, with a velocity
/// and a colour drawn at random.
pub fn random_request(position: Vec2, radius: i32, speed: i32, brightest: i32) -> (request:
    SpawnRequest)
    requires
        0 < speed,
        0 <= brightest < i32::MAX,
    ensures
        request.of_burst(position, radius, speed, brightest),
{
    let x = random_between(-speed, speed);
    let y = random_between(-speed, speed);
    let red = random_between(0, brightest + 1);
    let green = random_between(0, brightest + 1);
    let blue = random_between(0, brightest + 1);
    SpawnRequest {
        position,
        velocity: Vec2 { x, y },
        radius,
        color: Some(Color { red, green, blue }),
    }
}

impl SimulationWorld {
    /// Spawns up to `n` particles at `position`, each with a velocity and a
    /// colour drawn at random, and returns how many there was room for. The
    /// particles held before stay as they are.
    pub fn spawn_burst(
        &mut self,
        position: Vec2,
        radius: i32,
        speed: i32,
        brightest: i32,
        n: usize,
    ) -> (spawned: usize)
        requires
            old(self)@.wf(),
            0 < radius,
            0 < speed,
            0 <= brightest < i32::MAX,
        ensures
            final(self)@.wf(),
            spawned <= n,
            final(self)@.size == old(self)@.size,
            final(self)@.node_capacity == old(self)@.node_capacity,
            final(self)@.store.layout == old(self)@.store.layout,
            final(self)@.store.count() == old(self)@.store.count() + spawned,
            spawned < n ==> !final(self)@.can_spawn(),
            final(self)@.entities.subrange(0, old(self)@.entities.len() as int) == old(
                self,
            )@.entities,
            forall|i: int|
                0 <= i < old(self)@.store.count() ==> final(self)@.store.record(i) == old(
                    self,
                )@.store.record(i),
            forall|i: int|
                old(self)@.store.count() <= i < final(self)@.store.count() ==> {
                    #[trigger] final(self)@.from_burst(i, position, radius, speed, brightest)
                },
    {
        let mut spawned: usize = 0;
        let ghost first = self@.store.count();
        while spawned < n
            invariant
                spawned <= n,
                0 < radius,
                0 < speed,
                0 <= brightest < i32::MAX,
                first == old(self)@.store.count(),
                old(self)@.wf(),
                self@.wf(),
                self@.size == old(self)@.size,
                self@.node_capacity == old(self)@.node_capacity,
                self@.store.layout == old(self)@.store.layout,
                self@.store.count() == first + spawned,
                self@.entities.subrange(0, first as int) == old(self)@.entities,
                forall|i: int|
                    0 <= i < first ==> self@.store.record(i) == old(self)@.store.record(i),
                forall|i: int|
                    first <= i < self@.store.count() ==> {
                        #[trigger] self@.from_burst(i, position, radius, speed, brightest)
                    },
            decreases n - spawned,
        {
            let request = random_request(position, radius, speed, brightest);
            let ghost before = self@;
            match self.spawn(request) {
                Ok(_) => {
                    proof {
                        let count = before.store.count();
                        lemma_appended(before.store, request.record(), self@.store.capacity);
                        assert(self@.entities.subrange(0, first as int) =~= before.entities.subrange(
                            0,
                            first as int,
                        ));
                        assert forall|i: int| first <= i < self@.store.count() implies {
                            #[trigger] self@.from_burst(i, position, radius, speed, brightest)
                        } by {
                            if i < count {
                                assert(before.from_burst(i, position, radius, speed, brightest));
                                assert(self@.entities[i] == before.entities[i]);
                                assert(self@.store.record(i) == before.store.record(i));
                            } else {
                                assert(self@.entities[i] == request.entity(i as nat));
                            }
                        }
                    }
                    spawned += 1;
                },
                Err(_) => {
                    return spawned;
                },
            }
        }
        spawned
    }
}

} // verus!
