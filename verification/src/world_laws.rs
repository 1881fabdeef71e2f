//! What holds of every world: particles are never lost or changed by input,
//! and a particle that touches no other keeps its velocity through the
//! collisions of a tick.

use vstd::prelude::*;
use crate::vector::Vec2;
use crate::quadtree::Tree;
use crate::quadtree_laws::{lemma_push_well_formed, lemma_push_adds_once};
use crate::store::{Layout, lemma_appended};
use crate::world::{WorldView, InputEvent, stepped};
use crate::systems::lemma_rest_stays;

verus! {

/// Looking at a pair changes no velocity but those of the two, and those
/// only where the two collide.
pub proof fn lemma_pair_touches_two(world: WorldView, velocities: Seq<Vec2>, i: int, j: int, p: int)
    requires
        velocities.len() == world.entities.len(),
        0 <= p < velocities.len(),
        !(world.collides(i, j) && (p == i || p == j)),
    ensures
        world.pair_resolved(velocities, i, j).len() == velocities.len(),
        world.pair_resolved(velocities, i, j)[p] == velocities[p],
{
}

/// A particle that collides with none of the candidates keeps its velocity
/// while another particle is looked at together with them.
pub proof fn lemma_neighbours_leave_untouched(
    world: WorldView,
    velocities: Seq<Vec2>,
    i: int,
    candidates: Seq<usize>,
    k: nat,
    p: int,
)
    requires
        velocities.len() == world.entities.len(),
        0 <= p < velocities.len(),
        k <= candidates.len(),
        forall|j: int| !world.collides(p, j) && !world.collides(j, p),
    ensures
        world.neighbours_resolved(velocities, i, candidates, k).len() == velocities.len(),
        world.neighbours_resolved(velocities, i, candidates, k)[p] == velocities[p],
    decreases k,
{
    if k > 0 {
        lemma_neighbours_leave_untouched(world, velocities, i, candidates, (k - 1) as nat, p);
        let so_far = world.neighbours_resolved(velocities, i, candidates, (k - 1) as nat);
        lemma_pair_touches_two(world, so_far, i, candidates[k - 1] as int, p);
    }
}

/// A particle whose circle touches no other, or only circles with its own
/// centre, keeps its velocity through the collisions of a tick, whatever
/// the spatial index reports.
pub proof fn lemma_untouched_keeps_velocity(
    world: WorldView,
    velocities: Seq<Vec2>,
    index: Tree<usize>,
    n: nat,
    p: int,
)
    requires
        velocities.len() == world.entities.len(),
        0 <= p < velocities.len(),
        forall|j: int| !world.collides(p, j) && !world.collides(j, p),
    ensures
        world.all_resolved(velocities, index, n).len() == velocities.len(),
        world.all_resolved(velocities, index, n)[p] == velocities[p],
    decreases n,
{
    if n > 0 {
        lemma_untouched_keeps_velocity(world, velocities, index, (n - 1) as nat, p);
        let so_far = world.all_resolved(velocities, index, (n - 1) as nat);
        let r = world.store.record(n - 1);
        let candidates = index.query(r.position, r.radius);
        lemma_neighbours_leave_untouched(world, so_far, n - 1, candidates, candidates.len(), p);
    }
}

/// An untouched particle at rest between the walls drifts nowhere: a tick's
/// motion leaves its record and its velocity of zero as they are.
pub proof fn lemma_rest_does_not_drift(world: WorldView, dt: i32, p: int)
    requires
        0 <= p < world.entities.len(),
        world.entities[p].velocity.0 == (Vec2 { x: 0, y: 0 }),
        0 <= world.store.record(p).position.x - world.store.record(p).radius,
        world.store.record(p).position.x + world.store.record(p).radius <= world.size.0,
        0 <= world.store.record(p).position.y - world.store.record(p).radius,
        world.store.record(p).position.y + world.store.record(p).radius <= world.size.1,
    ensures
        stepped(world.store.record(p), world.entities[p].velocity.0, dt, world.size) == (
            world.store.record(p),
            Vec2 { x: 0, y: 0 },
        ),
{
    let r = world.store.record(p);
    lemma_rest_stays(r.position, r.radius, world.size, dt);
}

/// Input never loses or changes a particle: after any number of valid
/// events the world is well-formed, holds at least the particles it held,
/// and each of them has the record and the entity that it had.
pub proof fn lemma_events_keep_particles(world: WorldView, events: Seq<InputEvent>, n: nat)
    requires
        world.wf(),
        n <= events.len(),
        forall|i: int| 0 <= i < events.len() ==> (#[trigger] events[i]).valid(),
    ensures
        world.after_events(events, n).wf(),
        world.after_events(events, n).store.layout == world.store.layout,
        world.after_events(events, n).store.count() >= world.store.count(),
        forall|i: int|
            0 <= i < world.store.count() ==> {
                &&& world.after_events(events, n).store.record(i) == world.store.record(i)
                &&& world.after_events(events, n).entities[i] == world.entities[i]
            },
    decreases n,
{
    if n > 0 {
        lemma_events_keep_particles(world, events, (n - 1) as nat);
        let before = world.after_events(events, (n - 1) as nat);
        match events[n - 1] {
            InputEvent::Spawn(request) => {
                if before.can_spawn() {
                    let after = before.spawned(request);
                    let count = before.store.count();
                    lemma_appended(before.store, request.record(), after.store.capacity);
                    assert(0 < request.radius * request.radius <= 0x4000_0000_0000_0000)
                        by (nonlinear_arith)
                        requires
                            0 < request.radius <= 0x7FFF_FFFF,
                    ;
                    assert forall|i: int| 0 <= i < after.entities.len() implies #[trigger] after.particle_wf(
                        i,
                    ) by {
                        if i < count {
                            assert(before.particle_wf(i));
                            assert(after.entities[i] == before.entities[i]);
                            assert(after.store.record(i) == before.store.record(i));
                        }
                    }
                }
            },
            InputEvent::WallBoundsChanged { width, height } => {
                let after = WorldView { size: (width, height), ..before };
                assert forall|i: int| 0 <= i < after.entities.len() implies #[trigger] after.particle_wf(
                    i,
                ) by {
                    assert(before.particle_wf(i));
                }
            },
        }
    }
}

/// A tick never loses a particle, nor changes what a particle is: the world
/// stays well-formed, holds at least the particles it held, and each of them
/// has the index, the radius, the colour and the mass that it had.
pub proof fn lemma_tick_keeps_particles(
    before: WorldView,
    events: Seq<InputEvent>,
    dt: i32,
    after: WorldView,
)
    requires
        before.wf(),
        forall|i: int| 0 <= i < events.len() ==> (#[trigger] events[i]).valid(),
        after.ticked_from(before, events, dt),
    ensures
        after.store.count() >= before.store.count(),
        after.store.layout == before.store.layout,
        forall|i: int|
            0 <= i < before.store.count() ==> {
                &&& after.store.record(i).radius == before.store.record(i).radius
                &&& after.store.record(i).color == before.store.record(i).color
                &&& (#[trigger] after.entities[i]).index == before.entities[i].index
                &&& after.entities[i].mass == before.entities[i].mass
            },
{
    let start = before.after_events(events, events.len());
    lemma_events_keep_particles(before, events, events.len());
    let moved = after.with_velocities(start.integrated_velocities(dt));
    assert forall|i: int| 0 <= i < before.store.count() implies {
        &&& after.store.record(i).radius == before.store.record(i).radius
        &&& after.store.record(i).color == before.store.record(i).color
        &&& (#[trigger] after.entities[i]).index == before.entities[i].index
        &&& after.entities[i].mass == before.entities[i].mass
    } by {
        assert(start.entities[i] == before.entities[i]);
        assert(moved.entities[i].index == start.entities[i].index);
    }
}

/// The spatial index of a world is well-formed. Every circle in it is that
/// of a particle, with the particle's index for its payload, and is held
/// once only; and every particle whose centre lies inside the arena has its
/// circle in it.
pub proof fn lemma_index_holds_particles(world: WorldView, n: nat)
    requires
        world.store.wf(),
        n <= world.store.count(),
    ensures
        world.index_over(n).wf(),
        world.index_over(n).boundary == world.arena(),
        forall|e: (Vec2, i32, usize)| #[trigger]
            world.index_over(n).bag().count(e) > 0 ==> {
                &&& e.2 < n
                &&& e.0 == world.store.record(e.2 as int).position
                &&& e.1 == world.store.record(e.2 as int).radius
                &&& world.index_over(n).bag().count(e) == 1
            },
        forall|i: int|
            0 <= i < n && world.arena().contains(world.store.record(i).position) ==> (
            #[trigger] world.index_over(n).bag().count(world.circle(i))) == 1,
    decreases n,
{
    let index = world.index_over(n);
    if n > 0 {
        lemma_index_holds_particles(world, (n - 1) as nat);
        let before = world.index_over((n - 1) as nat);
        let r = world.store.record(n - 1);
        let entry = (r.position, r.radius, (n - 1) as usize);
        lemma_push_well_formed(before, entry);
        lemma_push_adds_once(before, entry);
        assert(n - 1 <= usize::MAX) by {
            match world.store.layout {
                Layout::Minimal => {},
                Layout::Extended => {},
            }
        }
        assert(before.bag().count(entry) == 0);
        assert forall|e: (Vec2, i32, usize)| #[trigger] index.bag().count(e) > 0 implies {
            &&& e.2 < n
            &&& e.0 == world.store.record(e.2 as int).position
            &&& e.1 == world.store.record(e.2 as int).radius
            &&& index.bag().count(e) == 1
        } by {
            if e != entry {
                assert(before.bag().count(e) > 0);
            }
        }
        assert(entry == world.circle(n - 1));
        assert forall|i: int|
            0 <= i < n && world.arena().contains(
                world.store.record(i).position,
            ) implies #[trigger] index.bag().count(world.circle(i)) == 1 by {
            if i < n - 1 {
                assert(before.bag().count(world.circle(i)) == 1);
                assert(world.circle(i).2 == i);
            }
        }
    } else {
        assert(index.entries() =~= Seq::empty());
        index.entries().to_multiset_ensures();
        assert forall|e: (Vec2, i32, usize)| index.bag().count(e) == 0 by {
            if index.bag().count(e) > 0 {
                assert(index.entries().contains(e));
            }
        }
    }
}

} // verus!
