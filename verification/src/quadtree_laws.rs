//! What holds of every quadtree: containment along the path on which a
//! circle rests, what an insertion adds, and what a query reports.

use vstd::prelude::*;
use vstd::multiset::Multiset;
use vstd::seq_lib::{
    lemma_multiset_commutative, to_multiset_build, to_multiset_len, to_multiset_contains,
};
use crate::vector::{Vec2, square, distance_squared};
use crate::quadtree::{Rect, Tree, circles_touch, touching};

verus! {

/// A quadrant of a rectangle whose far edges are coordinates has far edges
/// that are coordinates. A quadrant of a rectangle that contains a point and
/// is more than a single cell is smaller than the rectangle: its width and
/// height together are less.
pub proof fn lemma_quadrant_fits(b: Rect, k: int)
    requires
        b.fits(),
        0 <= k < 4,
    ensures
        b.quadrant(k).fits(),
        b.width >= 1 && b.height >= 1 ==> 0 <= b.quadrant(k).width <= b.width && 0
            <= b.quadrant(k).height <= b.height,
        b.width >= 1 && b.height >= 1 && !b.indivisible() ==> b.quadrant(k).width + b.quadrant(
            k,
        ).height < b.width + b.height,
{
}

/// The quadrants cover the rectangle: a point inside a rectangle is inside
/// one of its quadrants.
pub proof fn lemma_quadrants_cover(b: Rect, p: Vec2)
    requires
        b.fits(),
        b.contains(p),
    ensures
        b.quadrant(0).contains(p) || b.quadrant(1).contains(p) || b.quadrant(2).contains(p)
            || b.quadrant(3).contains(p),
{
}

/// A point inside a quadrant of a rectangle is inside the rectangle.
pub proof fn lemma_quadrant_inside(b: Rect, k: int, p: Vec2)
    requires
        b.fits(),
        0 <= k < 4,
        b.quadrant(k).contains(p),
    ensures
        b.contains(p),
{
}

/// No point is inside two different quadrants of one rectangle.
pub proof fn lemma_quadrants_disjoint(b: Rect, j: int, k: int, p: Vec2)
    requires
        b.fits(),
        0 <= j < 4,
        0 <= k < 4,
        j != k,
    ensures
        !(b.quadrant(j).contains(p) && b.quadrant(k).contains(p)),
{
}

/// Insertion keeps a tree well-formed and changes neither a boundary nor a
/// capacity: every circle held, old or new, still has its centre inside the
/// boundary of the node that holds it.
pub proof fn lemma_push_well_formed<T>(t: Tree<T>, entry: (Vec2, i32, T))
    requires
        t.wf(),
    ensures
        t.push(entry).wf(),
        t.push(entry).boundary == t.boundary,
        t.push(entry).capacity == t.capacity,
    decreases t.boundary.width + t.boundary.height,
{
    if t.boundary.contains(entry.0) && t.points.len() >= t.capacity && !t.boundary.indivisible() {
        let q = t.quad();
        lemma_quadrant_fits(t.boundary, 0);
        lemma_quadrant_fits(t.boundary, 1);
        lemma_quadrant_fits(t.boundary, 2);
        lemma_quadrant_fits(t.boundary, 3);
        lemma_push_well_formed(q.top_left, entry);
        lemma_push_well_formed(q.top_right, entry);
        lemma_push_well_formed(q.bottom_left, entry);
        lemma_push_well_formed(q.bottom_right, entry);
    }
}

impl<T> Tree<T> {
    /// `entry` rests somewhere in the tree, and every node on the way from the
    /// root to the node that holds it contains its centre.
    pub open spec fn rests(self, entry: (Vec2, i32, T)) -> bool
        decreases self,
    {
        &&& self.boundary.contains(entry.0)
        &&& {
            ||| self.points.contains(entry)
            ||| match self.children {
                Some(q) => {
                    ||| q.top_left.rests(entry)
                    ||| q.top_right.rests(entry)
                    ||| q.bottom_left.rests(entry)
                    ||| q.bottom_right.rests(entry)
                },
                None => false,
            }
        }
    }
}

/// Containment: in a well-formed tree every circle held rests on a path of
/// nodes that all contain its centre.
pub proof fn lemma_held_circles_rest<T>(t: Tree<T>, entry: (Vec2, i32, T))
    requires
        t.wf(),
        t.entries().contains(entry),
    ensures
        t.rests(entry),
    decreases t,
{
    if !t.points.contains(entry) {
        let q = *t.children->Some_0;
        let a = q.top_left.entries();
        let b = q.top_right.entries();
        let c = q.bottom_left.entries();
        let d = q.bottom_right.entries();
        let i = choose|i: int| 0 <= i < t.entries().len() && t.entries()[i] == entry;
        let j = i - t.points.len();
        assert(t.children is Some);
        assert(0 <= j < (a + b + c + d).len());
        if j < a.len() {
            assert(a[j] == entry);
            lemma_held_circles_rest(q.top_left, entry);
            lemma_quadrant_inside(t.boundary, 0, entry.0);
        } else if j < a.len() + b.len() {
            assert(b[j - a.len()] == entry);
            lemma_held_circles_rest(q.top_right, entry);
            lemma_quadrant_inside(t.boundary, 1, entry.0);
        } else if j < a.len() + b.len() + c.len() {
            assert(c[j - a.len() - b.len()] == entry);
            lemma_held_circles_rest(q.bottom_left, entry);
            lemma_quadrant_inside(t.boundary, 2, entry.0);
        } else {
            assert(d[j - a.len() - b.len() - c.len()] == entry);
            lemma_held_circles_rest(q.bottom_right, entry);
            lemma_quadrant_inside(t.boundary, 3, entry.0);
        }
    } else {
        let i = choose|i: int| 0 <= i < t.points.len() && t.points[i] == entry;
        assert(t.boundary.contains(t.points[i].0));
    }
}

/// The tree holds as many circles as `entries` lists.
pub proof fn lemma_len_counts_entries<T>(t: Tree<T>)
    ensures
        t.len() == t.entries().len(),
    decreases t,
{
    if let Some(q) = t.children {
        lemma_len_counts_entries(q.top_left);
        lemma_len_counts_entries(q.top_right);
        lemma_len_counts_entries(q.bottom_left);
        lemma_len_counts_entries(q.bottom_right);
    }
}

impl<T> Tree<T> {
    /// The circles held in the whole tree, without their order.
    pub open spec fn bag(self) -> Multiset<(Vec2, i32, T)> {
        self.entries().to_multiset()
    }
}

/// The circles of a tree are the node's own and those of its quadrants.
proof fn lemma_bag_parts<T>(t: Tree<T>)
    ensures
        t.bag() == t.points.to_multiset().add(t.quad().top_left.bag()).add(
            t.quad().top_right.bag(),
        ).add(t.quad().bottom_left.bag()).add(t.quad().bottom_right.bag()),
{
    let q = t.quad();
    let a = q.top_left.entries();
    let b = q.top_right.entries();
    let c = q.bottom_left.entries();
    let d = q.bottom_right.entries();
    if t.children is None {
        assert(a == Seq::<(Vec2, i32, T)>::empty() + Seq::<(Vec2, i32, T)>::empty());
        assert(b == Seq::<(Vec2, i32, T)>::empty() + Seq::<(Vec2, i32, T)>::empty());
        assert(c == Seq::<(Vec2, i32, T)>::empty() + Seq::<(Vec2, i32, T)>::empty());
        assert(d == Seq::<(Vec2, i32, T)>::empty() + Seq::<(Vec2, i32, T)>::empty());
        assert(a + b + c + d =~= Seq::<(Vec2, i32, T)>::empty());
    }
    assert(t.entries() =~= t.points + (a + b + c + d));
    lemma_multiset_commutative(t.points, a + b + c + d);
    lemma_multiset_commutative(a + b + c, d);
    lemma_multiset_commutative(a + b, c);
    lemma_multiset_commutative(a, b);
    assert(t.bag() =~= t.points.to_multiset().add(a.to_multiset()).add(b.to_multiset()).add(
        c.to_multiset(),
    ).add(d.to_multiset()));
}

/// What an insertion adds: the circle itself, once, where its centre lies
/// inside the boundary of the tree, and nothing where it lies outside. No
/// circle held before is lost or held twice.
pub proof fn lemma_push_adds_once<T>(t: Tree<T>, entry: (Vec2, i32, T))
    requires
        t.wf(),
    ensures
        t.boundary.contains(entry.0) ==> t.push(entry).bag() == t.bag().insert(entry),
        !t.boundary.contains(entry.0) ==> t.push(entry) == t,
    decreases t.boundary.width + t.boundary.height,
{
    if !t.boundary.contains(entry.0) {
    } else if t.points.len() < t.capacity || t.boundary.indivisible() {
        let u = t.push(entry);
        assert(u.entries() =~= t.points.push(entry) + t.entries().subrange(
            t.points.len() as int,
            t.entries().len() as int,
        ));
        assert(t.entries() =~= t.points + t.entries().subrange(
            t.points.len() as int,
            t.entries().len() as int,
        ));
        let rest = t.entries().subrange(t.points.len() as int, t.entries().len() as int);
        lemma_multiset_commutative(t.points.push(entry), rest);
        lemma_multiset_commutative(t.points, rest);
        to_multiset_build(t.points, entry);
        assert(u.bag() =~= t.bag().insert(entry));
    } else {
        let q = t.quad();
        let u = t.push(entry);
        let p = entry.0;
        lemma_quadrant_fits(t.boundary, 0);
        lemma_quadrant_fits(t.boundary, 1);
        lemma_quadrant_fits(t.boundary, 2);
        lemma_quadrant_fits(t.boundary, 3);
        lemma_push_adds_once(q.top_left, entry);
        lemma_push_adds_once(q.top_right, entry);
        lemma_push_adds_once(q.bottom_left, entry);
        lemma_push_adds_once(q.bottom_right, entry);
        lemma_quadrants_cover(t.boundary, p);
        lemma_quadrants_disjoint(t.boundary, 0, 1, p);
        lemma_quadrants_disjoint(t.boundary, 0, 2, p);
        lemma_quadrants_disjoint(t.boundary, 0, 3, p);
        lemma_quadrants_disjoint(t.boundary, 1, 2, p);
        lemma_quadrants_disjoint(t.boundary, 1, 3, p);
        lemma_quadrants_disjoint(t.boundary, 2, 3, p);
        lemma_bag_parts(t);
        lemma_bag_parts(u);
        assert(u.quad() == *u.children->Some_0);
        assert(u.bag() =~= t.bag().insert(entry));
    }
}

impl<T> Tree<T> {
    /// A query with this circle passes over something: some circle that
    /// touches the query circle is held in a subtree whose boundary the query
    /// circle does not reach.
    pub open spec fn overlooks(self, centre: Vec2, radius: i32) -> bool
        decreases self,
    {
        if !self.boundary.meets_circle(centre, radius) {
            touching(self.entries(), centre, radius).len() > 0
        } else {
            match self.children {
                Some(q) => {
                    ||| q.top_left.overlooks(centre, radius)
                    ||| q.top_right.overlooks(centre, radius)
                    ||| q.bottom_left.overlooks(centre, radius)
                    ||| q.bottom_right.overlooks(centre, radius)
                },
                None => false,
            }
        }
    }
}

/// The touching circles of a concatenation are those of its parts, in order.
pub proof fn lemma_touching_concat<T>(
    a: Seq<(Vec2, i32, T)>,
    b: Seq<(Vec2, i32, T)>,
    centre: Vec2,
    radius: i32,
)
    ensures
        touching(a + b, centre, radius) == touching(a, centre, radius) + touching(
            b,
            centre,
            radius,
        ),
    decreases b.len(),
{
    if b.len() == 0 {
        assert(a + b =~= a);
        assert(touching(a, centre, radius) + touching(b, centre, radius) =~= touching(
            a,
            centre,
            radius,
        ));
    } else {
        assert((a + b).drop_last() =~= a + b.drop_last());
        lemma_touching_concat(a, b.drop_last(), centre, radius);
        let rest = touching(b.drop_last(), centre, radius);
        assert(touching(a, centre, radius) + rest.push(b.last().2) =~= (touching(
            a,
            centre,
            radius,
        ) + rest).push(b.last().2));
    }
}

/// `touching` keeps exactly the payloads of the circles that touch: it is the
/// filter by `circles_touch` followed by the projection to the payload.
pub proof fn lemma_touching_is_filter<T>(points: Seq<(Vec2, i32, T)>, centre: Vec2, radius: i32)
    ensures
        touching(points, centre, radius) == points.filter(
            |e: (Vec2, i32, T)| circles_touch(e.0, e.1, centre, radius),
        ).map_values(|e: (Vec2, i32, T)| e.2),
    decreases points.len(),
{
    let keep = |e: (Vec2, i32, T)| circles_touch(e.0, e.1, centre, radius);
    let payload = |e: (Vec2, i32, T)| e.2;
    reveal(Seq::filter);
    if points.len() == 0 {
        assert(points.filter(keep).map_values(payload) =~= Seq::<T>::empty());
    } else {
        lemma_touching_is_filter(points.drop_last(), centre, radius);
        let rest = points.drop_last().filter(keep);
        if keep(points.last()) {
            assert(rest.push(points.last()).map_values(payload) =~= rest.map_values(payload).push(
                points.last().2,
            ));
        }
    }
}

/// Query exactness: unless the query passes over a touching circle, it
/// reports the payloads of exactly the circles held in the tree that touch the
/// query circle, each as often as it is held, in the order of `entries`.
pub proof fn lemma_query_exact<T>(t: Tree<T>, centre: Vec2, radius: i32)
    requires
        !t.overlooks(centre, radius),
    ensures
        t.query(centre, radius) == touching(t.entries(), centre, radius),
    decreases t,
{
    if t.boundary.meets_circle(centre, radius) {
        match t.children {
            Some(q) => {
                let a = q.top_left.entries();
                let b = q.top_right.entries();
                let c = q.bottom_left.entries();
                let d = q.bottom_right.entries();
                lemma_query_exact(q.top_left, centre, radius);
                lemma_query_exact(q.top_right, centre, radius);
                lemma_query_exact(q.bottom_left, centre, radius);
                lemma_query_exact(q.bottom_right, centre, radius);
                lemma_touching_concat(t.points, a + b + c + d, centre, radius);
                lemma_touching_concat(a + b + c, d, centre, radius);
                lemma_touching_concat(a + b, c, centre, radius);
                lemma_touching_concat(a, b, centre, radius);
            },
            None => {
                lemma_touching_concat(t.points, Seq::empty(), centre, radius);
            },
        }
    } else {
        assert(touching(t.entries(), centre, radius) =~= Seq::<T>::empty());
    }
}

/// Query soundness: whatever the tree, a query reports no payload that is
/// not that of a touching circle held in it, and none more often than such
/// circles are held.
pub proof fn lemma_query_sound<T>(t: Tree<T>, centre: Vec2, radius: i32)
    ensures
        t.query(centre, radius).to_multiset().subset_of(
            touching(t.entries(), centre, radius).to_multiset(),
        ),
    decreases t,
{
    let own = touching(t.points, centre, radius);
    if t.boundary.meets_circle(centre, radius) {
        match t.children {
            Some(q) => {
                let a = q.top_left.entries();
                let b = q.top_right.entries();
                let c = q.bottom_left.entries();
                let d = q.bottom_right.entries();
                let ta = touching(a, centre, radius);
                let tb = touching(b, centre, radius);
                let tc = touching(c, centre, radius);
                let td = touching(d, centre, radius);
                let qa = q.top_left.query(centre, radius);
                let qb = q.top_right.query(centre, radius);
                let qc = q.bottom_left.query(centre, radius);
                let qd = q.bottom_right.query(centre, radius);
                lemma_query_sound(q.top_left, centre, radius);
                lemma_query_sound(q.top_right, centre, radius);
                lemma_query_sound(q.bottom_left, centre, radius);
                lemma_query_sound(q.bottom_right, centre, radius);
                lemma_touching_concat(t.points, a + b + c + d, centre, radius);
                lemma_touching_concat(a + b + c, d, centre, radius);
                lemma_touching_concat(a + b, c, centre, radius);
                lemma_touching_concat(a, b, centre, radius);
                lemma_multiset_commutative(own, ta + tb + tc + td);
                lemma_multiset_commutative(ta + tb + tc, td);
                lemma_multiset_commutative(ta + tb, tc);
                lemma_multiset_commutative(ta, tb);
                lemma_multiset_commutative(own, qa + qb + qc + qd);
                lemma_multiset_commutative(qa + qb + qc, qd);
                lemma_multiset_commutative(qa + qb, qc);
                lemma_multiset_commutative(qa, qb);
            },
            None => {
                lemma_touching_concat(t.points, Seq::empty(), centre, radius);
            },
        }
    } else {
        assert(t.query(centre, radius).to_multiset() =~= Multiset::<T>::empty()) by {
            t.query(centre, radius).to_multiset_ensures();
        }
    }
}

/// A circle reaches every rectangle that contains a point strictly closer
/// to its centre than its radius.
pub proof fn lemma_near_point_reached(b: Rect, p: Vec2, centre: Vec2, radius: i32)
    requires
        b.contains(p),
        distance_squared(p, centre) < square(radius as int),
    ensures
        b.meets_circle(centre, radius),
{
    let (nx, ny) = b.nearest(centre);
    let dx = centre.x - nx;
    let dy = centre.y - ny;
    let ex = centre.x - p.x;
    let ey = centre.y - p.y;
    assert(dx * dx <= ex * ex) by (nonlinear_arith)
        requires
            (0 <= dx <= ex) || (ex <= dx <= 0),
    ;
    assert(dy * dy <= ey * ey) by (nonlinear_arith)
        requires
            (0 <= dy <= ey) || (ey <= dy <= 0),
    ;
    assert((p.x - centre.x) * (p.x - centre.x) == ex * ex) by (nonlinear_arith)
        requires
            ex == centre.x - p.x,
    ;
    assert((p.y - centre.y) * (p.y - centre.y) == ey * ey) by (nonlinear_arith)
        requires
            ey == centre.y - p.y,
    ;
}

/// Where something touches in a sequence of circles, one of them touches.
proof fn lemma_touching_witness<T>(points: Seq<(Vec2, i32, T)>, centre: Vec2, radius: i32) -> (i:
    int)
    requires
        touching(points, centre, radius).len() > 0,
    ensures
        0 <= i < points.len(),
        circles_touch(points[i].0, points[i].1, centre, radius),
    decreases points.len(),
{
    let last = points.last();
    if circles_touch(last.0, last.1, centre, radius) {
        points.len() - 1
    } else {
        lemma_touching_witness(points.drop_last(), centre, radius)
    }
}

/// Query completeness for covered centres: in a well-formed tree, a query
/// passes over nothing if every held circle that touches the query circle has
/// its centre strictly inside it.
pub proof fn lemma_covered_centres_found<T>(t: Tree<T>, centre: Vec2, radius: i32)
    requires
        t.wf(),
        forall|i: int|
            0 <= i < t.entries().len() && circles_touch(
                (#[trigger] t.entries()[i]).0,
                t.entries()[i].1,
                centre,
                radius,
            ) ==> distance_squared(t.entries()[i].0, centre) < square(radius as int),
    ensures
        !t.overlooks(centre, radius),
    decreases t,
{
    let all = t.entries();
    if !t.boundary.meets_circle(centre, radius) {
        if touching(all, centre, radius).len() > 0 {
            let i = lemma_touching_witness(all, centre, radius);
            lemma_held_circles_rest(t, all[i]);
            lemma_near_point_reached(t.boundary, all[i].0, centre, radius);
        }
    } else if let Some(q) = t.children {
        let a = q.top_left.entries();
        let b = q.top_right.entries();
        let c = q.bottom_left.entries();
        let d = q.bottom_right.entries();
        let n = t.points.len() as int;
        assert(all =~= t.points + (a + b + c + d));
        assert forall|i: int| 0 <= i < a.len() implies #[trigger] a[i] == all[n + i] by {}
        assert forall|i: int| 0 <= i < b.len() implies #[trigger] b[i] == all[n + a.len() + i] by {}
        assert forall|i: int| 0 <= i < c.len() implies #[trigger] c[i] == all[n + a.len()
            + b.len() + i] by {}
        assert forall|i: int| 0 <= i < d.len() implies #[trigger] d[i] == all[n + a.len()
            + b.len() + c.len() + i] by {}
        lemma_covered_centres_found(q.top_left, centre, radius);
        lemma_covered_centres_found(q.top_right, centre, radius);
        lemma_covered_centres_found(q.bottom_left, centre, radius);
        lemma_covered_centres_found(q.bottom_right, centre, radius);
    }
}

/// An insertion makes the tree one circle larger where the centre lies
/// inside its boundary, and leaves its size alone where it lies outside.
pub proof fn lemma_push_len<T>(t: Tree<T>, entry: (Vec2, i32, T))
    requires
        t.wf(),
    ensures
        t.push(entry).len() == t.len() + if t.boundary.contains(entry.0) { 1nat } else { 0nat },
{
    lemma_push_adds_once(t, entry);
    lemma_len_counts_entries(t);
    lemma_len_counts_entries(t.push(entry));
    to_multiset_len(t.entries());
    to_multiset_len(t.push(entry).entries());
}

/// An empty tree over a boundary whose far edges are coordinates is
/// well-formed.
pub proof fn lemma_leaf_well_formed<T>(boundary: Rect, capacity: nat)
    requires
        boundary.fits(),
    ensures
        Tree::<T>::leaf(boundary, capacity).wf(),
        Tree::<T>::leaf(boundary, capacity).len() == 0,
{
}

/// Containment of what is inserted: a circle whose centre lies inside the
/// boundary of the tree rests, after its insertion, on a path of nodes that all contain its
/// centre; and so does every circle that was held before.
pub proof fn lemma_pushed_rests<T>(t: Tree<T>, entry: (Vec2, i32, T))
    requires
        t.wf(),
    ensures
        t.boundary.contains(entry.0) ==> t.push(entry).rests(entry),
        forall|held: (Vec2, i32, T)|
            t.entries().contains(held) ==> #[trigger] t.push(entry).rests(held),
{
    let after = t.push(entry);
    lemma_push_well_formed(t, entry);
    lemma_push_adds_once(t, entry);
    if t.boundary.contains(entry.0) {
        to_multiset_contains(after.entries(), entry);
        assert(after.bag().count(entry) > 0);
        lemma_held_circles_rest(after, entry);
    }
    assert forall|held: (Vec2, i32, T)| t.entries().contains(held) implies #[trigger] after.rests(
        held,
    ) by {
        to_multiset_contains(t.entries(), held);
        to_multiset_contains(after.entries(), held);
        assert(t.bag().count(held) > 0);
        assert(after.bag().count(held) > 0);
        lemma_held_circles_rest(after, held);
    }
}

} // verus!
