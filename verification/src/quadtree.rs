use vstd::prelude::*;
use crate::vector::{Vec2, square, distance_squared, span_product};
use crate::quadtree_laws::{lemma_push_adds_once, lemma_pushed_rests, lemma_quadrants_disjoint};

verus! {

/// An axis-aligned rectangle covering `[left, left + width) x [top, top + height)`.
#[derive(Clone, Copy, Debug, PartialEq, Eq, Structural)]
pub struct Rect {
    pub left: i32,
    pub top: i32,
    pub width: i32,
    pub height: i32,
}

/// `v` limited to the interval from `lo` to `hi`; `lo` wins where the interval is empty.
pub open spec fn clamp(v: int, lo: int, hi: int) -> int {
    if v <= hi {
        if lo <= v { v } else { lo }
    } else {
        if lo <= hi { hi } else { lo }
    }
}

impl Rect {
    /// The far edges `left + width` and `top + height` are themselves coordinates.
    pub open spec fn fits(self) -> bool {
        &&& i32::MIN <= self.left + self.width <= i32::MAX
        &&& i32::MIN <= self.top + self.height <= i32::MAX
    }

    /// `p` lies in the half-open rectangle.
    pub open spec fn contains(self, p: Vec2) -> bool {
        &&& self.left <= p.x < self.left + self.width
        &&& self.top <= p.y < self.top + self.height
    }

    /// The point of the closed rectangle nearest to `p`, as `(x, y)`.
    pub open spec fn nearest(self, p: Vec2) -> (int, int) {
        (
            clamp(p.x as int, self.left as int, self.left + self.width),
            clamp(p.y as int, self.top as int, self.top + self.height),
        )
    }

    /// A circle reaches the rectangle when the nearest point of the rectangle
    /// lies strictly closer to the centre than the radius.
    pub open spec fn meets_circle(self, centre: Vec2, radius: i32) -> bool {
        let (nx, ny) = self.nearest(centre);
        square(centre.x - nx) + square(centre.y - ny) < square(radius as int)
    }

    /// Quadrant `k` of the rectangle: 0 top left, 1 top right, 2 bottom left,
    /// 3 bottom right. The left quadrants have half the width, rounded toward
    /// zero, and the right ones the rest of it; the top quadrants have half
    /// the height, rounded toward zero, and the bottom ones the rest. So the
    /// four quadrants together cover the rectangle, and no two overlap.
    pub open spec fn quadrant(self, k: int) -> Rect {
        let hw = half(self.width as int);
        let hh = half(self.height as int);
        let right = k == 1 || k == 3;
        let bottom = k == 2 || k == 3;
        Rect {
            left: (if right { self.left + hw } else { self.left as int }) as i32,
            top: (if bottom { self.top + hh } else { self.top as int }) as i32,
            width: (if right { self.width - hw } else { hw }) as i32,
            height: (if bottom { self.height - hh } else { hh }) as i32,
        }
    }

    /// The rectangle is a single cell or less: no quadrant of it is smaller
    /// than itself and still holds a point.
    pub open spec fn indivisible(self) -> bool {
        self.width <= 1 && self.height <= 1
    }
}

/// Half of `v`, rounded toward zero.
pub open spec fn half(v: int) -> int {
    if v >= 0 { v / 2 } else { -((-v) / 2) }
}

/// Two circles touch or overlap: the centres are no further apart than the
/// sum of the radii.
pub open spec fn circles_touch(c1: Vec2, r1: i32, c2: Vec2, r2: i32) -> bool {
    distance_squared(c1, c2) <= square(r1 + r2)
}

/// Whether `point` lies inside `boundary`.
pub fn inside_boundary(boundary: &Rect, point: &Vec2) -> (inside: bool)
    ensures
        inside == boundary.contains(*point),
{
    let right: i64 = boundary.left as i64 + boundary.width as i64;
    let bottom: i64 = boundary.top as i64 + boundary.height as i64;
    (boundary.left <= point.x && (point.x as i64) < right) && (boundary.top <= point.y
        && (point.y as i64) < bottom)
}

/// Checks circle-rectangle intersection.
pub fn cr_intersection(circle_centre: Vec2, circle_radius: i32, rect: &Rect) -> (hit: bool)
    ensures
        hit == rect.meets_circle(circle_centre, circle_radius),
{
    let right: i64 = rect.left as i64 + rect.width as i64;
    let bottom: i64 = rect.top as i64 + rect.height as i64;
    let closest_x: i64 = larger(rect.left as i64, smaller(circle_centre.x as i64, right));
    let closest_y: i64 = larger(rect.top as i64, smaller(circle_centre.y as i64, bottom));
    let dx: i128 = circle_centre.x as i128 - closest_x as i128;
    let dy: i128 = circle_centre.y as i128 - closest_y as i128;
    let xx = span_product(dx, dx);
    let yy = span_product(dy, dy);
    let rr = span_product(circle_radius as i128, circle_radius as i128);
    xx + yy < rr
}

/// Checks circle-circle intersection.
pub fn cc_intersection(c1: Vec2, r1: i32, c2: Vec2, r2: i32) -> (hit: bool)
    ensures
        hit == circles_touch(c1, r1, c2, r2),
{
    let reach: i128 = r1 as i128 + r2 as i128;
    c1.distance_squared(c2) <= span_product(reach, reach)
}

fn smaller(a: i64, b: i64) -> (m: i64)
    ensures
        m == if a <= b { a } else { b },
{
    if a <= b { a } else { b }
}

fn larger(a: i64, b: i64) -> (m: i64)
    ensures
        m == if a >= b { a } else { b },
{
    if a >= b { a } else { b }
}

/// The mathematical value of a quadtree node: its boundary, how many circles
/// it may hold itself, the circles it holds (centre, radius, payload) in
/// insertion order, and its four quadrant subtrees once it has subdivided.
pub struct Tree<T> {
    pub boundary: Rect,
    pub capacity: nat,
    pub points: Seq<(Vec2, i32, T)>,
    pub children: Option<Box<Quad<T>>>,
}

/// The four subtrees of a subdivided node.
pub struct Quad<T> {
    pub top_left: Tree<T>,
    pub top_right: Tree<T>,
    pub bottom_left: Tree<T>,
    pub bottom_right: Tree<T>,
}

impl<T> Tree<T> {
    /// An empty node.
    pub open spec fn leaf(boundary: Rect, capacity: nat) -> Tree<T> {
        Tree { boundary, capacity, points: Seq::empty(), children: None }
    }

    /// The four empty quadrants that a node gets on subdividing.
    pub open spec fn fresh_quad(self) -> Quad<T> {
        Quad {
            top_left: Tree::leaf(self.boundary.quadrant(0), self.capacity),
            top_right: Tree::leaf(self.boundary.quadrant(1), self.capacity),
            bottom_left: Tree::leaf(self.boundary.quadrant(2), self.capacity),
            bottom_right: Tree::leaf(self.boundary.quadrant(3), self.capacity),
        }
    }

    /// The quadrants of the node: those it has, or fresh ones.
    pub open spec fn quad(self) -> Quad<T> {
        match self.children {
            Some(q) => *q,
            None => self.fresh_quad(),
        }
    }

    /// The tree after inserting `entry`. A circle whose centre lies outside the
    /// boundary is dropped. A node with room keeps the circle itself, and so
    /// does a node that is a single cell, however many it holds. Any other
    /// full node subdivides, if it has not yet, and offers the circle to each
    /// of its quadrants, of which one contains the centre; what the node
    /// holds itself stays where it is.
    pub open spec fn push(self, entry: (Vec2, i32, T)) -> Tree<T>
        decreases self.boundary.width + self.boundary.height,
    {
        if !self.boundary.contains(entry.0) {
            self
        } else if self.points.len() < self.capacity || self.boundary.indivisible() {
            Tree { points: self.points.push(entry), ..self }
        } else if self.well_formed_here() {
            let q = self.quad();
            Tree {
                children: Some(
                    Box::new(
                        Quad {
                            top_left: q.top_left.push(entry),
                            top_right: q.top_right.push(entry),
                            bottom_left: q.bottom_left.push(entry),
                            bottom_right: q.bottom_right.push(entry),
                        },
                    ),
                ),
                ..self
            }
        } else {
            self
        }
    }

    /// The node's own part of well-formedness: its boundary fits, and its
    /// quadrants, if any, have the boundaries of its four quarters.
    pub open spec fn well_formed_here(self) -> bool {
        &&& self.boundary.fits()
        &&& match self.children {
            Some(q) => {
                &&& q.top_left.boundary == self.boundary.quadrant(0)
                &&& q.top_right.boundary == self.boundary.quadrant(1)
                &&& q.bottom_left.boundary == self.boundary.quadrant(2)
                &&& q.bottom_right.boundary == self.boundary.quadrant(3)
            },
            None => true,
        }
    }
}

impl<T> Tree<T> {
    /// Well-formedness of a whole tree: at every node the boundary fits, no
    /// more circles are held than the capacity allows unless the node is a
    /// single cell, every circle held has its centre inside the node's
    /// boundary, and a subdivided node is full, is more than a single cell,
    /// and has four well-formed quadrants of its own capacity, one on each
    /// quarter of its boundary.
    pub open spec fn wf(self) -> bool
        decreases self,
    {
        &&& self.well_formed_here()
        &&& self.points.len() <= self.capacity || self.boundary.indivisible()
        &&& forall|i: int|
            0 <= i < self.points.len() ==> self.boundary.contains(#[trigger] self.points[i].0)
        &&& match self.children {
            Some(q) => {
                &&& self.points.len() == self.capacity
                &&& !self.boundary.indivisible()
                &&& q.top_left.capacity == self.capacity
                &&& q.top_right.capacity == self.capacity
                &&& q.bottom_left.capacity == self.capacity
                &&& q.bottom_right.capacity == self.capacity
                &&& q.top_left.wf()
                &&& q.top_right.wf()
                &&& q.bottom_left.wf()
                &&& q.bottom_right.wf()
            },
            None => true,
        }
    }

    /// The number of circles held in the whole tree.
    pub open spec fn len(self) -> nat
        decreases self,
    {
        self.points.len() + match self.children {
            Some(q) => q.top_left.len() + q.top_right.len() + q.bottom_left.len()
                + q.bottom_right.len(),
            None => 0,
        }
    }

    /// Every circle held in the tree: the node's own in insertion order, then
    /// those of the quadrants, top left first, bottom right last.
    pub open spec fn entries(self) -> Seq<(Vec2, i32, T)>
        decreases self,
    {
        self.points + match self.children {
            Some(q) => q.top_left.entries() + q.top_right.entries() + q.bottom_left.entries()
                + q.bottom_right.entries(),
            None => Seq::empty(),
        }
    }

    /// The payloads that a circle query reports. A subtree whose boundary the
    /// query circle does not reach reports nothing. Otherwise the node reports
    /// the circles of its own that touch the query circle, then what its
    /// quadrants report.
    pub open spec fn query(self, centre: Vec2, radius: i32) -> Seq<T>
        decreases self,
    {
        if !self.boundary.meets_circle(centre, radius) {
            Seq::empty()
        } else {
            touching(self.points, centre, radius) + match self.children {
                Some(q) => q.top_left.query(centre, radius) + q.top_right.query(centre, radius)
                    + q.bottom_left.query(centre, radius) + q.bottom_right.query(
                    centre,
                    radius,
                ),
                None => Seq::empty(),
            }
        }
    }
}

/// `found` holds a clone of each of `held`, in the same order, and nothing
/// else. For a type whose clone is a copy, such as an integer, the two
/// sequences are equal.
pub open spec fn clones_of<T: Clone>(found: Seq<T>, held: Seq<T>) -> bool {
    &&& found.len() == held.len()
    &&& forall|i: int| 0 <= i < held.len() ==> cloned(held[i], #[trigger] found[i])
}

/// The payloads of those circles in `points` that touch the circle
/// `(centre, radius)`, in the order of `points`.
pub open spec fn touching<T>(points: Seq<(Vec2, i32, T)>, centre: Vec2, radius: i32) -> Seq<T>
    decreases points.len(),
{
    if points.len() == 0 {
        Seq::empty()
    } else {
        let rest = touching(points.drop_last(), centre, radius);
        let last = points.last();
        if circles_touch(last.0, last.1, centre, radius) {
            rest.push(last.2)
        } else {
            rest
        }
    }
}

/// A quadtree over circles with a payload each. Nothing is ever removed or
/// moved: the tree is built afresh whenever the circles have changed. A
/// query hands out clones of the payloads, so a payload should be small.
pub struct QuadTree<T: Clone> {
    boundary: Rect,
    capacity: usize,
    children: Option<Box<Quadrants<T>>>,
    /// (Position, Radius, Data)
    points: Vec<(Vec2, i32, T)>,
}

struct Quadrants<T: Clone> {
    top_left: QuadTree<T>,
    top_right: QuadTree<T>,
    bottom_left: QuadTree<T>,
    bottom_right: QuadTree<T>,
}

impl<T: Clone> View for QuadTree<T> {
    type V = Tree<T>;

    closed spec fn view(&self) -> Tree<T>
        decreases self,
    {
        Tree {
            boundary: self.boundary,
            capacity: self.capacity as nat,
            points: self.points@,
            children: match self.children {
                Some(q) => Some(
                    Box::new(
                        Quad {
                            top_left: q.top_left@,
                            top_right: q.top_right@,
                            bottom_left: q.bottom_left@,
                            bottom_right: q.bottom_right@,
                        },
                    ),
                ),
                None => None,
            },
        }
    }
}

/// Quadrant `k` of a rectangle whose far edges are coordinates.
fn quadrant_of(boundary: &Rect, k: u8) -> (q: Rect)
    requires
        boundary.fits(),
        k < 4,
    ensures
        q == boundary.quadrant(k as int),
        q.fits(),
{
    let hw: i32 = boundary.width / 2;
    let hh: i32 = boundary.height / 2;
    let right = k == 1 || k == 3;
    let bottom = k == 2 || k == 3;
    let left: i32 = if right { boundary.left + hw } else { boundary.left };
    let top: i32 = if bottom { boundary.top + hh } else { boundary.top };
    let width: i32 = if right { boundary.width - hw } else { hw };
    let height: i32 = if bottom { boundary.height - hh } else { hh };
    Rect { left, top, width, height }
}

impl<T: Clone> QuadTree<T> {
    /// An empty tree over `boundary` whose nodes hold up to `capacity` circles each.
    pub fn new(capacity: usize, boundary: Rect) -> (tree: Self)
        requires
            boundary.fits(),
        ensures
            tree@ == Tree::<T>::leaf(boundary, capacity as nat),
            tree@.wf(),
    {
        Self { capacity, boundary, points: Vec::new(), children: None }
    }

    /// The number of circles held in the whole tree.
    pub fn len(&self) -> (n: usize)
        requires
            self@.len() <= usize::MAX,
        ensures
            n == self@.len(),
        decreases self,
    {
        match &self.children {
            Some(q) => self.points.len() + q.top_left.len() + q.top_right.len()
                + q.bottom_left.len() + q.bottom_right.len(),
            None => self.points.len(),
        }
    }
}

impl<T: Clone> QuadTree<T> {
    /// Get the payloads of all circles that touch the given circle, each as
    /// a clone of the payload held.
    pub fn query(&self, circle_centre: Vec2, circle_radius: i32) -> (found: Vec<T>)
        ensures
            clones_of(found@, self@.query(circle_centre, circle_radius)),
        decreases self,
    {
        let mut found: Vec<T> = Vec::new();
        if !cr_intersection(circle_centre, circle_radius, &self.boundary) {
            return found;
        }
        let mut i: usize = 0;
        while i < self.points.len()
            invariant
                i <= self.points.len(),
                clones_of(
                    found@,
                    touching(self.points@.take(i as int), circle_centre, circle_radius),
                ),
            decreases self.points.len() - i,
        {
            let entry = &self.points[i];
            proof {
                assert(self.points@.take(i + 1).drop_last() == self.points@.take(i as int));
            }
            if cc_intersection(entry.0, entry.1, circle_centre, circle_radius) {
                found.push(entry.2.clone());
            }
            i += 1;
        }
        proof {
            assert(self.points@.take(i as int) == self.points@);
        }
        if let Some(q) = &self.children {
            let ghost own = touching(self.points@, circle_centre, circle_radius);
            let ghost a = q.top_left@.query(circle_centre, circle_radius);
            let ghost b = q.top_right@.query(circle_centre, circle_radius);
            let ghost c = q.bottom_left@.query(circle_centre, circle_radius);
            let ghost d = q.bottom_right@.query(circle_centre, circle_radius);
            let mut part = q.top_left.query(circle_centre, circle_radius);
            found.append(&mut part);
            assert(clones_of(found@, own + a));
            let mut part = q.top_right.query(circle_centre, circle_radius);
            found.append(&mut part);
            assert(clones_of(found@, own + a + b));
            let mut part = q.bottom_left.query(circle_centre, circle_radius);
            found.append(&mut part);
            assert(clones_of(found@, own + a + b + c));
            let mut part = q.bottom_right.query(circle_centre, circle_radius);
            found.append(&mut part);
            assert(clones_of(found@, own + a + b + c + d));
            assert(own + a + b + c + d == own + (a + b + c + d));
        } else {
            assert(touching(self.points@, circle_centre, circle_radius) + Seq::<T>::empty()
                == touching(self.points@, circle_centre, circle_radius));
        }
        found
    }

    /// Insert a circle `(centre, radius, payload)`.
    pub fn push(&mut self, point: (Vec2, i32, T))
        requires
            old(self)@.wf(),
        ensures
            final(self)@ == old(self)@.push(point),
            final(self)@.wf(),
        decreases old(self)@.boundary.width + old(self)@.boundary.height,
    {
        if !inside_boundary(&self.boundary, &point.0) {
            return;
        }
        if self.points.len() < self.capacity || (self.boundary.width <= 1 && self.boundary.height
            <= 1) {
            self.points.push(point);
            return;
        }
        // sub-divide into 4 parts

        if self.children.is_none() {
            self.children = Some(
                Box::new(
                    Quadrants {
                        top_left: QuadTree::new(self.capacity, quadrant_of(&self.boundary, 0)),
                        top_right: QuadTree::new(self.capacity, quadrant_of(&self.boundary, 1)),
                        bottom_left: QuadTree::new(self.capacity, quadrant_of(&self.boundary, 2)),
                        bottom_right: QuadTree::new(
                            self.capacity,
                            quadrant_of(&self.boundary, 3),
                        ),
                    },
                ),
            );
        }
        let ghost q = self@.quad();
        proof {
            let entry = point;
            assert(q == old(self)@.quad());
            // a quadrant that does not contain the centre stays as it is
            assert(!q.top_left.boundary.contains(entry.0) ==> q.top_left.push(entry) == q.top_left);
            assert(!q.top_right.boundary.contains(entry.0) ==> q.top_right.push(entry)
                == q.top_right);
            assert(!q.bottom_left.boundary.contains(entry.0) ==> q.bottom_left.push(entry)
                == q.bottom_left);
            assert(!q.bottom_right.boundary.contains(entry.0) ==> q.bottom_right.push(entry)
                == q.bottom_right);
            lemma_quadrants_disjoint(self.boundary, 0, 1, point.0);
            lemma_quadrants_disjoint(self.boundary, 0, 2, point.0);
            lemma_quadrants_disjoint(self.boundary, 0, 3, point.0);
            lemma_quadrants_disjoint(self.boundary, 1, 2, point.0);
            lemma_quadrants_disjoint(self.boundary, 1, 3, point.0);
            lemma_quadrants_disjoint(self.boundary, 2, 3, point.0);
        }
        match &mut self.children {
            Some(quadrants) => {
                // no two quadrants overlap: the one that contains the centre takes the circle
                if inside_boundary(&quadrants.top_left.boundary, &point.0) {
                    quadrants.top_left.push(point);
                } else if inside_boundary(&quadrants.top_right.boundary, &point.0) {
                    quadrants.top_right.push(point);
                } else if inside_boundary(&quadrants.bottom_left.boundary, &point.0) {
                    quadrants.bottom_left.push(point);
                } else if inside_boundary(&quadrants.bottom_right.boundary, &point.0) {
                    quadrants.bottom_right.push(point);
                }
            },
            None => {},
        }
        proof {
            let u = *self@.children->Some_0;
            assert(u.top_left == q.top_left.push(point));
            assert(u.top_right == q.top_right.push(point));
            assert(u.bottom_left == q.bottom_left.push(point));
            assert(u.bottom_right == q.bottom_right.push(point));
            assert(self@.children == Some(Box::new(u)));
        }
    }
}

/// Why a circle was not inserted.
#[derive(Clone, Copy, Debug, PartialEq, Eq, Structural)]
pub enum InsertError {
    /// The centre lies outside the boundary of the tree.
    OutOfBoundsInsert,
}

impl<T: Clone> QuadTree<T> {
    /// Inserts a circle as `push` does, and tells whether it was taken. A
    /// circle whose centre lies inside the boundary of the tree is held from
    /// then on, once, on a path of nodes that all contain its centre. A circle
    /// outside is dropped, and the tree stays as it is.
    pub fn insert(&mut self, point: (Vec2, i32, T)) -> (result: Result<(), InsertError>)
        requires
            old(self)@.wf(),
        ensures
            final(self)@ == old(self)@.push(point),
            final(self)@.wf(),
            old(self)@.boundary.contains(point.0) ==> {
                &&& result == Ok::<(), InsertError>(())
                &&& final(self)@.bag() == old(self)@.bag().insert(point)
                &&& final(self)@.rests(point)
            },
            !old(self)@.boundary.contains(point.0) ==> {
                &&& result == Err::<(), InsertError>(InsertError::OutOfBoundsInsert)
                &&& final(self)@ == old(self)@
            },
    {
        proof {
            lemma_push_adds_once(self@, point);
            lemma_pushed_rests(self@, point);
        }
        let inside = inside_boundary(&self.boundary, &point.0);
        self.push(point);
        if inside {
            Ok(())
        } else {
            Err(InsertError::OutOfBoundsInsert)
        }
    }
}

} // verus!
