use particle_sim::quadtree::{
    cc_intersection, cr_intersection, inside_boundary, InsertError, QuadTree, Rect,
};
use particle_sim::vector::{vec2, Vec2};

fn arena() -> Rect {
    Rect { left: 0, top: 0, width: 800, height: 800 }
}

fn sorted(mut v: Vec<usize>) -> Vec<usize> {
    v.sort();
    v
}

#[test]
fn empty_tree_reports_nothing() {
    let tree: QuadTree<usize> = QuadTree::new(4, arena());
    assert_eq!(tree.len(), 0);
    assert_eq!(tree.query(vec2(400, 400), 1000), Vec::<usize>::new());
}

#[test]
fn boundary_is_half_open() {
    let b = Rect { left: 10, top: 20, width: 100, height: 50 };
    assert!(inside_boundary(&b, &vec2(10, 20)));
    assert!(inside_boundary(&b, &vec2(109, 69)));
    assert!(!inside_boundary(&b, &vec2(110, 20)));
    assert!(!inside_boundary(&b, &vec2(10, 70)));
    assert!(!inside_boundary(&b, &vec2(9, 20)));
    assert!(!inside_boundary(&b, &vec2(10, 19)));
}

#[test]
fn boundary_at_the_end_of_the_coordinate_range() {
    let b = Rect { left: i32::MAX - 10, top: i32::MIN, width: 10, height: 10 };
    assert!(inside_boundary(&b, &vec2(i32::MAX - 1, i32::MIN)));
    assert!(!inside_boundary(&b, &vec2(i32::MAX, i32::MIN)));
}

#[test]
fn touching_circles_intersect() {
    // distance 20 == 10 + 10: the comparison is inclusive
    assert!(cc_intersection(vec2(0, 0), 10, vec2(20, 0), 10));
    assert!(!cc_intersection(vec2(0, 0), 10, vec2(21, 0), 10));
    // 3-4-5 triangle
    assert!(cc_intersection(vec2(0, 0), 2, vec2(3, 4), 3));
    assert!(!cc_intersection(vec2(0, 0), 2, vec2(3, 4), 2));
}

#[test]
fn circle_intersection_at_the_extremes_does_not_overflow() {
    assert!(!cc_intersection(vec2(i32::MIN, i32::MIN), 1, vec2(i32::MAX, i32::MAX), 1));
    // distance 2^32 - 2 == the sum of the radii: touching
    assert!(cc_intersection(vec2(i32::MIN + 1, 0), i32::MAX, vec2(i32::MAX, 0), i32::MAX));
    assert!(!cc_intersection(vec2(i32::MIN, 0), i32::MAX, vec2(i32::MAX, 0), i32::MAX));
}

#[test]
fn circle_rectangle_test_is_strict() {
    let b = Rect { left: 0, top: 0, width: 100, height: 100 };
    // centre inside
    assert!(cr_intersection(vec2(50, 50), 1, &b));
    // nearest point (100, 50) at distance 10
    assert!(!cr_intersection(vec2(110, 50), 10, &b));
    assert!(cr_intersection(vec2(110, 50), 11, &b));
    // corner (0, 0) at distance 5 from (-3, -4)
    assert!(!cr_intersection(vec2(-3, -4), 5, &b));
    assert!(cr_intersection(vec2(-3, -4), 6, &b));
    // a circle of radius 0 reaches nothing
    assert!(!cr_intersection(vec2(50, 50), 0, &b));
}

#[test]
fn point_outside_root_is_dropped() {
    let mut tree: QuadTree<usize> = QuadTree::new(4, arena());
    tree.push((vec2(-1, 10), 5, 1));
    tree.push((vec2(800, 10), 5, 2));
    tree.push((vec2(10, 800), 5, 3));
    assert_eq!(tree.len(), 0);
    tree.push((vec2(0, 0), 5, 4));
    tree.push((vec2(799, 799), 5, 5));
    assert_eq!(tree.len(), 2);
}

#[test]
fn full_node_subdivides_and_keeps_its_own() {
    let mut tree: QuadTree<usize> = QuadTree::new(2, arena());
    tree.push((vec2(100, 100), 1, 0));
    tree.push((vec2(700, 100), 1, 1));
    // the root is full now; these go to the quadrants
    tree.push((vec2(100, 700), 1, 2));
    tree.push((vec2(700, 700), 1, 3));
    tree.push((vec2(50, 50), 1, 4));
    assert_eq!(tree.len(), 5);
    // own entries first, then top left, top right, bottom left, bottom right
    assert_eq!(tree.query(vec2(400, 400), 2000), vec![0, 1, 4, 2, 3]);
}

#[test]
fn query_reports_exactly_the_touching_circles() {
    let mut tree: QuadTree<usize> = QuadTree::new(1, arena());
    let circles: Vec<(Vec2, i32)> = vec![
        (vec2(100, 100), 10),
        (vec2(130, 100), 10),
        (vec2(100, 140), 10),
        (vec2(400, 400), 10),
        (vec2(120, 100), 0),
        (vec2(121, 100), 0),
    ];
    for (i, (p, r)) in circles.iter().enumerate() {
        tree.push((*p, *r, i));
    }
    assert_eq!(tree.len(), 6);
    let c = vec2(100, 100);
    let r = 20;
    let expected: Vec<usize> = circles
        .iter()
        .enumerate()
        .filter(|(_, (p, pr))| cc_intersection(*p, *pr, c, r))
        .map(|(i, _)| i)
        .collect();
    // 0: same centre; 1: distance 30 == 20 + 10, touching; 2: distance 40, apart;
    // 3: far away; 4: distance 20 == 20 + 0, touching; 5: distance 21, apart
    assert_eq!(expected, vec![0, 1, 4]);
    assert_eq!(sorted(tree.query(c, r)), expected);
}

#[test]
fn single_cell_keeps_identical_points_beyond_capacity() {
    // a node of one cell cannot subdivide: it holds what comes, however much
    let mut tree: QuadTree<usize> = QuadTree::new(1, Rect { left: 0, top: 0, width: 2, height: 2 });
    tree.push((vec2(0, 0), 1, 0));
    tree.push((vec2(0, 0), 1, 1));
    tree.push((vec2(0, 0), 1, 2));
    tree.push((vec2(0, 0), 1, 3));
    assert_eq!(tree.len(), 4);
    assert_eq!(tree.query(vec2(0, 0), 1), vec![0, 1, 2, 3]);
}

#[test]
fn quadrants_of_an_odd_node_cover_it() {
    // the left quadrants of a width-25 node are 12 wide, the right ones 13
    let mut tree: QuadTree<usize> = QuadTree::new(1, Rect { left: 0, top: 0, width: 25, height: 25 });
    tree.push((vec2(1, 1), 1, 0));
    tree.push((vec2(24, 24), 1, 1));
    tree.push((vec2(12, 11), 1, 2));
    tree.push((vec2(11, 12), 1, 3));
    tree.push((vec2(24, 0), 1, 4));
    tree.push((vec2(0, 24), 1, 5));
    assert_eq!(tree.len(), 6);
    assert_eq!(sorted(tree.query(vec2(12, 12), 100)), vec![0, 1, 2, 3, 4, 5]);
}

#[test]
fn every_point_inside_the_root_is_kept() {
    let mut tree: QuadTree<usize> = QuadTree::new(1, Rect { left: -3, top: -3, width: 7, height: 5 });
    let mut n = 0;
    for x in -3..4 {
        for y in -3..2 {
            for _ in 0..2 {
                assert_eq!(tree.insert((vec2(x, y), 0, n)), Ok(()));
                n += 1;
            }
        }
    }
    assert_eq!(n, 70);
    assert_eq!(tree.len(), 70);
    assert_eq!(sorted(tree.query(vec2(0, 0), 100)), (0..70).collect::<Vec<usize>>());
}

#[test]
fn strip_of_width_one_divides_along_its_height() {
    let mut tree: QuadTree<usize> = QuadTree::new(1, Rect { left: 5, top: 0, width: 1, height: 4 });
    for y in 0..4 {
        tree.push((vec2(5, y), 1, y as usize));
    }
    assert_eq!(tree.len(), 4);
    assert_eq!(sorted(tree.query(vec2(5, 2), 10)), vec![0, 1, 2, 3]);
}

#[test]
fn query_passes_over_a_large_circle_in_an_unreached_quadrant() {
    let mut tree: QuadTree<usize> = QuadTree::new(1, arena());
    tree.push((vec2(10, 10), 1, 0));
    // held in the bottom right quadrant, with a radius that reaches far out of it
    tree.push((vec2(790, 790), 2000, 1));
    assert_eq!(tree.len(), 2);
    // the circles touch, but the query circle does not reach the quadrant
    assert!(cc_intersection(vec2(790, 790), 2000, vec2(5, 5), 10));
    assert_eq!(tree.query(vec2(5, 5), 10), vec![0]);
}

#[test]
fn zero_capacity_tree_holds_circles_in_its_cells() {
    let mut tree: QuadTree<usize> = QuadTree::new(0, Rect { left: 0, top: 0, width: 4, height: 4 });
    tree.push((vec2(1, 1), 1, 0));
    tree.push((vec2(3, 0), 1, 1));
    tree.push((vec2(4, 0), 1, 2));
    assert_eq!(tree.len(), 2);
    assert_eq!(tree.query(vec2(2, 2), 10), vec![0, 1]);
}

#[test]
fn insert_tells_what_lay_outside() {
    let mut tree: QuadTree<usize> = QuadTree::new(1, arena());
    assert_eq!(tree.insert((vec2(10, 10), 5, 0)), Ok(()));
    assert_eq!(tree.insert((vec2(800, 10), 5, 1)), Err(InsertError::OutOfBoundsInsert));
    assert_eq!(tree.insert((vec2(10, -1), 5, 2)), Err(InsertError::OutOfBoundsInsert));
    assert_eq!(tree.insert((vec2(700, 700), 5, 3)), Ok(()));
    assert_eq!(tree.len(), 2);
    assert_eq!(tree.query(vec2(400, 400), 2000), vec![0, 3]);
}

#[test]
fn payload_need_not_be_a_number() {
    let mut tree: QuadTree<String> = QuadTree::new(1, arena());
    tree.push((vec2(10, 10), 5, "near".to_string()));
    tree.push((vec2(700, 700), 5, "far".to_string()));
    tree.push((vec2(12, 10), 5, "nearer".to_string()));
    assert_eq!(tree.len(), 3);
    assert_eq!(tree.query(vec2(10, 10), 5), vec!["near".to_string(), "nearer".to_string()]);
    assert_eq!(tree.query(vec2(400, 400), 2000).len(), 3);
}
