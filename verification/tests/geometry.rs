use hauberk::Directions;
use hauberk::Point;
use hauberk::Rect;
use hauberk::Tile;
use hauberk::geom::get_direction;

#[test]
fn wall_tile_blocks_movement_and_sight() {
    let t = Tile::wall();
    assert!(t.blocked);
    assert!(t.block_sight);
    assert!(!t.explored);
}

#[test]
fn empty_tile_blocks_nothing() {
    let t = Tile::empty();
    assert!(!t.blocked);
    assert!(!t.block_sight);
    assert!(!t.explored);
}

#[test]
fn point_new_keeps_coordinates() {
    let p = Point::new(-3, 17);
    assert_eq!(p.x, -3);
    assert_eq!(p.y, 17);
}

#[test]
fn rect_new_uses_exclusive_upper_bounds() {
    let r = Rect::new(3, 5, 4, 6);
    assert_eq!(r.x1, 3);
    assert_eq!(r.y1, 5);
    assert_eq!(r.x2, 7);
    assert_eq!(r.y2, 11);
}

#[test]
fn rect_center_is_the_rounded_midpoint() {
    let r = Rect::new(1, 1, 4, 6);
    assert_eq!(r.center(), (3, 4));
    let r2 = Rect::new(2, 2, 5, 5);
    assert_eq!(r2.center(), (4, 4));
}

#[test]
fn disjoint_rects_do_not_intersect() {
    let a = Rect::new(1, 1, 3, 3);
    let b = Rect::new(6, 6, 3, 3);
    assert!(!a.intersects_with(&b));
    assert!(!b.intersects_with(&a));
}

#[test]
fn overlapping_rects_intersect() {
    let a = Rect::new(1, 1, 4, 4);
    let b = Rect::new(3, 3, 4, 4);
    assert!(a.intersects_with(&b));
    assert!(b.intersects_with(&a));
}

#[test]
fn edge_touching_rects_count_as_intersecting() {
    // the deliberate one-cell-gap convention: touching edges intersect
    let a = Rect::new(1, 1, 3, 3);
    let b = Rect::new(4, 1, 3, 3);
    assert!(a.intersects_with(&b));
    let c = Rect::new(5, 1, 3, 3);
    assert!(!a.intersects_with(&c));
}

#[test]
fn directions_iterate_in_fixed_order() {
    let dirs = Directions::iterator();
    assert_eq!(dirs.len(), 4);
    assert_eq!(dirs[0], Directions::NORTH);
    assert_eq!(dirs[1], Directions::SOUTH);
    assert_eq!(dirs[2], Directions::EAST);
    assert_eq!(dirs[3], Directions::WEST);
}

#[test]
fn directions_by_index_matches_iteration_order() {
    let dirs = Directions::iterator();
    for (i, d) in dirs.iter().enumerate() {
        assert_eq!(Directions::by_index(i), *d);
    }
}

#[test]
fn direction_offsets_are_unit_steps() {
    assert_eq!(get_direction(&Directions::NORTH), (0, -1));
    assert_eq!(get_direction(&Directions::SOUTH), (0, 1));
    assert_eq!(get_direction(&Directions::EAST), (1, 0));
    assert_eq!(get_direction(&Directions::WEST), (-1, 0));
}
