use spread_sim_rocket::geometry::{Rectangle, Xy};
use spread_sim_rocket::model::Partition;
use spread_sim_rocket::patch::create_padded_patch;

#[test]
fn test_single_patch() {
    let grid = Xy::new(10, 10);
    let (pat, rects) =
        create_padded_patch(0, &Partition::new(vec![0, grid.x], vec![0, grid.y]), 6);
    assert_eq!(rects, Rectangle::new(Xy::new(0, 0), grid));
    assert_eq!(pat, Rectangle::new(Xy::new(0, 0), grid));
}

#[test]
fn test_single_x_split() {
    let grid = Xy::new(10, 5);
    let (pat, rects) =
        create_padded_patch(0, &Partition::new(vec![0, 5, grid.x], vec![0, grid.y]), 4);
    assert_eq!(rects, Rectangle::new(Xy::new(0, 0), Xy::new(5, 5)));
    assert_eq!(pat, Rectangle::new(Xy::new(0, 0), Xy::new(5 + 4, 5)));
}

#[test]
fn test_single_x_split_right() {
    let grid = Xy::new(10, 5);
    let (pat, rects) =
        create_padded_patch(1, &Partition::new(vec![0, 5, grid.x], vec![0, grid.y]), 4);
    assert_eq!(rects, Rectangle::new(Xy::new(5, 0), Xy::new(5, 5)));
    assert_eq!(pat, Rectangle::new(Xy::new(1, 0), Xy::new(5 + 4, 5)));
}

#[test]
fn test_single_y_split() {
    let grid = Xy::new(5, 10);
    let padding = 4;
    let (pat, rects) = create_padded_patch(
        0,
        &Partition::new(vec![0, grid.x], vec![0, 5, grid.y]),
        padding,
    );
    assert_eq!(rects, Rectangle::new(Xy::new(0, 0), Xy::new(5, 5)));
    assert_eq!(
        pat,
        Rectangle::new(Xy::new(0, 0), Xy::new(5, (5 + padding) as i64))
    );
}

#[test]
fn test_single_y_split_bottom() {
    let grid = Xy::new(5, 10);
    let padding = 4;
    let (pat, rects) = create_padded_patch(
        1,
        &Partition::new(vec![0, grid.x], vec![0, 5, grid.y]),
        padding,
    );
    assert_eq!(rects, Rectangle::new(Xy::new(0, 5), Xy::new(5, 5)));
    assert_eq!(
        pat,
        Rectangle::new(Xy::new(0, 1), Xy::new(5, (5 + padding) as i64))
    );
}

#[test]
fn test_split_complex_central() {
    let grid = Xy::new(15, 15);
    let padding: i64 = 3;
    let (pat, rects) = create_padded_patch(
        4,
        &Partition::new(vec![0, 5, 10, grid.x], vec![0, 5, 10, grid.y]),
        padding as usize,
    );
    assert_eq!(
        pat,
        Rectangle::new(
            Xy::new(5 - padding, 5 - padding),
            Xy::new(5 + 2 * padding, 5 + 2 * padding)
        )
    );
    assert_eq!(rects, Rectangle::new(Xy::new(5, 5), Xy::new(5, 5)));
}

#[test]
fn corner_patch_extends_exactly_two_sides() {
    // On a 3x3 partition, patch 0 sits on the top-left grid corner: its
    // padded rectangle grows only to the right and to the bottom.
    let splits = Partition::new(vec![0, 5, 10, 15], vec![0, 5, 10, 15]);
    let (pat, rects) = create_padded_patch(0, &splits, 2);
    assert_eq!(rects, Rectangle::new(Xy::new(0, 0), Xy::new(5, 5)));
    assert_eq!(pat, Rectangle::new(Xy::new(0, 0), Xy::new(7, 7)));
}

#[test]
fn padding_clipped_to_grid_edge() {
    // A huge padding is clipped to the available space on each side.
    let splits = Partition::new(vec![0, 5, 10], vec![0, 10]);
    let (pat, rects) = create_padded_patch(1, &splits, 100);
    assert_eq!(rects, Rectangle::new(Xy::new(5, 0), Xy::new(5, 10)));
    assert_eq!(pat, Rectangle::new(Xy::new(0, 0), Xy::new(10, 10)));
}

#[test]
fn rectangle_contains_is_half_open() {
    let r = Rectangle::new(Xy::new(1, 1), Xy::new(3, 2));
    assert!(r.contains(&Xy::new(1, 1)));
    assert!(r.contains(&Xy::new(3, 2)));
    assert!(!r.contains(&Xy::new(4, 1)));
    assert!(!r.contains(&Xy::new(1, 3)));
    assert!(!r.contains(&Xy::new(0, 1)));
}

#[test]
fn empty_rectangle_overlaps_nothing() {
    let empty = Rectangle::new(Xy::new(2, 2), Xy::new(0, 5));
    let full = Rectangle::new(Xy::new(0, 0), Xy::new(10, 10));
    assert!(!empty.overlaps(&full));
    assert!(!full.overlaps(&empty));
    assert!(full.overlaps(&full));
}

#[test]
fn touching_rectangles_do_not_overlap() {
    let a = Rectangle::new(Xy::new(0, 0), Xy::new(5, 5));
    let b = Rectangle::new(Xy::new(5, 0), Xy::new(5, 5));
    assert!(!a.overlaps(&b));
    let c = Rectangle::new(Xy::new(4, 0), Xy::new(5, 5));
    assert!(a.overlaps(&c));
}

#[test]
fn intersect_takes_the_common_part() {
    let a = Rectangle::new(Xy::new(0, 0), Xy::new(6, 6));
    let b = Rectangle::new(Xy::new(4, 2), Xy::new(6, 6));
    let c = a.intersect(&b);
    assert_eq!(c, Rectangle::new(Xy::new(4, 2), Xy::new(2, 4)));
}

#[test]
fn partition_with_bounds_adds_grid_edges() {
    let part = Partition::new(vec![5], vec![2, 3]);
    let ext = part.with_bounds(Xy::new(10, 5));
    assert_eq!(ext.x, vec![0, 5, 10]);
    assert_eq!(ext.y, vec![0, 2, 3, 5]);
}
