use tetra::buffer::{Buffer2D, TileType};
use tetra::rect::Rect;

#[test]
fn set_then_get_returns_value() {
    let mut b = Buffer2D::new(4, 3, TileType::Wall);
    b.set(2, 1, TileType::Floor);
    assert_eq!(*b.get(2, 1), TileType::Floor);
    assert_eq!(*b.get(1, 2), TileType::Wall);
    assert_eq!(*b.get(3, 1), TileType::Wall);
}

#[test]
fn new_fills_every_cell() {
    let b = Buffer2D::new(5, 2, false);
    assert_eq!(b.data.len(), 10);
    assert!(b.data.iter().all(|c| !*c));
}

#[test]
fn index_is_row_major_and_bijective() {
    let b = Buffer2D::new(7, 5, 0u8);
    assert_eq!(b.xy_idx(0, 0), 0);
    assert_eq!(b.xy_idx(6, 0), 6);
    assert_eq!(b.xy_idx(0, 1), 7);
    assert_eq!(b.xy_idx(3, 4), 31);
    let mut seen = vec![false; 35];
    for y in 0..5 {
        for x in 0..7 {
            let i = b.xy_idx(x, y);
            assert!(i < 35);
            assert!(!seen[i]);
            seen[i] = true;
        }
    }
    assert!(seen.iter().all(|s| *s));
}

#[test]
fn mutate_applies_function_to_one_cell() {
    let mut b = Buffer2D::new(3, 3, 1i32);
    b.mutate(1, 2, |v: &i32| *v + 41);
    assert_eq!(*b.get(1, 2), 42);
    assert_eq!(*b.get(2, 1), 1);
}

#[test]
fn rect_new_center_and_intersect() {
    let r = Rect::new(2, 3, 6, 4);
    assert_eq!((r.x1, r.y1, r.x2, r.y2), (2, 3, 8, 7));
    assert_eq!(r.center(), (5, 5));
    let touching = Rect::new(8, 3, 4, 4);
    assert!(r.intersect(&touching));
    assert!(touching.intersect(&r));
    let apart = Rect::new(9, 3, 4, 4);
    assert!(!r.intersect(&apart));
}
