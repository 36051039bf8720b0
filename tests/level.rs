use tetra::buffer::{Buffer2D, TileType};
use tetra::map::{
    apply_horizontal_tunnel, apply_vertical_tunnel, new_map_rooms_and_corridors, TetraMap,
    CARDINAL_COST, DIAGONAL_COST,
};
use tetra::rect::Rect;

fn floors(map: &TetraMap) -> usize {
    map.buffer.data.iter().filter(|t| **t == TileType::Floor).count()
}

#[test]
fn accepted_room_is_carved_inside_its_border() {
    let mut map = TetraMap::new(Buffer2D::new(10, 10, TileType::Wall));
    assert!(map.try_add_room(Rect::new(1, 1, 4, 4)).is_none());
    assert_eq!(map.rooms.len(), 1);
    assert_eq!(*map.buffer.get(2, 2), TileType::Floor);
    assert_eq!(*map.buffer.get(5, 5), TileType::Floor);
    assert_eq!(*map.buffer.get(1, 1), TileType::Wall);
    assert_eq!(*map.buffer.get(6, 6), TileType::Wall);
    assert!(!map.is_blocked(3, 3));
    assert!(map.is_blocked(1, 3));
    assert_eq!(floors(&map), 16);
}

#[test]
fn rejected_room_leaves_map_unchanged() {
    let mut map = TetraMap::new(Buffer2D::new(12, 12, TileType::Wall));
    let first = Rect::new(1, 1, 4, 4);
    let second = Rect::new(6, 6, 3, 3);
    assert!(map.try_add_room(first).is_none());
    assert!(map.try_add_room(second).is_none());
    let tiles_before = map.buffer.data.clone();
    let nav_before = map.nav_buffer.data.clone();
    let clash = map.try_add_room(Rect::new(4, 4, 3, 3));
    assert_eq!(clash, Some(first));
    assert_eq!(map.rooms, vec![first, second]);
    assert_eq!(map.buffer.data, tiles_before);
    assert_eq!(map.nav_buffer.data, nav_before);
}

#[test]
fn carving_a_tunnel_twice_equals_once() {
    let mut once = Buffer2D::new(8, 6, TileType::Wall);
    apply_horizontal_tunnel(&mut once, 6, 1, 2);
    apply_vertical_tunnel(&mut once, 0, 5, 3);
    let mut twice = Buffer2D::new(8, 6, TileType::Wall);
    for _ in 0..2 {
        apply_horizontal_tunnel(&mut twice, 6, 1, 2);
        apply_vertical_tunnel(&mut twice, 0, 5, 3);
    }
    assert_eq!(once.data, twice.data);
    assert_eq!(*once.get(1, 2), TileType::Floor);
    assert_eq!(*once.get(6, 2), TileType::Floor);
    assert_eq!(*once.get(3, 5), TileType::Floor);
    assert_eq!(once.data.iter().filter(|t| **t == TileType::Floor).count(), 6 + 6 - 1);
}

#[test]
fn tunnel_outside_the_map_is_ignored() {
    let mut b = Buffer2D::new(4, 4, TileType::Wall);
    apply_horizontal_tunnel(&mut b, -3, 10, 1);
    apply_vertical_tunnel(&mut b, 2, 3, 9);
    apply_horizontal_tunnel(&mut b, 0, 3, -1);
    assert_eq!(b.data.iter().filter(|t| **t == TileType::Floor).count(), 4);
}

#[test]
fn all_overlapping_candidates_keep_only_the_first() {
    let cands = vec![Rect::new(2, 2, 5, 5), Rect::new(3, 3, 5, 5), Rect::new(2, 2, 4, 4)];
    let map = new_map_rooms_and_corridors(20, 20, cands);
    assert_eq!(map.rooms, vec![Rect::new(2, 2, 5, 5)]);
    assert_eq!(floors(&map), 25);
}

#[test]
fn rooms_are_joined_by_an_l_shaped_corridor() {
    let a = Rect::new(1, 1, 4, 4);
    let b = Rect::new(10, 8, 4, 4);
    let map = new_map_rooms_and_corridors(20, 15, vec![a, b]);
    assert_eq!(map.rooms.len(), 2);
    let (ax, ay) = a.center();
    let (bx, by) = b.center();
    assert_eq!((ax, ay), (3, 3));
    assert_eq!((bx, by), (12, 10));
    for x in ax..=bx {
        assert_eq!(*map.buffer.get(x, ay), TileType::Floor);
    }
    for y in ay..=by {
        assert_eq!(*map.buffer.get(bx, y), TileType::Floor);
    }
    assert_eq!(*map.buffer.get(ax, by), TileType::Wall);
    assert!(map.entities.data.iter().all(|v| v.is_empty()));
}

#[test]
fn xy_inverts_index() {
    let map = TetraMap::new(Buffer2D::new(9, 4, TileType::Wall));
    assert_eq!(map.xy(0), (0, 0));
    assert_eq!(map.xy(13), (4, 1));
    assert_eq!(map.xy(35), (8, 3));
    assert_eq!(map.dimensions(), (9, 4));
}

#[test]
fn exits_in_open_floor_in_fixed_order() {
    let mut map = TetraMap::new(Buffer2D::new(5, 5, TileType::Wall));
    assert!(map.try_add_room(Rect::new(0, 0, 4, 4)).is_none());
    let idx = map.buffer.xy_idx(2, 2);
    let exits = map.available_exits(idx);
    let w = 5usize;
    assert_eq!(
        exits,
        vec![
            (idx - 1, CARDINAL_COST),
            (idx + 1, CARDINAL_COST),
            (idx - w, CARDINAL_COST),
            (idx + w, CARDINAL_COST),
            (idx - w - 1, DIAGONAL_COST),
            (idx - w + 1, DIAGONAL_COST),
            (idx + w - 1, DIAGONAL_COST),
            (idx + w + 1, DIAGONAL_COST),
        ]
    );
}

#[test]
fn diagonal_exit_needs_both_side_cells_open() {
    let mut map = TetraMap::new(Buffer2D::new(5, 5, TileType::Wall));
    assert!(map.try_add_room(Rect::new(0, 0, 4, 4)).is_none());
    map.nav_buffer.set(3, 2, true);
    let idx = map.buffer.xy_idx(2, 2);
    let exits = map.available_exits(idx);
    assert!(!exits.iter().any(|(i, _)| *i == idx + 1));
    assert!(!exits.iter().any(|(i, _)| *i == idx - 5 + 1));
    assert!(!exits.iter().any(|(i, _)| *i == idx + 5 + 1));
    assert_eq!(exits.len(), 5);
    assert!(map.is_opaque(0));
    assert!(!map.is_opaque(idx));
}

#[test]
fn exits_reach_the_first_column_and_row() {
    let mut map = TetraMap::new(Buffer2D::new(3, 3, TileType::Wall));
    map.nav_buffer.set(0, 1, false);
    map.nav_buffer.set(1, 1, false);
    map.nav_buffer.set(1, 0, false);
    let idx = map.buffer.xy_idx(1, 1);
    let exits = map.available_exits(idx);
    assert_eq!(exits, vec![(idx - 1, CARDINAL_COST), (idx - 3, CARDINAL_COST)]);
}

#[test]
fn corridor_cells_are_open_after_generation() {
    let map = new_map_rooms_and_corridors(10, 5, vec![Rect::new(0, 0, 2, 2), Rect::new(5, 0, 3, 3)]);
    assert_eq!(map.rooms.len(), 2);
    assert_eq!(*map.buffer.get(3, 1), TileType::Floor);
    assert!(!map.is_blocked(3, 1));
    for (i, t) in map.buffer.data.iter().enumerate() {
        assert_eq!(map.nav_buffer.data[i], *t == TileType::Wall);
    }
}
