use rltk::{a_star_search, Algorithm2D, BaseMap, Point, SmallVec};
use tetra::buffer::{Buffer2D, TileType};
use tetra::map::TetraMap;
use tetra::rect::Rect;
use tetra::systems::next_step;

struct View<'a>(&'a TetraMap);

impl BaseMap for View<'_> {
    fn is_opaque(&self, idx: usize) -> bool {
        self.0.is_opaque(idx)
    }

    fn get_available_exits(&self, idx: usize) -> SmallVec<[(usize, f32); 10]> {
        self.0.available_exits(idx).into_iter().map(|(i, c)| (i, c as f32 / 100.0)).collect()
    }

    fn get_pathing_distance(&self, a: usize, b: usize) -> f32 {
        let (ax, ay) = self.0.xy(a);
        let (bx, by) = self.0.xy(b);
        rltk::DistanceAlg::Pythagoras.distance2d(Point::new(ax, ay), Point::new(bx, by))
    }
}

impl Algorithm2D for View<'_> {
    fn dimensions(&self) -> Point {
        let (w, h) = self.0.dimensions();
        Point::new(w, h)
    }
}

fn open_map() -> TetraMap {
    let mut map = TetraMap::new(Buffer2D::new(20, 20, TileType::Wall));
    assert!(map.try_add_room(Rect::new(0, 0, 18, 18)).is_none());
    map
}

#[test]
fn open_floor_path_takes_chebyshev_distance_steps() {
    let map = open_map();
    let cases = [((2, 2), (9, 5)), ((3, 10), (3, 1)), ((1, 1), (12, 12)), ((15, 4), (6, 13))];
    for ((sx, sy), (tx, ty)) in cases {
        let start = map.buffer.xy_idx(sx, sy);
        let end = map.buffer.xy_idx(tx, ty);
        let path = a_star_search(start, end, &View(&map));
        assert!(path.success);
        let chebyshev = (tx - sx).abs().max((ty - sy).abs()) as usize;
        assert_eq!(path.steps.len() - 1, chebyshev);
    }
}

#[test]
fn walled_off_target_has_no_path_and_no_step() {
    let mut map = open_map();
    for x in 9..=11 {
        for y in 9..=11 {
            if (x, y) != (10, 10) {
                map.nav_buffer.set(x, y, true);
            }
        }
    }
    let start = map.buffer.xy_idx(2, 2);
    let end = map.buffer.xy_idx(10, 10);
    let path = a_star_search(start, end, &View(&map));
    assert!(!path.success);
    let found = if path.success { Some(path.steps) } else { None };
    assert_eq!(next_step(&map, &found), None);
}

#[test]
fn next_step_is_second_cell_of_long_path() {
    let map = open_map();
    let a = map.buffer.xy_idx(2, 2);
    let b = map.buffer.xy_idx(3, 3);
    let c = map.buffer.xy_idx(4, 4);
    let got = next_step(&map, &Some(vec![a, b, c]));
    assert_eq!(got.map(|p| (p.x, p.y)), Some((3, 3)));
    assert_eq!(next_step(&map, &Some(vec![a, b])), None);
}
