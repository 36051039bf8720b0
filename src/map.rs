use vstd::prelude::*;
use crate::buffer::{Buffer2D, TileType, lemma_get_after_set, lemma_index_in_range, lemma_index_inverse, lemma_index_unique};
use crate::components::Entity;
use crate::rect::Rect;

verus! {

pub type TileBuffer = Buffer2D<TileType>;

pub type Room = Rect;

/// The level: its tiles, the derived blocking ("nav") grid, the entities
/// standing on each cell, and the rooms carved so far in placement order.
pub struct TetraMap {
    pub buffer: TileBuffer,
    pub rooms: Vec<Room>,
    pub nav_buffer: Buffer2D<bool>,
    pub entities: Buffer2D<Vec<Entity>>,
}

/// Whether every cell that `room` carves lies inside a `width` x `height` grid.
pub open spec fn room_fits(room: Rect, width: int, height: int) -> bool {
    &&& room.wf()
    &&& -1 <= room.x1
    &&& room.x2 < width
    &&& -1 <= room.y1
    &&& room.y2 < height
}

/// No two rooms of the list have overlapping padded bounds.
pub open spec fn rooms_disjoint(rooms: Seq<Rect>) -> bool {
    forall|i: int, j: int|
        #![trigger rooms[i], rooms[j]]
        0 <= i < rooms.len() && 0 <= j < rooms.len() && i != j ==> !rooms[i].spec_intersect(&rooms[j])
}

/// Whether `room` overlaps one of `rooms`.
pub open spec fn clashes(rooms: Seq<Rect>, room: Rect) -> bool {
    exists|j: int| 0 <= j < rooms.len() && room.spec_intersect(&(#[trigger] rooms[j]))
}

/// The candidates that a generator keeps: each candidate in turn, unless it
/// overlaps one already kept.
pub open spec fn accepted(cands: Seq<Rect>) -> Seq<Rect>
    decreases cands.len(),
{
    if cands.len() == 0 {
        Seq::empty()
    } else {
        let prev = accepted(cands.drop_last());
        if clashes(prev, cands.last()) {
            prev
        } else {
            prev.push(cands.last())
        }
    }
}

/// `after` is `before` with every in-bounds cell of `area` turned to floor.
pub open spec fn carved(before: TileBuffer, after: TileBuffer, area: spec_fn(int, int) -> bool) -> bool {
    &&& after.wf()
    &&& after.width == before.width
    &&& after.height == before.height
    &&& forall|x: int, y: int|
        #![trigger after.cell(x, y)]
        before.in_bounds(x, y) ==> after.cell(x, y) == (if area(x, y) {
            TileType::Floor
        } else {
            before.cell(x, y)
        })
}

/// `after` is `before` with every in-bounds cell of `area` marked open.
pub open spec fn opened(before: Buffer2D<bool>, after: Buffer2D<bool>, area: spec_fn(int, int) -> bool) -> bool {
    &&& after.wf()
    &&& after.width == before.width
    &&& after.height == before.height
    &&& forall|x: int, y: int|
        #![trigger after.cell(x, y)]
        before.in_bounds(x, y) ==> after.cell(x, y) == (if area(x, y) {
            false
        } else {
            before.cell(x, y)
        })
}

pub open spec fn room_area(room: Rect) -> spec_fn(int, int) -> bool {
    |x: int, y: int| room.interior_contains(x, y)
}

pub open spec fn h_tunnel_area(x1: int, x2: int, y: int) -> spec_fn(int, int) -> bool {
    |cx: int, cy: int| cy == y && (if x1 <= x2 { x1 <= cx <= x2 } else { x2 <= cx <= x1 })
}

pub open spec fn v_tunnel_area(y1: int, y2: int, x: int) -> spec_fn(int, int) -> bool {
    |cx: int, cy: int| cx == x && (if y1 <= y2 { y1 <= cy <= y2 } else { y2 <= cy <= y1 })
}

/// The blocking grid derived from the tiles alone: walls block.
pub open spec fn nav_derived(tiles: Seq<TileType>, nav: Seq<bool>) -> bool {
    &&& nav.len() == tiles.len()
    &&& forall|i: int| 0 <= i < tiles.len() ==> #[trigger] nav[i] == (tiles[i] == TileType::Wall)
}

impl TetraMap {
    pub open spec fn wf(&self) -> bool {
        &&& self.buffer.wf()
        &&& self.nav_buffer.wf()
        &&& self.entities.wf()
        &&& self.nav_buffer.width == self.buffer.width
        &&& self.nav_buffer.height == self.buffer.height
        &&& self.entities.width == self.buffer.width
        &&& self.entities.height == self.buffer.height
        &&& rooms_disjoint(self.rooms@)
        &&& forall|i: int|
            0 <= i < self.rooms@.len() ==> room_fits(
                #[trigger] self.rooms@[i],
                self.buffer.width as int,
                self.buffer.height as int,
            )
    }

    pub open spec fn spec_width(&self) -> int {
        self.buffer.width as int
    }

    pub open spec fn spec_height(&self) -> int {
        self.buffer.height as int
    }

    pub open spec fn in_bounds(&self, x: int, y: int) -> bool {
        self.buffer.in_bounds(x, y)
    }

    /// A level over `buffer` with no rooms, no entities, and the blocking
    /// grid derived from its tiles.
    pub fn new(buffer: TileBuffer) -> (r: TetraMap)
        requires
            buffer.wf(),
        ensures
            r.wf(),
            r.buffer == buffer,
            r.rooms@.len() == 0,
            nav_derived(r.buffer.data@, r.nav_buffer.data@),
            forall|i: int| 0 <= i < r.entities.data@.len() ==> (#[trigger] r.entities.data@[i])@.len() == 0,
    {
        proof {
            assert(buffer.data@.len() == buffer.data.len());
        }
        let mut nav_buffer = Buffer2D::new(buffer.width, buffer.height, false);
        update_nav_buffer(&buffer.data, &mut nav_buffer.data);
        let empty: Vec<Entity> = Vec::new();
        let entities = Buffer2D::new(buffer.width, buffer.height, empty);
        proof {
            assert forall|i: int| 0 <= i < entities.data@.len() implies (
            #[trigger] entities.data@[i])@.len() == 0 by {
                assert(cloned(empty, entities.data@[i]));
            }
        }
        TetraMap { entities, rooms: Vec::new(), nav_buffer, buffer }
    }
    /// The cell `(x, y)` of index `idx`.
    pub fn xy(&self, idx: usize) -> (r: (i32, i32))
        requires
            self.wf(),
            idx < self.buffer.data@.len(),
        ensures
            self.in_bounds(r.0 as int, r.1 as int),
            r.0 == idx as int % self.spec_width(),
            r.1 == idx as int / self.spec_width(),
            self.buffer.idx(r.0 as int, r.1 as int) == idx,
    {
        proof {
            lemma_index_inverse(self.spec_width(), self.spec_height(), idx as int);
        }
        let w = self.buffer.width as usize;
        ((idx % w) as i32, (idx / w) as i32)
    }

    pub fn width(&self) -> (r: i32)
        ensures
            r == self.buffer.width,
    {
        self.buffer.width
    }

    pub fn height(&self) -> (r: i32)
        ensures
            r == self.buffer.height,
    {
        self.buffer.height
    }

    pub fn dimensions(&self) -> (r: (i32, i32))
        ensures
            r == (self.buffer.width, self.buffer.height),
    {
        (self.width(), self.height())
    }

    /// Rebuilds the blocking grid from the tiles alone (walls block).
    pub fn gen_nav_buffer(&mut self)
        requires
            old(self).wf(),
        ensures
            final(self).wf(),
            final(self).buffer == old(self).buffer,
            final(self).rooms == old(self).rooms,
            final(self).entities == old(self).entities,
            final(self).nav_buffer.width == old(self).nav_buffer.width,
            final(self).nav_buffer.height == old(self).nav_buffer.height,
            nav_derived(final(self).buffer.data@, final(self).nav_buffer.data@),
    {
        update_nav_buffer(&self.buffer.data, &mut self.nav_buffer.data);
    }

    /// Empties the entity list of every cell.
    pub fn clear_entities(&mut self)
        requires
            old(self).wf(),
        ensures
            final(self).wf(),
            final(self).buffer == old(self).buffer,
            final(self).rooms == old(self).rooms,
            final(self).nav_buffer == old(self).nav_buffer,
            final(self).entities.width == old(self).entities.width,
            final(self).entities.height == old(self).entities.height,
            final(self).entities.data@.len() == old(self).entities.data@.len(),
            forall|i: int|
                0 <= i < final(self).entities.data@.len() ==> (#[trigger] final(self).entities.data@[i])@.len() == 0,
    {
        let n = self.entities.data.len();
        let mut i: usize = 0;
        while i < n
            invariant
                i <= n,
                n == self.entities.data@.len(),
                self.entities.width == old(self).entities.width,
                self.entities.height == old(self).entities.height,
                self.buffer == old(self).buffer,
                self.rooms == old(self).rooms,
                self.nav_buffer == old(self).nav_buffer,
                forall|j: int| 0 <= j < i ==> (#[trigger] self.entities.data@[j])@.len() == 0,
            decreases n - i,
        {
            self.entities.data.set(i, Vec::new());
            i += 1;
        }
    }

    /// Whether the cell blocks movement (a wall, or an entity that blocks).
    pub fn is_blocked(&self, x: i32, y: i32) -> (r: bool)
        requires
            self.wf(),
            self.in_bounds(x as int, y as int),
        ensures
            r == self.nav_buffer.cell(x as int, y as int),
    {
        *self.nav_buffer.get(x, y)
    }

    /// Whether the cell of index `idx` stops sight: walls do.
    pub fn is_opaque(&self, idx: usize) -> (r: bool)
        requires
            idx < self.buffer.data@.len(),
        ensures
            r == (self.buffer.data@[idx as int] == TileType::Wall),
    {
        self.buffer.data[idx] == TileType::Wall
    }

    /// Carves `r` and records it, unless it overlaps a room already placed.
    /// Then nothing changes, and the first such room (in placement order)
    /// is returned.
    pub fn try_add_room(&mut self, r: Room) -> (res: Option<Room>)
        requires
            old(self).wf(),
            room_fits(r, old(self).spec_width(), old(self).spec_height()),
        ensures
            final(self).wf(),
            res is None <==> !clashes(old(self).rooms@, r),
            res is None ==> {
                &&& final(self).rooms@ == old(self).rooms@.push(r)
                &&& carved(old(self).buffer, final(self).buffer, room_area(r))
                &&& opened(old(self).nav_buffer, final(self).nav_buffer, room_area(r))
                &&& final(self).entities == old(self).entities
            },
            res matches Some(o) ==> {
                &&& *final(self) == *old(self)
                &&& exists|j: int|
                    0 <= j < old(self).rooms@.len() && old(self).rooms@[j] == o && r.spec_intersect(&o)
                        && forall|k: int| 0 <= k < j ==> !r.spec_intersect(&(#[trigger] old(self).rooms@[k]))
            },
    {
        let n = self.rooms.len();
        let mut i: usize = 0;
        while i < n
            invariant
                i <= n,
                n == self.rooms@.len(),
                *self == *old(self),
                self.wf(),
                forall|k: int| 0 <= k < i ==> !r.spec_intersect(&(#[trigger] self.rooms@[k])),
            decreases n - i,
        {
            if r.intersect(&self.rooms[i]) {
                return Some(self.rooms[i]);
            }
            i += 1;
        }
        TetraMap::apply_room(&r, &mut self.buffer, &mut self.nav_buffer);
        self.rooms.push(r);
        proof {
            let rooms = self.rooms@;
            assert forall|a: int, b: int|
                #![trigger rooms[a], rooms[b]]
                0 <= a < rooms.len() && 0 <= b < rooms.len() && a != b implies !rooms[a].spec_intersect(
                &rooms[b],
            ) by {
                if a == n as int {
                    assert(!r.spec_intersect(&old(self).rooms@[b]));
                } else if b == n as int {
                    assert(!r.spec_intersect(&old(self).rooms@[a]));
                } else {
                    assert(rooms[a] == old(self).rooms@[a]);
                    assert(rooms[b] == old(self).rooms@[b]);
                }
            }
            assert forall|k: int| 0 <= k < rooms.len() implies room_fits(
                #[trigger] rooms[k],
                self.buffer.width as int,
                self.buffer.height as int,
            ) by {
                if k < n as int {
                    assert(rooms[k] == old(self).rooms@[k]);
                }
            }
        }
        None
    }

    /// Turns the room's interior to floor in the tiles and opens it in the
    /// blocking grid.
    fn apply_room(room: &Room, map: &mut TileBuffer, nav_map: &mut Buffer2D<bool>)
        requires
            old(map).wf(),
            old(nav_map).wf(),
            old(nav_map).width == old(map).width,
            old(nav_map).height == old(map).height,
            room_fits(*room, old(map).width as int, old(map).height as int),
        ensures
            carved(*old(map), *final(map), room_area(*room)),
            opened(*old(nav_map), *final(nav_map), room_area(*room)),
    {
        let ghost tiles0 = *map;
        let ghost nav0 = *nav_map;
        let mut y: i32 = room.y1 + 1;
        while y <= room.y2
            invariant
                room.y1 + 1 <= y <= room.y2 + 1,
                room_fits(*room, tiles0.width as int, tiles0.height as int),
                map.wf(),
                nav_map.wf(),
                map.width == tiles0.width,
                map.height == tiles0.height,
                nav_map.width == nav0.width,
                nav_map.height == nav0.height,
                nav0.width == tiles0.width,
                nav0.height == tiles0.height,
                forall|cx: int, cy: int|
                    #![trigger map.cell(cx, cy)]
                    tiles0.in_bounds(cx, cy) ==> map.cell(cx, cy) == (if room.interior_contains(cx, cy)
                        && cy < y {
                        TileType::Floor
                    } else {
                        tiles0.cell(cx, cy)
                    }),
                forall|cx: int, cy: int|
                    #![trigger nav_map.cell(cx, cy)]
                    nav0.in_bounds(cx, cy) ==> nav_map.cell(cx, cy) == (if room.interior_contains(cx, cy)
                        && cy < y {
                        false
                    } else {
                        nav0.cell(cx, cy)
                    }),
            decreases room.y2 + 1 - y,
        {
            let mut x: i32 = room.x1 + 1;
            while x <= room.x2
                invariant
                    room.y1 + 1 <= y <= room.y2,
                    room.x1 + 1 <= x <= room.x2 + 1,
                    room_fits(*room, tiles0.width as int, tiles0.height as int),
                    map.wf(),
                    nav_map.wf(),
                    map.width == tiles0.width,
                    map.height == tiles0.height,
                    nav_map.width == nav0.width,
                    nav_map.height == nav0.height,
                    nav0.width == tiles0.width,
                    nav0.height == tiles0.height,
                    forall|cx: int, cy: int|
                        #![trigger map.cell(cx, cy)]
                        tiles0.in_bounds(cx, cy) ==> map.cell(cx, cy) == (if room.interior_contains(cx, cy)
                            && (cy < y || (cy == y && cx < x)) {
                            TileType::Floor
                        } else {
                            tiles0.cell(cx, cy)
                        }),
                    forall|cx: int, cy: int|
                        #![trigger nav_map.cell(cx, cy)]
                        nav0.in_bounds(cx, cy) ==> nav_map.cell(cx, cy) == (if room.interior_contains(cx, cy)
                            && (cy < y || (cy == y && cx < x)) {
                            false
                        } else {
                            nav0.cell(cx, cy)
                        }),
                decreases room.x2 + 1 - x,
            {
                let ghost t1 = *map;
                let ghost n1 = *nav_map;
                map.set(x, y, TileType::Floor);
                nav_map.set(x, y, false);
                proof {
                    lemma_get_after_set(t1, *map, x as int, y as int, TileType::Floor);
                    lemma_get_after_set(n1, *nav_map, x as int, y as int, false);
                }
                x += 1;
            }
            y += 1;
        }
    }

}

/// Sets each blocking flag to whether the tile at the same index is a wall.
fn update_nav_buffer(tiles: &Vec<TileType>, nav: &mut Vec<bool>)
    requires
        old(nav)@.len() == tiles@.len(),
    ensures
        nav_derived(tiles@, final(nav)@),
{
    let mut i: usize = 0;
    while i < tiles.len()
        invariant
            i <= tiles@.len(),
            nav@.len() == tiles@.len(),
            forall|j: int| 0 <= j < i ==> #[trigger] nav@[j] == (tiles@[j] == TileType::Wall),
        decreases tiles@.len() - i,
    {
        let wall = tiles[i] == TileType::Wall;
        nav.set(i, wall);
        i += 1;
    }
}

/// No two rooms a generator keeps have overlapping padded bounds.
pub proof fn lemma_accepted_rooms_disjoint(cands: Seq<Rect>)
    ensures
        rooms_disjoint(accepted(cands)),
    decreases cands.len(),
{
    if cands.len() > 0 {
        lemma_accepted_rooms_disjoint(cands.drop_last());
        let prev = accepted(cands.drop_last());
        let r = cands.last();
        if !clashes(prev, r) {
            let rooms = prev.push(r);
            assert forall|i: int, j: int|
                #![trigger rooms[i], rooms[j]]
                0 <= i < rooms.len() && 0 <= j < rooms.len() && i != j implies !rooms[i].spec_intersect(&rooms[j]) by {
                if i == prev.len() {
                    assert(!r.spec_intersect(&prev[j]));
                } else if j == prev.len() {
                    assert(!r.spec_intersect(&prev[i]));
                } else {
                    assert(rooms[i] == prev[i] && rooms[j] == prev[j]);
                }
            }
        }
    }
}

/// Whether some room of the list carves `(x, y)`.
pub open spec fn in_some_room(rooms: Seq<Rect>, x: int, y: int) -> bool {
    exists|j: int| 0 <= j < rooms.len() && (#[trigger] rooms[j]).interior_contains(x, y)
}

/// Whether `(x, y)` lies on the corridor that joins room `k - 1` to room `k`:
/// a horizontal run along the row of the earlier room's center, then a
/// vertical run along the column of the later room's center.
pub open spec fn on_corridor(rooms: Seq<Rect>, k: int, x: int, y: int) -> bool {
    let (px, py) = rooms[k - 1].spec_center();
    let (rx, ry) = rooms[k].spec_center();
    (h_tunnel_area(px, rx, py))(x, y) || (v_tunnel_area(py, ry, rx))(x, y)
}

/// Whether `(x, y)` is floor in the level made of `rooms` and the corridors
/// that join each room to the one placed before it.
pub open spec fn level_floor(rooms: Seq<Rect>, x: int, y: int) -> bool {
    in_some_room(rooms, x, y) || exists|k: int| 1 <= k < rooms.len() && #[trigger] on_corridor(rooms, k, x, y)
}

/// Carving the same area twice leaves the tiles as carving it once did:
/// carving only ever turns wall into floor.
pub proof fn lemma_carving_idempotent(
    before: TileBuffer,
    once: TileBuffer,
    twice: TileBuffer,
    area: spec_fn(int, int) -> bool,
)
    requires
        before.wf(),
        carved(before, once, area),
        carved(once, twice, area),
    ensures
        twice.width == once.width,
        twice.height == once.height,
        twice.data@ == once.data@,
{
    assert forall|i: int| 0 <= i < once.data@.len() implies twice.data@[i] == once.data@[i] by {
        let w = once.width as int;
        if w == 0 {
            assert(once.width * once.height == 0) by (nonlinear_arith)
                requires
                    once.width == 0,
            ;
        }
        lemma_index_inverse(w, once.height as int, i);
        let x = i % w;
        let y = i / w;
        assert(twice.cell(x, y) == once.cell(x, y));
    }
    assert(twice.data@ =~= once.data@);
}

/// Turns to floor the in-bounds cells of row `y` from `x1` to `x2`
/// (either order, both ends included).
pub fn apply_horizontal_tunnel(map: &mut TileBuffer, x1: i32, x2: i32, y: i32)
    requires
        old(map).wf(),
    ensures
        carved(*old(map), *final(map), h_tunnel_area(x1 as int, x2 as int, y as int)),
{
    let ghost before = *map;
    let lo: i32 = if x1 <= x2 { x1 } else { x2 };
    let hi: i32 = if x1 <= x2 { x2 } else { x1 };
    let mut x: i64 = lo as i64;
    while x <= hi as i64
        invariant
            lo as int <= x <= hi as int + 1,
            lo == (if x1 <= x2 { x1 } else { x2 }),
            hi == (if x1 <= x2 { x2 } else { x1 }),
            map.wf(),
            map.width == before.width,
            map.height == before.height,
            forall|cx: int, cy: int|
                #![trigger map.cell(cx, cy)]
                before.in_bounds(cx, cy) ==> map.cell(cx, cy) == (if cy == y && lo <= cx < x {
                    TileType::Floor
                } else {
                    before.cell(cx, cy)
                }),
        decreases hi as int + 1 - x,
    {
        if 0 <= x && x < map.width as i64 && 0 <= y && y < map.height {
            let ghost m1 = *map;
            map.set(x as i32, y, TileType::Floor);
            proof {
                lemma_get_after_set(m1, *map, x as int, y as int, TileType::Floor);
            }
        }
        x += 1;
    }
}

/// Turns to floor the in-bounds cells of column `x` from `y1` to `y2`
/// (either order, both ends included).
pub fn apply_vertical_tunnel(map: &mut TileBuffer, y1: i32, y2: i32, x: i32)
    requires
        old(map).wf(),
    ensures
        carved(*old(map), *final(map), v_tunnel_area(y1 as int, y2 as int, x as int)),
{
    let ghost before = *map;
    let lo: i32 = if y1 <= y2 { y1 } else { y2 };
    let hi: i32 = if y1 <= y2 { y2 } else { y1 };
    let mut y: i64 = lo as i64;
    while y <= hi as i64
        invariant
            lo as int <= y <= hi as int + 1,
            lo == (if y1 <= y2 { y1 } else { y2 }),
            hi == (if y1 <= y2 { y2 } else { y1 }),
            map.wf(),
            map.width == before.width,
            map.height == before.height,
            forall|cx: int, cy: int|
                #![trigger map.cell(cx, cy)]
                before.in_bounds(cx, cy) ==> map.cell(cx, cy) == (if cx == x && lo <= cy < y {
                    TileType::Floor
                } else {
                    before.cell(cx, cy)
                }),
        decreases hi as int + 1 - y,
    {
        if 0 <= y && y < map.height as i64 && 0 <= x && x < map.width {
            let ghost m1 = *map;
            map.set(x, y as i32, TileType::Floor);
            proof {
                lemma_get_after_set(m1, *map, x as int, y as int, TileType::Floor);
            }
        }
        y += 1;
    }
}

/// Builds a `width` x `height` level of wall, places each candidate room
/// that does not overlap one placed before it, then joins every placed room
/// to the one placed before it with an L-shaped corridor.
pub fn new_map_rooms_and_corridors(width: i32, height: i32, rooms: Vec<Room>) -> (r: TetraMap)
    requires
        width >= 0,
        height >= 0,
        width * height <= usize::MAX,
        forall|i: int| 0 <= i < rooms@.len() ==> room_fits(#[trigger] rooms@[i], width as int, height as int),
    ensures
        r.wf(),
        r.spec_width() == width,
        r.spec_height() == height,
        r.rooms@ == accepted(rooms@),
        forall|x: int, y: int|
            #![trigger r.buffer.cell(x, y)]
            r.in_bounds(x, y) ==> r.buffer.cell(x, y) == (if level_floor(r.rooms@, x, y) {
                TileType::Floor
            } else {
                TileType::Wall
            }),
        rooms_disjoint(r.rooms@),
        nav_derived(r.buffer.data@, r.nav_buffer.data@),
        forall|x: int, y: int|
            #![trigger r.nav_buffer.cell(x, y)]
            r.in_bounds(x, y) ==> r.nav_buffer.cell(x, y) == (r.buffer.cell(x, y) == TileType::Wall),
        forall|i: int| 0 <= i < r.entities.data@.len() ==> (#[trigger] r.entities.data@[i])@.len() == 0,
{
    let mut level = TetraMap::new(Buffer2D::new(width, height, TileType::Wall));
    proof {
        assert forall|x: int, y: int| #![trigger level.buffer.cell(x, y)] level.in_bounds(x, y) implies level.buffer.cell(x, y) == TileType::Wall by {
            lemma_index_in_range(width as int, height as int, x, y);
            assert(cloned(TileType::Wall, level.buffer.cell(x, y)));
        }
        assert forall|x: int, y: int| #![trigger level.nav_buffer.cell(x, y)] level.in_bounds(x, y) implies level.nav_buffer.cell(x, y) by {
            lemma_index_in_range(width as int, height as int, x, y);
            assert(level.buffer.cell(x, y) == TileType::Wall);
        }
    }
    let n = rooms.len();
    let mut i: usize = 0;
    while i < n
        invariant
            i <= n,
            n == rooms@.len(),
            forall|j: int| 0 <= j < rooms@.len() ==> room_fits(#[trigger] rooms@[j], width as int, height as int),
            level.wf(),
            level.spec_width() == width,
            level.spec_height() == height,
            level.rooms@ == accepted(rooms@.take(i as int)),
            forall|x: int, y: int|
                #![trigger level.buffer.cell(x, y)]
                level.in_bounds(x, y) ==> level.buffer.cell(x, y) == (if in_some_room(level.rooms@, x, y) {
                    TileType::Floor
                } else {
                    TileType::Wall
                }),
            forall|x: int, y: int|
                #![trigger level.nav_buffer.cell(x, y)]
                level.in_bounds(x, y) ==> level.nav_buffer.cell(x, y) == !in_some_room(level.rooms@, x, y),
            forall|k: int| 0 <= k < level.entities.data@.len() ==> (#[trigger] level.entities.data@[k])@.len() == 0,
        decreases n - i,
    {
        let ghost prev = level;
        let cand = rooms[i];
        let res = level.try_add_room(cand);
        proof {
            assert(rooms@.take(i as int + 1).drop_last() =~= rooms@.take(i as int));
            assert(rooms@.take(i as int + 1).last() == cand);
            if res is None {
                let rs = level.rooms@;
                assert forall|x: int, y: int|
                    #![trigger level.buffer.cell(x, y)]
                    level.in_bounds(x, y) implies level.buffer.cell(x, y) == (if in_some_room(rs, x, y) {
                        TileType::Floor
                    } else {
                        TileType::Wall
                    }) && level.nav_buffer.cell(x, y) == !in_some_room(rs, x, y) by {
                    assert(prev.buffer.cell(x, y) == level.buffer.cell(x, y) || (room_area(cand))(x, y));
                    if cand.interior_contains(x, y) {
                        assert(rs[rs.len() - 1] == cand);
                    } else if in_some_room(rs, x, y) {
                        let j = choose|j: int| 0 <= j < rs.len() && (#[trigger] rs[j]).interior_contains(x, y);
                        assert(prev.rooms@[j] == rs[j]);
                    }
                    if in_some_room(prev.rooms@, x, y) {
                        let j = choose|j: int| 0 <= j < prev.rooms@.len() && (#[trigger] prev.rooms@[j]).interior_contains(x, y);
                        assert(rs[j] == prev.rooms@[j]);
                    }
                }
                assert forall|x: int, y: int|
                    #![trigger level.nav_buffer.cell(x, y)]
                    level.in_bounds(x, y) implies level.nav_buffer.cell(x, y) == !in_some_room(rs, x, y) by {
                    if cand.interior_contains(x, y) {
                        assert(rs[rs.len() - 1] == cand);
                    } else if in_some_room(rs, x, y) {
                        let j = choose|j: int| 0 <= j < rs.len() && (#[trigger] rs[j]).interior_contains(x, y);
                        assert(prev.rooms@[j] == rs[j]);
                    }
                    if in_some_room(prev.rooms@, x, y) {
                        let j = choose|j: int| 0 <= j < prev.rooms@.len() && (#[trigger] prev.rooms@[j]).interior_contains(x, y);
                        assert(rs[j] == prev.rooms@[j]);
                    }
                }
            }
        }
        i += 1;
    }
    proof {
        assert(rooms@.take(n as int) =~= rooms@);
    }
    let ghost placed = level.rooms@;
    let ghost tiles1 = level.buffer;
    let m = level.rooms.len();
    let mut k: usize = 1;
    while k < m
        invariant
            1 <= k,
            k <= m || k == 1,
            m == placed.len(),
            level.rooms@ == placed,
            level.wf(),
            level.buffer.width == tiles1.width,
            level.buffer.height == tiles1.height,
            level.spec_width() == width,
            level.spec_height() == height,
            level.rooms@ == accepted(rooms@),
            level.nav_buffer.width == width,
            level.nav_buffer.height == height,
            forall|x: int, y: int|
                #![trigger level.buffer.cell(x, y)]
                level.in_bounds(x, y) ==> level.buffer.cell(x, y) == (if in_some_room(placed, x, y) || exists|k2: int| 1 <= k2 < k && #[trigger] on_corridor(placed, k2, x, y) {
                    TileType::Floor
                } else {
                    TileType::Wall
                }),
            forall|x: int, y: int|
                #![trigger level.nav_buffer.cell(x, y)]
                level.in_bounds(x, y) ==> level.nav_buffer.cell(x, y) == !in_some_room(level.rooms@, x, y),
            forall|q: int| 0 <= q < level.entities.data@.len() ==> (#[trigger] level.entities.data@[q])@.len() == 0,
        decreases m - k,
    {
        let ghost before = level.buffer;
        let (r_x, r_y) = level.rooms[k].center();
        let (p_x, p_y) = level.rooms[k - 1].center();
        apply_horizontal_tunnel(&mut level.buffer, p_x, r_x, p_y);
        let ghost mid = level.buffer;
        apply_vertical_tunnel(&mut level.buffer, p_y, r_y, r_x);
        proof {
            assert forall|x: int, y: int|
                #![trigger level.buffer.cell(x, y)]
                level.in_bounds(x, y) implies level.buffer.cell(x, y) == (if in_some_room(placed, x, y) || exists|k2: int| 1 <= k2 < k + 1 && #[trigger] on_corridor(placed, k2, x, y) {
                    TileType::Floor
                } else {
                    TileType::Wall
                }) by {
                assert(mid.cell(x, y) == (if (h_tunnel_area(p_x as int, r_x as int, p_y as int))(x, y) { TileType::Floor } else { before.cell(x, y) }));
                if on_corridor(placed, k as int, x, y) {
                } else if exists|k2: int| 1 <= k2 < k + 1 && #[trigger] on_corridor(placed, k2, x, y) {
                    let k2 = choose|k2: int| 1 <= k2 < k + 1 && #[trigger] on_corridor(placed, k2, x, y);
                    assert(1 <= k2 < k);
                }
            }
        }
        k += 1;
    }
    proof {
        assert forall|x: int, y: int|
            #![trigger level.buffer.cell(x, y)]
            level.in_bounds(x, y) implies level.buffer.cell(x, y) == (if level_floor(level.rooms@, x, y) {
                TileType::Floor
            } else {
                TileType::Wall
            }) by {
            if exists|k2: int| 1 <= k2 < k && #[trigger] on_corridor(placed, k2, x, y) {
                let k2 = choose|k2: int| 1 <= k2 < k && #[trigger] on_corridor(placed, k2, x, y);
                assert(1 <= k2 < placed.len());
            }
            if exists|k2: int| 1 <= k2 < placed.len() && #[trigger] on_corridor(placed, k2, x, y) {
                let k2 = choose|k2: int| 1 <= k2 < placed.len() && #[trigger] on_corridor(placed, k2, x, y);
                assert(1 <= k2 < k);
            }
        }
    }
    level.gen_nav_buffer();
    proof {
        assert forall|x: int, y: int|
            #![trigger level.nav_buffer.cell(x, y)]
            level.in_bounds(x, y) implies level.nav_buffer.cell(x, y) == (level.buffer.cell(x, y) == TileType::Wall) by {
            lemma_index_in_range(width as int, height as int, x, y);
        }
    }
    level
}

/// Cost of a step to a side neighbour, in hundredths.
pub const CARDINAL_COST: u32 = 100;

/// Cost of a diagonal step, in hundredths (about the square root of two).
pub const DIAGONAL_COST: u32 = 145;

/// Whether a mover may step onto `(x, y)`: a cell of the map that nothing
/// blocks.
pub open spec fn exit_valid(map: TetraMap, x: int, y: int) -> bool {
    &&& 0 <= x < map.spec_width()
    &&& 0 <= y < map.spec_height()
    &&& !map.nav_buffer.cell(x, y)
}

/// The exit from `(x, y)` by `(dx, dy)`, if there is one. A diagonal step
/// also needs both side cells it passes between to be open, so that no
/// move cuts a wall corner.
pub open spec fn exit_step(map: TetraMap, x: int, y: int, dx: int, dy: int) -> Seq<(usize, u32)> {
    let ok = if dx != 0 && dy != 0 {
        exit_valid(map, x + dx, y + dy) && exit_valid(map, x + dx, y) && exit_valid(map, x, y + dy)
    } else {
        exit_valid(map, x + dx, y + dy)
    };
    if ok {
        seq![(map.buffer.idx(x + dx, y + dy) as usize, if dx != 0 && dy != 0 { DIAGONAL_COST } else { CARDINAL_COST })]
    } else {
        Seq::empty()
    }
}

/// The exits of the cell of index `idx`, in the order west, east, north,
/// south, north-west, north-east, south-west, south-east.
pub open spec fn exits_of(map: TetraMap, idx: int) -> Seq<(usize, u32)> {
    let x = idx % map.spec_width();
    let y = idx / map.spec_width();
    Seq::empty() + exit_step(map, x, y, -1, 0) + exit_step(map, x, y, 1, 0) + exit_step(map, x, y, 0, -1)
        + exit_step(map, x, y, 0, 1) + exit_step(map, x, y, -1, -1) + exit_step(map, x, y, 1, -1)
        + exit_step(map, x, y, -1, 1) + exit_step(map, x, y, 1, 1)
}

pub fn is_exit_valid(map: &TetraMap, x: i32, y: i32) -> (r: bool)
    requires
        map.wf(),
    ensures
        r == exit_valid(*map, x as int, y as int),
{
    let nav = &map.nav_buffer;
    if x < 0 || x >= nav.width || y < 0 || y >= nav.height {
        false
    } else {
        !*nav.get(x, y)
    }
}

impl TetraMap {
    fn push_exit(&self, x: i32, y: i32, dx: i32, dy: i32, exits: &mut Vec<(usize, u32)>)
        requires
            self.wf(),
            self.in_bounds(x as int, y as int),
            -1 <= dx <= 1,
            -1 <= dy <= 1,
        ensures
            final(exits)@ == old(exits)@ + exit_step(*self, x as int, y as int, dx as int, dy as int),
    {
        let diagonal = dx != 0 && dy != 0;
        let ok = if diagonal {
            is_exit_valid(self, x + dx, y + dy) && is_exit_valid(self, x + dx, y) && is_exit_valid(self, x, y + dy)
        } else {
            is_exit_valid(self, x + dx, y + dy)
        };
        if ok {
            let idx = self.buffer.xy_idx(x + dx, y + dy);
            let cost = if diagonal { DIAGONAL_COST } else { CARDINAL_COST };
            exits.push((idx, cost));
        }
        proof {
            assert(exits@ =~= old(exits)@ + exit_step(*self, x as int, y as int, dx as int, dy as int));
        }
    }

    /// The cells a mover can step to from the cell of index `idx`, each with
    /// its cost in hundredths (see [`exits_of`]).
    pub fn available_exits(&self, idx: usize) -> (r: Vec<(usize, u32)>)
        requires
            self.wf(),
            idx < self.buffer.data@.len(),
        ensures
            r@ == exits_of(*self, idx as int),
    {
        let (x, y) = self.xy(idx);
        let mut exits: Vec<(usize, u32)> = Vec::new();
        self.push_exit(x, y, -1, 0, &mut exits);
        self.push_exit(x, y, 1, 0, &mut exits);
        self.push_exit(x, y, 0, -1, &mut exits);
        self.push_exit(x, y, 0, 1, &mut exits);
        self.push_exit(x, y, -1, -1, &mut exits);
        self.push_exit(x, y, 1, -1, &mut exits);
        self.push_exit(x, y, -1, 1, &mut exits);
        self.push_exit(x, y, 1, 1, &mut exits);
        exits
    }
}

} // verus!
