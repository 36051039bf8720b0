use vstd::prelude::*;
use crate::components::{
    AreaOfEffect, BlocksTile, Color, CombatStats, Consumable, Entity, InflictsDamage, Item, Monster,
    Name, Player, Position, Potion, Ranged, Renderable, Viewshed,
};
use crate::map::room_fits;
use crate::rect::Rect;
use crate::rng::Rng;
use crate::world::World;

verus! {

/// How many monsters and items a room may receive at most (each count is
/// drawn from `0..max`).
#[derive(Clone, Copy, Debug, PartialEq, Eq, Structural)]
pub struct SpawnerSettings {
    pub max_monsters: i32,
    pub max_items: i32,
}

impl Default for SpawnerSettings {
    fn default() -> (r: SpawnerSettings)
        ensures
            r == (SpawnerSettings { max_monsters: 4, max_items: 4 }),
    {
        SpawnerSettings { max_monsters: 4, max_items: 4 }
    }
}

/// How many times a free cell is drawn for one entity before giving up:
/// drawing until a free cell comes would not provably end, since the
/// generator may keep answering taken cells.
pub const MAX_PLACEMENT_TRIES: u32 = 1000;

/// A fresh viewshed of range 8 that must be computed.
pub open spec fn fresh_viewshed(v: Option<Viewshed>) -> bool {
    v is Some && v->0.visible_tiles@.len() == 0 && v->0.range == 8 && v->0.dirty
}

/// Entity `e` of `w` is a monster called `name` standing on `(x, y)`.
pub open spec fn is_monster(w: World, e: int, x: i32, y: i32, glyph: char, name: Seq<char>) -> bool {
    &&& w.positions@[e] == Some(Position { x, y })
    &&& fresh_viewshed(w.viewsheds@[e])
    &&& w.monsters@[e] is Some
    &&& w.names@[e] is Some && w.names@[e]->0.name@ == name
    &&& w.renderables@[e] == Some(Renderable { glyph, fg: Color::Red, bg: Color::Black, order: 1 })
    &&& w.blocks_tile@[e] is Some
    &&& w.combat_stats@[e] == Some(CombatStats { max_hp: 16, hp: 16, power: 4, defense: 1 })
    &&& w.players@[e] is None
    &&& w.items@[e] is None
    &&& w.bare_of_intents(e)
}

/// Entity `e` of `w` is an item lying on `(x, y)`, of one of the kinds the
/// spawner makes.
pub open spec fn is_item(w: World, e: int, x: i32, y: i32) -> bool {
    &&& w.positions@[e] == Some(Position { x, y })
    &&& w.items@[e] is Some
    &&& w.consumables@[e] is Some
    &&& w.names@[e] is Some
    &&& w.combat_stats@[e] is None
    &&& w.monsters@[e] is None
    &&& w.players@[e] is None
    &&& w.bare_of_intents(e)
}

/// `new` is `old` with one more entity, whose id is returned as `e`.
pub open spec fn added_one(old: World, new: World, e: Entity) -> bool {
    &&& old.grown_into(&new)
    &&& new.n() == old.n() + 1
    &&& e.id == old.n()
    &&& new.alive@[e.id as int]
}

/// Spawns the player at `(player_x, player_y)`: 30 hit points, power 5,
/// defense 2, an empty memory and a viewshed of range 8 to be computed.
pub fn player(ecs: &mut World, player_x: i32, player_y: i32) -> (e: Entity)
    requires
        old(ecs).wf(),
    ensures
        added_one(*old(ecs), *final(ecs), e),
        final(ecs).positions@[e.id as int] == Some(Position { x: player_x, y: player_y }),
        final(ecs).renderables@[e.id as int] == Some(Renderable { glyph: '@', fg: Color::Yellow, bg: Color::Black, order: 0 }),
        final(ecs).players@[e.id as int] is Some,
        final(ecs).players@[e.id as int]->0.revealed_tiles@.len() == 0,
        fresh_viewshed(final(ecs).viewsheds@[e.id as int]),
        final(ecs).names@[e.id as int] is Some,
        final(ecs).names@[e.id as int]->0.name@ == "Player"@,
        final(ecs).combat_stats@[e.id as int] == Some(CombatStats { max_hp: 30, hp: 30, power: 5, defense: 2 }),
        final(ecs).monsters@[e.id as int] is None,
        final(ecs).items@[e.id as int] is None,
        final(ecs).blocks_tile@[e.id as int] is None,
        final(ecs).bare_of_intents(e.id as int),
{
    let e = ecs.create_entity();
    ecs.positions.insert(e, Position { x: player_x, y: player_y });
    ecs.renderables.insert(e, Renderable { glyph: '@', fg: Color::Yellow, bg: Color::Black, order: 0 });
    ecs.players.insert(e, Player { revealed_tiles: Vec::new() });
    ecs.viewsheds.insert(e, Viewshed { visible_tiles: Vec::new(), range: 8, dirty: true });
    ecs.names.insert(e, Name { name: String::from_str("Player") });
    ecs.combat_stats.insert(e, CombatStats { max_hp: 30, hp: 30, power: 5, defense: 2 });
    e
}

/// Spawns a monster with the given glyph and name at `(x, y)`: 16 hit
/// points, power 4, defense 1; it blocks its cell.
fn monster(ecs: &mut World, x: i32, y: i32, glyph: char, name: &str) -> (e: Entity)
    requires
        old(ecs).wf(),
    ensures
        added_one(*old(ecs), *final(ecs), e),
        is_monster(*final(ecs), e.id as int, x, y, glyph, name@),
{
    let e = ecs.create_entity();
    ecs.viewsheds.insert(e, Viewshed { visible_tiles: Vec::new(), range: 8, dirty: true });
    ecs.positions.insert(e, Position { x, y });
    ecs.monsters.insert(e, Monster {});
    ecs.names.insert(e, Name { name: String::from_str(name) });
    ecs.renderables.insert(e, Renderable { glyph, fg: Color::Red, bg: Color::Black, order: 1 });
    ecs.blocks_tile.insert(e, BlocksTile {});
    ecs.combat_stats.insert(e, CombatStats { max_hp: 16, hp: 16, power: 4, defense: 1 });
    e
}

pub fn orc(ecs: &mut World, x: i32, y: i32) -> (e: Entity)
    requires
        old(ecs).wf(),
    ensures
        added_one(*old(ecs), *final(ecs), e),
        is_monster(*final(ecs), e.id as int, x, y, 'o', "Orc"@),
{
    monster(ecs, x, y, 'o', "Orc")
}

pub fn goblin(ecs: &mut World, x: i32, y: i32) -> (e: Entity)
    requires
        old(ecs).wf(),
    ensures
        added_one(*old(ecs), *final(ecs), e),
        is_monster(*final(ecs), e.id as int, x, y, 'g', "Goblin"@),
{
    monster(ecs, x, y, 'g', "Goblin")
}

/// Entity `e` of `w` is the monster that a kind roll of `roll` makes on
/// `(x, y)`: an orc for 1, a goblin otherwise.
pub open spec fn monster_for_roll(w: World, e: int, x: i32, y: i32, roll: i32) -> bool {
    if roll == 1 {
        is_monster(w, e, x, y, 'o', "Orc"@)
    } else {
        is_monster(w, e, x, y, 'g', "Goblin"@)
    }
}

/// Entity `e` of `w` is a health potion on `(x, y)`: consumed on use,
/// heals 8.
pub open spec fn is_potion(w: World, e: int, x: i32, y: i32) -> bool {
    &&& is_item(w, e, x, y)
    &&& w.names@[e]->0.name@ == "Health Potion"@
    &&& w.renderables@[e] == Some(Renderable { glyph: '\u{a1}', fg: Color::Magenta, bg: Color::Black, order: 2 })
    &&& w.potions@[e] == Some(Potion { heal_amount: 8 })
    &&& w.inflicts_damage@[e] is None
    &&& w.ranged@[e] is None
    &&& w.area_of_effect@[e] is None
}

/// Entity `e` of `w` is a fireball scroll on `(x, y)`: consumed on use,
/// aimed up to 6 cells away, deals 20, declares a blast radius of 3.
pub open spec fn is_fireball(w: World, e: int, x: i32, y: i32) -> bool {
    &&& is_item(w, e, x, y)
    &&& w.names@[e]->0.name@ == "AOE Fireball Scroll"@
    &&& w.renderables@[e] == Some(Renderable { glyph: ')', fg: Color::Orange, bg: Color::Black, order: 2 })
    &&& w.potions@[e] is None
    &&& w.inflicts_damage@[e] == Some(InflictsDamage { damage: 20 })
    &&& w.ranged@[e] == Some(Ranged { range: 6 })
    &&& w.area_of_effect@[e] == Some(AreaOfEffect { radius: 3 })
}

/// Entity `e` of `w` is a magic missile scroll on `(x, y)`: consumed on
/// use, aimed up to 6 cells away, deals 8.
pub open spec fn is_missile(w: World, e: int, x: i32, y: i32) -> bool {
    &&& is_item(w, e, x, y)
    &&& w.names@[e]->0.name@ == "Magic Missile Scroll"@
    &&& w.renderables@[e] == Some(Renderable { glyph: ')', fg: Color::Cyan, bg: Color::Black, order: 2 })
    &&& w.potions@[e] is None
    &&& w.inflicts_damage@[e] == Some(InflictsDamage { damage: 8 })
    &&& w.ranged@[e] == Some(Ranged { range: 6 })
    &&& w.area_of_effect@[e] is None
}

/// Entity `e` of `w` is the item that a kind roll of `roll` makes on
/// `(x, y)`: a health potion for 1, a fireball scroll for 2, a magic
/// missile scroll otherwise.
pub open spec fn item_for_roll(w: World, e: int, x: i32, y: i32, roll: i32) -> bool {
    if roll == 1 {
        is_potion(w, e, x, y)
    } else if roll == 2 {
        is_fireball(w, e, x, y)
    } else {
        is_missile(w, e, x, y)
    }
}

/// Spawns on `(x, y)` the monster that the kind roll `roll` gives (see
/// [`monster_for_roll`]).
pub fn monster_of_roll(ecs: &mut World, roll: i32, x: i32, y: i32) -> (e: Entity)
    requires
        old(ecs).wf(),
    ensures
        added_one(*old(ecs), *final(ecs), e),
        monster_for_roll(*final(ecs), e.id as int, x, y, roll),
{
    if roll == 1 {
        orc(ecs, x, y)
    } else {
        goblin(ecs, x, y)
    }
}

/// Spawns an orc or a goblin at `(x, y)`, one chance in two each: the kind
/// roll is drawn from `0..2`.
pub fn random_monster<R: Rng>(ecs: &mut World, rng: &mut R, x: i32, y: i32) -> (e: Entity)
    requires
        old(ecs).wf(),
    ensures
        added_one(*old(ecs), *final(ecs), e),
        exists|roll: i32| 0 <= roll < 2 && #[trigger] monster_for_roll(*final(ecs), e.id as int, x, y, roll),
{
    let roll = rng.between(0, 2);
    monster_of_roll(ecs, roll, x, y)
}

/// A health potion at `(x, y)`.
pub fn health_potion(ecs: &mut World, x: i32, y: i32) -> (e: Entity)
    requires
        old(ecs).wf(),
    ensures
        added_one(*old(ecs), *final(ecs), e),
        is_potion(*final(ecs), e.id as int, x, y),
{
    let e = ecs.create_entity();
    ecs.positions.insert(e, Position { x, y });
    ecs.renderables.insert(e, Renderable { glyph: '\u{a1}', fg: Color::Magenta, bg: Color::Black, order: 2 });
    ecs.names.insert(e, Name { name: String::from_str("Health Potion") });
    ecs.items.insert(e, Item {});
    ecs.consumables.insert(e, Consumable {});
    ecs.potions.insert(e, Potion { heal_amount: 8 });
    e
}

/// A fireball scroll at `(x, y)`.
pub fn fireball_scroll(ecs: &mut World, x: i32, y: i32) -> (e: Entity)
    requires
        old(ecs).wf(),
    ensures
        added_one(*old(ecs), *final(ecs), e),
        is_fireball(*final(ecs), e.id as int, x, y),
{
    let e = ecs.create_entity();
    ecs.positions.insert(e, Position { x, y });
    ecs.renderables.insert(e, Renderable { glyph: ')', fg: Color::Orange, bg: Color::Black, order: 2 });
    ecs.names.insert(e, Name { name: String::from_str("AOE Fireball Scroll") });
    ecs.items.insert(e, Item {});
    ecs.consumables.insert(e, Consumable {});
    ecs.ranged.insert(e, Ranged { range: 6 });
    ecs.inflicts_damage.insert(e, InflictsDamage { damage: 20 });
    ecs.area_of_effect.insert(e, AreaOfEffect { radius: 3 });
    e
}

/// A magic missile scroll at `(x, y)`.
pub fn magic_missile_scroll(ecs: &mut World, x: i32, y: i32) -> (e: Entity)
    requires
        old(ecs).wf(),
    ensures
        added_one(*old(ecs), *final(ecs), e),
        is_missile(*final(ecs), e.id as int, x, y),
{
    let e = ecs.create_entity();
    ecs.positions.insert(e, Position { x, y });
    ecs.renderables.insert(e, Renderable { glyph: ')', fg: Color::Cyan, bg: Color::Black, order: 2 });
    ecs.names.insert(e, Name { name: String::from_str("Magic Missile Scroll") });
    ecs.items.insert(e, Item {});
    ecs.ranged.insert(e, Ranged { range: 6 });
    ecs.consumables.insert(e, Consumable {});
    ecs.inflicts_damage.insert(e, InflictsDamage { damage: 8 });
    e
}

/// Spawns on `(x, y)` the item that the kind roll `roll` gives (see
/// [`item_for_roll`]).
pub fn item_of_roll(ecs: &mut World, roll: i32, x: i32, y: i32) -> (e: Entity)
    requires
        old(ecs).wf(),
    ensures
        added_one(*old(ecs), *final(ecs), e),
        item_for_roll(*final(ecs), e.id as int, x, y, roll),
{
    if roll == 1 {
        health_potion(ecs, x, y)
    } else if roll == 2 {
        fireball_scroll(ecs, x, y)
    } else {
        magic_missile_scroll(ecs, x, y)
    }
}

/// Spawns a random item at `(x, y)`: a health potion, a fireball scroll or
/// a magic missile scroll, one chance in three each (the kind roll is drawn
/// from `0..3`).
pub fn random_item<R: Rng>(ecs: &mut World, rng: &mut R, x: i32, y: i32) -> (e: Entity)
    requires
        old(ecs).wf(),
    ensures
        added_one(*old(ecs), *final(ecs), e),
        exists|roll: i32| 0 <= roll < 3 && #[trigger] item_for_roll(*final(ecs), e.id as int, x, y, roll),
{
    let roll = rng.between(0, 3);
    item_of_roll(ecs, roll, x, y)
}

/// Whether the spawner may put something on `(x, y)` of `room`: a cell of
/// its interior, short of the far wall.
pub open spec fn spawn_cell(room: Rect, x: int, y: int) -> bool {
    room.x1 + 1 <= x < room.x2 && room.y1 + 1 <= y < room.y2
}

fn holds_cell(cells: &Vec<(i32, i32)>, c: (i32, i32)) -> (r: bool)
    ensures
        r == cells@.contains(c),
{
    let mut i: usize = 0;
    while i < cells.len()
        invariant
            i <= cells@.len(),
            forall|j: int| 0 <= j < i ==> cells@[j] != c,
        decreases cells@.len() - i,
    {
        if cells[i].0 == c.0 && cells[i].1 == c.1 {
            return true;
        }
        i += 1;
    }
    false
}

/// Draws up to `count` distinct cells of the room (see [`spawn_cell`]) that
/// are not in `taken`, each by drawing again until a free one comes (at
/// most [`MAX_PLACEMENT_TRIES`] times per cell).
fn draw_cells<R: Rng>(rng: &mut R, room: &Rect, count: i32, taken: &Vec<(i32, i32)>) -> (cells: Vec<(i32, i32)>)
    requires
        room.x1 + 1 < room.x2,
        room.y1 + 1 < room.y2,
    ensures
        cells@.len() <= if count < 0 { 0 } else { count as int },
        cells@.no_duplicates(),
        forall|k: int| 0 <= k < cells@.len() ==> spawn_cell(*room, (#[trigger] cells@[k]).0 as int, cells@[k].1 as int),
        forall|k: int| 0 <= k < cells@.len() ==> !taken@.contains(#[trigger] cells@[k]),
{
    let mut cells: Vec<(i32, i32)> = Vec::new();
    let mut i: i32 = 0;
    while i < count
        invariant
            room.x1 + 1 < room.x2,
            room.y1 + 1 < room.y2,
            0 <= i,
            count >= 0 ==> i <= count,
            count < 0 ==> i == 0,
            cells@.len() <= i,
            cells@.no_duplicates(),
            forall|k: int| 0 <= k < cells@.len() ==> spawn_cell(*room, (#[trigger] cells@[k]).0 as int, cells@[k].1 as int),
            forall|k: int| 0 <= k < cells@.len() ==> !taken@.contains(#[trigger] cells@[k]),
        decreases count - i,
    {
        let mut tries: u32 = 0;
        let mut placed = false;
        let ghost len0 = cells@.len();
        while tries < MAX_PLACEMENT_TRIES && !placed
            invariant
                room.x1 + 1 < room.x2,
                room.y1 + 1 < room.y2,
                0 <= i < count,
                len0 <= i,
                cells@.len() == len0 + if placed { 1int } else { 0int },
                cells@.no_duplicates(),
                forall|k: int| 0 <= k < cells@.len() ==> spawn_cell(*room, (#[trigger] cells@[k]).0 as int, cells@[k].1 as int),
                forall|k: int| 0 <= k < cells@.len() ==> !taken@.contains(#[trigger] cells@[k]),
            decreases MAX_PLACEMENT_TRIES - tries,
        {
            let x = rng.between(room.x1 + 1, room.x2);
            let y = rng.between(room.y1 + 1, room.y2);
            if !holds_cell(&cells, (x, y)) && !holds_cell(taken, (x, y)) {
                proof {
                    assert forall|a: int, b: int| 0 <= a < b < cells@.len() + 1 implies cells@.push((x, y))[a] != cells@.push((x, y))[b] by {
                        if b == cells@.len() {
                            assert(cells@.push((x, y))[a] == cells@[a]);
                        }
                    }
                }
                cells.push((x, y));
                placed = true;
            }
            tries += 1;
        }
        i += 1;
    }
    cells
}

/// In `w`, the entities from `lo` on are, in order, a monster on each of
/// `monster_cells` of the kind its roll in `monster_rolls` gives, then an
/// item on each of `item_cells` of the kind its roll in `item_rolls` gives;
/// all of them alive.
pub open spec fn block_of(
    w: World,
    lo: int,
    monster_cells: Seq<(i32, i32)>,
    monster_rolls: Seq<i32>,
    item_cells: Seq<(i32, i32)>,
    item_rolls: Seq<i32>,
) -> bool {
    &&& 0 <= lo
    &&& monster_rolls.len() == monster_cells.len()
    &&& item_rolls.len() == item_cells.len()
    &&& lo + monster_cells.len() + item_cells.len() <= w.n()
    &&& forall|k: int| 0 <= k < monster_cells.len() ==> #[trigger] monster_slot(w, lo, monster_cells, monster_rolls, k)
    &&& forall|k: int|
        0 <= k < item_cells.len() ==> #[trigger] item_slot(w, lo + monster_cells.len(), item_cells, item_rolls, k)
}

/// Entity `lo + k` of `w` is alive and is the monster of cell `k` and roll `k`.
pub open spec fn monster_slot(w: World, lo: int, cells: Seq<(i32, i32)>, rolls: Seq<i32>, k: int) -> bool {
    w.alive@[lo + k] && monster_for_roll(w, lo + k, cells[k].0, cells[k].1, rolls[k])
}

/// Entity `lo + k` of `w` is alive and is the item of cell `k` and roll `k`.
pub open spec fn item_slot(w: World, lo: int, cells: Seq<(i32, i32)>, rolls: Seq<i32>, k: int) -> bool {
    w.alive@[lo + k] && item_for_roll(w, lo + k, cells[k].0, cells[k].1, rolls[k])
}

/// `new` is `old` with exactly the block of entities described by the
/// cells and kind rolls appended (see [`block_of`]).
pub open spec fn spawned_block(
    old: World,
    new: World,
    monster_cells: Seq<(i32, i32)>,
    monster_rolls: Seq<i32>,
    item_cells: Seq<(i32, i32)>,
    item_rolls: Seq<i32>,
) -> bool {
    &&& old.grown_into(&new)
    &&& new.n() == old.n() + monster_cells.len() + item_cells.len()
    &&& block_of(new, old.n() as int, monster_cells, monster_rolls, item_cells, item_rolls)
}

/// A block of entities stays what it was when only later entities are added.
pub proof fn lemma_block_kept(
    w: World,
    w2: World,
    lo: int,
    mc: Seq<(i32, i32)>,
    mr: Seq<i32>,
    ic: Seq<(i32, i32)>,
    ir: Seq<i32>,
)
    requires
        block_of(w, lo, mc, mr, ic, ir),
        w.n() <= w2.n(),
        forall|e: int| 0 <= e < w.n() ==> #[trigger] w2.same_entity(&w, e),
    ensures
        block_of(w2, lo, mc, mr, ic, ir),
{
    assert forall|k: int| 0 <= k < mc.len() implies #[trigger] monster_slot(w2, lo, mc, mr, k) by {
        assert(monster_slot(w, lo, mc, mr, k));
        assert(w2.same_entity(&w, lo + k));
    }
    assert forall|k: int| 0 <= k < ic.len() implies #[trigger] item_slot(w2, lo + mc.len(), ic, ir, k) by {
        assert(item_slot(w, lo + mc.len(), ic, ir, k));
        assert(w2.same_entity(&w, lo + mc.len() + k));
    }
    assert(0 <= lo);
    assert(mr.len() == mc.len());
    assert(ir.len() == ic.len());
    assert(lo + mc.len() + ic.len() <= w2.n());
}

/// Spawns, in order, the monster of each cell of `monster_cells` whose kind
/// its roll in `monster_rolls` gives, then the item of each cell of
/// `item_cells` whose kind its roll in `item_rolls` gives.
pub fn spawn_entities(
    ecs: &mut World,
    monster_cells: &Vec<(i32, i32)>,
    monster_rolls: &Vec<i32>,
    item_cells: &Vec<(i32, i32)>,
    item_rolls: &Vec<i32>,
)
    requires
        old(ecs).wf(),
        monster_rolls@.len() == monster_cells@.len(),
        item_rolls@.len() == item_cells@.len(),
    ensures
        spawned_block(*old(ecs), *final(ecs), monster_cells@, monster_rolls@, item_cells@, item_rolls@),
{
    let ghost w0 = *ecs;
    let start = ecs.alive.len();
    let mut i: usize = 0;
    while i < monster_cells.len()
        invariant
            i <= monster_cells@.len(),
            monster_rolls@.len() == monster_cells@.len(),
            start == w0.n(),
            w0.grown_into(&*ecs),
            ecs.n() == start + i,
            block_of(*ecs, start as int, monster_cells@.take(i as int), monster_rolls@.take(i as int), Seq::empty(), Seq::empty()),
        decreases monster_cells@.len() - i,
    {
        let ghost before = *ecs;
        let (x, y) = monster_cells[i];
        let e = monster_of_roll(ecs, monster_rolls[i], x, y);
        proof {
            assert forall|q: int| 0 <= q < w0.n() implies #[trigger] ecs.same_entity(&w0, q) by {
                assert(ecs.same_entity(&before, q));
                assert(before.same_entity(&w0, q));
            }
            lemma_block_kept(before, *ecs, start as int, monster_cells@.take(i as int), monster_rolls@.take(i as int), Seq::empty(), Seq::empty());
            let mc = monster_cells@.take(i as int + 1);
            let mr = monster_rolls@.take(i as int + 1);
            assert forall|k: int| 0 <= k < mc.len() implies #[trigger] monster_slot(*ecs, start as int, mc, mr, k) by {
                if k < i {
                    assert(monster_slot(*ecs, start as int, monster_cells@.take(i as int), monster_rolls@.take(i as int), k));
                    assert(mc[k] == monster_cells@.take(i as int)[k]);
                    assert(mr[k] == monster_rolls@.take(i as int)[k]);
                }
            }
        }
        i += 1;
    }
    let mid = ecs.alive.len();
    let mut j: usize = 0;
    proof {
        assert(monster_cells@.take(i as int) =~= monster_cells@);
        assert(monster_rolls@.take(i as int) =~= monster_rolls@);
        assert(item_cells@.take(0) =~= Seq::<(i32, i32)>::empty());
        assert(item_rolls@.take(0) =~= Seq::<i32>::empty());
    }
    while j < item_cells.len()
        invariant
            j <= item_cells@.len(),
            item_rolls@.len() == item_cells@.len(),
            monster_rolls@.len() == monster_cells@.len(),
            start == w0.n(),
            mid == start + monster_cells@.len(),
            w0.grown_into(&*ecs),
            ecs.n() == mid + j,
            block_of(*ecs, start as int, monster_cells@, monster_rolls@, item_cells@.take(j as int), item_rolls@.take(j as int)),
        decreases item_cells@.len() - j,
    {
        let ghost before = *ecs;
        let (x, y) = item_cells[j];
        let e = item_of_roll(ecs, item_rolls[j], x, y);
        proof {
            assert forall|q: int| 0 <= q < w0.n() implies #[trigger] ecs.same_entity(&w0, q) by {
                assert(ecs.same_entity(&before, q));
                assert(before.same_entity(&w0, q));
            }
            lemma_block_kept(before, *ecs, start as int, monster_cells@, monster_rolls@, item_cells@.take(j as int), item_rolls@.take(j as int));
            let ic = item_cells@.take(j as int + 1);
            let ir = item_rolls@.take(j as int + 1);
            let lo2 = start + monster_cells@.len();
            assert forall|k: int| 0 <= k < ic.len() implies #[trigger] item_slot(*ecs, lo2, ic, ir, k) by {
                if k < j {
                    assert(item_slot(*ecs, lo2, item_cells@.take(j as int), item_rolls@.take(j as int), k));
                    assert(ic[k] == item_cells@.take(j as int)[k]);
                    assert(ir[k] == item_rolls@.take(j as int)[k]);
                }
            }
        }
        j += 1;
    }
    proof {
        assert(item_cells@.take(j as int) =~= item_cells@);
        assert(item_rolls@.take(j as int) =~= item_rolls@);
    }
}

/// At most `max - 1` (none when `max < 1`): how many of a kind a room may
/// get, the count being drawn from `0..max`.
pub open spec fn count_bound(max: i32) -> int {
    if max < 1 {
        0
    } else {
        max - 1
    }
}

/// What holds of the cells and kind rolls that `spawn_room` draws for
/// `room`, whatever the generator gave: at most the drawn counts, distinct
/// cells of the room, item cells apart from monster cells, monster rolls in
/// `0..2` and item rolls in `0..3`.
pub open spec fn draws_fit(
    room: Rect,
    settings: SpawnerSettings,
    monster_cells: Seq<(i32, i32)>,
    monster_rolls: Seq<i32>,
    item_cells: Seq<(i32, i32)>,
    item_rolls: Seq<i32>,
) -> bool {
    &&& monster_cells.len() <= count_bound(settings.max_monsters)
    &&& item_cells.len() <= count_bound(settings.max_items)
    &&& monster_cells.no_duplicates()
    &&& item_cells.no_duplicates()
    &&& forall|k: int| 0 <= k < monster_cells.len() ==> spawn_cell(room, (#[trigger] monster_cells[k]).0 as int, monster_cells[k].1 as int)
    &&& forall|k: int| 0 <= k < item_cells.len() ==> spawn_cell(room, (#[trigger] item_cells[k]).0 as int, item_cells[k].1 as int)
    &&& forall|k: int| 0 <= k < item_cells.len() ==> !monster_cells.contains(#[trigger] item_cells[k])
    &&& forall|k: int| 0 <= k < monster_rolls.len() ==> 0 <= #[trigger] monster_rolls[k] < 2
    &&& forall|k: int| 0 <= k < item_rolls.len() ==> 0 <= #[trigger] item_rolls[k] < 3
}

fn draw_rolls<R: Rng>(rng: &mut R, count: usize, kinds: i32) -> (rolls: Vec<i32>)
    requires
        kinds > 0,
    ensures
        rolls@.len() == count,
        forall|k: int| 0 <= k < rolls@.len() ==> 0 <= #[trigger] rolls@[k] < kinds,
{
    let mut rolls: Vec<i32> = Vec::new();
    let mut i: usize = 0;
    while i < count
        invariant
            kinds > 0,
            i <= count,
            rolls@.len() == i,
            forall|k: int| 0 <= k < rolls@.len() ==> 0 <= #[trigger] rolls@[k] < kinds,
        decreases count - i,
    {
        let r = rng.between(0, kinds);
        rolls.push(r);
        i += 1;
    }
    rolls
}

/// Fills a room: draws how many monsters (from `0..max_monsters`) and how
/// many items (from `0..max_items`) it gets, draws a distinct free cell of
/// the room for each (monster cells first, item cells apart from them),
/// draws a kind roll for each monster and then for each item, and spawns
/// them with [`spawn_entities`]. A room with no inner cell gets nothing.
pub fn spawn_room<R: Rng>(ecs: &mut World, rng: &mut R, room: &Rect, settings: SpawnerSettings)
    requires
        old(ecs).wf(),
    ensures
        exists|mc: Seq<(i32, i32)>, mr: Seq<i32>, ic: Seq<(i32, i32)>, ir: Seq<i32>|
            #![trigger spawned_block(*old(ecs), *final(ecs), mc, mr, ic, ir)]
            spawned_block(*old(ecs), *final(ecs), mc, mr, ic, ir) && draws_fit(*room, settings, mc, mr, ic, ir),
        !(room.x1 + 1 < room.x2 && room.y1 + 1 < room.y2) ==> *final(ecs) == *old(ecs),
{
    let ghost w0 = *ecs;
    if !(room.x1 < i32::MAX && room.x1 + 1 < room.x2 && room.y1 < i32::MAX && room.y1 + 1 < room.y2) {
        proof {
            let e1 = Seq::<(i32, i32)>::empty();
            let e2 = Seq::<i32>::empty();
            assert(spawned_block(w0, *ecs, e1, e2, e1, e2));
            assert(draws_fit(*room, settings, e1, e2, e1, e2));
        }
        return;
    }
    let n_monsters = if settings.max_monsters > 0 { rng.between(0, settings.max_monsters) } else { 0 };
    let n_items = if settings.max_items > 0 { rng.between(0, settings.max_items) } else { 0 };
    let none: Vec<(i32, i32)> = Vec::new();
    let spawn_points = draw_cells(rng, room, n_monsters, &none);
    let item_points = draw_cells(rng, room, n_items, &spawn_points);
    let monster_rolls = draw_rolls(rng, spawn_points.len(), 2);
    let item_rolls = draw_rolls(rng, item_points.len(), 3);
    spawn_entities(ecs, &spawn_points, &monster_rolls, &item_points, &item_rolls);
    proof {
        assert(draws_fit(*room, settings, spawn_points@, monster_rolls@, item_points@, item_rolls@));
    }
}

/// Draws `count` candidate rooms for a `map_width` x `map_height` level:
/// each is `min_size` to `max_size - 1` cells wide and high, placed so that
/// it fits the level.
pub fn random_rooms<R: Rng>(
    rng: &mut R,
    count: usize,
    min_size: i32,
    max_size: i32,
    map_width: i32,
    map_height: i32,
) -> (rooms: Vec<Rect>)
    requires
        0 <= min_size < max_size,
        max_size < map_width,
        max_size < map_height,
    ensures
        rooms@.len() == count,
        forall|i: int|
            0 <= i < rooms@.len() ==> room_fits(#[trigger] rooms@[i], map_width as int, map_height as int)
                && min_size <= rooms@[i].x2 - rooms@[i].x1 < max_size && min_size <= rooms@[i].y2
                - rooms@[i].y1 < max_size,
{
    let mut rooms: Vec<Rect> = Vec::new();
    let mut i: usize = 0;
    while i < count
        invariant
            0 <= min_size < max_size,
            max_size < map_width,
            max_size < map_height,
            i <= count,
            rooms@.len() == i,
            forall|k: int|
                0 <= k < rooms@.len() ==> room_fits(#[trigger] rooms@[k], map_width as int, map_height as int)
                    && min_size <= rooms@[k].x2 - rooms@[k].x1 < max_size && min_size <= rooms@[k].y2
                    - rooms@[k].y1 < max_size,
        decreases count - i,
    {
        let w = rng.between(min_size, max_size);
        let h = rng.between(min_size, max_size);
        let x = rng.between(1, map_width - w) - 1;
        let y = rng.between(1, map_height - h) - 1;
        rooms.push(Rect::new(x, y, w, h));
        i += 1;
    }
    rooms
}

/// Whether each room of `rooms` other than `start`, in order, got the block
/// of entities that [`spawn_room`] describes, from `bounds[j]` to
/// `bounds[j + 1]`, with `draws[j]` the cells and kind rolls drawn for it;
/// `start` gets nothing.
pub open spec fn rooms_filled(
    w: World,
    rooms: Seq<Rect>,
    start: Rect,
    settings: SpawnerSettings,
    bounds: Seq<int>,
    draws: Seq<(Seq<(i32, i32)>, Seq<i32>, Seq<(i32, i32)>, Seq<i32>)>,
) -> bool {
    &&& bounds.len() == draws.len() + 1
    &&& draws.len() <= rooms.len()
    &&& forall|j: int|
        0 <= j < draws.len() ==> if rooms[j] == start {
            #[trigger] bounds[j + 1] == bounds[j]
        } else {
            &&& bounds[j + 1] == bounds[j] + draws[j].0.len() + draws[j].2.len()
            &&& block_of(w, bounds[j], draws[j].0, draws[j].1, draws[j].2, draws[j].3)
            &&& draws_fit(rooms[j], settings, draws[j].0, draws[j].1, draws[j].2, draws[j].3)
        }
}

/// Fills every room of the level but `start` (the player's) with monsters
/// and items, room by room in placement order.
pub fn populate_rooms<R: Rng>(ecs: &mut World, rng: &mut R, start: &Rect, settings: SpawnerSettings)
    requires
        old(ecs).wf(),
    ensures
        old(ecs).grown_into(&*final(ecs)),
        exists|bounds: Seq<int>, draws: Seq<(Seq<(i32, i32)>, Seq<i32>, Seq<(i32, i32)>, Seq<i32>)>|
            #![trigger rooms_filled(*final(ecs), old(ecs).map.rooms@, *start, settings, bounds, draws)]
            rooms_filled(*final(ecs), old(ecs).map.rooms@, *start, settings, bounds, draws)
                && draws.len() == old(ecs).map.rooms@.len() && bounds[0] == old(ecs).n()
                && bounds[draws.len() as int] == final(ecs).n(),
{
    let ghost w0 = *ecs;
    let ghost rooms = w0.map.rooms@;
    let ghost mut bounds: Seq<int> = seq![w0.n() as int];
    let ghost mut draws: Seq<(Seq<(i32, i32)>, Seq<i32>, Seq<(i32, i32)>, Seq<i32>)> = Seq::empty();
    let n = ecs.map.rooms.len();
    let mut i: usize = 0;
    while i < n
        invariant
            i <= n,
            w0.grown_into(&*ecs),
            n == ecs.map.rooms@.len(),
            ecs.map == w0.map,
            rooms == w0.map.rooms@,
            draws.len() == i,
            bounds[0] == w0.n(),
            bounds[i as int] == ecs.n(),
            rooms_filled(*ecs, rooms, *start, settings, bounds, draws),
        decreases n - i,
    {
        let room = ecs.map.rooms[i];
        let ghost before = *ecs;
        if room != *start {
            spawn_room(ecs, rng, &room, settings);
            proof {
                let (mc, mr, ic, ir) = choose|mc: Seq<(i32, i32)>, mr: Seq<i32>, ic: Seq<(i32, i32)>, ir: Seq<i32>|
                    #[trigger] spawned_block(before, *ecs, mc, mr, ic, ir) && draws_fit(room, settings, mc, mr, ic, ir);
                assert forall|q: int| 0 <= q < w0.n() implies #[trigger] ecs.same_entity(&w0, q) by {
                    assert(ecs.same_entity(&before, q));
                    assert(before.same_entity(&w0, q));
                }
                let b2 = bounds.push(ecs.n() as int);
                let d2 = draws.push((mc, mr, ic, ir));
                assert forall|j: int| 0 <= j < d2.len() implies if rooms[j] == *start {
                    #[trigger] b2[j + 1] == b2[j]
                } else {
                    &&& b2[j + 1] == b2[j] + d2[j].0.len() + d2[j].2.len()
                    &&& block_of(*ecs, b2[j], d2[j].0, d2[j].1, d2[j].2, d2[j].3)
                    &&& draws_fit(rooms[j], settings, d2[j].0, d2[j].1, d2[j].2, d2[j].3)
                } by {
                    if j < i {
                        assert(b2[j] == bounds[j] && b2[j + 1] == bounds[j + 1] && d2[j] == draws[j]);
                        if rooms[j] != *start {
                            lemma_block_kept(before, *ecs, bounds[j], draws[j].0, draws[j].1, draws[j].2, draws[j].3);
                        }
                    }
                }
                bounds = b2;
                draws = d2;
            }
        } else {
            proof {
                let e1 = Seq::<(i32, i32)>::empty();
                let e2 = Seq::<i32>::empty();
                let b2 = bounds.push(ecs.n() as int);
                let d2 = draws.push((e1, e2, e1, e2));
                assert forall|j: int| 0 <= j < d2.len() implies if rooms[j] == *start {
                    #[trigger] b2[j + 1] == b2[j]
                } else {
                    &&& b2[j + 1] == b2[j] + d2[j].0.len() + d2[j].2.len()
                    &&& block_of(*ecs, b2[j], d2[j].0, d2[j].1, d2[j].2, d2[j].3)
                    &&& draws_fit(rooms[j], settings, d2[j].0, d2[j].1, d2[j].2, d2[j].3)
                } by {
                    if j < i {
                        assert(b2[j] == bounds[j] && b2[j + 1] == bounds[j + 1] && d2[j] == draws[j]);
                    }
                }
                bounds = b2;
                draws = d2;
            }
        }
        i += 1;
    }
}

} // verus!
