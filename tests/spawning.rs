use tetra::components::{CombatStats, Entity, Position};
use tetra::gamelog::{decimal, GameLog};
use tetra::map::new_map_rooms_and_corridors;
use tetra::rect::Rect;
use tetra::rng::{choose_element, RltkRng, Rng};
use tetra::spawner::{
    fireball_scroll, player, populate_rooms, random_item, random_monster, random_rooms, spawn_entities, spawn_room,
    SpawnerSettings,
};
use tetra::world::World;

/// Hands out the numbers it was given, in order, held to the asked range.
struct Scripted {
    values: Vec<i32>,
    next: usize,
}

impl Rng for Scripted {
    fn next_int(&mut self) -> i32 {
        let v = self.values[self.next % self.values.len()];
        self.next += 1;
        v
    }

    fn between(&mut self, k: i32, n: i32) -> i32 {
        let v = self.next_int();
        v.clamp(k, n - 1)
    }
}

fn empty_world() -> World {
    let map = new_map_rooms_and_corridors(30, 20, vec![Rect::new(1, 1, 12, 10)]);
    World::new(map, GameLog { entries: Vec::new() })
}

#[test]
fn player_has_fixed_starting_stats() {
    let mut w = empty_world();
    let p = player(&mut w, 3, 4);
    assert_eq!(p, Entity { id: 0 });
    assert_eq!(w.positions.get(p).copied(), Some(Position { x: 3, y: 4 }));
    assert_eq!(w.combat_stats.get(p).copied(), Some(CombatStats { max_hp: 30, hp: 30, power: 5, defense: 2 }));
    let v = w.viewsheds.get(p).unwrap();
    assert_eq!((v.range, v.dirty, v.visible_tiles.len()), (8, true, 0));
    assert!(w.players.get(p).unwrap().revealed_tiles.is_empty());
    assert_eq!(w.names.get(p).unwrap().name, "Player");
}

#[test]
fn monster_kind_follows_roll() {
    let mut w = empty_world();
    let mut rng = Scripted { values: vec![1, 0], next: 0 };
    let orc = random_monster(&mut w, &mut rng, 2, 2);
    let goblin = random_monster(&mut w, &mut rng, 3, 2);
    assert_eq!(w.names.get(orc).unwrap().name, "Orc");
    assert_eq!(w.names.get(goblin).unwrap().name, "Goblin");
    assert_eq!(w.combat_stats.get(goblin).copied(), Some(CombatStats { max_hp: 16, hp: 16, power: 4, defense: 1 }));
    assert!(w.blocks_tile.contains(orc));
    assert_eq!(w.renderables.get(orc).unwrap().glyph, 'o');
    assert_eq!(w.renderables.get(goblin).unwrap().glyph, 'g');
}

#[test]
fn item_kind_follows_roll() {
    let mut w = empty_world();
    let mut rng = Scripted { values: vec![1, 2, 0], next: 0 };
    let a = random_item(&mut w, &mut rng, 2, 2);
    let b = random_item(&mut w, &mut rng, 3, 2);
    let c = random_item(&mut w, &mut rng, 4, 2);
    assert_eq!(w.names.get(a).unwrap().name, "Health Potion");
    assert_eq!(w.potions.get(a).unwrap().heal_amount, 8);
    assert_eq!(w.names.get(b).unwrap().name, "AOE Fireball Scroll");
    assert_eq!(w.names.get(c).unwrap().name, "Magic Missile Scroll");
    assert_eq!(w.inflicts_damage.get(c).unwrap().damage, 8);
    assert!(w.consumables.contains(c));
}

#[test]
fn fireball_declares_its_blast() {
    let mut w = empty_world();
    let f = fireball_scroll(&mut w, 2, 2);
    assert_eq!(w.inflicts_damage.get(f).unwrap().damage, 20);
    assert_eq!(w.area_of_effect.get(f).unwrap().radius, 3);
    assert_eq!(w.ranged.get(f).unwrap().range, 6);
}

#[test]
fn default_settings_allow_four_of_each() {
    let s = SpawnerSettings::default();
    assert_eq!((s.max_monsters, s.max_items), (4, 4));
}

#[test]
fn spawn_room_places_distinct_cells_inside_the_room() {
    let room = Rect::new(1, 1, 12, 10);
    for seed in 0..20u64 {
        let mut w = empty_world();
        let mut rng = RltkRng { rng: rltk::RandomNumberGenerator::seeded(seed) };
        spawn_room(&mut w, &mut rng, &room, SpawnerSettings::default());
        let n = w.alive.len();
        assert!(n <= 6);
        let mut cells = Vec::new();
        let mut seen_item = false;
        for i in 0..n {
            let e = Entity { id: i };
            let p = *w.positions.get(e).unwrap();
            assert!(p.x >= room.x1 + 1 && p.x < room.x2);
            assert!(p.y >= room.y1 + 1 && p.y < room.y2);
            assert!(!cells.contains(&(p.x, p.y)));
            cells.push((p.x, p.y));
            if w.items.contains(e) {
                seen_item = true;
            } else {
                assert!(!seen_item);
                assert!(w.monsters.contains(e));
            }
        }
    }
}

#[test]
fn spawn_room_with_scripted_counts() {
    let room = Rect::new(1, 1, 12, 10);
    let mut w = empty_world();
    let mut rng = Scripted { values: vec![2, 1, 3, 3, 3, 3, 4, 4, 5, 5, 0, 0], next: 0 };
    spawn_room(&mut w, &mut rng, &room, SpawnerSettings::default());
    assert_eq!(w.alive.len(), 3);
    assert_eq!(w.positions.get(Entity { id: 0 }).copied(), Some(Position { x: 3, y: 3 }));
    assert_eq!(w.positions.get(Entity { id: 1 }).copied(), Some(Position { x: 4, y: 4 }));
    assert_eq!(w.positions.get(Entity { id: 2 }).copied(), Some(Position { x: 5, y: 5 }));
    assert!(w.monsters.contains(Entity { id: 0 }));
    assert!(w.items.contains(Entity { id: 2 }));
}

#[test]
fn rltk_between_stays_in_half_open_range() {
    let mut rng = RltkRng { rng: rltk::RandomNumberGenerator::seeded(7) };
    let mut hits = [false; 3];
    for _ in 0..200 {
        let v = rng.between(3, 6);
        assert!((3..6).contains(&v));
        hits[(v - 3) as usize] = true;
    }
    assert_eq!(hits, [true, true, true]);
}

#[test]
fn rltk_next_int_varies() {
    let mut rng = RltkRng { rng: rltk::RandomNumberGenerator::seeded(11) };
    let first = rng.next_int();
    assert!((0..50).any(|_| rng.next_int() != first));
}

#[test]
fn choose_element_picks_from_slice() {
    let mut rng = Scripted { values: vec![2], next: 0 };
    let items = [10, 20, 30, 40];
    assert_eq!(choose_element(&mut rng, &items), Some(&30));
    let empty: [i32; 0] = [];
    assert_eq!(choose_element(&mut rng, &empty), None);
}

#[test]
fn decimal_text() {
    assert_eq!(decimal(0), "0");
    assert_eq!(decimal(4), "4");
    assert_eq!(decimal(120), "120");
    assert_eq!(decimal(-37), "-37");
    assert_eq!(decimal(i32::MIN), "-2147483648");
}

#[test]
fn start_room_stays_empty() {
    let a = Rect::new(1, 1, 8, 8);
    let b = Rect::new(15, 5, 8, 8);
    let map = new_map_rooms_and_corridors(30, 20, vec![a, b]);
    let mut w = World::new(map, GameLog { entries: Vec::new() });
    let settings = SpawnerSettings { max_monsters: 4, max_items: 4 };
    for seed in 0..10u64 {
        let mut rng = RltkRng { rng: rltk::RandomNumberGenerator::seeded(seed) };
        populate_rooms(&mut w, &mut rng, &a, settings);
    }
    assert!(!w.alive.is_empty());
    for i in 0..w.alive.len() {
        let p = *w.positions.get(Entity { id: i }).unwrap();
        assert!(p.x > b.x1 && p.x < b.x2 && p.y > b.y1 && p.y < b.y2);
    }
}

#[test]
fn candidate_rooms_fit_the_level() {
    let mut rng = RltkRng { rng: rltk::RandomNumberGenerator::seeded(3) };
    let rooms = random_rooms(&mut rng, 30, 6, 10, 80, 43);
    assert_eq!(rooms.len(), 30);
    for r in rooms {
        let (w, h) = (r.x2 - r.x1, r.y2 - r.y1);
        assert!((6..10).contains(&w) && (6..10).contains(&h));
        assert!(r.x1 >= 0 && r.x2 < 80 && r.y1 >= 0 && r.y2 < 43);
    }
}

#[test]
fn spawn_entities_follows_cells_and_rolls() {
    let mut w = empty_world();
    spawn_entities(&mut w, &vec![(2, 2), (3, 2)], &vec![1, 0], &vec![(4, 4), (5, 4), (6, 4)], &vec![1, 2, 0]);
    assert_eq!(w.alive, vec![true; 5]);
    let name = |i: usize| w.names.get(Entity { id: i }).unwrap().name.clone();
    assert_eq!(name(0), "Orc");
    assert_eq!(name(1), "Goblin");
    assert_eq!(name(2), "Health Potion");
    assert_eq!(name(3), "AOE Fireball Scroll");
    assert_eq!(name(4), "Magic Missile Scroll");
    assert_eq!(w.positions.get(Entity { id: 1 }).copied(), Some(Position { x: 3, y: 2 }));
    assert_eq!(w.positions.get(Entity { id: 4 }).copied(), Some(Position { x: 6, y: 4 }));
}

/// Counts the calls made to it.
struct Counting {
    calls: usize,
}

impl Rng for Counting {
    fn next_int(&mut self) -> i32 {
        self.calls += 1;
        0
    }

    fn between(&mut self, k: i32, _n: i32) -> i32 {
        self.calls += 1;
        k
    }
}

#[test]
fn choose_element_on_empty_slice_draws_nothing() {
    let mut rng = Counting { calls: 0 };
    let empty: [u8; 0] = [];
    assert_eq!(choose_element(&mut rng, &empty), None);
    assert_eq!(rng.calls, 0);
    assert_eq!(choose_element(&mut rng, &[7u8, 8]), Some(&7));
    assert_eq!(rng.calls, 1);
}
