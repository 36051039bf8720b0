use tetra::components::{CombatStats, Entity, Position, SufferDamage, WantsToDrinkPotion, WantsToDropItem, WantsToMelee};
use tetra::gamelog::GameLog;
use tetra::map::new_map_rooms_and_corridors;
use tetra::rect::Rect;
use tetra::spawner::{goblin, health_potion, magic_missile_scroll, orc, player};
use tetra::state::{delete_the_dead, get_item, try_move_player, Command, ItemMenuResult, RunState, State};
use tetra::systems::{
    DamageSystem, ItemCollectionSystem, ItemUseSystem, LootSystem, MapIndexingSystem, MeleeCombatSystem,
    MonsterAi, VisibilitySystem,
};
use tetra::world::World;

fn room_world() -> World {
    let map = new_map_rooms_and_corridors(10, 10, vec![Rect::new(0, 0, 9, 9)]);
    World::new(map, GameLog { entries: Vec::new() })
}

fn index(w: &mut World) {
    let mut mis = MapIndexingSystem {};
    mis.run(&mut w.map, &w.positions, &w.blocks_tile);
}

fn no_fov(_m: &tetra::map::TetraMap, _p: Position, _r: i32) -> Vec<(i32, i32)> {
    Vec::new()
}

fn no_path(_m: &tetra::map::TetraMap, _a: usize, _b: usize) -> Option<Vec<usize>> {
    None
}

#[test]
fn bump_attack_scenario() {
    let mut w = room_world();
    let p = player(&mut w, 5, 5);
    w.player = Some(p);
    let m = orc(&mut w, 6, 5);
    index(&mut w);
    try_move_player(1, 0, &mut w);
    assert_eq!(w.positions.get(p).copied(), Some(Position { x: 5, y: 5 }));
    assert_eq!(w.wants_to_melee.get(p).copied(), Some(WantsToMelee { target: m }));
    let mut melee = MeleeCombatSystem {};
    melee.run(&mut w.log, &mut w.wants_to_melee, &w.names, &w.combat_stats, &mut w.suffer_damage);
    assert_eq!(w.suffer_damage.get(m).map(|s| s.amount.clone()), Some(vec![4]));
    assert_eq!(w.log.entries, vec!["Player hits Orc, for 4 hp".to_string()]);
    assert!(!w.wants_to_melee.contains(p));
    let mut damage = DamageSystem {};
    damage.run(&mut w.combat_stats, &mut w.suffer_damage);
    assert_eq!(w.combat_stats.get(m).map(|s| s.hp), Some(12));
    assert!(!w.suffer_damage.contains(m));
    let before = w.log.entries.len();
    delete_the_dead(&mut w);
    assert!(w.is_alive(m));
    assert_eq!(w.log.entries.len(), before);
}

#[test]
fn move_into_open_cell_marks_view_dirty() {
    let mut w = room_world();
    let p = player(&mut w, 5, 5);
    w.player = Some(p);
    index(&mut w);
    w.viewsheds.remove(p).map(|mut v| {
        v.dirty = false;
        w.viewsheds.insert(p, v);
    });
    try_move_player(-1, 1, &mut w);
    assert_eq!(w.positions.get(p).copied(), Some(Position { x: 4, y: 6 }));
    assert!(w.viewsheds.get(p).unwrap().dirty);
}

#[test]
fn move_into_wall_is_refused() {
    let mut w = room_world();
    let p = player(&mut w, 1, 1);
    w.player = Some(p);
    index(&mut w);
    try_move_player(-1, 0, &mut w);
    assert_eq!(w.positions.get(p).copied(), Some(Position { x: 1, y: 1 }));
}

#[test]
fn weak_blow_only_logs() {
    let mut w = room_world();
    let g = goblin(&mut w, 2, 2);
    let o = orc(&mut w, 3, 2);
    w.combat_stats.insert(o, CombatStats { max_hp: 16, hp: 16, defense: 9, power: 4 });
    w.wants_to_melee.insert(g, WantsToMelee { target: o });
    let mut melee = MeleeCombatSystem {};
    melee.run(&mut w.log, &mut w.wants_to_melee, &w.names, &w.combat_stats, &mut w.suffer_damage);
    assert_eq!(w.log.entries, vec!["Goblin is unable to hurt Orc".to_string()]);
    assert!(!w.suffer_damage.contains(o));
}

#[test]
fn blow_at_fallen_target_is_ignored() {
    let mut w = room_world();
    let g = goblin(&mut w, 2, 2);
    let o = orc(&mut w, 3, 2);
    w.combat_stats.insert(o, CombatStats { max_hp: 16, hp: 0, defense: 1, power: 4 });
    w.wants_to_melee.insert(g, WantsToMelee { target: o });
    let mut melee = MeleeCombatSystem {};
    melee.run(&mut w.log, &mut w.wants_to_melee, &w.names, &w.combat_stats, &mut w.suffer_damage);
    assert!(w.log.entries.is_empty());
    assert!(!w.suffer_damage.contains(o));
    assert!(!w.wants_to_melee.contains(g));
}

#[test]
fn damage_sums_and_may_go_negative() {
    let mut w = room_world();
    let o = orc(&mut w, 3, 2);
    SufferDamage::new_damage(&mut w.suffer_damage, o, 10);
    SufferDamage::new_damage(&mut w.suffer_damage, o, 9);
    assert_eq!(w.suffer_damage.get(o).unwrap().amount, vec![10, 9]);
    let mut damage = DamageSystem {};
    damage.run(&mut w.combat_stats, &mut w.suffer_damage);
    assert_eq!(w.combat_stats.get(o).unwrap().hp, -3);
    assert!(w.is_alive(o));
}

#[test]
fn death_sweep_removes_monsters_but_not_the_player() {
    let mut w = room_world();
    let p = player(&mut w, 5, 5);
    w.player = Some(p);
    let o = orc(&mut w, 3, 2);
    let g = goblin(&mut w, 4, 2);
    w.combat_stats.insert(o, CombatStats { max_hp: 16, hp: 0, defense: 1, power: 4 });
    w.combat_stats.insert(p, CombatStats { max_hp: 30, hp: -2, defense: 2, power: 5 });
    delete_the_dead(&mut w);
    assert!(!w.is_alive(o));
    assert!(!w.positions.contains(o));
    assert!(!w.combat_stats.contains(o));
    assert!(w.is_alive(p));
    assert!(w.is_alive(g));
    assert_eq!(w.log.entries, vec!["You are dead".to_string(), "Orc is dead".to_string()]);
}

#[test]
fn pickup_scenario() {
    let mut w = room_world();
    let p = player(&mut w, 5, 5);
    w.player = Some(p);
    let item = health_potion(&mut w, 5, 5);
    get_item(&mut w);
    let before = w.log.entries.len();
    let mut collect = ItemCollectionSystem {};
    collect.run(w.player, &mut w.log, &mut w.wants_to_pickup, &mut w.positions, &w.names, &mut w.in_backpack);
    assert!(!w.positions.contains(item));
    assert_eq!(w.in_backpack.get(item).map(|b| b.owner), Some(p));
    assert_eq!(w.log.entries.len(), before + 1);
    assert_eq!(w.log.entries.last().unwrap(), "You have picked up Health Potion.");
    assert!(!w.wants_to_pickup.contains(p));
}

#[test]
fn nothing_to_pick_up() {
    let mut w = room_world();
    let p = player(&mut w, 5, 5);
    w.player = Some(p);
    health_potion(&mut w, 4, 5);
    get_item(&mut w);
    assert!(!w.wants_to_pickup.contains(p));
    assert_eq!(w.log.entries, vec!["There is nothing here to pickup.".to_string()]);
}

#[test]
fn drop_puts_item_on_dropper_cell() {
    let mut w = room_world();
    let p = player(&mut w, 5, 5);
    w.player = Some(p);
    let item = health_potion(&mut w, 5, 5);
    get_item(&mut w);
    let mut collect = ItemCollectionSystem {};
    collect.run(w.player, &mut w.log, &mut w.wants_to_pickup, &mut w.positions, &w.names, &mut w.in_backpack);
    w.positions.insert(p, Position { x: 2, y: 3 });
    w.wants_to_drop.insert(p, WantsToDropItem { item });
    let mut loot = LootSystem {};
    loot.run(w.player, &mut w.log, &mut w.wants_to_drop, &w.names, &mut w.positions, &mut w.in_backpack);
    assert_eq!(w.positions.get(item).copied(), Some(Position { x: 2, y: 3 }));
    assert!(!w.in_backpack.contains(item));
    assert_eq!(w.log.entries.last().unwrap(), "You drop the Health Potion");
    assert!(!w.wants_to_drop.contains(p));
}

#[test]
fn drinking_heals_up_to_maximum_and_consumes() {
    let mut w = room_world();
    let p = player(&mut w, 5, 5);
    w.player = Some(p);
    let potion = health_potion(&mut w, 5, 5);
    w.combat_stats.insert(p, CombatStats { max_hp: 30, hp: 25, defense: 2, power: 5 });
    w.wants_to_drink.insert(p, WantsToDrinkPotion { potion, target: None });
    let mut using = ItemUseSystem {};
    let used = using.run(
        w.player,
        &w.map,
        &mut w.log,
        &mut w.wants_to_drink,
        &w.names,
        &w.potions,
        &w.inflicts_damage,
        &mut w.suffer_damage,
        &w.consumables,
        &mut w.combat_stats,
    );
    assert_eq!(w.combat_stats.get(p).unwrap().hp, 30);
    assert_eq!(used, vec![potion]);
    assert_eq!(w.log.entries, vec!["You drink the Health Potion, healing 8 hp".to_string()]);
    assert!(!w.wants_to_drink.contains(p));
}

#[test]
fn scroll_strikes_entities_on_target_cell() {
    let mut w = room_world();
    let p = player(&mut w, 5, 5);
    w.player = Some(p);
    let scroll = magic_missile_scroll(&mut w, 5, 5);
    let o = orc(&mut w, 7, 7);
    index(&mut w);
    w.wants_to_drink.insert(p, WantsToDrinkPotion { potion: scroll, target: Some(Position { x: 7, y: 7 }) });
    let mut using = ItemUseSystem {};
    let used = using.run(
        w.player,
        &w.map,
        &mut w.log,
        &mut w.wants_to_drink,
        &w.names,
        &w.potions,
        &w.inflicts_damage,
        &mut w.suffer_damage,
        &w.consumables,
        &mut w.combat_stats,
    );
    assert_eq!(w.suffer_damage.get(o).unwrap().amount, vec![8]);
    assert_eq!(used, vec![scroll]);
    assert_eq!(w.log.entries, vec!["You use Magic Missile Scroll on Orc, inflicting 8 hp.".to_string()]);
}

#[test]
fn indexing_lists_occupants_and_blockers() {
    let mut w = room_world();
    let p = player(&mut w, 5, 5);
    let o = orc(&mut w, 3, 3);
    let item = health_potion(&mut w, 3, 3);
    index(&mut w);
    assert_eq!(*w.map.entities.get(3, 3), vec![o, item]);
    assert_eq!(*w.map.entities.get(5, 5), vec![p]);
    assert!(w.map.is_blocked(3, 3));
    assert!(!w.map.is_blocked(5, 5));
    assert!(w.map.is_blocked(0, 4));
    w.positions.insert(o, Position { x: 4, y: 3 });
    index(&mut w);
    assert_eq!(*w.map.entities.get(3, 3), vec![item]);
    assert!(!w.map.is_blocked(3, 3));
}

#[test]
fn visibility_recomputes_only_dirty_views() {
    let mut w = room_world();
    let p = player(&mut w, 5, 5);
    w.player = Some(p);
    let o = orc(&mut w, 2, 2);
    w.viewsheds.remove(o).map(|mut v| {
        v.dirty = false;
        v.visible_tiles = vec![99];
        w.viewsheds.insert(o, v);
    });
    let fov = |_m: &tetra::map::TetraMap, pos: Position, _r: i32| vec![(pos.x, pos.y), (pos.x + 1, pos.y), (-1, 0), (pos.x, 10)];
    let mut vis = VisibilitySystem {};
    vis.run(&w.map, &mut w.viewsheds, &mut w.players, &w.positions, &fov);
    let pv = w.viewsheds.get(p).unwrap();
    assert!(!pv.dirty);
    assert_eq!(pv.visible_tiles, vec![55, 56]);
    assert_eq!(w.viewsheds.get(o).unwrap().visible_tiles, vec![99]);
    let mut revealed = w.players.get(p).unwrap().revealed_tiles.clone();
    revealed.sort();
    assert_eq!(revealed, vec![55, 56]);
}

#[test]
fn fog_memory_only_grows() {
    let mut w = room_world();
    let p = player(&mut w, 5, 5);
    w.player = Some(p);
    let fov = |_m: &tetra::map::TetraMap, pos: Position, _r: i32| vec![(pos.x, pos.y)];
    let mut vis = VisibilitySystem {};
    vis.run(&w.map, &mut w.viewsheds, &mut w.players, &w.positions, &fov);
    w.positions.insert(p, Position { x: 6, y: 5 });
    w.viewsheds.remove(p).map(|mut v| {
        v.dirty = true;
        w.viewsheds.insert(p, v);
    });
    vis.run(&w.map, &mut w.viewsheds, &mut w.players, &w.positions, &fov);
    assert_eq!(w.viewsheds.get(p).unwrap().visible_tiles, vec![56]);
    assert_eq!(w.players.get(p).unwrap().revealed_tiles, vec![55, 56]);
}

#[test]
fn monster_steps_along_path_and_attacks_when_adjacent() {
    let mut w = room_world();
    let p = player(&mut w, 5, 5);
    w.player = Some(p);
    let o = orc(&mut w, 2, 5);
    let target = w.map.buffer.xy_idx(5, 5);
    w.viewsheds.remove(o).map(|mut v| {
        v.dirty = false;
        v.visible_tiles = vec![target];
        w.viewsheds.insert(o, v);
    });
    let path = |_m: &tetra::map::TetraMap, a: usize, b: usize| Some(vec![a, a + 1, a + 2, b]);
    let mut ai = MonsterAi {};
    ai.run(&w.map, w.player, RunState::MonsterTurn, &mut w.viewsheds, &w.monsters, &mut w.positions, &mut w.wants_to_melee, &path);
    assert_eq!(w.positions.get(o).copied(), Some(Position { x: 3, y: 5 }));
    assert!(w.viewsheds.get(o).unwrap().dirty);
    assert!(!w.wants_to_melee.contains(o));
    ai.run(&w.map, w.player, RunState::MonsterTurn, &mut w.viewsheds, &w.monsters, &mut w.positions, &mut w.wants_to_melee, &path);
    assert_eq!(w.positions.get(o).copied(), Some(Position { x: 4, y: 5 }));
    assert_eq!(w.wants_to_melee.get(o).copied(), Some(WantsToMelee { target: p }));
}

#[test]
fn monster_without_path_stays_put() {
    let mut w = room_world();
    let p = player(&mut w, 5, 5);
    w.player = Some(p);
    let o = orc(&mut w, 2, 5);
    let target = w.map.buffer.xy_idx(5, 5);
    w.viewsheds.remove(o).map(|mut v| {
        v.dirty = false;
        v.visible_tiles = vec![target];
        w.viewsheds.insert(o, v);
    });
    let mut ai = MonsterAi {};
    ai.run(&w.map, w.player, RunState::MonsterTurn, &mut w.viewsheds, &w.monsters, &mut w.positions, &mut w.wants_to_melee, &no_path);
    assert_eq!(w.positions.get(o).copied(), Some(Position { x: 2, y: 5 }));
    assert!(!w.viewsheds.get(o).unwrap().dirty);
    ai.run(&w.map, w.player, RunState::PlayerTurn, &mut w.viewsheds, &w.monsters, &mut w.positions, &mut w.wants_to_melee, |_m: &tetra::map::TetraMap, a: usize, b: usize| Some(vec![a, a + 1, a + 2, b]));
    assert_eq!(w.positions.get(o).copied(), Some(Position { x: 2, y: 5 }));
}

#[test]
fn pipeline_leaves_no_intents() {
    let mut w = room_world();
    let p = player(&mut w, 5, 5);
    w.player = Some(p);
    let o = orc(&mut w, 6, 5);
    let item = health_potion(&mut w, 2, 2);
    w.wants_to_melee.insert(p, WantsToMelee { target: o });
    w.wants_to_melee.insert(o, WantsToMelee { target: p });
    w.wants_to_drop.insert(o, WantsToDropItem { item });
    w.wants_to_drink.insert(p, WantsToDrinkPotion { potion: item, target: None });
    let mut gs = State { ecs: w, run_state: RunState::PlayerTurn };
    gs.run_systems(no_fov, no_path);
    for i in 0..gs.ecs.alive.len() {
        let e = Entity { id: i };
        assert!(!gs.ecs.wants_to_melee.contains(e));
        assert!(!gs.ecs.wants_to_pickup.contains(e));
        assert!(!gs.ecs.wants_to_drop.contains(e));
        assert!(!gs.ecs.wants_to_drink.contains(e));
        assert!(!gs.ecs.suffer_damage.contains(e));
    }
    assert_eq!(gs.ecs.combat_stats.get(o).unwrap().hp, 12);
    assert_eq!(gs.ecs.combat_stats.get(p).unwrap().hp, 28);
    assert!(!gs.ecs.is_alive(item));
}

#[test]
fn game_loop_states() {
    let w = room_world();
    let mut gs = State { ecs: w, run_state: RunState::PreRun };
    let p = player(&mut gs.ecs, 5, 5);
    gs.ecs.player = Some(p);
    gs.advance(None, ItemMenuResult::NoResponse, no_fov, no_path);
    assert_eq!(gs.run_state, RunState::AwaitingInput);
    gs.advance(None, ItemMenuResult::NoResponse, no_fov, no_path);
    assert_eq!(gs.run_state, RunState::AwaitingInput);
    gs.advance(Some(Command::Unknown), ItemMenuResult::NoResponse, no_fov, no_path);
    assert_eq!(gs.run_state, RunState::AwaitingInput);
    gs.advance(Some(Command::OpenInventory), ItemMenuResult::NoResponse, no_fov, no_path);
    assert_eq!(gs.run_state, RunState::InventoryScreen);
    gs.advance(None, ItemMenuResult::NoResponse, no_fov, no_path);
    assert_eq!(gs.run_state, RunState::InventoryScreen);
    gs.advance(None, ItemMenuResult::Cancel, no_fov, no_path);
    assert_eq!(gs.run_state, RunState::AwaitingInput);
    gs.advance(Some(Command::Move { dx: 1, dy: 0 }), ItemMenuResult::NoResponse, no_fov, no_path);
    assert_eq!(gs.run_state, RunState::PlayerTurn);
    assert_eq!(gs.ecs.positions.get(p).copied(), Some(Position { x: 6, y: 5 }));
    gs.advance(None, ItemMenuResult::NoResponse, no_fov, no_path);
    assert_eq!(gs.run_state, RunState::MonsterTurn);
    gs.advance(None, ItemMenuResult::NoResponse, no_fov, no_path);
    assert_eq!(gs.run_state, RunState::AwaitingInput);
    gs.advance(Some(Command::OpenDropMenu), ItemMenuResult::NoResponse, no_fov, no_path);
    assert_eq!(gs.run_state, RunState::DropItemScreen);
    let item = health_potion(&mut gs.ecs, 1, 1);
    gs.advance(None, ItemMenuResult::Selected { item }, no_fov, no_path);
    assert_eq!(gs.run_state, RunState::PlayerTurn);
    assert_eq!(gs.ecs.wants_to_drop.get(p).copied(), Some(WantsToDropItem { item }));
}

#[test]
fn damage_item_of_user_without_stats_still_strikes() {
    let mut w = room_world();
    let user = health_potion(&mut w, 1, 1);
    let scroll = magic_missile_scroll(&mut w, 5, 5);
    let o = orc(&mut w, 7, 7);
    index(&mut w);
    w.wants_to_drink.insert(user, WantsToDrinkPotion { potion: scroll, target: Some(Position { x: 7, y: 7 }) });
    let mut using = ItemUseSystem {};
    let used = using.run(
        w.player,
        &w.map,
        &mut w.log,
        &mut w.wants_to_drink,
        &w.names,
        &w.potions,
        &w.inflicts_damage,
        &mut w.suffer_damage,
        &w.consumables,
        &mut w.combat_stats,
    );
    assert_eq!(w.suffer_damage.get(o).unwrap().amount, vec![8]);
    assert_eq!(used, vec![scroll]);
    assert!(w.log.entries.is_empty());
}

#[test]
fn tick_sweeps_the_dead_before_the_turn() {
    let mut w = room_world();
    let p = player(&mut w, 5, 5);
    w.player = Some(p);
    let o = orc(&mut w, 2, 2);
    w.combat_stats.insert(o, CombatStats { max_hp: 16, hp: 0, defense: 1, power: 4 });
    let mut gs = State { ecs: w, run_state: RunState::PlayerTurn };
    gs.tick(None, ItemMenuResult::NoResponse, no_fov, no_path);
    assert!(!gs.ecs.is_alive(o));
    assert_eq!(gs.ecs.log.entries, vec!["Orc is dead".to_string()]);
    assert_eq!(gs.run_state, RunState::MonsterTurn);
}
