use vstd::prelude::*;
use crate::components::{CombatStats, Entity, Item, Position, Viewshed, WantsToDrinkPotion, WantsToDropItem, WantsToMelee, WantsToPickupItem};
use crate::world::Storage;
use crate::systems::{
    blocker_at, damaged_stats, drop_messages, melee_hits_on, melee_messages, monster_turn, occupants,
    pickup_messages, positions_after_drops, positions_after_pickups, backpacks_after_drops,
    backpacks_after_pickups, queued, stats_after_use, use_hits_on, use_messages, used_up, view_updated,
};
use crate::buffer::TileType;
use crate::systems::{DamageSystem, ItemCollectionSystem, ItemUseSystem, LootSystem, MapIndexingSystem, MeleeCombatSystem, MonsterAi, VisibilitySystem};
use crate::gamelog::is_dead_message;
use crate::gamelog::is_dead_text;
use crate::map::TetraMap;
use crate::world::World;

verus! {

/// Where the game loop stands.
#[derive(Clone, Copy, Debug, PartialEq, Eq, Structural)]
pub enum RunState {
    AwaitingInput,
    PreRun,
    PlayerTurn,
    MonsterTurn,
    InventoryScreen,
    DropItemScreen,
}

/// One command of the player, read while the game awaits input.
#[derive(Clone, Copy, Debug, PartialEq, Eq, Structural)]
pub enum Command {
    /// Move (or attack by bumping) by one cell.
    Move { dx: i32, dy: i32 },
    PickUp,
    OpenInventory,
    OpenDropMenu,
    /// A key that means nothing here.
    Unknown,
}

/// What a modal item menu answered this frame.
#[derive(Debug)]
pub enum ItemMenuResult<T> {
    Cancel,
    NoResponse,
    Selected { item: T },
}

/// Whether entity `e` dies in the sweep: it has combat stats with hit points
/// below one and is not the player.
pub open spec fn dies(w: World, e: int) -> bool {
    w.combat_stats@[e] is Some && w.combat_stats@[e]->0.hp < 1 && w.players@[e] is None
}

/// The messages of the sweep over entities `0..i`.
pub open spec fn death_messages(w: World, i: int) -> Seq<Seq<char>>
    decreases i,
{
    if i <= 0 {
        Seq::empty()
    } else {
        let prev = death_messages(w, i - 1);
        if w.combat_stats@[i - 1] is Some && w.combat_stats@[i - 1]->0.hp < 1 {
            if w.players@[i - 1] is Some {
                prev.push("You are dead"@)
            } else if w.names@[i - 1] is Some {
                prev.push(is_dead_text(w.names@[i - 1]->0.name@))
            } else {
                prev
            }
        } else {
            prev
        }
    }
}

/// Removes the dead: every entity whose hit points fell below one is
/// deleted with a message naming it, except the player, for whom "You are
/// dead" is logged instead.
pub fn delete_the_dead(ecs: &mut World)
    requires
        old(ecs).wf(),
    ensures
        final(ecs).wf(),
        final(ecs).n() == old(ecs).n(),
        final(ecs).map == old(ecs).map,
        final(ecs).player == old(ecs).player,
        final(ecs).log.view() == old(ecs).log.view() + death_messages(*old(ecs), old(ecs).n() as int),
        forall|e: int| 0 <= e < old(ecs).n() && dies(*old(ecs), e) ==> #[trigger] final(ecs).removed(e),
        forall|e: int|
            0 <= e < old(ecs).n() && !dies(*old(ecs), e) ==> #[trigger] final(ecs).same_entity(&*old(ecs), e),
{
    let ghost w0 = *ecs;
    let n = ecs.alive.len();
    let mut i: usize = 0;
    while i < n
        invariant
            i <= n,
            n == w0.n(),
            ecs.wf(),
            w0.wf(),
            *ecs == (World { log: ecs.log, ..w0 }),
            ecs.log.view() == w0.log.view() + death_messages(w0, i as int),
        decreases n - i,
    {
        let entity = Entity { id: i };
        if let Some(stats) = ecs.combat_stats.get(entity) {
            if stats.hp < 1 {
                if ecs.players.contains(entity) {
                    proof {
                        reveal_strlit("You are dead");
                    }
                    ecs.log.say(String::from_str("You are dead"));
                } else {
                    if let Some(victim_name) = ecs.names.get(entity) {
                        let msg = is_dead_message(&victim_name.name);
                        ecs.log.say(msg);
                    }
                }
            }
        }
        proof {
            assert(ecs.log.view() =~= w0.log.view() + death_messages(w0, i + 1));
        }
        i += 1;
    }
    let ghost logged = ecs.log;
    let mut k: usize = 0;
    while k < n
        invariant
            k <= n,
            ecs.wf(),
            ecs.n() == n,
            n == w0.n(),
            w0.wf(),
            ecs.map == w0.map,
            ecs.player == w0.player,
            ecs.log == logged,
            forall|e: int| 0 <= e < k && dies(w0, e) ==> #[trigger] ecs.removed(e),
            forall|e: int| 0 <= e < k && !dies(w0, e) ==> #[trigger] ecs.same_entity(&w0, e),
            forall|e: int| k <= e < n ==> #[trigger] ecs.same_entity(&w0, e),
        decreases n - k,
    {
        let ghost prev = *ecs;
        let victim = Entity { id: k };
        let doomed = match ecs.combat_stats.get(victim) {
            Some(stats) => stats.hp < 1 && !ecs.players.contains(victim),
            None => false,
        };
        proof {
            assert(prev.same_entity(&w0, k as int));
            assert(doomed == dies(w0, k as int));
        }
        if doomed {
            ecs.delete_entity(victim);
        }
        proof {
            assert forall|e: int| 0 <= e < n && e != k implies #[trigger] ecs.same_entity(&prev, e) by {
            }
            assert forall|e: int| 0 <= e < k + 1 && dies(w0, e) implies #[trigger] ecs.removed(e) by {
                if e < k {
                    assert(ecs.same_entity(&prev, e));
                    assert(prev.removed(e));
                }
            }
            assert forall|e: int| 0 <= e < k + 1 && !dies(w0, e) implies #[trigger] ecs.same_entity(&w0, e) by {
                assert(ecs.same_entity(&prev, e));
                if e < k {
                    assert(prev.same_entity(&w0, e));
                }
            }
            assert forall|e: int| k + 1 <= e < n implies #[trigger] ecs.same_entity(&w0, e) by {
                assert(ecs.same_entity(&prev, e));
                assert(prev.same_entity(&w0, e));
            }
        }
        k += 1;
    }
}

/// The first entity of `list` that has combat stats.
pub open spec fn first_fighter(list: Seq<Entity>, stats: Seq<Option<CombatStats>>) -> Option<Entity>
    decreases list.len(),
{
    if list.len() == 0 {
        None
    } else if (list[0].id as int) < stats.len() && stats[list[0].id as int] is Some {
        Some(list[0])
    } else {
        first_fighter(list.drop_first(), stats)
    }
}

/// `v` held to `[0, m]`.
pub open spec fn clamp_to(m: int, v: int) -> int {
    if v < 0 {
        if m < 0 { m } else { 0 }
    } else if v > m {
        m
    } else {
        v
    }
}

/// The entity the player controls, when it has a position and a viewshed.
pub open spec fn mover(w: World) -> Option<Entity> {
    match w.player {
        Some(p) => if (p.id as int) < w.n() && w.players@[p.id as int] is Some && w.positions@[p.id as int] is Some
            && w.viewsheds@[p.id as int] is Some {
            Some(p)
        } else {
            None
        },
        None => None,
    }
}

/// The entity with combat stats that the player bumps into by moving by
/// `(dx, dy)`: the first one listed on the destination cell.
pub open spec fn bump_target(w: World, p: Entity, dx: int, dy: int) -> Option<Entity> {
    let pos = w.positions@[p.id as int]->0;
    let tx = pos.x + dx;
    let ty = pos.y + dy;
    if w.map.in_bounds(tx, ty) {
        first_fighter(w.map.entities.cell(tx, ty)@, w.combat_stats@)
    } else {
        None
    }
}

fn find_fighter(list: &Vec<Entity>, stats: &Storage<CombatStats>) -> (r: Option<Entity>)
    ensures
        r == first_fighter(list@, stats@),
{
    let mut i: usize = 0;
    proof {
        assert(list@.subrange(0, list@.len() as int) =~= list@);
    }
    while i < list.len()
        invariant
            i <= list@.len(),
            first_fighter(list@, stats@) == first_fighter(list@.subrange(i as int, list@.len() as int), stats@),
        decreases list@.len() - i,
    {
        let ghost rest = list@.subrange(i as int, list@.len() as int);
        proof {
            assert(rest[0] == list@[i as int]);
            assert(rest.drop_first() =~= list@.subrange(i as int + 1, list@.len() as int));
        }
        if stats.contains(list[i]) {
            return Some(list[i]);
        }
        i += 1;
    }
    proof {
        assert(list@.subrange(i as int, list@.len() as int).len() == 0);
    }
    None
}

/// `after` is `w` after the player tried to move by `(dx, dy)` (see
/// [`try_move_player`]).
pub open spec fn bumped(w: World, after: World, dx: int, dy: int) -> bool {
    match mover(w) {
        None => after == w,
        Some(p) => {
            let pos = w.positions@[p.id as int]->0;
            let nx = clamp_to(w.map.spec_width() - 1, pos.x + dx);
            let ny = clamp_to(w.map.spec_height() - 1, pos.y + dy);
            match bump_target(w, p, dx, dy) {
                Some(t) => {
                    &&& after == (World { wants_to_melee: after.wants_to_melee, ..w })
                    &&& after.wants_to_melee@ == w.wants_to_melee@.update(p.id as int, Some(WantsToMelee { target: t }))
                },
                None => if w.map.in_bounds(nx, ny) && !w.map.nav_buffer.cell(nx, ny) {
                    &&& after == (World { positions: after.positions, viewsheds: after.viewsheds, ..w })
                    &&& after.positions@ == w.positions@.update(p.id as int, Some(Position { x: nx as i32, y: ny as i32 }))
                    &&& after.viewsheds@ == w.viewsheds@.update(
                        p.id as int,
                        Some(Viewshed { dirty: true, ..w.viewsheds@[p.id as int]->0 }),
                    )
                } else {
                    after == w
                },
            }
        },
    }
}

/// `after` is `w` after the player asked to pick up what lies on its cell
/// (see [`get_item`]).
pub open spec fn pickup_requested(w: World, after: World) -> bool {
    match w.player {
        Some(p) if (p.id as int) < w.n() && w.positions@[p.id as int] is Some => {
            let pp = w.positions@[p.id as int]->0;
            match item_at(w.items@, w.positions@, pp.x as int, pp.y as int, w.n() as int) {
                Some(item) => {
                    &&& after == (World { wants_to_pickup: after.wants_to_pickup, ..w })
                    &&& after.wants_to_pickup@ == w.wants_to_pickup@.update(
                        p.id as int,
                        Some(WantsToPickupItem { collected_by: p, item }),
                    )
                },
                None => {
                    &&& after == (World { log: after.log, ..w })
                    &&& after.log.view() == w.log.view().push("There is nothing here to pickup."@)
                },
            }
        },
        _ => after == w,
    }
}

/// Moves the player by `(delta_x, delta_y)`, or attacks by bumping: when
/// the destination holds an entity with combat stats, the player wants to
/// attack the first such one and does not move. Otherwise the destination,
/// held to the map, is entered unless it is blocked, and the player's view
/// is marked dirty.
pub fn try_move_player(delta_x: i32, delta_y: i32, ecs: &mut World)
    requires
        old(ecs).wf(),
    ensures
        final(ecs).wf(),
        bumped(*old(ecs), *final(ecs), delta_x as int, delta_y as int),
{
    let ent = match ecs.player {
        Some(p) => p,
        None => {
            return;
        },
    };
    if !(ecs.players.contains(ent) && ecs.viewsheds.contains(ent)) {
        return;
    }
    let pos: Position = match ecs.positions.get(ent) {
        Some(p) => *p,
        None => {
            return;
        },
    };
    let w = ecs.map.width();
    let h = ecs.map.height();
    let tx: i64 = pos.x as i64 + delta_x as i64;
    let ty: i64 = pos.y as i64 + delta_y as i64;
    if 0 <= tx && tx < w as i64 && 0 <= ty && ty < h as i64 {
        let here = ecs.map.entities.get(tx as i32, ty as i32);
        if let Some(target) = find_fighter(here, &ecs.combat_stats) {
            ecs.wants_to_melee.insert(ent, WantsToMelee { target });
            return;
        }
    }
    let nx: i64 = if tx < 0 { if (w as i64) - 1 < 0 { (w as i64) - 1 } else { 0 } } else if tx > (w as i64) - 1 { (w as i64) - 1 } else { tx };
    let ny: i64 = if ty < 0 { if (h as i64) - 1 < 0 { (h as i64) - 1 } else { 0 } } else if ty > (h as i64) - 1 { (h as i64) - 1 } else { ty };
    if 0 <= nx && nx < w as i64 && 0 <= ny && ny < h as i64 {
        if !ecs.map.is_blocked(nx as i32, ny as i32) {
            ecs.positions.insert(ent, Position { x: nx as i32, y: ny as i32 });
            if let Some(mut vs) = ecs.viewsheds.remove(ent) {
                vs.dirty = true;
                ecs.viewsheds.insert(ent, vs);
            }
            proof {
                let w = *old(ecs);
                assert(mover(w) == Some(ent));
                assert(bump_target(w, ent, delta_x as int, delta_y as int) is None);
                assert(*ecs == (World { positions: ecs.positions, viewsheds: ecs.viewsheds, ..w }));
                let pos0 = w.positions@[ent.id as int]->0;
                assert(pos0 == pos);
                let cnx = clamp_to(w.map.spec_width() - 1, pos0.x + delta_x);
                let cny = clamp_to(w.map.spec_height() - 1, pos0.y + delta_y);
                assert(cnx == nx);
                assert(cny == ny);
                assert(w.map.in_bounds(cnx, cny));
                assert(!w.map.nav_buffer.cell(cnx, cny));
                assert(ecs.positions@ == w.positions@.update(ent.id as int, Some(Position { x: cnx as i32, y: cny as i32 })));
                assert(ecs.viewsheds@ == w.viewsheds@.update(ent.id as int, Some(Viewshed { dirty: true, ..w.viewsheds@[ent.id as int]->0 })));
                assert(bumped(w, *ecs, delta_x as int, delta_y as int));
            }
        }
    }
}

/// The last entity among `0..i` that is an item lying on `(x, y)`.
pub open spec fn item_at(items: Seq<Option<Item>>, pos: Seq<Option<Position>>, x: int, y: int, i: int) -> Option<Entity>
    decreases i,
{
    if i <= 0 {
        None
    } else if items[i - 1] is Some && pos[i - 1] is Some && pos[i - 1]->0.x == x && pos[i - 1]->0.y == y {
        Some(Entity { id: (i - 1) as usize })
    } else {
        item_at(items, pos, x, y, i - 1)
    }
}

/// The player asks to pick up an item lying on its cell (the one with the
/// highest id, if there are several); with none there, a message says so.
pub fn get_item(ecs: &mut World)
    requires
        old(ecs).wf(),
    ensures
        final(ecs).wf(),
        pickup_requested(*old(ecs), *final(ecs)),
{
    let player = match ecs.player {
        Some(p) => p,
        None => {
            return;
        },
    };
    let p_pos: Position = match ecs.positions.get(player) {
        Some(p) => *p,
        None => {
            return;
        },
    };
    let n = ecs.alive.len();
    let mut target_item: Option<Entity> = None;
    let mut i: usize = 0;
    while i < n
        invariant
            i <= n,
            n == ecs.n(),
            ecs.wf(),
            ecs == old(ecs),
            target_item == item_at(ecs.items@, ecs.positions@, p_pos.x as int, p_pos.y as int, i as int),
        decreases n - i,
    {
        let e = Entity { id: i };
        if ecs.items.contains(e) {
            if let Some(position) = ecs.positions.get(e) {
                if position.x == p_pos.x && position.y == p_pos.y {
                    target_item = Some(e);
                }
            }
        }
        i += 1;
    }
    match target_item {
        None => {
            proof {
                reveal_strlit("There is nothing here to pickup.");
            }
            ecs.log.say(String::from_str("There is nothing here to pickup."));
        },
        Some(item) => {
            ecs.wants_to_pickup.insert(player, WantsToPickupItem { collected_by: player, item });
        },
    }
}


/// The item-use pass took `w` to `a`, using up `used` (see
/// [`ItemUseSystem::run`]).
pub open spec fn item_use_pass(w: World, a: World, used: Seq<Entity>) -> bool {
    let n = w.n() as int;
    &&& a == (World {
        log: a.log,
        wants_to_drink: a.wants_to_drink,
        suffer_damage: a.suffer_damage,
        combat_stats: a.combat_stats,
        ..w
    })
    &&& a.combat_stats@.len() == n
    &&& forall|e: int|
        0 <= e < n ==> #[trigger] a.combat_stats@[e] == stats_after_use(w.wants_to_drink@, w.potions@, w.combat_stats@, e)
    &&& a.suffer_damage@.len() == n
    &&& forall|t: int|
        0 <= t < n ==> #[trigger] queued(a.suffer_damage@, t) == queued(w.suffer_damage@, t) + use_hits_on(
            w.map,
            w.wants_to_drink@,
            w.inflicts_damage@,
            w.combat_stats@,
            t,
            n,
        )
    &&& forall|t: int|
        0 <= t < n ==> (#[trigger] a.suffer_damage@[t] is Some) == (w.suffer_damage@[t] is Some || use_hits_on(
            w.map,
            w.wants_to_drink@,
            w.inflicts_damage@,
            w.combat_stats@,
            t,
            n,
        ).len() > 0)
    &&& a.log.view() == w.log.view() + use_messages(
        w.map,
        w.player,
        w.wants_to_drink@,
        w.names@,
        w.potions@,
        w.inflicts_damage@,
        w.combat_stats@,
        n,
    )
    &&& used == used_up(w.map, w.wants_to_drink@, w.potions@, w.inflicts_damage@, w.consumables@, w.combat_stats@, n)
    &&& a.wants_to_drink@.len() == n
    &&& forall|e: int| 0 <= e < n ==> (#[trigger] a.wants_to_drink@[e]) is None
}

/// The monster AI pass took `w` to `a` (see [`MonsterAi::run`]).
pub open spec fn ai_pass<P: Fn(&TetraMap, usize, usize) -> Option<Vec<usize>>>(
    w: World,
    a: World,
    run_state: RunState,
    path: P,
) -> bool {
    let n = w.n() as int;
    &&& a == (World { viewsheds: a.viewsheds, positions: a.positions, wants_to_melee: a.wants_to_melee, ..w })
    &&& a.viewsheds@.len() == n
    &&& a.positions@.len() == n
    &&& a.wants_to_melee@.len() == n
    &&& forall|e: int|
        0 <= e < n ==> monster_turn(
            w.map,
            path,
            w.player,
            run_state,
            w.positions@,
            w.monsters@[e],
            w.positions@[e],
            w.viewsheds@[e],
            w.wants_to_melee@[e],
            #[trigger] a.positions@[e],
            a.viewsheds@[e],
            a.wants_to_melee@[e],
        )
}

/// The map indexing pass took `w` to `a` (see [`MapIndexingSystem::run`]).
pub open spec fn indexing_pass(w: World, a: World) -> bool {
    let n = w.n() as int;
    &&& a == (World { map: a.map, ..w })
    &&& a.map.wf()
    &&& a.map.buffer == w.map.buffer
    &&& a.map.rooms == w.map.rooms
    &&& forall|x: int, y: int|
        #![trigger a.map.nav_buffer.cell(x, y)]
        a.map.in_bounds(x, y) ==> a.map.nav_buffer.cell(x, y) == (a.map.buffer.cell(x, y) == TileType::Wall
            || blocker_at(w.positions@, w.blocks_tile@, x, y, n))
    &&& forall|x: int, y: int|
        #![trigger a.map.entities.cell(x, y)]
        a.map.in_bounds(x, y) ==> a.map.entities.cell(x, y)@ == occupants(w.positions@, x, y, n)
}

/// The drop pass took `w` to `a` (see [`LootSystem::run`]).
pub open spec fn drop_pass(w: World, a: World) -> bool {
    let n = w.n() as int;
    &&& a == (World {
        log: a.log,
        wants_to_drop: a.wants_to_drop,
        positions: a.positions,
        in_backpack: a.in_backpack,
        ..w
    })
    &&& a.positions@ == positions_after_drops(w.wants_to_drop@, w.positions@, n)
    &&& a.in_backpack@ == backpacks_after_drops(w.wants_to_drop@, w.in_backpack@, n)
    &&& a.log.view() == w.log.view() + drop_messages(w.wants_to_drop@, w.names@, w.player, n)
    &&& a.wants_to_drop@.len() == n
    &&& forall|e: int| 0 <= e < n ==> (#[trigger] a.wants_to_drop@[e]) is None
}

/// The pickup pass took `w` to `a` (see [`ItemCollectionSystem::run`]).
pub open spec fn pickup_pass(w: World, a: World) -> bool {
    let n = w.n() as int;
    &&& a == (World {
        log: a.log,
        wants_to_pickup: a.wants_to_pickup,
        positions: a.positions,
        in_backpack: a.in_backpack,
        ..w
    })
    &&& a.positions@ == positions_after_pickups(w.wants_to_pickup@, w.positions@, n)
    &&& a.in_backpack@ == backpacks_after_pickups(w.wants_to_pickup@, w.in_backpack@, n)
    &&& a.log.view() == w.log.view() + pickup_messages(w.wants_to_pickup@, w.names@, w.player, n)
    &&& a.wants_to_pickup@.len() == n
    &&& forall|e: int| 0 <= e < n ==> (#[trigger] a.wants_to_pickup@[e]) is None
}

/// The visibility pass took `w` to `a` (see [`VisibilitySystem::run`]).
pub open spec fn visibility_pass<F: Fn(&TetraMap, Position, i32) -> Vec<(i32, i32)>>(w: World, a: World, fov: F) -> bool {
    let n = w.n() as int;
    &&& a == (World { viewsheds: a.viewsheds, players: a.players, ..w })
    &&& a.viewsheds@.len() == n
    &&& a.players@.len() == n
    &&& forall|e: int|
        0 <= e < n ==> view_updated(
            w.map,
            fov,
            w.positions@[e],
            w.viewsheds@[e],
            #[trigger] a.viewsheds@[e],
            w.players@[e],
            a.players@[e],
        )
}

/// The melee pass took `w` to `a` (see [`MeleeCombatSystem::run`]).
pub open spec fn melee_pass(w: World, a: World) -> bool {
    let n = w.n() as int;
    &&& a == (World { log: a.log, wants_to_melee: a.wants_to_melee, suffer_damage: a.suffer_damage, ..w })
    &&& a.wants_to_melee@.len() == n
    &&& forall|e: int| 0 <= e < n ==> (#[trigger] a.wants_to_melee@[e]) is None
    &&& a.log.view() == w.log.view() + melee_messages(w.wants_to_melee@, w.names@, w.combat_stats@, n)
    &&& a.suffer_damage@.len() == n
    &&& forall|t: int|
        0 <= t < n ==> #[trigger] queued(a.suffer_damage@, t) == queued(w.suffer_damage@, t) + melee_hits_on(
            w.wants_to_melee@,
            w.names@,
            w.combat_stats@,
            t,
            n,
        )
    &&& forall|t: int|
        0 <= t < n ==> (#[trigger] a.suffer_damage@[t] is Some) == (w.suffer_damage@[t] is Some || melee_hits_on(
            w.wants_to_melee@,
            w.names@,
            w.combat_stats@,
            t,
            n,
        ).len() > 0)
}

/// The damage pass took `w` to `a` (see [`DamageSystem::run`]).
pub open spec fn damage_pass(w: World, a: World) -> bool {
    let n = w.n() as int;
    &&& a == (World { combat_stats: a.combat_stats, suffer_damage: a.suffer_damage, ..w })
    &&& a.combat_stats@.len() == n
    &&& forall|e: int|
        0 <= e < n ==> #[trigger] a.combat_stats@[e] == damaged_stats(w.combat_stats@, w.suffer_damage@, e)
    &&& a.suffer_damage@.len() == n
    &&& forall|e: int| 0 <= e < n ==> (#[trigger] a.suffer_damage@[e]) is None
}

/// The used-up items were deleted from `w`, giving `a`.
pub open spec fn cleanup_pass(w: World, a: World, used: Seq<Entity>) -> bool {
    &&& a.wf()
    &&& a.n() == w.n()
    &&& a.map == w.map
    &&& a.log == w.log
    &&& a.player == w.player
    &&& forall|e: int| 0 <= e < w.n() && used.contains(Entity { id: e as usize }) ==> #[trigger] a.removed(e)
    &&& forall|e: int|
        0 <= e < w.n() && !used.contains(Entity { id: e as usize }) ==> #[trigger] a.same_entity(&w, e)
}

/// One whole turn took `w` to `a`: the passes ran in their fixed order.
pub open spec fn turn_ran<F, P>(w: World, a: World, run_state: RunState, fov: F, path: P) -> bool where
    F: Fn(&TetraMap, Position, i32) -> Vec<(i32, i32)>,
    P: Fn(&TetraMap, usize, usize) -> Option<Vec<usize>>,
 {
    exists|
        w1: World,
        used: Seq<Entity>,
        w2: World,
        w3: World,
        w4: World,
        w5: World,
        w6: World,
        w7: World,
        w8: World,
    |
        #![trigger item_use_pass(w, w1, used), ai_pass(w1, w2, run_state, path), indexing_pass(w2, w3), drop_pass(w3, w4), pickup_pass(w4, w5), visibility_pass(w5, w6, fov), melee_pass(w6, w7), damage_pass(w7, w8)]
        {
            &&& item_use_pass(w, w1, used)
            &&& ai_pass(w1, w2, run_state, path)
            &&& indexing_pass(w2, w3)
            &&& drop_pass(w3, w4)
            &&& pickup_pass(w4, w5)
            &&& visibility_pass(w5, w6, fov)
            &&& melee_pass(w6, w7)
            &&& damage_pass(w7, w8)
            &&& cleanup_pass(w8, a, used)
        }
}

/// Melee never changes hit points: it only queues damage, which the damage
/// pass alone takes off; the passes between leave hit points alone too.
pub proof fn lemma_only_damage_pass_lowers_hp(w6: World, w7: World, w8: World)
    requires
        melee_pass(w6, w7),
        damage_pass(w7, w8),
    ensures
        w7.combat_stats == w6.combat_stats,
        forall|e: int|
            0 <= e < w6.n() ==> #[trigger] w8.combat_stats@[e] == damaged_stats(w6.combat_stats@, w7.suffer_damage@, e),
{
}

/// Entity `e` holds no intent and no queued damage.
pub open spec fn cleared(w: World, e: int) -> bool {
    &&& w.wants_to_melee@[e] is None
    &&& w.wants_to_pickup@[e] is None
    &&& w.wants_to_drop@[e] is None
    &&& w.wants_to_drink@[e] is None
    &&& w.suffer_damage@[e] is None
}

/// One step of the game loop took the world `w` in state `state` to `a`
/// in state `next` (see [`State::advance`]).
pub open spec fn stepped<F, P>(
    w: World,
    state: RunState,
    a: World,
    next: RunState,
    key: Option<Command>,
    menu: ItemMenuResult<Entity>,
    fov: F,
    path: P,
) -> bool where
    F: Fn(&TetraMap, Position, i32) -> Vec<(i32, i32)>,
    P: Fn(&TetraMap, usize, usize) -> Option<Vec<usize>>,
 {
    &&& next == next_state(state, key, menu)
    &&& (state == RunState::PreRun || state == RunState::PlayerTurn || state == RunState::MonsterTurn)
        ==> turn_ran(w, a, state, fov, path)
    &&& state == RunState::InventoryScreen ==> match (menu, w.player) {
        (ItemMenuResult::Selected { item }, Some(p)) => (p.id as int) < w.n() ==> a == (World {
            wants_to_drink: a.wants_to_drink,
            ..w
        }) && a.wants_to_drink@ == w.wants_to_drink@.update(
            p.id as int,
            Some(WantsToDrinkPotion { potion: item, target: None }),
        ),
        _ => a == w,
    }
    &&& state == RunState::DropItemScreen ==> match (menu, w.player) {
        (ItemMenuResult::Selected { item }, Some(p)) => (p.id as int) < w.n() ==> a == (World {
            wants_to_drop: a.wants_to_drop,
            ..w
        }) && a.wants_to_drop@ == w.wants_to_drop@.update(p.id as int, Some(WantsToDropItem { item })),
        _ => a == w,
    }
    &&& state == RunState::AwaitingInput ==> match key {
        Some(Command::Move { dx, dy }) => bumped(w, a, dx as int, dy as int),
        Some(Command::PickUp) => pickup_requested(w, a),
        _ => a == w,
    }
}

/// The death sweep took `w` to `a` (see [`delete_the_dead`]).
pub open spec fn swept(w: World, a: World) -> bool {
    &&& a.wf()
    &&& a.n() == w.n()
    &&& a.map == w.map
    &&& a.player == w.player
    &&& a.log.view() == w.log.view() + death_messages(w, w.n() as int)
    &&& forall|e: int| 0 <= e < w.n() && dies(w, e) ==> #[trigger] a.removed(e)
    &&& forall|e: int| 0 <= e < w.n() && !dies(w, e) ==> #[trigger] a.same_entity(&w, e)
}

/// The running game: the world and where the game loop stands.
pub struct State {
    pub ecs: World,
    pub run_state: RunState,
}

impl State {
    /// Runs every pass of a turn, in this fixed order: item use, monster AI
    /// (which acts only in the monsters' turn), map indexing, drops,
    /// pickups, visibility, melee and damage; the items used up are then
    /// deleted. `fov` computes a field of view and `path` searches a path.
    /// No intent outlives the turn.
    pub fn run_systems<F, P>(&mut self, fov: F, path: P) where
        F: Fn(&TetraMap, Position, i32) -> Vec<(i32, i32)>,
        P: Fn(&TetraMap, usize, usize) -> Option<Vec<usize>>,

        requires
            old(self).ecs.wf(),
            forall|m: TetraMap, p: Position, r: i32| fov.requires((&m, p, r)),
            forall|m: TetraMap, a: usize, b: usize| path.requires((&m, a, b)),
        ensures
            final(self).ecs.wf(),
            final(self).run_state == old(self).run_state,
            final(self).ecs.n() == old(self).ecs.n(),
            final(self).ecs.player == old(self).ecs.player,
            final(self).ecs.map.buffer == old(self).ecs.map.buffer,
            final(self).ecs.map.rooms == old(self).ecs.map.rooms,
            turn_ran(old(self).ecs, final(self).ecs, old(self).run_state, fov, path),
            forall|e: int| 0 <= e < final(self).ecs.n() ==> #[trigger] cleared(final(self).ecs, e),
    {
        let mut vis = VisibilitySystem {};
        let mut melee = MeleeCombatSystem {};
        let mut damage = DamageSystem {};
        let mut ai = MonsterAi {};
        let mut mis = MapIndexingSystem {};
        let mut loot_system = ItemCollectionSystem {};
        let mut potions = ItemUseSystem {};
        let mut drop_items = LootSystem {};
        let player = self.ecs.player;
        let run_state = self.run_state;
        let ecs = &mut self.ecs;
        let ghost w0 = *ecs;
        let used = potions.run(
            player,
            &ecs.map,
            &mut ecs.log,
            &mut ecs.wants_to_drink,
            &ecs.names,
            &ecs.potions,
            &ecs.inflicts_damage,
            &mut ecs.suffer_damage,
            &ecs.consumables,
            &mut ecs.combat_stats,
        );
        let ghost w1 = *ecs;
        proof {
            assert(item_use_pass(w0, w1, used@));
        }
        ai.run(
            &ecs.map,
            player,
            run_state,
            &mut ecs.viewsheds,
            &ecs.monsters,
            &mut ecs.positions,
            &mut ecs.wants_to_melee,
            path,
        );
        let ghost w2 = *ecs;
        proof {
            assert(ai_pass(w1, w2, run_state, path));
        }
        mis.run(&mut ecs.map, &ecs.positions, &ecs.blocks_tile);
        let ghost w3 = *ecs;
        proof {
            assert(indexing_pass(w2, w3));
        }
        drop_items.run(player, &mut ecs.log, &mut ecs.wants_to_drop, &ecs.names, &mut ecs.positions, &mut ecs.in_backpack);
        let ghost w4 = *ecs;
        proof {
            assert(drop_pass(w3, w4));
        }
        loot_system.run(player, &mut ecs.log, &mut ecs.wants_to_pickup, &mut ecs.positions, &ecs.names, &mut ecs.in_backpack);
        let ghost w5 = *ecs;
        proof {
            assert(pickup_pass(w4, w5));
        }
        vis.run(&ecs.map, &mut ecs.viewsheds, &mut ecs.players, &ecs.positions, fov);
        let ghost w6 = *ecs;
        proof {
            assert(visibility_pass(w5, w6, fov));
        }
        melee.run(&mut ecs.log, &mut ecs.wants_to_melee, &ecs.names, &ecs.combat_stats, &mut ecs.suffer_damage);
        let ghost w7 = *ecs;
        proof {
            assert(melee_pass(w6, w7));
        }
        damage.run(&mut ecs.combat_stats, &mut ecs.suffer_damage);
        let ghost w8 = *ecs;
        proof {
            assert(damage_pass(w7, w8));
        }
        let n = ecs.alive.len();
        let mut k: usize = 0;
        while k < used.len()
            invariant
                k <= used@.len(),
                w8.wf(),
                ecs.wf(),
                ecs.n() == n,
                n == w8.n(),
                ecs.map == w8.map,
                ecs.log == w8.log,
                ecs.player == w8.player,
                forall|e: int| 0 <= e < n && used@.take(k as int).contains(Entity { id: e as usize }) ==> #[trigger] ecs.removed(e),
                forall|e: int|
                    0 <= e < n && !used@.take(k as int).contains(Entity { id: e as usize }) ==> #[trigger] ecs.same_entity(&w8, e),
            decreases used@.len() - k,
        {
            let ghost prev = *ecs;
            let item = used[k];
            if item.id < n {
                ecs.delete_entity(item);
            }
            proof {
                assert(used@.take(k as int + 1) =~= used@.take(k as int).push(item));
                assert forall|e: int| 0 <= e < n && used@.take(k as int + 1).contains(Entity { id: e as usize }) implies #[trigger] ecs.removed(e) by {
                    crate::systems::lemma_push_contains_entity(used@.take(k as int), item, Entity { id: e as usize });
                    if e != item.id {
                        assert(ecs.same_entity(&prev, e));
                        assert(prev.removed(e));
                    }
                }
                assert forall|e: int| 0 <= e < n && !used@.take(k as int + 1).contains(Entity { id: e as usize }) implies #[trigger] ecs.same_entity(&w8, e) by {
                    crate::systems::lemma_push_contains_entity(used@.take(k as int), item, Entity { id: e as usize });
                    assert(ecs.same_entity(&prev, e));
                    assert(prev.same_entity(&w8, e));
                }
            }
            k += 1;
        }
        proof {
            assert(used@.take(used@.len() as int) =~= used@);
            assert(cleanup_pass(w8, *ecs, used@));
            assert(turn_ran(w0, *ecs, run_state, fov, path));
            assert(w8.wants_to_melee == w7.wants_to_melee);
            assert(w8.wants_to_pickup == w5.wants_to_pickup);
            assert(w8.wants_to_drop == w4.wants_to_drop);
            assert(w8.wants_to_drink == w1.wants_to_drink);
            assert forall|e: int| 0 <= e < n implies cleared(*ecs, e) by {
                if used@.contains(Entity { id: e as usize }) {
                    assert(ecs.removed(e));
                } else {
                    assert(ecs.same_entity(&w8, e));
                    assert(w7.wants_to_melee@[e] is None);
                    assert(w5.wants_to_pickup@[e] is None);
                    assert(w4.wants_to_drop@[e] is None);
                    assert(w1.wants_to_drink@[e] is None);
                    assert(w8.suffer_damage@[e] is None);
                }
            }
        }
    }
}

/// The state that the game loop reaches from `state` given this frame's
/// command and menu answer.
pub open spec fn next_state(state: RunState, key: Option<Command>, menu: ItemMenuResult<Entity>) -> RunState {
    match state {
        RunState::PreRun => RunState::AwaitingInput,
        RunState::AwaitingInput => match key {
            None => RunState::AwaitingInput,
            Some(Command::Move { .. }) => RunState::PlayerTurn,
            Some(Command::PickUp) => RunState::PlayerTurn,
            Some(Command::OpenInventory) => RunState::InventoryScreen,
            Some(Command::OpenDropMenu) => RunState::DropItemScreen,
            Some(Command::Unknown) => RunState::AwaitingInput,
        },
        RunState::PlayerTurn => RunState::MonsterTurn,
        RunState::MonsterTurn => RunState::AwaitingInput,
        RunState::InventoryScreen | RunState::DropItemScreen => match menu {
            ItemMenuResult::Cancel => RunState::AwaitingInput,
            ItemMenuResult::NoResponse => state,
            ItemMenuResult::Selected { .. } => RunState::PlayerTurn,
        },
    }
}

/// Carries out one command read while awaiting input, and returns the
/// state to go to: a move or a pickup request takes the player's turn,
/// the menus open their screens, and no key or an unknown one waits on.
pub fn player_input(gs: &mut State, key: Option<Command>) -> (res: RunState)
    requires
        old(gs).ecs.wf(),
    ensures
        final(gs).ecs.wf(),
        final(gs).run_state == old(gs).run_state,
        res == next_state(RunState::AwaitingInput, key, ItemMenuResult::NoResponse),
        match key {
            Some(Command::Move { dx, dy }) => bumped(old(gs).ecs, final(gs).ecs, dx as int, dy as int),
            Some(Command::PickUp) => pickup_requested(old(gs).ecs, final(gs).ecs),
            _ => final(gs).ecs == old(gs).ecs,
        },
{
    match key {
        None => RunState::AwaitingInput,
        Some(Command::Move { dx, dy }) => {
            try_move_player(dx, dy, &mut gs.ecs);
            RunState::PlayerTurn
        },
        Some(Command::PickUp) => {
            get_item(&mut gs.ecs);
            RunState::PlayerTurn
        },
        Some(Command::OpenInventory) => RunState::InventoryScreen,
        Some(Command::OpenDropMenu) => RunState::DropItemScreen,
        Some(Command::Unknown) => RunState::AwaitingInput,
    }
}

impl State {
    /// One frame of the game loop: the dead are swept away first, then the
    /// game loop takes one step (see [`State::advance`]).
    pub fn tick<F, P>(&mut self, key: Option<Command>, menu: ItemMenuResult<Entity>, fov: F, path: P) where
        F: Fn(&TetraMap, Position, i32) -> Vec<(i32, i32)>,
        P: Fn(&TetraMap, usize, usize) -> Option<Vec<usize>>,

        requires
            old(self).ecs.wf(),
            forall|m: TetraMap, p: Position, r: i32| fov.requires((&m, p, r)),
            forall|m: TetraMap, a: usize, b: usize| path.requires((&m, a, b)),
        ensures
            final(self).ecs.wf(),
            final(self).ecs.n() == old(self).ecs.n(),
            final(self).run_state == next_state(old(self).run_state, key, menu),
            exists|s: World|
                #![trigger swept(old(self).ecs, s)]
                swept(old(self).ecs, s) && stepped(
                    s,
                    old(self).run_state,
                    final(self).ecs,
                    final(self).run_state,
                    key,
                    menu,
                    fov,
                    path,
                ),
    {
        delete_the_dead(&mut self.ecs);
        let ghost s = self.ecs;
        self.advance(key, menu, fov, path);
        proof {
            assert(swept(old(self).ecs, s));
        }
    }

    /// One step of the game loop: the whole turn pipeline runs in the
    /// start-up state and in both turns; awaiting input takes one command;
    /// the inventory and drop screens turn a selected item into the
    /// player's intent to use or drop it. Returns nothing; the new state is
    /// in `run_state`.
    pub fn advance<F, P>(&mut self, key: Option<Command>, menu: ItemMenuResult<Entity>, fov: F, path: P) where
        F: Fn(&TetraMap, Position, i32) -> Vec<(i32, i32)>,
        P: Fn(&TetraMap, usize, usize) -> Option<Vec<usize>>,

        requires
            old(self).ecs.wf(),
            forall|m: TetraMap, p: Position, r: i32| fov.requires((&m, p, r)),
            forall|m: TetraMap, a: usize, b: usize| path.requires((&m, a, b)),
        ensures
            final(self).ecs.wf(),
            final(self).ecs.n() == old(self).ecs.n(),
            final(self).run_state == next_state(old(self).run_state, key, menu),
            stepped(old(self).ecs, old(self).run_state, final(self).ecs, final(self).run_state, key, menu, fov, path),
    {
        let state = self.run_state;
        let next = match state {
            RunState::PreRun => {
                self.run_systems(fov, path);
                RunState::AwaitingInput
            },
            RunState::AwaitingInput => player_input(self, key),
            RunState::PlayerTurn => {
                self.run_systems(fov, path);
                RunState::MonsterTurn
            },
            RunState::MonsterTurn => {
                self.run_systems(fov, path);
                RunState::AwaitingInput
            },
            RunState::InventoryScreen => match menu {
                ItemMenuResult::Cancel => RunState::AwaitingInput,
                ItemMenuResult::NoResponse => state,
                ItemMenuResult::Selected { item } => {
                    if let Some(p) = self.ecs.player {
                        if p.id < self.ecs.alive.len() {
                            self.ecs.wants_to_drink.insert(p, WantsToDrinkPotion { potion: item, target: None });
                        }
                    }
                    RunState::PlayerTurn
                },
            },
            RunState::DropItemScreen => match menu {
                ItemMenuResult::Cancel => RunState::AwaitingInput,
                ItemMenuResult::NoResponse => state,
                ItemMenuResult::Selected { item } => {
                    if let Some(p) = self.ecs.player {
                        if p.id < self.ecs.alive.len() {
                            self.ecs.wants_to_drop.insert(p, WantsToDropItem { item });
                        }
                    }
                    RunState::PlayerTurn
                },
            },
        };
        self.run_state = next;
    }
}

/// The entities among `0..i` carried by `owner`, in id order.
pub open spec fn carried_by(packs: Seq<Option<crate::components::InBackpack>>, owner: Entity, i: int) -> Seq<Entity>
    decreases i,
{
    if i <= 0 {
        Seq::empty()
    } else {
        let prev = carried_by(packs, owner, i - 1);
        if packs[i - 1] is Some && packs[i - 1]->0.owner == owner {
            prev.push(Entity { id: (i - 1) as usize })
        } else {
            prev
        }
    }
}

/// The items that `owner` carries, in id order.
pub fn inventory(ecs: &World, owner: Entity) -> (r: Vec<Entity>)
    ensures
        r@ == carried_by(ecs.in_backpack@, owner, ecs.in_backpack@.len() as int),
{
    let n = ecs.in_backpack.len();
    let mut r: Vec<Entity> = Vec::new();
    let mut i: usize = 0;
    while i < n
        invariant
            i <= n,
            n == ecs.in_backpack@.len(),
            r@ == carried_by(ecs.in_backpack@, owner, i as int),
        decreases n - i,
    {
        let e = Entity { id: i };
        if let Some(b) = ecs.in_backpack.get(e) {
            if b.owner == owner {
                r.push(e);
            }
        }
        i += 1;
    }
    r
}

} // verus!
