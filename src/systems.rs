use vstd::prelude::*;
use crate::components::{BlocksTile, Consumable, InflictsDamage, Potion, WantsToDrinkPotion, InBackpack, WantsToDropItem, WantsToPickupItem, CombatStats, Entity, Monster, Name, Player, Position, SufferDamage, Viewshed, WantsToMelee};
use crate::state::RunState;
use crate::map::TetraMap;
use crate::buffer::{TileType, lemma_get_after_set, lemma_index_in_range};
use crate::gamelog::{GameLog, drink_message, drink_text, use_on_message, use_on_text, drop_message, drop_text, picked_up_message, picked_up_text, hit_message, hit_text, unable_to_hurt_message, unable_to_hurt_text};
use crate::world::Storage;

verus! {

/// The damage amounts queued against entity `i`, oldest first (none when it
/// has no accumulator).
pub open spec fn queued(store: Seq<Option<SufferDamage>>, i: int) -> Seq<i32> {
    match store[i] {
        Some(d) => d.amount@,
        None => Seq::empty(),
    }
}

/// `after` is `before` with `amount` queued against entity `victim`.
pub open spec fn damage_queued(
    before: Seq<Option<SufferDamage>>,
    after: Seq<Option<SufferDamage>>,
    victim: int,
    amount: i32,
) -> bool {
    &&& after.len() == before.len()
    &&& after[victim] is Some
    &&& queued(after, victim) == queued(before, victim).push(amount)
    &&& forall|j: int| 0 <= j < before.len() && j != victim ==> #[trigger] after[j] == before[j]
}

impl SufferDamage {
    /// Queues `amount` against `victim`, creating its accumulator if needed.
    pub fn new_damage(store: &mut Storage<SufferDamage>, victim: Entity, amount: i32)
        requires
            victim.id < old(store)@.len(),
        ensures
            damage_queued(old(store)@, final(store)@, victim.id as int, amount),
    {
        match store.remove(victim) {
            Some(mut suffering) => {
                suffering.amount.push(amount);
                store.insert(victim, suffering);
            },
            None => {
                let dmg = SufferDamage { amount: vec![amount] };
                store.insert(victim, dmg);
                proof {
                    assert(dmg.amount@ =~= seq![amount]);
                }
            },
        }
        proof {
            assert(queued(store@, victim.id as int) =~= queued(old(store)@, victim.id as int).push(amount));
        }
    }
}

/// Damage of a blow: attack power less defense, never below zero (and at
/// most `i32::MAX`).
pub open spec fn melee_damage(power: int, defense: int) -> int {
    if power - defense < 0 {
        0
    } else if power - defense > i32::MAX {
        i32::MAX as int
    } else {
        power - defense
    }
}

/// The attack that entity `e` makes this turn, as (target, damage): it wants
/// to hit a target that is still standing (hp above zero), and both have a
/// name and combat stats.
pub open spec fn melee_attack(
    wants: Seq<Option<WantsToMelee>>,
    names: Seq<Option<Name>>,
    stats: Seq<Option<CombatStats>>,
    e: int,
) -> Option<(int, int)> {
    match (wants[e], names[e], stats[e]) {
        (Some(w), Some(_), Some(s)) => {
            let t = w.target.id as int;
            if t < stats.len() && t < names.len() && stats[t] is Some && names[t] is Some && stats[t]->0.hp > 0 {
                Some((t, melee_damage(s.power as int, stats[t]->0.defense as int)))
            } else {
                None
            }
        },
        _ => None,
    }
}

/// The messages logged for the attacks of entities `0..i`.
pub open spec fn melee_messages(
    wants: Seq<Option<WantsToMelee>>,
    names: Seq<Option<Name>>,
    stats: Seq<Option<CombatStats>>,
    i: int,
) -> Seq<Seq<char>>
    decreases i,
{
    if i <= 0 {
        Seq::empty()
    } else {
        let prev = melee_messages(wants, names, stats, i - 1);
        match melee_attack(wants, names, stats, i - 1) {
            Some((t, d)) => {
                let a = names[i - 1]->0.name@;
                let tn = names[t]->0.name@;
                if d == 0 {
                    prev.push(unable_to_hurt_text(a, tn))
                } else {
                    prev.push(hit_text(a, tn, d))
                }
            },
            None => prev,
        }
    }
}

/// The damage dealt to `t` by the attacks of entities `0..i`, in order.
pub open spec fn melee_hits_on(
    wants: Seq<Option<WantsToMelee>>,
    names: Seq<Option<Name>>,
    stats: Seq<Option<CombatStats>>,
    t: int,
    i: int,
) -> Seq<i32>
    decreases i,
{
    if i <= 0 {
        Seq::empty()
    } else {
        let prev = melee_hits_on(wants, names, stats, t, i - 1);
        match melee_attack(wants, names, stats, i - 1) {
            Some((t2, d)) => if t2 == t && d > 0 {
                prev.push(d as i32)
            } else {
                prev
            },
            None => prev,
        }
    }
}

/// Resolves every melee intent.
pub struct MeleeCombatSystem {}

impl MeleeCombatSystem {
    /// Each attacker, in entity order, strikes its target if the target
    /// still stands: a blow of zero is logged as having no effect, any other
    /// is logged and queued against the target. Every melee intent is then
    /// cleared.
    pub fn run(
        &mut self,
        game_log: &mut GameLog,
        want_melee: &mut Storage<WantsToMelee>,
        names: &Storage<Name>,
        combat_stats: &Storage<CombatStats>,
        suffer_damage: &mut Storage<SufferDamage>,
    )
        requires
            old(want_melee)@.len() == names@.len(),
            combat_stats@.len() == names@.len(),
            old(suffer_damage)@.len() == names@.len(),
        ensures
            final(want_melee)@.len() == old(want_melee)@.len(),
            forall|i: int| 0 <= i < final(want_melee)@.len() ==> (#[trigger] final(want_melee)@[i]) is None,
            final(game_log).view() == old(game_log).view() + melee_messages(
                old(want_melee)@,
                names@,
                combat_stats@,
                names@.len() as int,
            ),
            final(suffer_damage)@.len() == old(suffer_damage)@.len(),
            forall|t: int|
                0 <= t < names@.len() ==> #[trigger] queued(final(suffer_damage)@, t) == queued(
                    old(suffer_damage)@,
                    t,
                ) + melee_hits_on(old(want_melee)@, names@, combat_stats@, t, names@.len() as int),
            forall|t: int|
                0 <= t < names@.len() ==> (#[trigger] final(suffer_damage)@[t] is Some) == (
                old(suffer_damage)@[t] is Some || melee_hits_on(
                    old(want_melee)@,
                    names@,
                    combat_stats@,
                    t,
                    names@.len() as int,
                ).len() > 0),
    {
        let ghost wants0 = want_melee@;
        let ghost suffer0 = suffer_damage@;
        let ghost log0 = game_log.view();
        let n = names.len();
        let mut i: usize = 0;
        while i < n
            invariant
                i <= n,
                n == names@.len(),
                want_melee@ == wants0,
                wants0.len() == n,
                combat_stats@.len() == n,
                suffer_damage@.len() == n,
                game_log.view() == log0 + melee_messages(wants0, names@, combat_stats@, i as int),
                forall|t: int|
                    0 <= t < n ==> #[trigger] queued(suffer_damage@, t) == queued(suffer0, t) + melee_hits_on(
                        wants0,
                        names@,
                        combat_stats@,
                        t,
                        i as int,
                    ),
                forall|t: int|
                    0 <= t < n ==> (#[trigger] suffer_damage@[t] is Some) == (suffer0[t] is Some
                        || melee_hits_on(wants0, names@, combat_stats@, t, i as int).len() > 0),
            decreases n - i,
        {
            let ent = Entity { id: i };
            let ghost sd = suffer_damage@;
            let ghost attack = melee_attack(wants0, names@, combat_stats@, i as int);
            match (want_melee.get(ent), names.get(ent), combat_stats.get(ent)) {
                (Some(wm), Some(name), Some(stats)) => {
                    let target = wm.target;
                    match (combat_stats.get(target), names.get(target)) {
                        (Some(target_stats), Some(target_name)) => {
                            if target_stats.hp > 0 {
                                let raw: i64 = stats.power as i64 - target_stats.defense as i64;
                                let damage: i32 = if raw < 0 {
                                    0
                                } else if raw > i32::MAX as i64 {
                                    i32::MAX
                                } else {
                                    raw as i32
                                };
                                if damage == 0 {
                                    game_log.say(unable_to_hurt_message(&name.name, &target_name.name));
                                } else {
                                    game_log.say(hit_message(&name.name, &target_name.name, damage));
                                    SufferDamage::new_damage(suffer_damage, target, damage);
                                }
                            }
                        },
                        _ => {},
                    }
                },
                _ => {},
            }
            proof {
                assert forall|t: int| 0 <= t < n implies #[trigger] queued(suffer_damage@, t) == queued(suffer0, t) + melee_hits_on(
                        wants0,
                        names@,
                        combat_stats@,
                        t,
                        i + 1,
                    ) && (suffer_damage@[t] is Some) == (suffer0[t] is Some
                        || melee_hits_on(wants0, names@, combat_stats@, t, i + 1).len() > 0) by {
                    assert(queued(sd, t) == queued(suffer0, t) + melee_hits_on(wants0, names@, combat_stats@, t, i as int));
                    assert(sd[t] is Some == (suffer0[t] is Some || melee_hits_on(wants0, names@, combat_stats@, t, i as int).len() > 0));
                    match attack {
                        Some((t2, d)) => {
                            if t2 == t && d > 0 {
                                assert(queued(suffer_damage@, t) == queued(sd, t).push(d as i32));
                            } else {
                                assert(suffer_damage@[t] == sd[t]);
                            }
                        },
                        None => {
                            assert(suffer_damage@[t] == sd[t]);
                        },
                    }
                }
            }
            i += 1;
        }
        want_melee.clear();
    }
}

/// `v` held to the range of `i32`.
pub open spec fn clamp_i32(v: int) -> int {
    if v < i32::MIN {
        i32::MIN as int
    } else if v > i32::MAX {
        i32::MAX as int
    } else {
        v
    }
}

/// Hit points left after taking the sum of `amounts` (held to the range of
/// `i32`; nothing else bounds the result, which may go negative).
pub open spec fn hp_after(hp: int, amounts: Seq<i32>) -> int {
    clamp_i32(hp - sum_of(amounts))
}

/// The combat stats of entity `e` after the damage pass.
pub open spec fn damaged_stats(stats: Seq<Option<CombatStats>>, damage: Seq<Option<SufferDamage>>, e: int) -> Option<CombatStats> {
    match (stats[e], damage[e]) {
        (Some(s), Some(d)) => Some(CombatStats { hp: hp_after(s.hp as int, d.amount@) as i32, ..s }),
        _ => stats[e],
    }
}

fn total_hp_after(hp: i32, amounts: &Vec<i32>) -> (r: i32)
    ensures
        r == hp_after(hp as int, amounts@),
{
    let mut total: i128 = 0;
    let mut i: usize = 0;
    proof {
        assert(amounts@.len() == amounts.len());
    }
    while i < amounts.len()
        invariant
            i <= amounts@.len(),
            amounts@.len() <= usize::MAX,
            total == sum_of(amounts@.take(i as int)),
            -(i as int) * 2147483648 <= total <= (i as int) * 2147483648,
        decreases amounts@.len() - i,
    {
        proof {
            assert(amounts@.take(i as int + 1).drop_last() =~= amounts@.take(i as int));
        }
        total = total + amounts[i] as i128;
        i += 1;
    }
    proof {
        assert(amounts@.take(i as int) =~= amounts@);
    }
    let v: i128 = hp as i128 - total;
    if v < i32::MIN as i128 {
        i32::MIN
    } else if v > i32::MAX as i128 {
        i32::MAX
    } else {
        v as i32
    }
}

/// A sum of amounts that are never negative is never negative.
pub proof fn lemma_sum_nonnegative(amounts: Seq<i32>)
    requires
        forall|k: int| 0 <= k < amounts.len() ==> amounts[k] >= 0,
    ensures
        sum_of(amounts) >= 0,
    decreases amounts.len(),
{
    if amounts.len() > 0 {
        lemma_sum_nonnegative(amounts.drop_last());
    }
}

/// Damage that is never negative never raises hit points.
pub proof fn lemma_damage_never_heals(hp: int, amounts: Seq<i32>)
    requires
        i32::MIN <= hp <= i32::MAX,
        forall|k: int| 0 <= k < amounts.len() ==> amounts[k] >= 0,
    ensures
        hp_after(hp, amounts) <= hp,
{
    lemma_sum_nonnegative(amounts);
}

/// The sum of the amounts.
pub open spec fn sum_of(amounts: Seq<i32>) -> int
    decreases amounts.len(),
{
    if amounts.len() == 0 {
        0
    } else {
        sum_of(amounts.drop_last()) + amounts.last()
    }
}

/// While the result fits an `i32`, the damage pass takes off exactly the sum
/// of the queued amounts.
pub proof fn lemma_hp_after_is_difference(hp: int, amounts: Seq<i32>)
    requires
        i32::MIN <= hp - sum_of(amounts) <= i32::MAX,
    ensures
        hp_after(hp, amounts) == hp - sum_of(amounts),
{
}

/// Applies the damage queued this turn.
pub struct DamageSystem {}

impl DamageSystem {
    /// Every entity with combat stats and queued damage loses the queued
    /// amounts from its hit points; every accumulator is then cleared. No
    /// entity is deleted here and hit points are not held at zero.
    pub fn run(&mut self, stats: &mut Storage<CombatStats>, damage: &mut Storage<SufferDamage>)
        requires
            old(stats)@.len() == old(damage)@.len(),
        ensures
            final(stats)@.len() == old(stats)@.len(),
            forall|e: int|
                0 <= e < old(stats)@.len() ==> #[trigger] final(stats)@[e] == damaged_stats(
                    old(stats)@,
                    old(damage)@,
                    e,
                ),
            final(damage)@.len() == old(damage)@.len(),
            forall|e: int| 0 <= e < final(damage)@.len() ==> (#[trigger] final(damage)@[e]) is None,
    {
        let ghost stats0 = stats@;
        let n = stats.len();
        let mut i: usize = 0;
        while i < n
            invariant
                i <= n,
                n == stats0.len(),
                stats@.len() == n,
                damage@.len() == n,
                damage@ == old(damage)@,
                forall|e: int| 0 <= e < i ==> #[trigger] stats@[e] == damaged_stats(stats0, damage@, e),
                forall|e: int| i <= e < n ==> #[trigger] stats@[e] == stats0[e],
            decreases n - i,
        {
            let ent = Entity { id: i };
            if let Some(d) = damage.get(ent) {
                if let Some(s) = stats.get(ent) {
                    let hp = total_hp_after(s.hp, &d.amount);
                    let updated = CombatStats { hp, ..*s };
                    stats.insert(ent, updated);
                }
            }
            i += 1;
        }
        damage.clear();
    }
}

/// The indices of the in-bounds cells among `points`, in order.
pub open spec fn visible_indices(map: TetraMap, points: Seq<(i32, i32)>) -> Seq<usize>
    decreases points.len(),
{
    if points.len() == 0 {
        Seq::empty()
    } else {
        let prev = visible_indices(map, points.drop_last());
        let (x, y) = points.last();
        if map.in_bounds(x as int, y as int) {
            prev.push(map.buffer.idx(x as int, y as int) as usize)
        } else {
            prev
        }
    }
}

/// Every index a viewshed is given names a cell of the map.
pub proof fn lemma_visible_in_bounds(map: TetraMap, points: Seq<(i32, i32)>)
    requires
        map.wf(),
    ensures
        forall|k: int|
            0 <= k < visible_indices(map, points).len() ==> #[trigger] visible_indices(map, points)[k]
                < map.buffer.data@.len(),
    decreases points.len(),
{
    if points.len() > 0 {
        lemma_visible_in_bounds(map, points.drop_last());
        let prev = visible_indices(map, points.drop_last());
        let (x, y) = points.last();
        if map.in_bounds(x as int, y as int) {
            crate::buffer::lemma_index_in_range(map.spec_width(), map.spec_height(), x as int, y as int);
            assert(map.buffer.data@.len() == map.buffer.data.len());
            let all = visible_indices(map, points);
            assert forall|k: int| 0 <= k < all.len() implies #[trigger] all[k] < map.buffer.data@.len() by {
                if k < prev.len() {
                    assert(all[k] == prev[k]);
                }
            }
        }
    }
}

/// Whether `v` holds `x`.
pub fn contains_index(v: &Vec<usize>, x: usize) -> (r: bool)
    ensures
        r == v@.contains(x),
{
    let mut i: usize = 0;
    while i < v.len()
        invariant
            i <= v@.len(),
            forall|j: int| 0 <= j < i ==> v@[j] != x,
        decreases v@.len() - i,
    {
        if v[i] == x {
            return true;
        }
        i += 1;
    }
    false
}

/// What a player has seen after `seen` joins its memory `revealed`.
pub open spec fn fog_after(revealed: Seq<usize>, seen: Seq<usize>) -> Set<usize> {
    revealed.to_set().union(seen.to_set())
}

/// Computes fields of view and the player's fog-of-war memory.
pub struct VisibilitySystem {}

/// How an entity's view and the player's memory are computed.
pub trait FogOfWarAlgorithm {
    /// Sets the visible cells of `viewshed` to the in-bounds cells among
    /// `points` (the field of view computed for it).
    fn generate_viewshed(map: &TetraMap, viewshed: &mut Viewshed, points: &Vec<(i32, i32)>)
        requires
            map.wf(),
        ensures
            final(viewshed).visible_tiles@ == visible_indices(*map, points@),
            final(viewshed).range == old(viewshed).range,
            final(viewshed).dirty == old(viewshed).dirty,
    ;

    /// Adds every cell of the viewshed to the player's memory; nothing is
    /// ever forgotten.
    fn update_fog_of_war(viewshed: &Viewshed, player: &mut Player)
        ensures
            final(player).revealed_tiles@.to_set() == fog_after(old(player).revealed_tiles@, viewshed.visible_tiles@),
            final(player).revealed_tiles@.take(old(player).revealed_tiles@.len() as int) == old(player).revealed_tiles@,
            old(player).revealed_tiles@.len() <= final(player).revealed_tiles@.len(),
    ;
}

impl FogOfWarAlgorithm for VisibilitySystem {
    fn generate_viewshed(map: &TetraMap, viewshed: &mut Viewshed, points: &Vec<(i32, i32)>) {
        let mut tiles: Vec<usize> = Vec::new();
        let mut i: usize = 0;
        while i < points.len()
            invariant
                map.wf(),
                i <= points@.len(),
                tiles@ == visible_indices(*map, points@.take(i as int)),
            decreases points@.len() - i,
        {
            proof {
                assert(points@.take(i as int + 1).drop_last() =~= points@.take(i as int));
            }
            let (x, y) = points[i];
            if x >= 0 && x < map.width() && y >= 0 && y < map.height() {
                tiles.push(map.buffer.xy_idx(x, y));
            }
            i += 1;
        }
        proof {
            assert(points@.take(i as int) =~= points@);
        }
        viewshed.visible_tiles = tiles;
    }

    fn update_fog_of_war(viewshed: &Viewshed, player: &mut Player) {
        let ghost r0 = player.revealed_tiles@;
        let seen = &viewshed.visible_tiles;
        let mut i: usize = 0;
        while i < seen.len()
            invariant
                i <= seen@.len(),
                r0.len() <= player.revealed_tiles@.len(),
                player.revealed_tiles@.take(r0.len() as int) == r0,
                forall|v: usize| #[trigger] player.revealed_tiles@.contains(v) == (r0.contains(v) || seen@.take(i as int).contains(v)),
            decreases seen@.len() - i,
        {
            let ghost before = player.revealed_tiles@;
            let x = seen[i];
            if !contains_index(&player.revealed_tiles, x) {
                player.revealed_tiles.push(x);
                proof {
                    assert(player.revealed_tiles@.take(r0.len() as int) =~= before.take(r0.len() as int));
                }
            }
            proof {
                assert(seen@.take(i as int + 1) =~= seen@.take(i as int).push(x));
                assert forall|v: usize| #[trigger] player.revealed_tiles@.contains(v) == (r0.contains(v) || seen@.take(i as int + 1).contains(v)) by {
                    lemma_push_contains(seen@.take(i as int), x, v);
                    lemma_push_contains(before, x, v);
                }
            }
            i += 1;
        }
        proof {
            assert(seen@.take(i as int) =~= seen@);
            assert(player.revealed_tiles@.to_set() =~= fog_after(r0, seen@));
        }
    }
}

/// What a sequence holds after a push.
pub proof fn lemma_push_contains(s: Seq<usize>, x: usize, v: usize)
    ensures
        s.push(x).contains(v) == (s.contains(v) || v == x),
{
    let t = s.push(x);
    if t.contains(v) && v != x {
        let k = choose|k: int| 0 <= k < t.len() && #[trigger] t[k] == v;
        assert(s[k] == v);
    }
    if s.contains(v) {
        let k = choose|k: int| 0 <= k < s.len() && #[trigger] s[k] == v;
        assert(t[k] == v);
    }
    if v == x {
        assert(t[s.len() as int] == v);
    }
}

impl VisibilitySystem {
    /// Recomputes, with `fov`, the view of every entity with a position
    /// whose viewshed is marked dirty, then clears the mark; the player's
    /// memory takes in what it now sees. Clean viewsheds are left alone.
    pub fn run<F>(
        &mut self,
        map: &TetraMap,
        viewshed: &mut Storage<Viewshed>,
        players: &mut Storage<Player>,
        pos: &Storage<Position>,
        fov: F,
    ) where F: Fn(&TetraMap, Position, i32) -> Vec<(i32, i32)>
        requires
            map.wf(),
            old(viewshed)@.len() == pos@.len(),
            old(players)@.len() == pos@.len(),
            forall|p: Position, r: i32| fov.requires((map, p, r)),
        ensures
            final(viewshed)@.len() == old(viewshed)@.len(),
            final(players)@.len() == old(players)@.len(),
            forall|e: int|
                0 <= e < pos@.len() ==> view_updated(
                    *map,
                    fov,
                    pos@[e],
                    old(viewshed)@[e],
                    #[trigger] final(viewshed)@[e],
                    old(players)@[e],
                    final(players)@[e],
                ),
    {
        let ghost v0 = viewshed@;
        let ghost p0 = players@;
        let n = pos.len();
        let mut i: usize = 0;
        while i < n
            invariant
                map.wf(),
                forall|p: Position, r: i32| fov.requires((map, p, r)),
                i <= n,
                n == pos@.len(),
                viewshed@.len() == n,
                players@.len() == n,
                v0.len() == n,
                p0.len() == n,
                forall|e: int|
                    0 <= e < i ==> view_updated(*map, fov, pos@[e], v0[e], #[trigger] viewshed@[e], p0[e], players@[e]),
                forall|e: int| i <= e < n ==> #[trigger] viewshed@[e] == v0[e] && players@[e] == p0[e],
            decreases n - i,
        {
            let ent = Entity { id: i };
            let ghost vs_before = viewshed@;
            let ghost pl_before = players@;
            if let Some(p) = pos.get(ent) {
                let dirty = match viewshed.get(ent) {
                    Some(v) => v.dirty,
                    None => false,
                };
                if dirty {
                    if let Some(mut v) = viewshed.remove(ent) {
                        let points = fov(map, *p, v.range);
                        <VisibilitySystem as FogOfWarAlgorithm>::generate_viewshed(map, &mut v, &points);
                        if let Some(mut player) = players.remove(ent) {
                            <VisibilitySystem as FogOfWarAlgorithm>::update_fog_of_war(&v, &mut player);
                            players.insert(ent, player);
                        }
                        v.dirty = false;
                        viewshed.insert(ent, v);
                        proof {
                            assert(fov.ensures((map, *p, vs_before[i as int]->0.range), points));
                        }
                    }
                }
            }
            proof {
                assert forall|e: int|
                    0 <= e < i + 1 implies view_updated(*map, fov, pos@[e], v0[e], #[trigger] viewshed@[e], p0[e], players@[e]) by {
                    if e < i {
                        assert(viewshed@[e] == vs_before[e]);
                        assert(players@[e] == pl_before[e]);
                    }
                }
            }
            i += 1;
        }
    }
}

/// How one entity's viewshed (and, for the player, its memory) changes in
/// the visibility pass: only a dirty viewshed of a placed entity is
/// recomputed, from some field of view that `fov` gives for its position
/// and range, and its mark is cleared.
pub open spec fn view_updated<F: Fn(&TetraMap, Position, i32) -> Vec<(i32, i32)>>(
    map: TetraMap,
    fov: F,
    pos: Option<Position>,
    before: Option<Viewshed>,
    after: Option<Viewshed>,
    player_before: Option<Player>,
    player_after: Option<Player>,
) -> bool {
    if pos is Some && before is Some && before->0.dirty {
        let v = before->0;
        &&& after is Some
        &&& !after->0.dirty
        &&& after->0.range == v.range
        &&& exists|points: Vec<(i32, i32)>|
            fov.ensures((&map, pos->0, v.range), points) && after->0.visible_tiles@ == visible_indices(map, points@)
        &&& (player_before is Some <==> player_after is Some)
        &&& player_before is Some ==> {
            &&& player_after->0.revealed_tiles@.to_set() == fog_after(
                player_before->0.revealed_tiles@,
                after->0.visible_tiles@,
            )
            &&& player_after->0.revealed_tiles@.take(player_before->0.revealed_tiles@.len() as int)
                == player_before->0.revealed_tiles@
            &&& player_before->0.revealed_tiles@.len() <= player_after->0.revealed_tiles@.len()
        }
    } else {
        after == before && player_after == player_before
    }
}

/// Whether two cells are within melee reach: at most one step apart in each
/// direction (a Euclidean distance under 1.5).
pub open spec fn in_reach(a: Position, b: Position) -> bool {
    let dx = a.x - b.x;
    let dy = a.y - b.y;
    dx * dx + dy * dy <= 2
}

pub fn within_melee_range(a: Position, b: Position) -> (r: bool)
    ensures
        r == in_reach(a, b),
{
    let dx: i64 = a.x as i64 - b.x as i64;
    let dy: i64 = a.y as i64 - b.y as i64;
    if dx < -1 || dx > 1 || dy < -1 || dy > 1 {
        proof {
            assert(dx * dx >= 4 || dy * dy >= 4) by (nonlinear_arith)
                requires
                    dx < -1 || dx > 1 || dy < -1 || dy > 1,
            ;
            assert(dx * dx >= 0 && dy * dy >= 0) by (nonlinear_arith);
        }
        false
    } else {
        proof {
            assert(dx * dx + dy * dy <= 2) by (nonlinear_arith)
                requires
                    -1 <= dx <= 1,
                    -1 <= dy <= 1,
            ;
        }
        true
    }
}

/// Where a mover steps along a path found for it: the path's second cell,
/// if the path has more than two cells (the last one is the target
/// itself) and that cell is on the map.
pub open spec fn step_along(map: TetraMap, path: Option<Vec<usize>>) -> Option<Position> {
    match path {
        Some(steps) => if steps@.len() > 2 && steps@[1] < map.buffer.data@.len() {
            Some(Position {
                x: (steps@[1] as int % map.spec_width()) as i32,
                y: (steps@[1] as int / map.spec_width()) as i32,
            })
        } else {
            None
        },
        None => None,
    }
}

/// The cell a mover advances to given the path search's answer; `None`
/// (stay put) when no path was found or it is too short.
pub fn next_step(map: &TetraMap, path: &Option<Vec<usize>>) -> (r: Option<Position>)
    requires
        map.wf(),
    ensures
        r == step_along(*map, *path),
        r matches Some(p) ==> map.in_bounds(p.x as int, p.y as int),
{
    match path {
        Some(steps) => {
            if steps.len() > 2 && steps[1] < map.buffer.data.len() {
                let (x, y) = map.xy(steps[1]);
                Some(Position { x, y })
            } else {
                None
            }
        },
        None => None,
    }
}

/// What one monster does in its turn, given the path the search returned
/// for it (`path`, asked only when it sees the player): its new position,
/// whether its view must be recomputed, and whether it attacks.
pub open spec fn chase(map: TetraMap, pos: Position, player_pos: Position, path: Option<Vec<usize>>) -> (Position, bool, bool) {
    let next = step_along(map, path);
    let new_pos = if next is Some { next->0 } else { pos };
    (new_pos, next is Some, in_reach(new_pos, player_pos))
}

/// Moves monsters toward the player and has them attack it.
pub struct MonsterAi {}

impl MonsterAi {
    /// Only in the monsters' turn, and only when the player has a position
    /// on the map: each monster with a viewshed and a position on the map
    /// that sees the player's cell asks `path` for a path to it and moves one
    /// cell along it (marking its view dirty); then any monster within reach
    /// of the player wants to attack it.
    pub fn run<P>(
        &mut self,
        map: &TetraMap,
        player_entity: Option<Entity>,
        run_state: RunState,
        viewshed: &mut Storage<Viewshed>,
        monster: &Storage<Monster>,
        positions: &mut Storage<Position>,
        wants_to_melee: &mut Storage<WantsToMelee>,
        path: P,
    ) where P: Fn(&TetraMap, usize, usize) -> Option<Vec<usize>>
        requires
            map.wf(),
            old(viewshed)@.len() == monster@.len(),
            old(positions)@.len() == monster@.len(),
            old(wants_to_melee)@.len() == monster@.len(),
            forall|a: usize, b: usize| path.requires((map, a, b)),
        ensures
            final(viewshed)@.len() == old(viewshed)@.len(),
            final(positions)@.len() == old(positions)@.len(),
            final(wants_to_melee)@.len() == old(wants_to_melee)@.len(),
            forall|e: int|
                0 <= e < monster@.len() ==> monster_turn(
                    *map,
                    path,
                    player_entity,
                    run_state,
                    old(positions)@,
                    monster@[e],
                    old(positions)@[e],
                    old(viewshed)@[e],
                    old(wants_to_melee)@[e],
                    #[trigger] final(positions)@[e],
                    final(viewshed)@[e],
                    final(wants_to_melee)@[e],
                ),
    {
        let ghost pos0 = positions@;
        let ghost vs0 = viewshed@;
        let ghost wm0 = wants_to_melee@;
        if run_state != RunState::MonsterTurn {
            return;
        }
        let player = match player_entity {
            Some(p) => p,
            None => {
                return;
            },
        };
        let player_pos: Position = match positions.get(player) {
            Some(p) => *p,
            None => {
                return;
            },
        };
        if !(0 <= player_pos.x && player_pos.x < map.width() && 0 <= player_pos.y && player_pos.y < map.height()) {
            return;
        }
        let target_idx = map.buffer.xy_idx(player_pos.x, player_pos.y);
        let n = monster.len();
        let mut i: usize = 0;
        while i < n
            invariant
                map.wf(),
                forall|a: usize, b: usize| path.requires((map, a, b)),
                i <= n,
                n == monster@.len(),
                player_entity == Some(player),
                run_state == RunState::MonsterTurn,
                player.id < pos0.len() && pos0[player.id as int] == Some(player_pos),
                map.in_bounds(player_pos.x as int, player_pos.y as int),
                target_idx == map.buffer.idx(player_pos.x as int, player_pos.y as int),
                positions@.len() == n,
                viewshed@.len() == n,
                wants_to_melee@.len() == n,
                pos0.len() == n,
                vs0.len() == n,
                wm0.len() == n,
                forall|e: int|
                    0 <= e < i ==> monster_turn(
                        *map,
                        path,
                        player_entity,
                        run_state,
                        pos0,
                        monster@[e],
                        pos0[e],
                        vs0[e],
                        wm0[e],
                        #[trigger] positions@[e],
                        viewshed@[e],
                        wants_to_melee@[e],
                    ),
                forall|e: int| i <= e < n ==> #[trigger] positions@[e] == pos0[e],
                forall|e: int| i <= e < n ==> #[trigger] viewshed@[e] == vs0[e],
                forall|e: int| i <= e < n ==> #[trigger] wants_to_melee@[e] == wm0[e],
            decreases n - i,
        {
            let ent = Entity { id: i };
            let ghost p_before = positions@;
            let ghost v_before = viewshed@;
            let ghost w_before = wants_to_melee@;
            if monster.contains(ent) && viewshed.contains(ent) {
                if let Some(p) = positions.get(ent) {
                    let pos = *p;
                    if 0 <= pos.x && pos.x < map.width() && 0 <= pos.y && pos.y < map.height() {
                        if let Some(mut vs) = viewshed.remove(ent) {
                            let mut new_pos = pos;
                            let ghost found: Option<Vec<usize>> = None;
                            if contains_index(&vs.visible_tiles, target_idx) {
                                let from = map.buffer.xy_idx(pos.x, pos.y);
                                let steps = path(map, from, target_idx);
                                proof {
                                    found = steps;
                                }
                                match next_step(map, &steps) {
                                    Some(np) => {
                                        new_pos = np;
                                        vs.dirty = true;
                                    },
                                    None => {},
                                }
                            }
                            viewshed.insert(ent, vs);
                            positions.insert(ent, new_pos);
                            if within_melee_range(new_pos, player_pos) {
                                wants_to_melee.insert(ent, WantsToMelee { target: player });
                            }
                            proof {
                                let v = vs0[i as int]->0;
                                let sees = v.visible_tiles@.contains(target_idx);
                                let from = map.buffer.idx(pos.x as int, pos.y as int) as usize;
                                assert(sees ==> path.ensures((map, from, target_idx), found));
                                assert(!sees ==> found is None);
                                let (np, moved, attacks) = chase(*map, pos, player_pos, found);
                                assert(positions@[i as int] == Some(np));
                                assert(viewshed@[i as int] == Some(Viewshed { dirty: v.dirty || moved, ..v })) by {
                                    assert(vs.visible_tiles == v.visible_tiles);
                                }
                                assert(wants_to_melee@[i as int] == (if attacks { Some(WantsToMelee { target: player }) } else { wm0[i as int] }));
                            }
                        }
                    }
                }
            }
            proof {
                assert forall|e: int|
                    0 <= e < i + 1 implies monster_turn(
                        *map,
                        path,
                        player_entity,
                        run_state,
                        pos0,
                        monster@[e],
                        pos0[e],
                        vs0[e],
                        wm0[e],
                        #[trigger] positions@[e],
                        viewshed@[e],
                        wants_to_melee@[e],
                    ) by {
                    if e < i {
                        assert(positions@[e] == p_before[e]);
                        assert(viewshed@[e] == v_before[e]);
                        assert(wants_to_melee@[e] == w_before[e]);
                    }
                }
                assert forall|e: int| i + 1 <= e < n implies positions@[e] == pos0[e] && viewshed@[e] == vs0[e]
                        && wants_to_melee@[e] == wm0[e] by {
                    assert(positions@[e] == p_before[e]);
                    assert(viewshed@[e] == v_before[e]);
                    assert(wants_to_melee@[e] == w_before[e]);
                    assert(p_before[e] == pos0[e]);
                    assert(v_before[e] == vs0[e]);
                    assert(w_before[e] == wm0[e]);
                }
            }
            i += 1;
        }
    }
}

/// One monster's part of the AI pass (see [`MonsterAi::run`]): `path` is
/// asked only when the monster sees the player's cell; otherwise the search
/// counts as having found nothing.
pub open spec fn monster_turn<P: Fn(&TetraMap, usize, usize) -> Option<Vec<usize>>>(
    map: TetraMap,
    path: P,
    player_entity: Option<Entity>,
    run_state: RunState,
    positions: Seq<Option<Position>>,
    monster: Option<Monster>,
    pos_before: Option<Position>,
    vs_before: Option<Viewshed>,
    melee_before: Option<WantsToMelee>,
    pos_after: Option<Position>,
    vs_after: Option<Viewshed>,
    melee_after: Option<WantsToMelee>,
) -> bool {
    let acts = run_state == RunState::MonsterTurn && player_entity is Some
        && player_entity->0.id < positions.len() && positions[player_entity->0.id as int] is Some
        && map.in_bounds(positions[player_entity->0.id as int]->0.x as int, positions[player_entity->0.id as int]->0.y as int)
        && monster is Some && vs_before is Some && pos_before is Some
        && map.in_bounds(pos_before->0.x as int, pos_before->0.y as int);
    if acts {
        let player = player_entity->0;
        let pp = positions[player.id as int]->0;
        let p = pos_before->0;
        let v = vs_before->0;
        let target = map.buffer.idx(pp.x as int, pp.y as int) as usize;
        let from = map.buffer.idx(p.x as int, p.y as int) as usize;
        exists|found: Option<Vec<usize>>|
            #![trigger chase(map, p, pp, found)]
        {
            &&& (if v.visible_tiles@.contains(target) {
                path.ensures((&map, from, target), found)
            } else {
                found is None
            })
            &&& {
                let (np, moved, attacks) = chase(map, p, pp, found);
                &&& pos_after == Some(np)
                &&& vs_after == Some(Viewshed { dirty: v.dirty || moved, ..v })
                &&& melee_after == (if attacks { Some(WantsToMelee { target: player }) } else { melee_before })
            }
        }
    } else {
        pos_after == pos_before && vs_after == vs_before && melee_after == melee_before
    }
}

/// The entities standing on `(x, y)` among `0..i`, in id order.
pub open spec fn occupants(pos: Seq<Option<Position>>, x: int, y: int, i: int) -> Seq<Entity>
    decreases i,
{
    if i <= 0 {
        Seq::empty()
    } else {
        let prev = occupants(pos, x, y, i - 1);
        if pos[i - 1] is Some && pos[i - 1]->0.x == x && pos[i - 1]->0.y == y {
            prev.push(Entity { id: (i - 1) as usize })
        } else {
            prev
        }
    }
}

/// Whether one of the entities `0..i` that block stands on `(x, y)`.
pub open spec fn blocker_at(pos: Seq<Option<Position>>, blocks: Seq<Option<BlocksTile>>, x: int, y: int, i: int) -> bool {
    exists|e: int|
        0 <= e < i && #[trigger] pos[e] is Some && pos[e]->0.x == x && pos[e]->0.y == y && blocks[e] is Some
}

fn pushed(v: &Vec<Entity>, e: Entity) -> (r: Vec<Entity>)
    ensures
        r@ == v@.push(e),
{
    let mut c: Vec<Entity> = Vec::new();
    let mut i: usize = 0;
    while i < v.len()
        invariant
            i <= v@.len(),
            c@ == v@.take(i as int),
        decreases v@.len() - i,
    {
        c.push(v[i]);
        proof {
            assert(c@ =~= v@.take(i as int + 1));
        }
        i += 1;
    }
    c.push(e);
    proof {
        assert(v@.take(v@.len() as int) =~= v@);
    }
    c
}

/// Rebuilds the map's per-turn indexes.
pub struct MapIndexingSystem {}

impl MapIndexingSystem {
    /// Derives the blocking grid afresh from the tiles, marks the cells of
    /// entities that block, and lists on each cell the entities standing on
    /// it (in id order), dropping every list of the turn before.
    pub fn run(&mut self, map: &mut TetraMap, pos: &Storage<Position>, tile: &Storage<BlocksTile>)
        requires
            old(map).wf(),
            tile@.len() == pos@.len(),
        ensures
            final(map).wf(),
            final(map).buffer == old(map).buffer,
            final(map).rooms == old(map).rooms,
            forall|x: int, y: int|
                #![trigger final(map).nav_buffer.cell(x, y)]
                final(map).in_bounds(x, y) ==> final(map).nav_buffer.cell(x, y) == (final(map).buffer.cell(x, y)
                    == TileType::Wall || blocker_at(pos@, tile@, x, y, pos@.len() as int)),
            forall|x: int, y: int|
                #![trigger final(map).entities.cell(x, y)]
                final(map).in_bounds(x, y) ==> final(map).entities.cell(x, y)@ == occupants(pos@, x, y, pos@.len() as int),
    {
        map.gen_nav_buffer();
        map.clear_entities();
        proof {
            assert forall|x: int, y: int|
                #![trigger map.nav_buffer.cell(x, y)]
                map.in_bounds(x, y) implies map.nav_buffer.cell(x, y) == (map.buffer.cell(x, y) == TileType::Wall) by {
                lemma_index_in_range(map.spec_width(), map.spec_height(), x, y);
            }
            assert forall|x: int, y: int|
                #![trigger map.entities.cell(x, y)]
                map.in_bounds(x, y) implies map.entities.cell(x, y)@ == occupants(pos@, x, y, 0) by {
                lemma_index_in_range(map.spec_width(), map.spec_height(), x, y);
                assert(map.entities.cell(x, y)@ =~= Seq::<Entity>::empty());
            }
        }
        let n = pos.len();
        let mut i: usize = 0;
        while i < n
            invariant
                i <= n,
                n == pos@.len(),
                tile@.len() == n,
                map.wf(),
                map.buffer == old(map).buffer,
                map.rooms == old(map).rooms,
                forall|x: int, y: int|
                    #![trigger map.nav_buffer.cell(x, y)]
                    map.in_bounds(x, y) ==> map.nav_buffer.cell(x, y) == (map.buffer.cell(x, y) == TileType::Wall
                        || blocker_at(pos@, tile@, x, y, i as int)),
                forall|x: int, y: int|
                    #![trigger map.entities.cell(x, y)]
                    map.in_bounds(x, y) ==> map.entities.cell(x, y)@ == occupants(pos@, x, y, i as int),
            decreases n - i,
        {
            let ent = Entity { id: i };
            let ghost nav0 = map.nav_buffer;
            let ghost ents0 = map.entities;
            if let Some(p) = pos.get(ent) {
                let (x, y) = (p.x, p.y);
                if 0 <= x && x < map.width() && 0 <= y && y < map.height() {
                    if tile.contains(ent) {
                        map.nav_buffer.set(x, y, true);
                        proof {
                            lemma_get_after_set(nav0, map.nav_buffer, x as int, y as int, true);
                        }
                    }
                    let cur = map.entities.get(x, y);
                    let next = pushed(cur, ent);
                    let ghost ents1 = map.entities;
                    map.entities.set(x, y, next);
                    proof {
                        lemma_get_after_set(ents1, map.entities, x as int, y as int, next);
                    }
                }
            }
            proof {
                assert forall|x: int, y: int|
                    #![trigger map.nav_buffer.cell(x, y)]
                    map.in_bounds(x, y) implies map.nav_buffer.cell(x, y) == (map.buffer.cell(x, y) == TileType::Wall
                        || blocker_at(pos@, tile@, x, y, i + 1)) by {
                    if blocker_at(pos@, tile@, x, y, i + 1) && !blocker_at(pos@, tile@, x, y, i as int) {
                        let e = choose|e: int|
                            0 <= e < i + 1 && #[trigger] pos@[e] is Some && pos@[e]->0.x == x && pos@[e]->0.y == y && tile@[e] is Some;
                        assert(e == i);
                    }
                    if blocker_at(pos@, tile@, x, y, i as int) {
                        let e = choose|e: int|
                            0 <= e < i && #[trigger] pos@[e] is Some && pos@[e]->0.x == x && pos@[e]->0.y == y && tile@[e] is Some;
                        assert(0 <= e < i + 1);
                    }
                }
            }
            i += 1;
        }
    }
}

/// The pickup intent of entity `e`, if it names an item in the store.
pub open spec fn pickup_of(pickups: Seq<Option<WantsToPickupItem>>, e: int) -> Option<WantsToPickupItem> {
    if pickups[e] is Some && (pickups[e]->0.item.id as int) < pickups.len() {
        pickups[e]
    } else {
        None
    }
}

/// Positions after the pickups of entities `0..i`: each picked item
/// leaves the grid.
pub open spec fn positions_after_pickups(
    pickups: Seq<Option<WantsToPickupItem>>,
    pos: Seq<Option<Position>>,
    i: int,
) -> Seq<Option<Position>>
    decreases i,
{
    if i <= 0 {
        pos
    } else {
        let prev = positions_after_pickups(pickups, pos, i - 1);
        match pickup_of(pickups, i - 1) {
            Some(p) => prev.update(p.item.id as int, None),
            None => prev,
        }
    }
}

/// Backpack records after the pickups of entities `0..i`: each picked item
/// is carried by its collector.
pub open spec fn backpacks_after_pickups(
    pickups: Seq<Option<WantsToPickupItem>>,
    packs: Seq<Option<InBackpack>>,
    i: int,
) -> Seq<Option<InBackpack>>
    decreases i,
{
    if i <= 0 {
        packs
    } else {
        let prev = backpacks_after_pickups(pickups, packs, i - 1);
        match pickup_of(pickups, i - 1) {
            Some(p) => prev.update(p.item.id as int, Some(InBackpack { owner: p.collected_by })),
            None => prev,
        }
    }
}

/// The messages of the pickups of entities `0..i`: one for each item the
/// player picks up (that has a name).
pub open spec fn pickup_messages(
    pickups: Seq<Option<WantsToPickupItem>>,
    names: Seq<Option<Name>>,
    player: Option<Entity>,
    i: int,
) -> Seq<Seq<char>>
    decreases i,
{
    if i <= 0 {
        Seq::empty()
    } else {
        let prev = pickup_messages(pickups, names, player, i - 1);
        match pickup_of(pickups, i - 1) {
            Some(p) => if player == Some(p.collected_by) && names[p.item.id as int] is Some {
                prev.push(picked_up_text(names[p.item.id as int]->0.name@))
            } else {
                prev
            },
            None => prev,
        }
    }
}

/// Moves picked-up items into backpacks.
pub struct ItemCollectionSystem {}

impl ItemCollectionSystem {
    /// For each pickup intent in entity order, the item loses its position
    /// and is recorded as carried by the collector; a message is logged when
    /// the collector is the player. Every pickup intent is then cleared.
    pub fn run(
        &mut self,
        player: Option<Entity>,
        game_log: &mut GameLog,
        pickup_items: &mut Storage<WantsToPickupItem>,
        positions: &mut Storage<Position>,
        names: &Storage<Name>,
        backpacks: &mut Storage<InBackpack>,
    )
        requires
            old(pickup_items)@.len() == names@.len(),
            old(positions)@.len() == names@.len(),
            old(backpacks)@.len() == names@.len(),
        ensures
            final(positions)@ == positions_after_pickups(old(pickup_items)@, old(positions)@, names@.len() as int),
            final(positions)@.len() == old(positions)@.len(),
            final(backpacks)@.len() == old(backpacks)@.len(),
            final(backpacks)@ == backpacks_after_pickups(old(pickup_items)@, old(backpacks)@, names@.len() as int),
            final(game_log).view() == old(game_log).view() + pickup_messages(
                old(pickup_items)@,
                names@,
                player,
                names@.len() as int,
            ),
            final(pickup_items)@.len() == old(pickup_items)@.len(),
            forall|i: int| 0 <= i < final(pickup_items)@.len() ==> (#[trigger] final(pickup_items)@[i]) is None,
    {
        let ghost pk0 = pickup_items@;
        let ghost log0 = game_log.view();
        let n = names.len();
        let mut i: usize = 0;
        while i < n
            invariant
                i <= n,
                n == names@.len(),
                pickup_items@ == pk0,
                pk0.len() == n,
                positions@ == positions_after_pickups(pk0, old(positions)@, i as int),
                backpacks@ == backpacks_after_pickups(pk0, old(backpacks)@, i as int),
                positions@.len() == n,
                backpacks@.len() == n,
                game_log.view() == log0 + pickup_messages(pk0, names@, player, i as int),
            decreases n - i,
        {
            if let Some(pickup) = pickup_items.get(Entity { id: i }) {
                let item = pickup.item;
                if item.id < n {
                    positions.remove(item);
                    backpacks.insert(item, InBackpack { owner: pickup.collected_by });
                    if player == Some(pickup.collected_by) {
                        if let Some(name) = names.get(item) {
                            game_log.say(picked_up_message(&name.name));
                        }
                    }
                }
            }
            proof {
                assert(game_log.view() =~= log0 + pickup_messages(pk0, names@, player, i + 1));
            }
            i += 1;
        }
        pickup_items.clear();
    }
}

/// The drop intent of entity `e`, if it names an item in the store.
pub open spec fn drop_of(drops: Seq<Option<WantsToDropItem>>, e: int) -> Option<WantsToDropItem> {
    if drops[e] is Some && (drops[e]->0.item.id as int) < drops.len() {
        drops[e]
    } else {
        None
    }
}

/// Positions after the drops of entities `0..i`: each dropped item is put
/// on its dropper's cell (the origin when the dropper has no position).
pub open spec fn positions_after_drops(
    drops: Seq<Option<WantsToDropItem>>,
    pos: Seq<Option<Position>>,
    i: int,
) -> Seq<Option<Position>>
    decreases i,
{
    if i <= 0 {
        pos
    } else {
        let prev = positions_after_drops(drops, pos, i - 1);
        match drop_of(drops, i - 1) {
            Some(d) => prev.update(
                d.item.id as int,
                Some(if prev[i - 1] is Some { prev[i - 1]->0 } else { Position { x: 0, y: 0 } }),
            ),
            None => prev,
        }
    }
}

/// Backpack records after the drops of entities `0..i`: each dropped item
/// is no longer carried.
pub open spec fn backpacks_after_drops(
    drops: Seq<Option<WantsToDropItem>>,
    packs: Seq<Option<InBackpack>>,
    i: int,
) -> Seq<Option<InBackpack>>
    decreases i,
{
    if i <= 0 {
        packs
    } else {
        let prev = backpacks_after_drops(drops, packs, i - 1);
        match drop_of(drops, i - 1) {
            Some(d) => prev.update(d.item.id as int, None),
            None => prev,
        }
    }
}

/// The messages of the drops of entities `0..i`: one for each item the
/// player drops (that has a name).
pub open spec fn drop_messages(
    drops: Seq<Option<WantsToDropItem>>,
    names: Seq<Option<Name>>,
    player: Option<Entity>,
    i: int,
) -> Seq<Seq<char>>
    decreases i,
{
    if i <= 0 {
        Seq::empty()
    } else {
        let prev = drop_messages(drops, names, player, i - 1);
        match drop_of(drops, i - 1) {
            Some(d) => if player == Some(Entity { id: (i - 1) as usize }) && names[d.item.id as int] is Some {
                prev.push(drop_text(names[d.item.id as int]->0.name@))
            } else {
                prev
            },
            None => prev,
        }
    }
}

/// Puts dropped items back on the grid.
pub struct LootSystem {}

impl LootSystem {
    /// For each drop intent in entity order, the item takes the dropper's
    /// position and is no longer carried; a message is logged when the
    /// dropper is the player. Every drop intent is then cleared.
    pub fn run(
        &mut self,
        player: Option<Entity>,
        gamelog: &mut GameLog,
        drops: &mut Storage<WantsToDropItem>,
        names: &Storage<Name>,
        positions: &mut Storage<Position>,
        backpacks: &mut Storage<InBackpack>,
    )
        requires
            old(drops)@.len() == names@.len(),
            old(positions)@.len() == names@.len(),
            old(backpacks)@.len() == names@.len(),
        ensures
            final(positions)@ == positions_after_drops(old(drops)@, old(positions)@, names@.len() as int),
            final(positions)@.len() == old(positions)@.len(),
            final(backpacks)@.len() == old(backpacks)@.len(),
            final(backpacks)@ == backpacks_after_drops(old(drops)@, old(backpacks)@, names@.len() as int),
            final(gamelog).view() == old(gamelog).view() + drop_messages(
                old(drops)@,
                names@,
                player,
                names@.len() as int,
            ),
            final(drops)@.len() == old(drops)@.len(),
            forall|i: int| 0 <= i < final(drops)@.len() ==> (#[trigger] final(drops)@[i]) is None,
    {
        let ghost d0 = drops@;
        let ghost log0 = gamelog.view();
        let n = names.len();
        let mut i: usize = 0;
        while i < n
            invariant
                i <= n,
                n == names@.len(),
                drops@ == d0,
                d0.len() == n,
                positions@ == positions_after_drops(d0, old(positions)@, i as int),
                backpacks@ == backpacks_after_drops(d0, old(backpacks)@, i as int),
                positions@.len() == n,
                backpacks@.len() == n,
                gamelog.view() == log0 + drop_messages(d0, names@, player, i as int),
            decreases n - i,
        {
            let entity = Entity { id: i };
            if let Some(d) = drops.get(entity) {
                let item = d.item;
                if item.id < n {
                    let dropper_pos = match positions.get(entity) {
                        Some(p) => *p,
                        None => Position { x: 0, y: 0 },
                    };
                    positions.insert(item, dropper_pos);
                    backpacks.remove(item);
                    if player == Some(entity) {
                        if let Some(name) = names.get(item) {
                            gamelog.say(drop_message(&name.name));
                        }
                    }
                }
            }
            proof {
                assert(gamelog.view() =~= log0 + drop_messages(d0, names@, player, i + 1));
            }
            i += 1;
        }
        drops.clear();
    }
}

/// The use intent of entity `e`, when it names an item in the store.
pub open spec fn use_of(
    intents: Seq<Option<WantsToDrinkPotion>>,
    stats: Seq<Option<CombatStats>>,
    e: int,
) -> Option<WantsToDrinkPotion> {
    if intents[e] is Some && (intents[e]->0.potion.id as int) < intents.len() {
        intents[e]
    } else {
        None
    }
}

/// Hit points after healing by `heal`: never above `max_hp`.
pub open spec fn healed_hp(hp: int, max_hp: int, heal: int) -> int {
    let raised = clamp_i32(hp + heal);
    if max_hp < raised {
        max_hp
    } else {
        raised
    }
}

/// The combat stats of user `e` after the item-use pass: a healing item
/// raises its hit points.
pub open spec fn stats_after_use(
    intents: Seq<Option<WantsToDrinkPotion>>,
    potions: Seq<Option<Potion>>,
    stats: Seq<Option<CombatStats>>,
    e: int,
) -> Option<CombatStats> {
    match use_of(intents, stats, e) {
        Some(u) => match (potions[u.potion.id as int], stats[e]) {
            (Some(p), Some(s)) => {
                Some(CombatStats { hp: healed_hp(s.hp as int, s.max_hp as int, p.heal_amount as int) as i32, ..s })
            },
            _ => stats[e],
        },
        None => stats[e],
    }
}

/// The entities of `list` that are in a store of `n` entities.
pub open spec fn valid_mobs(list: Seq<Entity>, n: int) -> Seq<Entity>
    decreases list.len(),
{
    if list.len() == 0 {
        Seq::empty()
    } else {
        let prev = valid_mobs(list.drop_last(), n);
        if (list.last().id as int) < n {
            prev.push(list.last())
        } else {
            prev
        }
    }
}

/// The strike made by user `e`: the entities on its target cell and the
/// damage each takes, when its item deals damage and the target cell is on
/// the map.
pub open spec fn strike_of(
    map: TetraMap,
    intents: Seq<Option<WantsToDrinkPotion>>,
    inflicts: Seq<Option<InflictsDamage>>,
    stats: Seq<Option<CombatStats>>,
    e: int,
) -> Option<(Seq<Entity>, i32)> {
    match use_of(intents, stats, e) {
        Some(u) => if inflicts[u.potion.id as int] is Some && u.target is Some && map.in_bounds(
            u.target->0.x as int,
            u.target->0.y as int,
        ) {
            Some(
                (
                    valid_mobs(map.entities.cell(u.target->0.x as int, u.target->0.y as int)@, intents.len() as int),
                    inflicts[u.potion.id as int]->0.damage,
                ),
            )
        } else {
            None
        },
        None => None,
    }
}

/// The amount `d` once for each time `t` appears in `mobs`.
pub open spec fn hits_in(mobs: Seq<Entity>, t: int, d: i32) -> Seq<i32>
    decreases mobs.len(),
{
    if mobs.len() == 0 {
        Seq::empty()
    } else {
        let prev = hits_in(mobs.drop_last(), t, d);
        if mobs.last().id as int == t {
            prev.push(d)
        } else {
            prev
        }
    }
}

/// The damage that the item uses of users `0..i` queue against `t`.
pub open spec fn use_hits_on(
    map: TetraMap,
    intents: Seq<Option<WantsToDrinkPotion>>,
    inflicts: Seq<Option<InflictsDamage>>,
    stats: Seq<Option<CombatStats>>,
    t: int,
    i: int,
) -> Seq<i32>
    decreases i,
{
    if i <= 0 {
        Seq::empty()
    } else {
        let prev = use_hits_on(map, intents, inflicts, stats, t, i - 1);
        match strike_of(map, intents, inflicts, stats, i - 1) {
            Some((mobs, d)) => prev + hits_in(mobs, t, d),
            None => prev,
        }
    }
}

/// One message for each named entity of `mobs`, naming the item.
pub open spec fn strike_messages(mobs: Seq<Entity>, names: Seq<Option<Name>>, item: Seq<char>, d: i32) -> Seq<Seq<char>>
    decreases mobs.len(),
{
    if mobs.len() == 0 {
        Seq::empty()
    } else {
        let prev = strike_messages(mobs.drop_last(), names, item, d);
        let m = mobs.last().id as int;
        if m < names.len() && names[m] is Some {
            prev.push(use_on_text(item, names[m]->0.name@, d as int))
        } else {
            prev
        }
    }
}

/// The messages of user `e`'s item use: only the player's uses of named
/// items are told.
pub open spec fn use_messages_of(
    map: TetraMap,
    player: Option<Entity>,
    intents: Seq<Option<WantsToDrinkPotion>>,
    names: Seq<Option<Name>>,
    potions: Seq<Option<Potion>>,
    inflicts: Seq<Option<InflictsDamage>>,
    stats: Seq<Option<CombatStats>>,
    e: int,
) -> Seq<Seq<char>> {
    match use_of(intents, stats, e) {
        Some(u) => {
            let item = u.potion.id as int;
            if player == Some(Entity { id: e as usize }) && names[item] is Some {
                let item_name = names[item]->0.name@;
                let heal_msgs = if potions[item] is Some && stats[e] is Some {
                    seq![drink_text(item_name, potions[item]->0.heal_amount as int)]
                } else {
                    Seq::empty()
                };
                let strike_msgs = match strike_of(map, intents, inflicts, stats, e) {
                    Some((mobs, d)) => strike_messages(mobs, names, item_name, d),
                    None => Seq::empty(),
                };
                heal_msgs + strike_msgs
            } else {
                Seq::empty()
            }
        },
        None => Seq::empty(),
    }
}

/// The messages of the item uses of users `0..i`.
pub open spec fn use_messages(
    map: TetraMap,
    player: Option<Entity>,
    intents: Seq<Option<WantsToDrinkPotion>>,
    names: Seq<Option<Name>>,
    potions: Seq<Option<Potion>>,
    inflicts: Seq<Option<InflictsDamage>>,
    stats: Seq<Option<CombatStats>>,
    i: int,
) -> Seq<Seq<char>>
    decreases i,
{
    if i <= 0 {
        Seq::empty()
    } else {
        use_messages(map, player, intents, names, potions, inflicts, stats, i - 1) + use_messages_of(
            map,
            player,
            intents,
            names,
            potions,
            inflicts,
            stats,
            i - 1,
        )
    }
}

/// The items used up by users `0..i`: a consumable whose use had an effect
/// (it healed, or it struck at least one entity).
pub open spec fn used_up(
    map: TetraMap,
    intents: Seq<Option<WantsToDrinkPotion>>,
    potions: Seq<Option<Potion>>,
    inflicts: Seq<Option<InflictsDamage>>,
    consumables: Seq<Option<Consumable>>,
    stats: Seq<Option<CombatStats>>,
    i: int,
) -> Seq<Entity>
    decreases i,
{
    if i <= 0 {
        Seq::empty()
    } else {
        let prev = used_up(map, intents, potions, inflicts, consumables, stats, i - 1);
        match use_of(intents, stats, i - 1) {
            Some(u) => {
                let item = u.potion.id as int;
                let effect = (potions[item] is Some && stats[i - 1] is Some) || (strike_of(map, intents, inflicts, stats, i - 1) matches Some(
                    (mobs, _),
                ) && mobs.len() > 0);
                if effect && consumables[item] is Some {
                    prev.push(u.potion)
                } else {
                    prev
                }
            },
            None => prev,
        }
    }
}

/// Queues `damage` against every entity of `mobs` that is in the store and,
/// when `tell` holds, logs a message naming `item_name` for each named one.
/// Returns whether any entity was struck.
fn strike_cell(
    tell: bool,
    item_name: &String,
    mobs: &Vec<Entity>,
    damage: i32,
    names: &Storage<Name>,
    suffer: &mut Storage<SufferDamage>,
    log: &mut GameLog,
) -> (hit: bool)
    requires
        old(suffer)@.len() == names@.len(),
    ensures
        hit == (valid_mobs(mobs@, names@.len() as int).len() > 0),
        final(suffer)@.len() == old(suffer)@.len(),
        forall|t: int|
            0 <= t < names@.len() ==> #[trigger] queued(final(suffer)@, t) == queued(old(suffer)@, t) + hits_in(
                valid_mobs(mobs@, names@.len() as int),
                t,
                damage,
            ),
        forall|t: int|
            0 <= t < names@.len() ==> (#[trigger] final(suffer)@[t] is Some) == (old(suffer)@[t] is Some
                || hits_in(valid_mobs(mobs@, names@.len() as int), t, damage).len() > 0),
        final(log).view() == old(log).view() + (if tell {
            strike_messages(valid_mobs(mobs@, names@.len() as int), names@, item_name@, damage)
        } else {
            Seq::empty()
        }),
{
    let ghost s0 = suffer@;
    let ghost l0 = log.view();
    let n = names.len();
    let mut hit = false;
    let mut j: usize = 0;
    while j < mobs.len()
        invariant
            j <= mobs@.len(),
            n == names@.len(),
            suffer@.len() == n,
            s0.len() == n,
            hit == (valid_mobs(mobs@.take(j as int), n as int).len() > 0),
            forall|t: int|
                0 <= t < n ==> #[trigger] queued(suffer@, t) == queued(s0, t) + hits_in(
                    valid_mobs(mobs@.take(j as int), n as int),
                    t,
                    damage,
                ),
            forall|t: int|
                0 <= t < n ==> (#[trigger] suffer@[t] is Some) == (s0[t] is Some || hits_in(
                    valid_mobs(mobs@.take(j as int), n as int),
                    t,
                    damage,
                ).len() > 0),
            log.view() == l0 + (if tell {
                strike_messages(valid_mobs(mobs@.take(j as int), n as int), names@, item_name@, damage)
            } else {
                Seq::empty()
            }),
        decreases mobs@.len() - j,
    {
        let ghost sd = suffer@;
        let mob = mobs[j];
        proof {
            assert(mobs@.take(j as int + 1).drop_last() =~= mobs@.take(j as int));
            assert(mobs@.take(j as int + 1).last() == mob);
        }
        if mob.id < n {
            SufferDamage::new_damage(suffer, mob, damage);
            hit = true;
            if tell {
                if let Some(mob_name) = names.get(mob) {
                    log.say(use_on_message(item_name, &mob_name.name, damage));
                }
            }
            proof {
                let vm = valid_mobs(mobs@.take(j as int + 1), n as int);
                assert(vm == valid_mobs(mobs@.take(j as int), n as int).push(mob));
                assert(vm.drop_last() == valid_mobs(mobs@.take(j as int), n as int));
                assert forall|t: int| 0 <= t < n implies #[trigger] queued(suffer@, t) == queued(s0, t) + hits_in(
                    vm,
                    t,
                    damage,
                ) && (suffer@[t] is Some) == (s0[t] is Some || hits_in(vm, t, damage).len() > 0) by {
                    let pv = valid_mobs(mobs@.take(j as int), n as int);
                    assert(queued(sd, t) == queued(s0, t) + hits_in(pv, t, damage));
                    assert((sd[t] is Some) == (s0[t] is Some || hits_in(pv, t, damage).len() > 0));
                    assert(vm.last() == mob);
                    if t == mob.id {
                        assert(hits_in(vm, t, damage) == hits_in(pv, t, damage).push(damage));
                        assert(queued(s0, t) + hits_in(vm, t, damage) =~= queued(sd, t).push(damage));
                    } else {
                        assert(hits_in(vm, t, damage) == hits_in(pv, t, damage));
                        assert(suffer@[t] == sd[t]);
                    }
                }
                assert(log.view() =~= l0 + (if tell {
                    strike_messages(vm, names@, item_name@, damage)
                } else {
                    Seq::empty()
                }));
            }
        }
        j += 1;
    }
    proof {
        assert(mobs@.take(mobs@.len() as int) =~= mobs@);
    }
    hit
}

/// Resolves item-use intents.
pub struct ItemUseSystem {}

impl ItemUseSystem {
    /// For each user (in entity order) with an intent to use an item: a
    /// healing item raises the user's hit points up to its maximum (when it
    /// has combat stats); an item that deals damage queues it against every entity on the
    /// target cell. The player's uses are logged. Every use intent is then
    /// cleared, and the consumable items whose use had an effect are
    /// returned, to be deleted at the end of the turn.
    pub fn run(
        &mut self,
        player: Option<Entity>,
        map: &TetraMap,
        gamelog: &mut GameLog,
        use_intents: &mut Storage<WantsToDrinkPotion>,
        names: &Storage<Name>,
        potions: &Storage<Potion>,
        inflict_damage: &Storage<InflictsDamage>,
        suffer_damage: &mut Storage<SufferDamage>,
        consumables: &Storage<Consumable>,
        combat_stats: &mut Storage<CombatStats>,
    ) -> (used: Vec<Entity>)
        requires
            map.wf(),
            old(use_intents)@.len() == names@.len(),
            potions@.len() == names@.len(),
            inflict_damage@.len() == names@.len(),
            old(suffer_damage)@.len() == names@.len(),
            consumables@.len() == names@.len(),
            old(combat_stats)@.len() == names@.len(),
        ensures
            final(combat_stats)@.len() == old(combat_stats)@.len(),
            forall|e: int|
                0 <= e < names@.len() ==> #[trigger] final(combat_stats)@[e] == stats_after_use(
                    old(use_intents)@,
                    potions@,
                    old(combat_stats)@,
                    e,
                ),
            final(suffer_damage)@.len() == old(suffer_damage)@.len(),
            forall|t: int|
                0 <= t < names@.len() ==> #[trigger] queued(final(suffer_damage)@, t) == queued(
                    old(suffer_damage)@,
                    t,
                ) + use_hits_on(*map, old(use_intents)@, inflict_damage@, old(combat_stats)@, t, names@.len() as int),
            forall|t: int|
                0 <= t < names@.len() ==> (#[trigger] final(suffer_damage)@[t] is Some) == (
                old(suffer_damage)@[t] is Some || use_hits_on(
                    *map,
                    old(use_intents)@,
                    inflict_damage@,
                    old(combat_stats)@,
                    t,
                    names@.len() as int,
                ).len() > 0),
            final(gamelog).view() == old(gamelog).view() + use_messages(
                *map,
                player,
                old(use_intents)@,
                names@,
                potions@,
                inflict_damage@,
                old(combat_stats)@,
                names@.len() as int,
            ),
            used@ == used_up(
                *map,
                old(use_intents)@,
                potions@,
                inflict_damage@,
                consumables@,
                old(combat_stats)@,
                names@.len() as int,
            ),
            final(use_intents)@.len() == old(use_intents)@.len(),
            forall|i: int| 0 <= i < final(use_intents)@.len() ==> (#[trigger] final(use_intents)@[i]) is None,
    {
        let ghost in0 = use_intents@;
        let ghost st0 = combat_stats@;
        let ghost sd0 = suffer_damage@;
        let ghost log0 = gamelog.view();
        let n = names.len();
        let mut used: Vec<Entity> = Vec::new();
        let mut i: usize = 0;
        while i < n
            invariant
                map.wf(),
                i <= n,
                n == names@.len(),
                use_intents@ == in0,
                in0.len() == n,
                potions@.len() == n,
                inflict_damage@.len() == n,
                consumables@.len() == n,
                st0.len() == n,
                combat_stats@.len() == n,
                suffer_damage@.len() == n,
                forall|e: int| 0 <= e < i ==> #[trigger] combat_stats@[e] == stats_after_use(in0, potions@, st0, e),
                forall|e: int| i <= e < n ==> #[trigger] combat_stats@[e] == st0[e],
                forall|t: int|
                    0 <= t < n ==> #[trigger] queued(suffer_damage@, t) == queued(sd0, t) + use_hits_on(
                        *map,
                        in0,
                        inflict_damage@,
                        st0,
                        t,
                        i as int,
                    ),
                forall|t: int|
                    0 <= t < n ==> (#[trigger] suffer_damage@[t] is Some) == (sd0[t] is Some || use_hits_on(
                        *map,
                        in0,
                        inflict_damage@,
                        st0,
                        t,
                        i as int,
                    ).len() > 0),
                gamelog.view() == log0 + use_messages(*map, player, in0, names@, potions@, inflict_damage@, st0, i as int),
                used@ == used_up(*map, in0, potions@, inflict_damage@, consumables@, st0, i as int),
            decreases n - i,
        {
            let entity = Entity { id: i };
            let ghost st_before = combat_stats@;
            let ghost sd_before = suffer_damage@;
            let ghost log_before = gamelog.view();
            let ghost strike = strike_of(*map, in0, inflict_damage@, st0, i as int);
            if let Some(intent) = use_intents.get(entity) {
                let item = intent.potion;
                if item.id < n {
                    let tell = player == Some(entity) && names.contains(item);
                    let mut effect = false;
                    if let Some(potion) = potions.get(item) {
                        if let Some(stats) = combat_stats.get(entity) {
                            let raised: i64 = stats.hp as i64 + potion.heal_amount as i64;
                            let raised: i32 = if raised < i32::MIN as i64 {
                                i32::MIN
                            } else if raised > i32::MAX as i64 {
                                i32::MAX
                            } else {
                                raised as i32
                            };
                            let hp = if stats.max_hp < raised { stats.max_hp } else { raised };
                            let healed = CombatStats { hp, ..*stats };
                            combat_stats.insert(entity, healed);
                            if tell {
                                if let Some(item_name) = names.get(item) {
                                    gamelog.say(drink_message(&item_name.name, potion.heal_amount));
                                }
                            }
                            effect = true;
                        }
                    }
                    let ghost log_mid = gamelog.view();
                    if let Some(damage) = inflict_damage.get(item) {
                        if let Some(target) = intent.target {
                            if 0 <= target.x && target.x < map.width() && 0 <= target.y && target.y < map.height() {
                                let mobs = map.entities.get(target.x, target.y);
                                let empty = String::new();
                                let item_name = match names.get(item) {
                                    Some(nm) => &nm.name,
                                    None => &empty,
                                };
                                let hit = strike_cell(tell, item_name, mobs, damage.damage, names, suffer_damage, gamelog);
                                if hit {
                                    effect = true;
                                }
                            }
                        }
                    }
                    if effect && consumables.contains(item) {
                        used.push(item);
                    }
                    proof {
                        assert(gamelog.view() =~= log0 + use_messages(*map, player, in0, names@, potions@, inflict_damage@, st0, i + 1));
                    }
                }
            }
            proof {
                assert forall|e: int| 0 <= e < i + 1 implies #[trigger] combat_stats@[e] == stats_after_use(in0, potions@, st0, e) by {
                    if e < i {
                        assert(combat_stats@[e] == st_before[e]);
                    }
                }
                assert forall|e: int| i + 1 <= e < n implies #[trigger] combat_stats@[e] == st0[e] by {
                    assert(combat_stats@[e] == st_before[e]);
                }
                assert forall|t: int| 0 <= t < n implies #[trigger] queued(suffer_damage@, t) == queued(sd0, t) + use_hits_on(
                        *map,
                        in0,
                        inflict_damage@,
                        st0,
                        t,
                        i + 1,
                    ) && (suffer_damage@[t] is Some) == (sd0[t] is Some || use_hits_on(
                        *map,
                        in0,
                        inflict_damage@,
                        st0,
                        t,
                        i + 1,
                    ).len() > 0) by {
                    match strike {
                        Some((mobs, d)) => {
                            assert(queued(sd0, t) + use_hits_on(*map, in0, inflict_damage@, st0, t, i + 1) =~= queued(sd0, t) + use_hits_on(*map, in0, inflict_damage@, st0, t, i as int) + hits_in(mobs, t, d));
                        },
                        None => {
                            assert(suffer_damage@ == sd_before);
                        },
                    }
                }
                assert(gamelog.view() =~= log0 + use_messages(*map, player, in0, names@, potions@, inflict_damage@, st0, i + 1));
            }
            i += 1;
        }
        use_intents.clear();
        used
    }
}

/// The player's memory never shrinks: whatever was revealed stays revealed.
pub proof fn lemma_fog_monotonic(revealed: Seq<usize>, seen: Seq<usize>)
    ensures
        revealed.to_set().subset_of(fog_after(revealed, seen)),
        seen.to_set().subset_of(fog_after(revealed, seen)),
{
}

/// A mover whose path search found nothing stays where it is and its view
/// is not marked dirty.
pub proof fn lemma_no_path_no_move(map: TetraMap, pos: Position, target: Position)
    ensures
        chase(map, pos, target, None).0 == pos,
        !chase(map, pos, target, None).1,
{
}

/// A blow deals attack power less defense, or nothing when that is
/// negative.
pub proof fn lemma_melee_damage(power: i32, defense: i32)
    ensures
        melee_damage(power as int, defense as int) == if power - defense > 0 {
            if power - defense > i32::MAX { i32::MAX as int } else { power - defense }
        } else {
            0
        },
        melee_damage(power as int, defense as int) >= 0,
{
}

/// What a sequence of entities holds after a push.
pub proof fn lemma_push_contains_entity(s: Seq<Entity>, x: Entity, v: Entity)
    ensures
        s.push(x).contains(v) == (s.contains(v) || v == x),
{
    let t = s.push(x);
    if t.contains(v) && v != x {
        let k = choose|k: int| 0 <= k < t.len() && #[trigger] t[k] == v;
        assert(s[k] == v);
    }
    if s.contains(v) {
        let k = choose|k: int| 0 <= k < s.len() && #[trigger] s[k] == v;
        assert(t[k] == v);
    }
    if v == x {
        assert(t[s.len() as int] == v);
    }
}

} // verus!
