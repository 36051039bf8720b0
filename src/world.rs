use vstd::prelude::*;
use crate::components::{
    AreaOfEffect, BlocksTile, CombatStats, Consumable, Entity, InBackpack, InflictsDamage, Item,
    Monster, Name, Player, Position, Potion, Ranged, Renderable, SufferDamage, Viewshed,
    WantsToDrinkPotion, WantsToDropItem, WantsToMelee, WantsToPickupItem,
};
use crate::gamelog::GameLog;
use crate::map::TetraMap;

verus! {

/// One component kind: the component of each entity, if it has one,
/// indexed by entity id.
pub struct Storage<T> {
    pub slots: Vec<Option<T>>,
}

impl<T> View for Storage<T> {
    type V = Seq<Option<T>>;

    open spec fn view(&self) -> Seq<Option<T>> {
        self.slots@
    }
}

impl<T> Storage<T> {
    pub open spec fn has(&self, e: Entity) -> bool {
        e.id < self@.len() && self@[e.id as int] is Some
    }

    pub fn new() -> (r: Storage<T>)
        ensures
            r@ == Seq::<Option<T>>::empty(),
    {
        Storage { slots: Vec::new() }
    }

    pub fn len(&self) -> (r: usize)
        ensures
            r == self@.len(),
    {
        self.slots.len()
    }

    /// Makes room for one more entity, which has no such component.
    pub fn grow(&mut self)
        ensures
            final(self)@ == old(self)@.push(None),
    {
        self.slots.push(None);
    }

    pub fn contains(&self, e: Entity) -> (r: bool)
        ensures
            r == self.has(e),
    {
        e.id < self.slots.len() && self.slots[e.id].is_some()
    }

    pub fn get(&self, e: Entity) -> (r: Option<&T>)
        ensures
            r is Some <==> self.has(e),
            r matches Some(v) ==> self@[e.id as int] == Some(*v),
    {
        if e.id < self.slots.len() {
            self.slots[e.id].as_ref()
        } else {
            None
        }
    }

    /// Gives `e` the component `v`, replacing the one it had.
    pub fn insert(&mut self, e: Entity, v: T)
        requires
            e.id < old(self)@.len(),
        ensures
            final(self)@ == old(self)@.update(e.id as int, Some(v)),
    {
        self.slots.set(e.id, Some(v));
    }

    /// Takes the component of `e` away and returns it.
    pub fn remove(&mut self, e: Entity) -> (r: Option<T>)
        ensures
            e.id < old(self)@.len() ==> r == old(self)@[e.id as int] && final(self)@ == old(self)@.update(
                e.id as int,
                None,
            ),
            e.id >= old(self)@.len() ==> r is None && final(self)@ == old(self)@,
    {
        if e.id < self.slots.len() {
            let mut out: Option<T> = None;
            self.slots.set_and_swap(e.id, &mut out);
            out
        } else {
            None
        }
    }

    /// Takes every component of this kind away.
    pub fn clear(&mut self)
        ensures
            final(self)@.len() == old(self)@.len(),
            forall|i: int| 0 <= i < final(self)@.len() ==> (#[trigger] final(self)@[i]) is None,
    {
        let n = self.slots.len();
        let mut i: usize = 0;
        while i < n
            invariant
                i <= n,
                n == self@.len(),
                forall|j: int| 0 <= j < i ==> (#[trigger] self@[j]) is None,
            decreases n - i,
        {
            self.slots.set(i, None);
            i += 1;
        }
    }
}

/// The state of the running game: the entity store with one storage per
/// component kind, and the shared resources (the level, the message log,
/// the player entity and the turn state).
pub struct World {
    pub alive: Vec<bool>,
    pub positions: Storage<Position>,
    pub renderables: Storage<Renderable>,
    pub names: Storage<Name>,
    pub viewsheds: Storage<Viewshed>,
    pub monsters: Storage<Monster>,
    pub players: Storage<Player>,
    pub combat_stats: Storage<CombatStats>,
    pub blocks_tile: Storage<BlocksTile>,
    pub wants_to_melee: Storage<WantsToMelee>,
    pub wants_to_pickup: Storage<WantsToPickupItem>,
    pub suffer_damage: Storage<SufferDamage>,
    pub items: Storage<Item>,
    pub potions: Storage<Potion>,
    pub consumables: Storage<Consumable>,
    pub inflicts_damage: Storage<InflictsDamage>,
    pub area_of_effect: Storage<AreaOfEffect>,
    pub ranged: Storage<Ranged>,
    pub in_backpack: Storage<InBackpack>,
    pub wants_to_drink: Storage<WantsToDrinkPotion>,
    pub wants_to_drop: Storage<WantsToDropItem>,
    pub map: TetraMap,
    pub log: GameLog,
    pub player: Option<Entity>,
}

impl World {
    /// Number of entities ever created.
    pub open spec fn n(&self) -> nat {
        self.alive@.len()
    }

    pub open spec fn wf(&self) -> bool {
        let n = self.alive@.len();
        &&& self.positions@.len() == n
        &&& self.renderables@.len() == n
        &&& self.names@.len() == n
        &&& self.viewsheds@.len() == n
        &&& self.monsters@.len() == n
        &&& self.players@.len() == n
        &&& self.combat_stats@.len() == n
        &&& self.blocks_tile@.len() == n
        &&& self.wants_to_melee@.len() == n
        &&& self.wants_to_pickup@.len() == n
        &&& self.suffer_damage@.len() == n
        &&& self.items@.len() == n
        &&& self.potions@.len() == n
        &&& self.consumables@.len() == n
        &&& self.inflicts_damage@.len() == n
        &&& self.area_of_effect@.len() == n
        &&& self.ranged@.len() == n
        &&& self.in_backpack@.len() == n
        &&& self.wants_to_drink@.len() == n
        &&& self.wants_to_drop@.len() == n
        &&& self.map.wf()
    }

    /// An empty world around `map`.
    pub fn new(map: TetraMap, log: GameLog) -> (r: World)
        requires
            map.wf(),
        ensures
            r.wf(),
            r.n() == 0,
            r.map == map,
            r.log == log,
            r.player is None,
    {
        World {
            alive: Vec::new(),
            positions: Storage::new(),
            renderables: Storage::new(),
            names: Storage::new(),
            viewsheds: Storage::new(),
            monsters: Storage::new(),
            players: Storage::new(),
            combat_stats: Storage::new(),
            blocks_tile: Storage::new(),
            wants_to_melee: Storage::new(),
            wants_to_pickup: Storage::new(),
            suffer_damage: Storage::new(),
            items: Storage::new(),
            potions: Storage::new(),
            consumables: Storage::new(),
            inflicts_damage: Storage::new(),
            area_of_effect: Storage::new(),
            ranged: Storage::new(),
            in_backpack: Storage::new(),
            wants_to_drink: Storage::new(),
            wants_to_drop: Storage::new(),
            map,
            log,
            player: None,
        }
    }


    /// Entity `e` has been deleted: not alive, and no component left.
    pub open spec fn removed(&self, e: int) -> bool {
        &&& !self.alive@[e]
        &&& self.positions@[e] is None
        &&& self.renderables@[e] is None
        &&& self.names@[e] is None
        &&& self.viewsheds@[e] is None
        &&& self.monsters@[e] is None
        &&& self.players@[e] is None
        &&& self.combat_stats@[e] is None
        &&& self.blocks_tile@[e] is None
        &&& self.wants_to_melee@[e] is None
        &&& self.wants_to_pickup@[e] is None
        &&& self.suffer_damage@[e] is None
        &&& self.items@[e] is None
        &&& self.potions@[e] is None
        &&& self.consumables@[e] is None
        &&& self.inflicts_damage@[e] is None
        &&& self.area_of_effect@[e] is None
        &&& self.ranged@[e] is None
        &&& self.in_backpack@[e] is None
        &&& self.wants_to_drink@[e] is None
        &&& self.wants_to_drop@[e] is None
    }

    /// Entity `e` is the same in `self` and `other`.
    pub open spec fn same_entity(&self, other: &World, e: int) -> bool {
        &&& self.alive@[e] == other.alive@[e]
        &&& self.positions@[e] == other.positions@[e]
        &&& self.renderables@[e] == other.renderables@[e]
        &&& self.names@[e] == other.names@[e]
        &&& self.viewsheds@[e] == other.viewsheds@[e]
        &&& self.monsters@[e] == other.monsters@[e]
        &&& self.players@[e] == other.players@[e]
        &&& self.combat_stats@[e] == other.combat_stats@[e]
        &&& self.blocks_tile@[e] == other.blocks_tile@[e]
        &&& self.wants_to_melee@[e] == other.wants_to_melee@[e]
        &&& self.wants_to_pickup@[e] == other.wants_to_pickup@[e]
        &&& self.suffer_damage@[e] == other.suffer_damage@[e]
        &&& self.items@[e] == other.items@[e]
        &&& self.potions@[e] == other.potions@[e]
        &&& self.consumables@[e] == other.consumables@[e]
        &&& self.inflicts_damage@[e] == other.inflicts_damage@[e]
        &&& self.area_of_effect@[e] == other.area_of_effect@[e]
        &&& self.ranged@[e] == other.ranged@[e]
        &&& self.in_backpack@[e] == other.in_backpack@[e]
        &&& self.wants_to_drink@[e] == other.wants_to_drink@[e]
        &&& self.wants_to_drop@[e] == other.wants_to_drop@[e]
    }
    /// `new` is `self` with entities appended: every entity of `self` is
    /// unchanged, and the resources are the same.
    pub open spec fn grown_into(&self, new: &World) -> bool {
        &&& new.wf()
        &&& self.n() <= new.n()
        &&& new.map == self.map
        &&& new.log == self.log
        &&& new.player == self.player
        &&& forall|e: int| 0 <= e < self.n() ==> #[trigger] new.same_entity(self, e)
    }

    /// Entity `e` holds no intent, no queued damage and no backpack record.
    pub open spec fn bare_of_intents(&self, e: int) -> bool {
        &&& self.wants_to_melee@[e] is None
        &&& self.wants_to_pickup@[e] is None
        &&& self.suffer_damage@[e] is None
        &&& self.in_backpack@[e] is None
        &&& self.wants_to_drink@[e] is None
        &&& self.wants_to_drop@[e] is None
    }

    /// A new entity with no components.
    pub fn create_entity(&mut self) -> (e: Entity)
        requires
            old(self).wf(),
        ensures
            final(self).wf(),
            e.id == old(self).n(),
            final(self).alive@ == old(self).alive@.push(true),
            final(self).positions@ == old(self).positions@.push(None),
            final(self).renderables@ == old(self).renderables@.push(None),
            final(self).names@ == old(self).names@.push(None),
            final(self).viewsheds@ == old(self).viewsheds@.push(None),
            final(self).monsters@ == old(self).monsters@.push(None),
            final(self).players@ == old(self).players@.push(None),
            final(self).combat_stats@ == old(self).combat_stats@.push(None),
            final(self).blocks_tile@ == old(self).blocks_tile@.push(None),
            final(self).wants_to_melee@ == old(self).wants_to_melee@.push(None),
            final(self).wants_to_pickup@ == old(self).wants_to_pickup@.push(None),
            final(self).suffer_damage@ == old(self).suffer_damage@.push(None),
            final(self).items@ == old(self).items@.push(None),
            final(self).potions@ == old(self).potions@.push(None),
            final(self).consumables@ == old(self).consumables@.push(None),
            final(self).inflicts_damage@ == old(self).inflicts_damage@.push(None),
            final(self).area_of_effect@ == old(self).area_of_effect@.push(None),
            final(self).ranged@ == old(self).ranged@.push(None),
            final(self).in_backpack@ == old(self).in_backpack@.push(None),
            final(self).wants_to_drink@ == old(self).wants_to_drink@.push(None),
            final(self).wants_to_drop@ == old(self).wants_to_drop@.push(None),
            final(self).map == old(self).map,
            final(self).log == old(self).log,
            final(self).player == old(self).player,
    {
        let e = Entity { id: self.alive.len() };
        self.alive.push(true);
        self.positions.grow();
        self.renderables.grow();
        self.names.grow();
        self.viewsheds.grow();
        self.monsters.grow();
        self.players.grow();
        self.combat_stats.grow();
        self.blocks_tile.grow();
        self.wants_to_melee.grow();
        self.wants_to_pickup.grow();
        self.suffer_damage.grow();
        self.items.grow();
        self.potions.grow();
        self.consumables.grow();
        self.inflicts_damage.grow();
        self.area_of_effect.grow();
        self.ranged.grow();
        self.in_backpack.grow();
        self.wants_to_drink.grow();
        self.wants_to_drop.grow();
        e
    }

    /// Whether `e` has been created and not deleted.
    pub fn is_alive(&self, e: Entity) -> (r: bool)
        ensures
            r == (e.id < self.n() && self.alive@[e.id as int]),
    {
        e.id < self.alive.len() && self.alive[e.id]
    }

    /// Deletes `e`: it is no longer alive and loses every component.
    pub fn delete_entity(&mut self, e: Entity)
        requires
            old(self).wf(),
            e.id < old(self).n(),
        ensures
            final(self).wf(),
            final(self).alive@ == old(self).alive@.update(e.id as int, false),
            final(self).positions@ == old(self).positions@.update(e.id as int, None),
            final(self).renderables@ == old(self).renderables@.update(e.id as int, None),
            final(self).names@ == old(self).names@.update(e.id as int, None),
            final(self).viewsheds@ == old(self).viewsheds@.update(e.id as int, None),
            final(self).monsters@ == old(self).monsters@.update(e.id as int, None),
            final(self).players@ == old(self).players@.update(e.id as int, None),
            final(self).combat_stats@ == old(self).combat_stats@.update(e.id as int, None),
            final(self).blocks_tile@ == old(self).blocks_tile@.update(e.id as int, None),
            final(self).wants_to_melee@ == old(self).wants_to_melee@.update(e.id as int, None),
            final(self).wants_to_pickup@ == old(self).wants_to_pickup@.update(e.id as int, None),
            final(self).suffer_damage@ == old(self).suffer_damage@.update(e.id as int, None),
            final(self).items@ == old(self).items@.update(e.id as int, None),
            final(self).potions@ == old(self).potions@.update(e.id as int, None),
            final(self).consumables@ == old(self).consumables@.update(e.id as int, None),
            final(self).inflicts_damage@ == old(self).inflicts_damage@.update(e.id as int, None),
            final(self).area_of_effect@ == old(self).area_of_effect@.update(e.id as int, None),
            final(self).ranged@ == old(self).ranged@.update(e.id as int, None),
            final(self).in_backpack@ == old(self).in_backpack@.update(e.id as int, None),
            final(self).wants_to_drink@ == old(self).wants_to_drink@.update(e.id as int, None),
            final(self).wants_to_drop@ == old(self).wants_to_drop@.update(e.id as int, None),
            final(self).map == old(self).map,
            final(self).log == old(self).log,
            final(self).player == old(self).player,
    {
        self.alive.set(e.id, false);
        self.positions.remove(e);
        self.renderables.remove(e);
        self.names.remove(e);
        self.viewsheds.remove(e);
        self.monsters.remove(e);
        self.players.remove(e);
        self.combat_stats.remove(e);
        self.blocks_tile.remove(e);
        self.wants_to_melee.remove(e);
        self.wants_to_pickup.remove(e);
        self.suffer_damage.remove(e);
        self.items.remove(e);
        self.potions.remove(e);
        self.consumables.remove(e);
        self.inflicts_damage.remove(e);
        self.area_of_effect.remove(e);
        self.ranged.remove(e);
        self.in_backpack.remove(e);
        self.wants_to_drink.remove(e);
        self.wants_to_drop.remove(e);
    }
}

} // verus!
