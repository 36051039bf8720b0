use vstd::prelude::*;

verus! {

/// An entity is an index into the entity store; ids are handed out in order
/// and never reused.
#[derive(Clone, Copy, Debug, PartialEq, Eq, Structural, Hash)]
pub struct Entity {
    pub id: usize,
}

/// Where an entity stands on the grid.
#[derive(Clone, Copy, Debug, PartialEq, Eq, Structural)]
pub struct Position {
    pub x: i32,
    pub y: i32,
}

/// What an entity sees: the indices of the cells in view, how far it sees,
/// and whether the view must be recomputed.
#[derive(Debug)]
pub struct Viewshed {
    pub visible_tiles: Vec<usize>,
    pub range: i32,
    pub dirty: bool,
}

/// Marks an item as carried by `owner`; a carried item has no position.
#[derive(Clone, Copy, Debug, PartialEq, Eq, Structural)]
pub struct InBackpack {
    pub owner: Entity,
}

#[derive(Clone, Copy, Debug, PartialEq, Eq, Structural)]
pub struct Item {}

/// An item that heals its user by `heal_amount` hit points.
#[derive(Clone, Copy, Debug, PartialEq, Eq, Structural)]
pub struct Potion {
    pub heal_amount: i32,
}

/// An item that is used up by a successful use.
#[derive(Clone, Copy, Debug, PartialEq, Eq, Structural)]
pub struct Consumable {}

/// An item that deals `damage` to whatever stands on the target cell.
#[derive(Clone, Copy, Debug, PartialEq, Eq, Structural)]
pub struct InflictsDamage {
    pub damage: i32,
}

/// The blast radius an item declares.
#[derive(Clone, Copy, Debug, PartialEq, Eq, Structural)]
pub struct AreaOfEffect {
    pub radius: i32,
}

/// How far away an item can be aimed.
#[derive(Clone, Copy, Debug, PartialEq, Eq, Structural)]
pub struct Ranged {
    pub range: i32,
}

#[derive(Clone, Copy, Debug, PartialEq, Eq, Structural)]
pub struct Monster {}

#[derive(Debug)]
pub struct Name {
    pub name: String,
}

/// The player, with the cells it has ever seen (its fog-of-war memory).
#[derive(Debug)]
pub struct Player {
    pub revealed_tiles: Vec<usize>,
}

/// An entity that blocks movement on its cell.
#[derive(Clone, Copy, Debug, PartialEq, Eq, Structural)]
pub struct BlocksTile {}

#[derive(Clone, Copy, Debug, PartialEq, Eq, Structural)]
pub struct CombatStats {
    pub max_hp: i32,
    pub hp: i32,
    pub defense: i32,
    pub power: i32,
}

/// Intent to attack `target` this turn.
#[derive(Clone, Copy, Debug, PartialEq, Eq, Structural)]
pub struct WantsToMelee {
    pub target: Entity,
}

/// Intent of `collected_by` to pick `item` up this turn.
#[derive(Clone, Copy, Debug, PartialEq, Eq, Structural)]
pub struct WantsToPickupItem {
    pub collected_by: Entity,
    pub item: Entity,
}

/// Damage queued against an entity this turn, in the order it was dealt.
#[derive(Debug)]
pub struct SufferDamage {
    pub amount: Vec<i32>,
}

/// Intent to use the item `potion` this turn, aimed at `target` when the
/// item needs a target cell.
#[derive(Clone, Copy, Debug, PartialEq, Eq, Structural)]
pub struct WantsToDrinkPotion {
    pub potion: Entity,
    pub target: Option<Position>,
}

/// Intent to put the carried `item` down this turn.
#[derive(Clone, Copy, Debug, PartialEq, Eq, Structural)]
pub struct WantsToDropItem {
    pub item: Entity,
}

/// A named colour of the palette the game draws with.
#[derive(Clone, Copy, Debug, PartialEq, Eq, Structural)]
pub enum Color {
    Black,
    Yellow,
    Red,
    Magenta,
    Orange,
    Cyan,
}

/// How an entity is drawn: its glyph, its colours, and its layer (lower
/// layers are drawn on top).
#[derive(Clone, Copy, Debug, PartialEq, Eq, Structural)]
pub struct Renderable {
    pub glyph: char,
    pub fg: Color,
    pub bg: Color,
    pub order: i32,
}

} // verus!
