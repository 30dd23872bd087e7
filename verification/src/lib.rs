//! Turn-based simulation core of a grid-world roguelike.
//!
//! The crate holds the dungeon map and its generator, line-of-sight
//! bookkeeping, the behaviour of hostile actors, melee combat and the
//! scheduler that orders all of these into one tick. Every function states
//! its behaviour as a contract that Verus proves.

pub mod components;
pub mod damage_system;
pub mod gamelog;
pub mod geometry;
pub mod inventory_system;
pub mod map;
pub mod map_builder;
pub mod map_indexing_system;
pub mod melee_combat_system;
pub mod monster_ai_system;
pub mod player;
pub mod rect;
pub mod state;
pub mod visibility_system;
pub mod world;

pub use components::{
    BlocksTile, CombatStats, Entity, InInventory, Item, Monster, Name, NavigationPath, Player,
    Position, Potion, Renderable, Rgb, SufferDamage, Viewshed, WantsToMelee, WantsToPickupItem,
};
pub use damage_system::{delete_the_dead, DamageSystem};
pub use gamelog::{GameLog, LogEntry};
pub use geometry::Coord;
pub use inventory_system::ItemCollectionSystem;
pub use map::{GameMap, TileType};
pub use map_builder::{MAP_COUNT, MAP_HEIGHT, MAP_WIDTH};
pub use map_indexing_system::MapIndexingSystem;
pub use melee_combat_system::{melee_damage, MeleeCombatSystem};
pub use monster_ai_system::{HostilePlan, MonsterAI};
pub use rect::Rect;
pub use player::{get_item, player_input, toggle_godmode, try_move_player, Intent};
pub use state::{GodMode, RunState, State};
pub use visibility_system::VisibilitySystem;
pub use world::{Actor, World};
