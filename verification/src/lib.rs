//! Game rules of "Kill Them All", a small action RPG: collisions between
//! bullets, monsters, bonuses and the player, monster spawning waves,
//! life points, skill books and skills, character actions (going to a
//! point, taking a dropped item), sprite animation cycles, orbs that
//! change the rarity of equipments, and the decisions taken by the in-game
//! menus.
//!
//! Entities of the game engine are identified here by their `u64` bits.

pub mod bonus;
pub mod books;
pub mod bullets;
pub mod character;
pub mod collisions;
pub mod items;
pub mod life;
pub mod math;
pub mod menu;
pub mod monster;
pub mod orb;
pub mod player;
mod random;
