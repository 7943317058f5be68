//! Game logic of the Temper Minecraft server: block interactions, pathfinding,
//! spawn search, mob AI decisions and command argument handling.

pub mod astar;
pub mod blocks;
pub mod commands;
pub mod collections;
pub mod cost;
pub mod interactions;
pub mod messages;
pub mod mobs;
pub mod placement;
pub mod players;
pub mod spawn;
pub mod text;
pub mod world;
