pub mod bases;
pub mod chain;
pub mod entities;
pub mod events;
pub mod game;
pub mod laws;
pub mod log;
pub mod mods;
pub mod pitch;
pub mod providers;
pub mod sim;
