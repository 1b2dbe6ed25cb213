pub mod world;
pub mod input;
pub mod laws;
pub mod events;
pub mod demo;
