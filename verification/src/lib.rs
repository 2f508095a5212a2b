pub mod map;
pub mod movement;
pub mod rect;
mod rng;
pub mod gen;
pub mod connectivity;
