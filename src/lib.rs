//! A first-person maze: a generated grid of floors and walls, a player who
//! walks it in four directions, the view ahead of the player, and a scored
//! session around both.

pub mod connectivity;
pub mod game;
pub mod map;
pub mod player;
mod random;
