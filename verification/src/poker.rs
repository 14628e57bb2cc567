pub mod deal;
pub mod game;
pub mod show;
pub mod tree;
