//! A space roguelike's core: integer vectors, rectangles, grids and layered grids,
//! text maps, a parent tree, random level layouts, combat dice and the game log.

pub mod actions;
pub mod ai;
pub mod area;
pub mod cfg;
pub mod combat;
pub mod game_log;
pub mod grid;
pub mod grid_string;
pub mod health;
pub mod input;
pub mod loader;
pub mod mob;
pub mod models;
pub mod prob;
pub mod random_grid;
pub mod recti;
pub mod rng;
pub mod seqs;
pub mod ship;
pub mod steering;
pub mod team;
pub mod text;
pub mod tree;
pub mod v2i;
pub mod view;
pub mod visibility;
