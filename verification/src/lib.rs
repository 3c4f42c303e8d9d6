//! Best-of-N dungeon level generator.
//!
//! A deterministic 32-bit pseudo-random stream drives a rejection-sampling
//! room placer; accepted rooms are rasterized onto a square tile grid to form
//! a level. Batches of levels are generated from one continuously advancing
//! stream, the total level count is partitioned across workers with derived
//! seeds, and the level with the most rooms is selected and rendered as a
//! character grid.

pub mod config;
pub mod rng;
pub mod room;
pub mod level;
pub mod batch;
pub mod select;
pub mod render;
