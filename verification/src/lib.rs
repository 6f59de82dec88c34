//! A dungeon map generator built on binary space partitioning.
//!
//! A rectangular grid of wall tiles is recursively split into a binary tree
//! of regions, a room is carved inside every leaf region, and an L-shaped
//! corridor joins the two sides of every split, so that the carved floor
//! comes out fully connected. All randomness flows from one seeded
//! generator, which makes generation a pure function of the grid dimensions,
//! the minimum room size and the seed.

pub mod point;
pub mod rectangle;
pub mod grid;
pub mod map;
pub mod prng;
pub mod bsp;
pub mod reach;
