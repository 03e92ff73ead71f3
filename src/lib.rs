//! Tiled escape-time fractal rendering: tile geometry, the tile cache with
//! multi-resolution fallback, the work dispatcher and the tile painter.

pub mod cache;
pub mod dispatch;
pub mod gui;
pub mod lru_store;
pub mod render;
pub mod tile;
