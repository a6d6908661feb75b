//! Core logic of a farming-simulation game: crop growth definitions, the
//! per-crop lifecycle state machine driven by a day-cycle clock, random
//! duration sampling, the crop-definition text format, and asset-path
//! resolution.

mod entropy;

pub mod arena;
pub mod codec;
pub mod crops;
pub mod days;
pub mod game_asset_path;
pub mod items;
pub mod lifecycle;
pub mod range;
