//! Texture atlas packing library: rectangle geometry, packing algorithms,
//! per-sprite image processing, block texture compression and the small
//! pieces of front-end logic (preferences, log entries, pack results, the
//! sprite list tree, update checks).

pub mod text;
pub mod config;
pub mod pixel_format;
pub mod image;
pub mod loader;
pub mod rect;
pub mod sprite;
pub mod packer;
pub mod maxrects;
pub mod basic;
pub mod grid;
pub mod dxt;
pub mod compress;
pub mod trim;
pub mod extrude;
pub mod premultiply;
pub mod dither;
pub mod pixel_art;
pub mod alias;
pub mod sheet;
pub mod pipeline;
pub mod gui;
pub mod updater;
pub mod formats;
pub mod export;
pub mod json;
pub mod pack_state;
pub mod sprite_list;
