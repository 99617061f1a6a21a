//! A tile-based level engine for a 2D sidescroller.
//!
//! - `level`: the level grid and its coordinate conventions.
//! - `tileset`, `collision`: tilesets, and which tiles are solid or platforms.
//! - `csv`, `symbols`, `symbol_map`, `symbol_tools`: the two text formats.
//! - `tiled`: maps of the Tiled editor.
//! - `templates`, `placement`: named patterns and their placement.
//! - `spawner`: from a level to the tiles that are shown.
//! - `editor`: the editor's settings, keys and brush.
//! - `text`, `error`, `constants`, `animation`: what the others share.

pub mod animation;
pub mod collision;
pub mod constants;
pub mod csv;
pub mod editor;
pub mod error;
pub mod level;
pub mod placement;
pub mod spawner;
pub mod symbol_map;
pub mod symbol_tools;
pub mod symbols;
pub mod templates;
pub mod text;
pub mod tiled;
pub mod tileset;
