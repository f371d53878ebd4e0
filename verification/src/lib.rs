//! Discovers keyboard shortcut definitions — from a node-tree
//! configuration document and from a terminal's resolved runtime shortcut
//! table — and normalizes both into one keybind model with a flat,
//! greppable text rendering.
pub mod error;
pub mod kdl_bridge;
pub mod keybind;
pub mod kitty;
pub mod niri;
pub mod source;
pub mod text;
