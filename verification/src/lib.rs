//! Renders a tree of named colours as adaptive `UIColor` constants.

pub mod color;
pub mod colorset_map;
pub mod config;
pub mod data;
pub mod renderer;
pub mod text;
pub mod theorems;
