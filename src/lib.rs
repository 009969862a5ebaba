//! The change-summary engine of a terminal dashboard over a working tree:
//! status and line-count reports become a tree of rows with rolled-up
//! status, and a file's diff becomes a summary of the symbols it touches.
pub mod text;
pub mod symbols;
pub mod names;
pub mod diff;
pub mod status;
pub mod order;
pub mod tree;
pub mod delta;
pub mod overview;
pub mod state;
pub mod commands;
