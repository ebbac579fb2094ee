//! Layout core of a terminal split-window manager.
//!
//! A window tree partitions a fixed-size character grid into rectangular
//! regions.  The tree is held in an arena of windows plus an adjacency list
//! of split edges; splitting and removing windows restructures the tree, and
//! a renderer walks it and emits grid writes for a terminal backend to flush.

pub mod document;
pub mod error;
pub mod geometry;
pub mod keys;
pub mod render;
pub mod surface;
pub mod window;
