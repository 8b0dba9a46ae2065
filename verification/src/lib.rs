//! The core of a search through a directory tree: which entries a name
//! pattern and a type filter select, how each selected path is printed,
//! and in which order the walk comes to the entries.
//!
//! The library reads no file system. A driver looks up what the walk asks
//! for and hands it in; see [`walker`]. For a tree that is held in memory
//! the library drives the walk itself; see [`snapshot`].

pub mod descent;
pub mod diagnostic;
pub mod filter;
pub mod pattern;
pub mod render;
pub mod selection;
pub mod snapshot;
pub mod visit;
pub mod walker;
