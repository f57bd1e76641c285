//! A lazy, configurable walk over a directory tree: depth-first, pre-order,
//! never following symbolic links, with exact-path ignore lists and depth
//! bounds.
//!
//! The walk itself is a verified state machine ([`FsTree`]): it decides which
//! directory to open, which entry to inspect, what to yield and when to stop,
//! while its caller performs the filesystem operations it asks for and hands
//! back their outcomes as events. [`laws`] states what holds of every step,
//! and [`model`] proves that over an unchanging tree the walk yields exactly
//! the tree's filtered pre-order listing.
pub mod error;
pub mod fs_tree;
pub mod fs_tree_builder;
pub mod laws;
pub mod model;

pub use error::Error;
pub use fs_tree::{Action, Event, FsTree};
pub use fs_tree_builder::FsTreeBuilder;
