//! The core of a terminal file browser: a directory tree that is expanded
//! on demand, its flattening into the visible rows, the dispatch of files to
//! openers, and the state machine that interprets keyboard and mouse.
//!
//! The library does no input or output. Its caller reads events, lists
//! directories, starts processes and draws; the library decides, and states
//! of every decision what it is.

pub mod browser;
pub mod icons;
pub mod input;
pub mod opener;
pub mod render;
pub mod text;
pub mod tree;
pub mod types;
