//! A cell-grid drawing editor core: reversible cell mutations, undo/redo
//! engines (an in-memory stack and a persisted, pointer-addressed operation
//! log), axis-mirrored drawing, and the deterministic drawing algorithms
//! that produce mutation lists.

pub mod app;
pub mod blocks;
pub mod canvas;
pub mod cell;
pub mod cli;
pub mod export;
pub mod history;
pub mod import;
pub mod input;
pub mod oplog;
pub mod palette;
pub mod project;
pub mod stats;
pub mod symmetry;
pub mod theme;
pub mod tools;
