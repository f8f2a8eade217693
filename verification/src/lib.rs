//! Pick one window of a tiling window manager's tree through a filter tool.
//!
//! The library holds the parts that decide something: the flattening of the
//! window tree into an ordered list of candidates, the line format in which
//! candidates are handed to the filter tool and its answer is read back, the
//! focus command that is sent for the chosen window, and the merging of
//! configurations.

pub mod config;
pub mod decimal;
pub mod error;
pub mod focus;
pub mod text;
pub mod tree;
pub mod tree_laws;
pub mod wire;
