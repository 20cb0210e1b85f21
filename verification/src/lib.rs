//! Detection and classification of Git and Jujutsu working directories,
//! the column/argument catalogs of the detector plugins, and the text
//! rendering of the resulting table.

pub mod text;
pub mod repo;
pub mod git;
pub mod paths;
pub mod workparent;
pub mod variant;
pub mod process;
pub mod ahead;
pub mod date;
pub mod beads;
pub mod jj;
pub mod plugin;
pub mod registry;
pub mod render;
pub mod laws;
