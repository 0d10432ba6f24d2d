//! Pattern scanning and process-inspection logic for patching a running game.
pub mod geometry;
pub mod maps;
pub mod numparse;
pub mod patch;
pub mod pattern;
pub mod process;
pub mod remote_alloc;
pub mod text;
