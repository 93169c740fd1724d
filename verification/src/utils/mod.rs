//! Text positions, workspace paths and time stamps.
pub mod parse;
pub mod path;
pub mod time;
pub mod workspace_scanner;
