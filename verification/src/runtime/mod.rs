pub mod program;
pub mod entrypoints;
