//! Version-control logic of an FL Studio companion: parsing Git's output,
//! deciding which Git commands to run, and keeping repository files in shape.
pub mod text;
pub mod order;
pub mod repo_files;
pub mod paths;
pub mod status;
pub mod git;
pub mod commands;
pub mod compare;
pub mod config;
pub mod overlay;
pub mod metadata;
