//! Bringing up the dev container of a workspace, and running a shell or a command in it.
//!
//! The modules decide what is done: where the configuration of a workspace is looked for, what it
//! asks for, which `docker` command lines bring the container up, which requests fetch its
//! features and in which order these are installed. Whoever uses them carries the decisions out,
//! and hands back what came of them.
pub mod cli;
pub mod config;
pub mod container;
pub mod docker;
pub mod dockerfile;
pub mod features;
pub mod json;
pub mod lists;
pub mod options;
pub mod order;
pub mod paths;
pub mod registry;
pub mod session;
pub mod sorted_map;
pub mod text;
pub mod utf8;
