//! Selection of the files of a directory or repository for a text snapshot,
//! and their rendering as a flat list and an indented tree.

pub mod config;
pub mod gitls;
pub mod locate;
pub mod order;
pub mod output;
pub mod paths;
pub mod settings;
pub mod stats;
pub mod textlist;
pub mod tree;
pub mod walk;
