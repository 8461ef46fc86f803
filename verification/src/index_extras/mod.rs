//! Rows of the metadata layer of the index.
//!
//! The tables are filled from many XML files and modules of a dump. What is read and
//! where it is written is up to the application; which files count and which rows come
//! of them is decided here.

pub mod config_refs;
pub mod contents;
pub mod groups;
pub mod links;
pub mod names;
pub mod paths;
pub mod procedures;
pub mod templates;
