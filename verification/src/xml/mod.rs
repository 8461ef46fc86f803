//! XML files of a configuration dump.

pub mod dcs;
pub mod error;
pub mod events;
pub mod file;
pub mod form_refs;
pub mod forms;
pub mod reader;
