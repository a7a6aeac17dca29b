//! Saving and restoring monitor layouts: the data model, the profile store,
//! and the text that the command-line front end prints.

pub mod text;
pub mod types;
pub mod display;
pub mod profiles;
pub mod commands;
