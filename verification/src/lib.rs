//! Project scaffolding from templates that live in the user's configuration
//! directory.
//!
//! The library decides and computes; it touches no file. Whoever uses it
//! reads the directories and files, hands the library what was found, and
//! carries out what the library asks for.
//!
//! - [`cache`] holds the index of the known templates and keeps it in step
//!   with the templates on disk; [`cache_model`] says what its operations
//!   compute, and [`cache_laws`] what follows from that.
//! - [`config`] holds template descriptors and the look of the
//!   configuration directory.
//! - [`new`] drives the generation of a project, step by step;
//!   [`new_laws`] says what holds of every generation, and [`walk_laws`]
//!   which files the walk through a template writes.
//! - [`args`] and [`variables`] bind the variables of a template from the
//!   command line; [`render`] renders a template file against them.
//! - [`list`] is the listing of the known templates, [`help`] tells the
//!   commands apart and holds the help text, [`utils`] splits the setup
//!   command, [`paths`] and [`text`] look into paths and strings.

pub mod args;
pub mod cache;
pub mod cache_laws;
pub mod cache_model;
pub mod config;
pub mod error;
pub mod help;
pub mod list;
pub mod new;
pub mod new_laws;
pub mod paths;
pub mod render;
pub mod text;
pub mod utils;
pub mod variables;
pub mod walk_laws;
