//! Configuration resolution and request admission for a proving host.
//!
//! The effective configuration of a request is a deep merge of three
//! sources, the later over the earlier: the config file, the process
//! settings, and what the request itself overrides. Requests are served
//! under a ceiling on how many may be in flight at once.

pub mod admission;
pub mod config;
pub mod error;
pub mod json;
pub mod merge;
pub mod settings;
pub mod value;
