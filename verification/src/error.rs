//! Why a configuration could not be resolved.

use vstd::prelude::*;

verus! {

/// Why a configuration could not be resolved.
#[derive(Debug, Clone, Copy, PartialEq, Eq, Structural)]
pub enum ConfigError {
    /// The config file is missing or cannot be read.
    Read,
    /// The config file does not hold well-formed structured data.
    Parse,
}

} // verus!
