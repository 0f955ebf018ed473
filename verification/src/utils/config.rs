//! Configuration formats recognized by the configuration loader that
//! embeds this library.

use vstd::prelude::*;

verus! {

/// Configuration file format.
#[derive(Debug, Clone, Copy, PartialEq, Eq, Structural)]
pub enum ConfigFormat {
    Json,
    Toml,
    Yaml,
}

} // verus!
