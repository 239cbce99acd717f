//! The configured budget entries.

use vstd::prelude::*;

verus! {

/// One budget entry: a literal path or a glob pattern, and its maximum size
/// as text such as `50 kB`.
#[derive(Clone, Debug)]
pub struct BundleConfig {
    pub path: String,
    pub max_size: String,
}

/// The list of budget entries of one run.
#[derive(Clone, Debug)]
pub struct ConfigFile {
    pub bundlesize: Vec<BundleConfig>,
}

} // verus!
