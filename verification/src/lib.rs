//! A verified engine for batch-processing GPS track-log documents.
//!
//! The library holds the pure core of a tool that merges, inverts and
//! decimates track files: the document transformations themselves, the
//! validation policy for sets of input paths, the deterministic scan
//! ordering, and the derivation of output file paths.  Loading and saving
//! the files, and the command-line surface, live outside the library and
//! hand it plain values.

use vstd::prelude::*;
use vstd::string::StringExecFns;

pub mod model;
pub mod paths;
pub mod scan;
pub mod stats;
pub mod transform;
pub mod validate;

verus! {

/// The operations the engine can perform on track documents.
/// `Decimate` carries the subsampling factor.
#[derive(Clone, Copy, Debug)]
pub enum Action {
    Decimate(u16),
    Invert,
    Merge,
}

/// The string written into the `creator` field of every document the
/// engine produces.
pub open spec fn spec_creator() -> Seq<char> {
    "merge_my_gpx v0.1.0"@
}

/// Get the value to use for the "creator" field for files we create.
pub fn get_creator() -> (r: String)
    ensures
        r@ == spec_creator(),
{
    String::from_str("merge_my_gpx v0.1.0")
}

} // verus!
