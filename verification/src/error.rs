//! The errors the viewer reports outside the HTTP API.

use vstd::prelude::*;

verus! {

/// Why a viewer operation failed. Paths are carried as text.
#[derive(Clone, Debug)]
pub enum ViewerError {
    InvalidArgument(String),
    Io { path: String, message: String },
    GeneratedContractOutOfDate(String),
    SourceHomeUnavailable(String),
    PathOverlap { source_path: String, cache: String },
    UnsafeCachePermissions { path: String, reason: String },
    CacheLocked(String),
    SourceSymlink(String),
    SourceOutsideRoot(String),
    SourceChanged(String),
}

} // verus!
