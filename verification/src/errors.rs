//! The error taxonomy of the search pipeline.

use vstd::prelude::*;

verus! {

/// Every failure the pipeline distinguishes. Configuration and discovery
/// errors are fatal before any scanning starts; the per-workload errors are
/// recovered locally so one bad file never aborts the batch.
#[derive(Clone, Copy, Debug, PartialEq, Eq, Structural)]
pub enum SearchError {
    /// The pattern string does not compile as a regular expression.
    InvalidPattern,
    /// The composed file glob could not be expanded.
    GlobExpansion,
    /// Filesystem metadata for a matched path could not be read.
    Metadata,
    /// A workload's file could not be opened.
    FileOpen,
    /// A zip-kind workload's archive or its first entry could not be opened.
    Archive,
}

/// The text of each error, for spec-level statements about diagnostics.
pub open spec fn error_text(e: SearchError) -> Seq<char> {
    match e {
        SearchError::InvalidPattern => "could not compile the search pattern"@,
        SearchError::GlobExpansion => "could not parse the file glob"@,
        SearchError::Metadata => "could not read file metadata"@,
        SearchError::FileOpen => "could not open the file"@,
        SearchError::Archive => "could not open the archive entry"@,
    }
}

impl SearchError {
    /// A human-readable description of the error.
    pub fn describe(&self) -> (r: &'static str)
        ensures
            r@ == error_text(*self),
    {
        match self {
            SearchError::InvalidPattern => "could not compile the search pattern",
            SearchError::GlobExpansion => "could not parse the file glob",
            SearchError::Metadata => "could not read file metadata",
            SearchError::FileOpen => "could not open the file",
            SearchError::Archive => "could not open the archive entry",
        }
    }
}

} // verus!
