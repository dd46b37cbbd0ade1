//! What the REST interface exchanges with its clients.

use vstd::prelude::*;

verus! {

/// Pagination parameters of a listing: how many elements to skip, and how many to
/// return.
#[derive(Debug, Clone, Copy)]
pub struct Pagination {
    pub offset: Option<usize>,
    pub limit: Option<usize>,
}

impl Default for Pagination {
    fn default() -> (pagination: Self)
        ensures
            pagination.offset is None,
            pagination.limit is None,
    {
        Pagination { offset: None, limit: None }
    }
}

/// The answer to a health check: the version of the build and of the interface.
#[derive(Debug, Clone)]
pub struct Version {
    pub semver: String,
    pub current: String,
    pub latest: String,
}

impl Version {
    /// The answer to a health check for a build of version `semver`: the interface is
    /// at its first version, which is also the latest.
    pub fn new(semver: String) -> (version: Self)
        ensures
            version.semver@ == semver@,
            version.current@ == "v1"@,
            version.latest@ == "v1"@,
    {
        Version { semver, current: "v1".to_owned(), latest: "v1".to_owned() }
    }
}

} // verus!
