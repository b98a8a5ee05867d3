//! Error types for registry operations.

use vstd::prelude::*;

verus! {

/// Classification of an underlying I/O failure, as the caller needs it.
#[derive(Debug, Clone, Copy, PartialEq, Eq, Structural)]
pub enum IoErrorKind {
    /// The caller lacks permission (the registry directory is typically privileged).
    PermissionDenied,
    /// A file or directory was missing where one was needed.
    NotFound,
    /// Any other I/O failure.
    Other,
}

/// Errors returned by registry operations.
#[derive(Debug)]
pub enum ResolverError {
    /// Filesystem I/O failed.
    Io {
        /// What kind of failure it was.
        kind: IoErrorKind,
    },
    /// The registry directory does not exist and could not be created.
    DirNotFound {
        /// The expected path.
        path: String,
    },
    /// Attempted to remove a resolver file not owned by this registry.
    NotManaged {
        /// The domain whose file is unowned.
        domain: String,
    },
    /// Invalid configuration values.
    InvalidConfig(String),
}

impl ResolverError {
    /// Returns `true` if the underlying I/O failure is a permission denial.
    pub fn is_permission_denied(&self) -> (r: bool)
        ensures
            r == (self matches ResolverError::Io { kind: IoErrorKind::PermissionDenied }),
    {
        match self {
            ResolverError::Io { kind: IoErrorKind::PermissionDenied } => true,
            _ => false,
        }
    }
}

} // verus!
