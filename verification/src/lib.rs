//! Management of OS resolver override entries: one plain-text file per domain
//! suffix under a registry directory, each tagged with an ownership marker and
//! an optional creator PID, so that independent processes can register,
//! query, and garbage-collect entries without ever deleting a file they do
//! not own.
//!
//! The registry's operations are specified and verified against an explicit
//! directory snapshot ([`DirState`]); a thin shell around the library performs
//! the actual filesystem reads and writes and the process-liveness check, and
//! delegates every decision — rendering, ownership, PID parsing, what to
//! remove — to the verified functions here.

pub mod config;
pub mod dir_state;
pub mod error;
pub mod file_resolver;
pub mod laws;
pub mod text;

pub use config::ResolverConfig;
pub use dir_state::DirState;
pub use dir_state::FileEntry;
pub use error::IoErrorKind;
pub use error::ResolverError;
pub use file_resolver::to_env_prefix;
pub use file_resolver::FileResolver;
