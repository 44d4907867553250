//! Filesystem path operations with diagnostic context.
//!
//! Every fallible path query offered here returns, on failure, a [`PathError`]
//! whose rendered text names the offending path (and, for two-path
//! operations, the second path involved).

pub mod error;
pub mod filetype;
pub mod metadata;
pub mod pathmodel;
pub mod pathtext;
pub mod privtrait;

pub use error::Annotation;
pub use error::PathError;
pub use filetype::FileTypeEnum;
pub use metadata::PathMetadata;
pub use pathtext::PathText;
pub use pathtext::o2r;
pub use privtrait::PathExtPriv;
