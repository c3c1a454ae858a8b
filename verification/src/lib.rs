//! Revocation checking for boot components.
//!
//! A revocation list names, for each component it knows, the lowest
//! generation that may still boot. An image declares the components it is
//! built from; it is revoked as soon as one of them is older than the list
//! allows. Both sides arrive as a small comma-separated text format, which
//! [`csv`] reads without copying a byte.

pub mod component;
pub mod csv;
pub mod generation;
pub mod metadata;
pub mod result;
pub mod revocations;
pub mod scan;
pub mod storage;
pub mod text;

pub use component::Component;
pub use generation::Generation;
pub use metadata::{Entry, Metadata, Vendor};
pub use result::Error;
pub use revocations::{Revocations, ValidationResult};
pub use storage::{BoundedVec, Veclike};
pub use text::AsciiText;
