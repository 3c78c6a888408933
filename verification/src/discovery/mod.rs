//! Revisioned service-discovery membership with drain-before-retire
//! semantics.

pub mod directory;
pub mod member;
pub mod revision;
pub mod snapshot;

pub use directory::{Applied, Change, Directory, Effect, RevisionExhausted};
pub use member::{Discovered, Membership};
pub use revision::Revision;
pub use snapshot::{PublishError, Snapshot, StreamStep, check_publish, stream_step};
