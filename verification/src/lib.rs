//! Runtime-independent load-balancing policies, membership and health
//! bookkeeping, with their contracts proved by Verus.
//!
//! Policies inspect a borrowed candidate slice and return a [`Selection`];
//! they never clone a backend or dispatch work.

mod backend;
pub mod discovery;
mod error;
mod feedback;
mod hash;
pub mod health;
mod load;
pub mod observe;
mod order;
pub mod probe;
pub mod policy;
mod selection;
pub mod sort;
pub mod text;
pub mod time;
mod weight;

pub use backend::{Backend, Candidate, Status};
pub use error::PickError;
pub use feedback::Outcome;
pub use hash::{
    FNV_OFFSET_BASIS, FNV_PRIME, Fnv1a64, FnvBuildHasher, StableKey, fnv1a, fnv_step, le_bytes_u16, le_bytes_u32, le_bytes_u128,
    le_bytes_u64, lemma_fnv_concat, mix64, spec_fnv, spec_mix64,
};
pub use order::{OrderKey, be_bytes_u32, be_bytes_u64};
pub use selection::Selection;
pub use weight::{InvalidWeight, Weight};
pub use load::{AtCapacity, LoadCount, LoadMetric, PeakEwmaConfigError, admit_attempt, check_peak_ewma};
pub use policy::{Policy, PolicyExt};
