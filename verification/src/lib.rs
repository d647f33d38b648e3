//! Verified core of a safe-harbor agreement registry: record validation,
//! update-type dispatch, recognized-network bookkeeping, capacity planning,
//! and deterministic record addressing.

pub mod errors;
pub mod types;
pub mod validation;
pub mod capacity;
pub mod address;
pub mod account_map;
pub mod registry;
pub mod agreement;
pub mod adopt;
