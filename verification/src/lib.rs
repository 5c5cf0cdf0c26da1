//! A registry of uniquely identified tokens: who owns each token, which tokens
//! each owner holds and in what order, the attribute and commission records
//! attached to every token, and the two role sets that gate mutation.
//!
//! Every operation either applies completely or leaves the registry as it was.

pub mod attributes;
pub mod batch;
pub mod error;
pub mod ids;
pub mod laws;
pub mod ledger;
pub mod owner_index;
pub mod record;
pub mod roles;
pub mod token;
