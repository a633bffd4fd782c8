//! A server for certificate authorities in the RPKI.
//!
//! `server::CaServer` has one method for each thing that can be asked of it.
//! A method does nothing itself: it gives an operation, which asks the outside
//! (the store, the CAs, the signer, the HTTP client) for one thing after the
//! other and decides, by each reply, what comes next. What an operation does
//! is a script, and the contract of a method says which one.
//!
//! `outcomes`, `parents` and `upkeep` state what is asked for and what comes
//! out in every run of each operation, and `readings` how requests and results
//! are read there. `laws`, `lifecycle`, `protocol`, `discipline` and `totality`
//! state what holds of the operations as wholes, `session` and `children` what
//! holds over any number of calls.

pub mod batch;
pub mod certificates;
pub mod children;
pub mod dialogue;
pub mod discipline;
pub mod entitlements;
pub mod error;
pub mod exchange;
pub mod laws;
pub mod lifecycle;
pub mod messages;
pub mod operation;
pub mod outcomes;
pub mod outside;
pub mod parents;
pub mod protocol;
pub mod provisioning;
pub mod readings;
pub mod revocations;
pub mod runs;
pub mod script;
pub mod server;
pub mod session;
pub mod store;
pub mod totality;
pub mod trust_anchor;
pub mod types;
pub mod updates;
pub mod upkeep;
pub mod uri;
