//! Set reconciliation between one master node and its replicas.
//!
//! Every node owns a set of item identifiers. The master publishes a 32-byte
//! digest of its set and a probabilistic membership filter built from it. A
//! replica whose own digest differs asks the filter about each of its items
//! and reports those the filter does not recognise.

pub mod digest;
pub mod filter;
pub mod friend;
pub mod reconcile;
