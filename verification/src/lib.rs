//! Client-side-validation stash: the persistent contract-knowledge graph of a
//! smart-contract protocol layered on top of a UTXO ledger, together with the
//! two algorithms that operate on it: `consign` (extraction of a minimal,
//! ancestor-complete proof with selective concealment) and `merge` (ingestion
//! of a received proof with selective revelation of locally known seals).

pub mod assign;
pub mod index;
pub mod laws;
pub mod node;
pub mod seal;
pub mod stash;
pub mod store;
