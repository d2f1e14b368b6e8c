//! Consensus-side core of a Subspace-style blockchain node.
//!
//! Three independent subsystems share this crate; they call none of each
//! other and share only plain data shapes. A host runtime composes them.
//!
//! * [`staking`] — the domain staking ledger: operator pools, nominator
//!   deposits, domain reassignment, deregistration and withdrawal intents,
//!   against the host currency model in [`balances`]. Every call is
//!   transactional and every failure is a typed error.
//! * [`lightclient`] — a stateless header importer that validates consensus
//!   digests ([`digests`]), checks slot monotonicity and the reward seal,
//!   folds in the host verifier's solution verdict, computes cumulative chain
//!   weight and resolves forks by the heaviest-chain rule. It persists
//!   headers through the narrow [`lightclient::Storage`] interface;
//!   [`mem_store`] holds the in-memory store.
//! * [`piece_cache`] — a fixed-capacity, offset-addressed cache of archived
//!   pieces, specified down to its flat on-disk record image.
//!
//! [`id_map`] carries the finite maps the ledger and the store are built on.

pub mod balances;
pub mod digests;
pub mod id_map;
pub mod lightclient;
pub mod mem_store;
pub mod piece_cache;
pub mod staking;
