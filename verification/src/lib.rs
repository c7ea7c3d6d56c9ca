//! Quark (QRK): an experimental proof-of-stake ledger in which validators
//! collect quarks, combine them into hadrons and stake those hadrons.
//!
//! The library holds the chain, the ledger, the validator draw, the
//! transaction and wallet formats, and the decisions a node takes. Its
//! functions are verified against their contracts; the calls into hashing,
//! signature, key-derivation, encryption and randomness crates stand behind
//! small trusted wrappers (mostly in `crypto`) whose contracts say what is
//! assumed of them.

pub mod text;
pub mod base58;
pub mod crypto;
pub mod quark;
pub mod validator;
pub mod wallet;
pub mod transaction;
pub mod ledger;
pub mod block;
pub mod node;
