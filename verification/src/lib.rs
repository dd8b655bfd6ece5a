//! A non-interactive, tree-structured Bitcoin UTXO-sharing pool ("CTV pool").
//!
//! N users deposit into one shared taproot output; users may withdraw one at a
//! time over a sequence of pre-committed transactions.  Every possible future
//! transaction is committed at pool-creation time through a template-hash
//! covenant, so no per-withdrawal interactive signing is needed.
//!
//! The crate provides the covenant-tree construction and resolution engine:
//! template commitments for transactions that do not yet exist, covenant
//! script leaves, taproot outputs per tree node, the combinatorial tree over
//! every possible exit order, and the resolver that, at settlement time,
//! produces the transaction and witness matching a node's commitment.

pub mod encode;
pub mod errors;
pub mod funding;
pub mod laws;
pub mod paths;
pub mod resolve;
pub mod script;
pub mod taproot;
pub mod template;
pub mod tree;
