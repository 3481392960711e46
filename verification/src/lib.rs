//! An embeddable, transactional, typed property-graph store with a small
//! traversal DSL.
//!
//! Vertices, edges and parameter bindings are identified by `Id` values
//! (a kind tag plus a 128-bit monotonic ULID), serialized through a
//! deterministic binary codec, and kept in a six-table store with
//! label and parameter secondary indexes. Traversals are built as
//! `Bytecode` instruction streams and executed against a transaction.

pub mod bytecode;
pub mod codec;
pub mod convert;
pub mod error;
pub mod graph;
pub mod ids;
pub mod laws;
pub mod pvalue;
pub mod store;
pub mod traversal;

pub use bytecode::{Bytecode, Instruction};
pub use codec::HexOrder;
pub use convert::{FromPValue, PValueRoundTrip, ToPValue};
pub use error::Error;
pub use graph::{Graph, ReadTxn, WriteTxn};
pub use ids::{Id, IdGen, Ids, Type};
pub use pvalue::{Edge, PValue, Vertex};
pub use store::Store;
pub use traversal::{GraphTraversal, RWTraversalSource, TraversalBuilder, TraversalTerminator};
