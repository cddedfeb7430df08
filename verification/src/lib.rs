//! Lowering of a serialized RVSDG (regions, nodes, ports, edges) into a flat,
//! hash-consed term store suitable for equality-saturation-based rewriting.

pub mod attrs;
pub mod errors;
pub mod events;
pub mod ident;
pub mod laws;
pub mod lower;
pub mod roundtrip;
pub mod source;
pub mod store;
pub mod table;
pub mod term;
pub mod text;

pub use attrs::Attributes;
pub use errors::LowerError;
pub use events::Event;
pub use ident::{edge_ident, egg_id_from_str, EggIdParseErr, EggIdWrapper};
pub use lower::{lower_events, partition_results};
pub use store::TermStore;
pub use table::IdTable;
pub use term::{TermId, RVSDG};
