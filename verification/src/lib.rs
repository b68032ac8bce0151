//! Verified core of the Orbis individuality pallets: label validation,
//! order-preserving integer encodings, ring state, the names registry and the
//! ring-root notifier.
pub mod labels;
pub mod big_endian;
pub mod reality;
pub mod ring_root;
pub mod scale;
pub mod hashing;
pub mod table;
pub mod keyed;
pub mod names;
pub mod names_index;
pub mod names_laws;
pub mod notifier;
pub mod members;
pub mod pgas;
pub mod names_api;
pub mod weights;
pub mod genesis;
