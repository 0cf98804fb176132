//! A typed, recursively composable codec that carries proof-shaped values
//! from host memory into the witness stream of a recursive circuit.
//!
//! Encoding flattens a value into an ordered stream of chunks of base-field
//! elements.  Decoding replays the matching sequence of read requests against
//! such a stream and rebuilds a value of the same shape.  The stream carries
//! no tags: the two sides stay in step only because they visit the same
//! fields in the same order.  Both directions are specified over sequences of
//! natural numbers, and decoding is proved to undo encoding for every type
//! that has a codec.
//!
//! - [`field`]: the base field, its extension and digests;
//! - [`vars`]: the variables and arrays that decoding rebuilds;
//! - [`reader`]: the read environment, which replays a stream;
//! - [`hints`]: the codec trait and the codecs of scalars and digests;
//! - [`containers`]: the codecs of lists;
//! - [`record`]: the codecs of records, field by field;
//! - [`proof_shape`]: the codecs of the proof object graph;
//! - [`prover`]: the provers whose proofs the codec carries;
//! - [`laws`]: what holds of the codec as a whole;
//! - [`error`]: the ways in which the codec refuses its input.

pub mod containers;
pub mod error;
pub mod field;
pub mod hints;
pub mod laws;
pub mod proof_shape;
pub mod prover;
pub mod reader;
pub mod record;
pub mod vars;
