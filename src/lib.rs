//! Conversion between the native values of a time-series database (atoms,
//! simple and compound lists, dictionaries, tables) and protobuf messages
//! whose shape is known only at run time, through their descriptors.
//!
//! Encoding turns a dictionary into a dynamic message of a named type;
//! decoding turns a dynamic message back into a dictionary, keeping its values
//! in a simple list while they are atoms of one kind and widening to a
//! compound list otherwise. The database's temporal types and symbols travel
//! as the single-field wrapper messages of the `q` package. Reading and
//! writing the wire format is left to the caller.

pub mod native;
pub mod schema;
pub mod proto;
pub mod error;
pub mod registry;
pub mod scalar;
pub mod widen;
pub mod encode;
pub mod decode;
pub mod codec;
pub mod laws;
pub mod roundtrip;
pub mod wrappers;
pub mod example;
pub mod grammar;
