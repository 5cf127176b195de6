//! A typed attribute/data-model engine with transactional change tracking.
//!
//! The library defines a recursive schema language (`DataTypeDefinition`),
//! a matching value language (`DataObject`), a validator that checks a value
//! against a schema, the persistent entity records (nouns, noun types,
//! versioned data types, attribute types, attributes) with their paired
//! history records, and a world engine that performs every mutation
//! atomically while recording a textual diff of the change.

use vstd::prelude::*;

pub mod clwm_error;
pub mod clwm_file;
pub mod codec;
pub mod data_interface;
pub mod diff;
pub mod model;
pub mod validate;
pub mod world;

verus! {

} // verus!
