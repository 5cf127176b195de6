//! The closed set of storage backend kinds a world file can name.

use vstd::prelude::*;

verus! {

/// The kind of storage backend a world file points at.
#[derive(Debug, Copy, Clone, PartialEq, Eq, PartialOrd, Ord, Structural)]
pub enum DataInterfaceType {
    Sqlite,
}

} // verus!
