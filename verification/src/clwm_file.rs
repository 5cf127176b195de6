//! The world descriptor: which storage backend to open and where.

use vstd::prelude::*;

use crate::data_interface::DataInterfaceType;

verus! {

/// The contents of a world file: a connection locator and the backend
/// kind. Reading and writing the file itself is the caller's concern.
#[derive(Debug, PartialEq)]
pub struct ClwmFile {
    pub url: String,
    pub data_interface: DataInterfaceType,
}

impl Clone for ClwmFile {
    /// A clone names the same locator and backend.
    fn clone(&self) -> (r: Self)
        ensures
            r.url@ == self.url@,
            r.data_interface == self.data_interface,
    {
        ClwmFile { url: self.url.clone(), data_interface: self.data_interface }
    }
}

} // verus!
