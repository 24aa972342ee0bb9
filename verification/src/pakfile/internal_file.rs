//! A file stored inside a pak, held in memory.

use vstd::prelude::*;

verus! {

/// This is a file that is stored inside the pak file.
/// These should not be edited; any edit means creating a new `InternalFile`.
pub struct InternalFile {
    data: Vec<u8>,
}

impl View for InternalFile {
    type V = Seq<u8>;

    closed spec fn view(&self) -> Seq<u8> {
        self.data@
    }
}

impl InternalFile {
    /// Holds `data` as the contents of a file.
    pub fn new(data: Vec<u8>) -> (r: InternalFile)
        ensures
            r@ == data@,
    {
        InternalFile { data }
    }

    /// The contents of the file.
    pub fn data(&self) -> (r: &[u8])
        ensures
            r@ == self@,
    {
        self.data.as_slice()
    }
}

} // verus!
