//! The identifier a container runtime assigns to a container.
use vstd::prelude::*;

verus! {

/// An opaque runtime-assigned container identifier, string-wrapped for type
/// safety.  Values are never invented locally, only learned from the runtime.
#[derive(Debug, Eq, PartialEq, Hash)]
pub struct ContainerId {
    id: String,
}

impl ContainerId {
    /// The character sequence this identifier wraps.
    pub closed spec fn view(&self) -> Seq<char> {
        self.id@
    }

    pub fn new(id: String) -> (r: Self)
        ensures
            r@ == id@,
    {
        Self { id }
    }

    pub fn as_str(&self) -> (r: &str)
        ensures
            r@ == self@,
    {
        self.id.as_str()
    }
}

impl Clone for ContainerId {
    fn clone(&self) -> (r: Self)
        ensures
            r == *self,
    {
        ContainerId { id: self.id.clone() }
    }
}

} // verus!
