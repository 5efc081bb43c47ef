//! Names of the things that a connection ties together.

use vstd::prelude::*;

verus! {

/// A view of the user interface, here the pane of a terminal.
#[derive(Clone, Copy, Debug, PartialEq, Eq, Structural, Hash)]
pub struct EntityId {
    pub value: u64,
}

/// A session of a shell.
#[derive(Clone, Copy, Debug, PartialEq, Eq, Structural, Hash)]
pub struct SessionId {
    pub value: u64,
}

/// A host on the other side of a connection.
#[derive(Debug)]
pub struct HostId {
    pub value: String,
}

impl Clone for HostId {
    fn clone(&self) -> (copy: Self)
        ensures
            copy == *self,
    {
        HostId { value: self.value.clone() }
    }
}

impl View for HostId {
    type V = Seq<char>;

    open spec fn view(&self) -> Seq<char> {
        self.value@
    }
}

impl HostId {
    /// The host with the given name.
    pub fn new(value: String) -> (id: Self)
        ensures
            id@ == value@,
    {
        HostId { value }
    }

    pub fn as_str(&self) -> (name: &str)
        ensures
            name@ == self@,
    {
        self.value.as_str()
    }
}

} // verus!
