use vstd::prelude::*;

verus! {

/// Names a state of an automaton; states are numbered from 0 in order of creation.
pub type DFSAId = usize;

/// A symbol that an automaton reads; implementors compare by value.
pub trait DFSAElement: Sized {
    fn is_same_element(&self, other: &Self) -> (r: bool)
        ensures
            r == (*self == *other),
    ;
}

impl DFSAElement for char {
    fn is_same_element(&self, other: &char) -> (r: bool) {
        *self == *other
    }
}

} // verus!
