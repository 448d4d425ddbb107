use vstd::prelude::*;

verus! {

/// Names the source that characters are read from (usually a file path).
#[derive(Debug)]
pub struct SourceInfo {
    pub path: String,
}

impl SourceInfo {
    pub fn new(path: String) -> (r: Self)
        ensures
            r.path@ == path@,
    {
        SourceInfo { path }
    }
}

impl Clone for SourceInfo {
    fn clone(&self) -> (r: Self)
        ensures
            r == *self,
    {
        SourceInfo { path: self.path.clone() }
    }
}

impl PartialEq for SourceInfo {
    fn eq(&self, other: &SourceInfo) -> (r: bool)
        ensures
            r == (self.path@ == other.path@),
    {
        self.path == other.path
    }
}

impl Eq for SourceInfo {

}

impl vstd::std_specs::cmp::PartialEqSpecImpl for SourceInfo {
    open spec fn obeys_eq_spec() -> bool {
        true
    }

    open spec fn eq_spec(&self, other: &SourceInfo) -> bool {
        self.path@ == other.path@
    }
}

} // verus!
