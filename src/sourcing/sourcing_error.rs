use vstd::prelude::*;

verus! {

pub type Result<V> = core::result::Result<V, SourcingError>;

#[derive(Debug, Clone, Copy, PartialEq, Eq, Structural)]
pub enum SourcingError {
    NoMoreChars,
    BufferingAlreadyEnabled,
    BufferingAlreadyDisabled,
    BufferingNeedsToBeEnabled,
}

impl SourcingError {
    pub open spec fn spec_description(&self) -> Seq<char> {
        match self {
            SourcingError::NoMoreChars => "no more characters to be read"@,
            SourcingError::BufferingAlreadyEnabled => "buffering already enabled"@,
            SourcingError::BufferingAlreadyDisabled => "buffering already disabled"@,
            SourcingError::BufferingNeedsToBeEnabled => "buffering must be enabled for it to be accessed"@,
        }
    }

    /// A human-readable description of the error.
    pub fn description(&self) -> (r: String)
        ensures
            r@ == self.spec_description(),
    {
        match self {
            SourcingError::NoMoreChars => "no more characters to be read".to_owned(),
            SourcingError::BufferingAlreadyEnabled => "buffering already enabled".to_owned(),
            SourcingError::BufferingAlreadyDisabled => "buffering already disabled".to_owned(),
            SourcingError::BufferingNeedsToBeEnabled => {
                "buffering must be enabled for it to be accessed".to_owned()
            },
        }
    }
}

} // verus!
