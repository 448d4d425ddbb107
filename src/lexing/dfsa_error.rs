use vstd::prelude::*;

use super::dfsa_types::DFSAId;
use crate::sourcing::source_reader::push_char;
use vstd::string::StringExecFns;

verus! {

pub type Result<V> = core::result::Result<V, DFSAError>;

#[derive(Debug, Clone, Copy, PartialEq, Eq, Structural)]
pub enum DFSAError {
    NoStartId,
    OutOfRangeId(DFSAId),
    StateHasNoAction(DFSAId),
    TransitionAlreadyExists,
    NoSuchTransition,
}

/// The character of the decimal digit `d`.
pub open spec fn digit_char(d: int) -> char {
    if d == 0 {
        '0'
    } else if d == 1 {
        '1'
    } else if d == 2 {
        '2'
    } else if d == 3 {
        '3'
    } else if d == 4 {
        '4'
    } else if d == 5 {
        '5'
    } else if d == 6 {
        '6'
    } else if d == 7 {
        '7'
    } else if d == 8 {
        '8'
    } else {
        '9'
    }
}

/// The decimal digits of `n`, most significant first.
pub open spec fn decimal(n: nat) -> Seq<char>
    decreases n,
{
    if n < 10 {
        seq![digit_char(n as int)]
    } else {
        decimal(n / 10) + seq![digit_char((n % 10) as int)]
    }
}

fn digit(d: usize) -> (r: char)
    requires
        d < 10,
    ensures
        r == digit_char(d as int),
{
    match d {
        0 => '0',
        1 => '1',
        2 => '2',
        3 => '3',
        4 => '4',
        5 => '5',
        6 => '6',
        7 => '7',
        8 => '8',
        _ => '9',
    }
}

/// Appends the decimal digits of `n` to `s`.
pub fn push_decimal(s: &mut String, n: usize)
    ensures
        final(s)@ == old(s)@ + decimal(n as nat),
    decreases n,
{
    if n >= 10 {
        push_decimal(s, n / 10);
    }
    push_char(s, digit(n % 10));
    proof {
        if n >= 10 {
            assert(final(s)@ =~= old(s)@ + decimal(n as nat));
        } else {
            assert(final(s)@ =~= old(s)@ + decimal(n as nat));
        }
    }
}

impl DFSAError {
    pub open spec fn spec_description(&self) -> Seq<char> {
        match self {
            DFSAError::NoStartId => "no start id specified"@,
            DFSAError::OutOfRangeId(id) => "out of range id: "@ + decimal(*id as nat),
            DFSAError::StateHasNoAction(id) => "state "@ + decimal(*id as nat) + " has no action"@,
            DFSAError::TransitionAlreadyExists => "transition already exists"@,
            DFSAError::NoSuchTransition => "no such transition exists on element"@,
        }
    }

    /// A human-readable description of the error.
    pub fn description(&self) -> (r: String)
        ensures
            r@ == self.spec_description(),
    {
        match self {
            DFSAError::NoStartId => "no start id specified".to_owned(),
            DFSAError::OutOfRangeId(id) => {
                let mut s = "out of range id: ".to_owned();
                push_decimal(&mut s, *id);
                s
            },
            DFSAError::StateHasNoAction(id) => {
                let mut s = "state ".to_owned();
                push_decimal(&mut s, *id);
                s.append(" has no action");
                s
            },
            DFSAError::TransitionAlreadyExists => "transition already exists".to_owned(),
            DFSAError::NoSuchTransition => "no such transition exists on element".to_owned(),
        }
    }
}

} // verus!
