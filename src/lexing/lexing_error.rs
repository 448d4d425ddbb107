use vstd::prelude::*;

use super::dfsa_error::DFSAError;
use crate::sourcing::source_reader::push_char;
use crate::sourcing::sourcing_error::SourcingError;
use vstd::string::StringExecFns;

verus! {

pub type Result<T> = core::result::Result<T, LexingError>;

#[derive(Debug)]
pub enum LexingError {
    DFSAError(DFSAError),
    SourcingError(SourcingError),
    UnexpectedCharacter(char),
    UnexpectedEndOfSource,
    DuplicateTrigger(String),
}

impl LexingError {
    /// Equal as values; a trigger prefix compares by its characters.
    pub open spec fn same_as(&self, other: &LexingError) -> bool {
        match *self {
            LexingError::DFSAError(a) => other matches LexingError::DFSAError(b) && a == b,
            LexingError::SourcingError(a) => other matches LexingError::SourcingError(b) && a == b,
            LexingError::UnexpectedCharacter(a) => other matches LexingError::UnexpectedCharacter(b)
                && a == b,
            LexingError::UnexpectedEndOfSource => other is UnexpectedEndOfSource,
            LexingError::DuplicateTrigger(a) => other matches LexingError::DuplicateTrigger(b) && a@
                == b@,
        }
    }
}

/// How a character is written inside quotes: line feed, carriage return,
/// tab, NUL, backslash and single quote as escape sequences, any other
/// character as itself.
pub open spec fn escaped_char(c: char) -> Seq<char> {
    if c == '\n' {
        seq!['\\', 'n']
    } else if c == '\r' {
        seq!['\\', 'r']
    } else if c == '\t' {
        seq!['\\', 't']
    } else if c == '\0' {
        seq!['\\', '0']
    } else if c == '\\' {
        seq!['\\', '\\']
    } else if c == '\'' {
        seq!['\\', '\'']
    } else {
        seq![c]
    }
}

/// Appends `c` to `s`, escaped as `escaped_char` says.
pub fn push_escaped(s: &mut String, c: char)
    ensures
        final(s)@ == old(s)@ + escaped_char(c),
{
    let escape = if c == '\n' {
        Some('n')
    } else if c == '\r' {
        Some('r')
    } else if c == '\t' {
        Some('t')
    } else if c == '\0' {
        Some('0')
    } else if c == '\\' || c == '\'' {
        Some(c)
    } else {
        None
    };
    match escape {
        Some(e) => {
            push_char(s, '\\');
            push_char(s, e);
        },
        None => {
            push_char(s, c);
        },
    }
    assert(final(s)@ =~= old(s)@ + escaped_char(c));
}

impl LexingError {
    pub open spec fn spec_description(&self) -> Seq<char> {
        match self {
            LexingError::DFSAError(e) => "dfsa error: "@ + e.spec_description(),
            LexingError::SourcingError(e) => "sourcing error: "@ + e.spec_description(),
            LexingError::UnexpectedCharacter(c) => "unexpected character: '"@ + escaped_char(*c) + seq!['\''],
            LexingError::UnexpectedEndOfSource => "unexpected end of source"@,
            LexingError::DuplicateTrigger(prefix) => "duplicate trigger \""@ + prefix@ + seq!['"'],
        }
    }

    /// A human-readable description of the error.
    pub fn description(&self) -> (r: String)
        ensures
            r@ == self.spec_description(),
    {
        match self {
            LexingError::DFSAError(e) => {
                let mut s = "dfsa error: ".to_owned();
                s.append(e.description().as_str());
                s
            },
            LexingError::SourcingError(e) => {
                let mut s = "sourcing error: ".to_owned();
                s.append(e.description().as_str());
                s
            },
            LexingError::UnexpectedCharacter(c) => {
                let mut s = "unexpected character: '".to_owned();
                push_escaped(&mut s, *c);
                push_char(&mut s, '\'');
                assert(s@ =~= self.spec_description());
                s
            },
            LexingError::UnexpectedEndOfSource => "unexpected end of source".to_owned(),
            LexingError::DuplicateTrigger(prefix) => {
                let mut s = "duplicate trigger \"".to_owned();
                s.append(prefix.as_str());
                push_char(&mut s, '"');
                s
            },
        }
    }
}

impl PartialEq for LexingError {
    fn eq(&self, other: &LexingError) -> (r: bool)
        ensures
            r == self.same_as(other),
    {
        match self {
            LexingError::DFSAError(a) => match other {
                LexingError::DFSAError(b) => *a == *b,
                _ => false,
            },
            LexingError::SourcingError(a) => match other {
                LexingError::SourcingError(b) => *a == *b,
                _ => false,
            },
            LexingError::UnexpectedCharacter(a) => match other {
                LexingError::UnexpectedCharacter(b) => *a == *b,
                _ => false,
            },
            LexingError::UnexpectedEndOfSource => match other {
                LexingError::UnexpectedEndOfSource => true,
                _ => false,
            },
            LexingError::DuplicateTrigger(a) => match other {
                LexingError::DuplicateTrigger(b) => *a == *b,
                _ => false,
            },
        }
    }
}

impl vstd::std_specs::cmp::PartialEqSpecImpl for LexingError {
    open spec fn obeys_eq_spec() -> bool {
        true
    }

    open spec fn eq_spec(&self, other: &LexingError) -> bool {
        self.same_as(other)
    }
}

impl From<DFSAError> for LexingError {
    fn from(other: DFSAError) -> (r: Self)
        ensures
            r == LexingError::DFSAError(other),
    {
        LexingError::DFSAError(other)
    }
}

impl vstd::std_specs::convert::FromSpecImpl<DFSAError> for LexingError {
    open spec fn obeys_from_spec() -> bool {
        true
    }

    open spec fn from_spec(v: DFSAError) -> LexingError {
        LexingError::DFSAError(v)
    }
}

impl From<SourcingError> for LexingError {
    fn from(other: SourcingError) -> (r: Self)
        ensures
            r == LexingError::SourcingError(other),
    {
        LexingError::SourcingError(other)
    }
}

impl vstd::std_specs::convert::FromSpecImpl<SourcingError> for LexingError {
    open spec fn obeys_from_spec() -> bool {
        true
    }

    open spec fn from_spec(v: SourcingError) -> LexingError {
        LexingError::SourcingError(v)
    }
}

} // verus!
