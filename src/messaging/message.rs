use vstd::prelude::*;

use crate::domain::source_info::SourceInfo;
use crate::domain::source_location::SourceLocation;
use crate::domain::token::Token;

verus! {

#[derive(Debug, Clone, Copy, PartialEq, Eq, Structural, Hash)]
pub enum Severity {
    Note,
    Info,
    Warning,
    Error,
    FatalError,
    InternalWarning,
    InternalError,
}

impl Severity {
    pub open spec fn spec_index(&self) -> int {
        match self {
            Severity::Note => 0,
            Severity::Info => 1,
            Severity::Warning => 2,
            Severity::Error => 3,
            Severity::FatalError => 4,
            Severity::InternalWarning => 5,
            Severity::InternalError => 6,
        }
    }

    /// A dense number for each severity, from 0 to 6.
    pub fn index(&self) -> (r: usize)
        ensures
            r == self.spec_index(),
    {
        match self {
            Severity::Note => 0,
            Severity::Info => 1,
            Severity::Warning => 2,
            Severity::Error => 3,
            Severity::FatalError => 4,
            Severity::InternalWarning => 5,
            Severity::InternalError => 6,
        }
    }
}

/// What a message is about.
#[derive(Debug)]
pub enum MessageSource {
    Global,
    Source { source: SourceInfo },
    Location { location: SourceLocation },
    Token { token: Token<()> },
}

#[derive(Debug)]
pub struct Message {
    pub source: MessageSource,
    pub severity: Severity,
    pub description: String,
}

impl Message {
    pub fn new_global(severity: Severity, description: String) -> (r: Self)
        ensures
            r.source is Global,
            r.severity == severity,
            r.description == description,
    {
        Self { source: MessageSource::Global, severity, description }
    }

    pub fn new_source(source: SourceInfo, severity: Severity, description: String) -> (r: Self)
        ensures
            r.source == (MessageSource::Source { source }),
            r.severity == severity,
            r.description == description,
    {
        Self { source: MessageSource::Source { source }, severity, description }
    }

    pub fn new_location(location: SourceLocation, severity: Severity, description: String) -> (r:
        Self)
        ensures
            r.source == (MessageSource::Location { location }),
            r.severity == severity,
            r.description == description,
    {
        Self { source: MessageSource::Location { location }, severity, description }
    }

    pub fn new_token(token: Token<()>, severity: Severity, description: String) -> (r: Self)
        ensures
            r.source == (MessageSource::Token { token }),
            r.severity == severity,
            r.description == description,
    {
        Self { source: MessageSource::Token { token }, severity, description }
    }
}

} // verus!
