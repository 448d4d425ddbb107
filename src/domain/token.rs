use vstd::prelude::*;

use super::source_location::{Column, Line, Offset, SourceLocation};

verus! {

/// A user-defined tag naming what a token is. Implementors compare by value.
pub trait TokenKind: Sized + Eq + core::fmt::Debug {
    fn duplicate(&self) -> (r: Self)
        ensures
            r == *self,
    ;

    fn is_same_kind(&self, other: &Self) -> (r: bool)
        ensures
            r == (*self == *other),
    ;
}

impl TokenKind for () {
    fn duplicate(&self) -> (r: ()) {
        ()
    }

    fn is_same_kind(&self, other: &()) -> (r: bool) {
        true
    }
}

/// A lexeme: where its first character stood, its text, and its kind.
#[derive(Debug)]
pub struct Token<K: TokenKind> {
    pub location: SourceLocation,
    pub text: String,
    pub kind: K,
}

impl<K: TokenKind> Token<K> {
    pub fn new(
        path: String,
        offset: Offset,
        line: Line,
        column: Column,
        text: String,
        kind: K,
    ) -> (r: Self)
        ensures
            r.location.info.path@ == path@,
            r.location.offset == offset,
            r.location.line == line,
            r.location.column == column,
            r.text@ == text@,
            r.kind == kind,
    {
        Self::new_from_location(SourceLocation::new(path, offset, line, column), text, kind)
    }

    pub fn new_from_location(location: SourceLocation, text: String, kind: K) -> (r: Self)
        ensures
            r.location == location,
            r.text == text,
            r.kind == kind,
    {
        Self { location, text, kind }
    }

    /// The same token with its kind erased.
    pub open spec fn kindless(&self) -> Token<()> {
        Token { location: self.location, text: self.text, kind: () }
    }

    pub fn to_kindless(&self) -> (r: Token<()>)
        ensures
            r == self.kindless(),
    {
        Token::new_from_location(self.location.clone(), self.text.clone(), ())
    }

    /// Equal as values: same position, same text, same kind.
    pub open spec fn same_as(&self, other: &Token<K>) -> bool {
        &&& self.location.same_as(&other.location)
        &&& self.text@ == other.text@
        &&& self.kind == other.kind
    }
}

impl<K: TokenKind> Clone for Token<K> {
    fn clone(&self) -> (r: Self)
        ensures
            r == *self,
    {
        Token { location: self.location.clone(), text: self.text.clone(), kind: self.kind.duplicate() }
    }
}

impl<K: TokenKind> PartialEq for Token<K> {
    fn eq(&self, other: &Token<K>) -> (r: bool)
        ensures
            r == self.same_as(other),
    {
        self.location == other.location && self.text == other.text && self.kind.is_same_kind(
            &other.kind,
        )
    }
}

impl<K: TokenKind> Eq for Token<K> {

}

impl<K: TokenKind> vstd::std_specs::cmp::PartialEqSpecImpl for Token<K> {
    open spec fn obeys_eq_spec() -> bool {
        true
    }

    open spec fn eq_spec(&self, other: &Token<K>) -> bool {
        self.same_as(other)
    }
}

} // verus!
