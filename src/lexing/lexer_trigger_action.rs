use vstd::prelude::*;

use crate::domain::token::TokenKind;
use crate::sourcing::read_source::ReadSource;
use crate::parsing::parse::vec_of;
use crate::sourcing::source_reader::{fold_newlines, SourceReader};

verus! {

/// User code run when a trigger's prefix has been matched. It sees the
/// reader with the matched prefix in its buffer, may consume more
/// characters, and returns the kind of token to emit, or `None` to discard
/// the buffer and go on lexing.
pub trait LexerTriggerActionCallback {
    type Kind: TokenKind;

    /// What `call` returns when run on `source_reader`: the callback
    /// decides from the reader it is handed.
    spec fn spec_kind<S: ReadSource>(&self, source_reader: SourceReader<S>) -> Option<Self::Kind>;

    /// How many characters `call` reads on from the (folded) characters
    /// `rest` that are left when it is called; it reads at most all of them.
    spec fn spec_reads(&self, rest: Vec<char>) -> usize;

    /// The characters `call` reads from a reader with `rest` left.
    open spec fn spec_read(&self, rest: Seq<char>) -> Seq<char> {
        let n = self.spec_reads(vec_of(rest));
        if n <= rest.len() {
            rest.take(n as int)
        } else {
            rest
        }
    }

    fn call<S: ReadSource>(&self, source_reader: &mut SourceReader<S>) -> (r: Option<Self::Kind>)
        requires
            old(source_reader).wf(),
        ensures
            final(source_reader).advanced_from(old(source_reader)),
            r == self.spec_kind(*old(source_reader)),
            final(source_reader).consumed_since(old(source_reader)) == self.spec_read(
                fold_newlines(old(source_reader).pending()),
            ),
    ;
}

/// The action attached to a state of the trigger automaton.
pub struct LexerTriggerAction<C> {
    callback: C,
}

impl<C> LexerTriggerAction<C> {
    pub closed spec fn spec_callback(&self) -> C {
        self.callback
    }

    pub fn new(callback: C) -> (r: Self)
        ensures
            r.spec_callback() == callback,
    {
        Self { callback }
    }

    pub fn callback(&self) -> (r: &C)
        ensures
            *r == self.spec_callback(),
    {
        &self.callback
    }
}

} // verus!
