use vstd::prelude::*;

use super::parse::{Parser, ParserAction, ParserSequential};
use super::parsing_error::{ParsingError, ParsingErrorView};
use crate::domain::token::TokenKind;

verus! {

/// Collects the fields of a sequence parser: its sub-parsers, in order,
/// and the action that builds its node.
pub struct ParserSequentialBuilder<K: TokenKind, A: ParserAction> {
    sequence: Vec<Parser<K, A>>,
    action: Option<A>,
}

impl<K: TokenKind, A: ParserAction> ParserSequentialBuilder<K, A> {
    pub closed spec fn spec_sequence(&self) -> Seq<Parser<K, A>> {
        self.sequence@
    }

    pub closed spec fn spec_action(&self) -> Option<A> {
        self.action
    }

    /// Appends a sub-parser.
    pub fn sequence(self, value: Parser<K, A>) -> (r: Self)
        ensures
            r.spec_sequence() == self.spec_sequence().push(value),
            r.spec_action() == self.spec_action(),
    {
        let mut sequence = self.sequence;
        sequence.push(value);
        Self { sequence, action: self.action }
    }

    pub fn action(self, value: A) -> (r: Self)
        ensures
            r.spec_sequence() == self.spec_sequence(),
            r.spec_action() == Some(value),
    {
        Self { sequence: self.sequence, action: Some(value) }
    }

    /// Fails when there is no sub-parser (checked first) or no action.
    pub fn build(self) -> (r: Result<ParserSequential<K, A>, ParsingError<K>>)
        ensures
            self.spec_sequence().len() == 0 ==> r is Err && r->Err_0.view() == ParsingErrorView::<K>::RequiredParserFieldMissing("sequence"@),
            self.spec_sequence().len() > 0 && self.spec_action() is None ==> r is Err && r->Err_0.view() == ParsingErrorView::<K>::RequiredParserFieldMissing("action"@),
            self.spec_sequence().len() > 0 && self.spec_action() is Some ==> {
                &&& r is Ok
                &&& r->Ok_0.spec_sequence() == self.spec_sequence()
                &&& r->Ok_0.spec_action() == self.spec_action()->Some_0
            },
    {
        if self.sequence.len() == 0 {
            return Err(ParsingError::RequiredParserFieldMissing("sequence".to_owned()));
        }
        match self.action {
            None => Err(ParsingError::RequiredParserFieldMissing("action".to_owned())),
            Some(action) => Ok(ParserSequential::from_parts(self.sequence, action)),
        }
    }
}

impl<K: TokenKind, A: ParserAction> Default for ParserSequentialBuilder<K, A> {
    fn default() -> (r: Self)
        ensures
            r.spec_sequence() == Seq::<Parser<K, A>>::empty(),
            r.spec_action() is None,
    {
        Self { sequence: Vec::new(), action: None }
    }
}

} // verus!
