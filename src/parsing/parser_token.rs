use vstd::prelude::*;

use super::parse::{ParserAction, ParserToken};
use super::parsing_error::{ParsingError, ParsingErrorView};
use crate::domain::token::TokenKind;

verus! {

/// Collects the fields of a terminal parser: the kind to match and the
/// action that builds its node.
pub struct ParserTokenBuilder<K: TokenKind, A: ParserAction> {
    token_kind: Option<K>,
    action: Option<A>,
}

impl<K: TokenKind, A: ParserAction> ParserTokenBuilder<K, A> {
    pub closed spec fn spec_token_kind(&self) -> Option<K> {
        self.token_kind
    }

    pub closed spec fn spec_action(&self) -> Option<A> {
        self.action
    }

    pub fn token_kind(self, value: K) -> (r: Self)
        ensures
            r.spec_token_kind() == Some(value),
            r.spec_action() == self.spec_action(),
    {
        Self { token_kind: Some(value), action: self.action }
    }

    pub fn action(self, value: A) -> (r: Self)
        ensures
            r.spec_token_kind() == self.spec_token_kind(),
            r.spec_action() == Some(value),
    {
        Self { token_kind: self.token_kind, action: Some(value) }
    }

    /// Fails when the kind (checked first) or the action is missing.
    pub fn build(self) -> (r: Result<ParserToken<K, A>, ParsingError<K>>)
        ensures
            self.spec_token_kind() is None ==> r is Err && r->Err_0.view() == ParsingErrorView::<K>::RequiredParserFieldMissing("token_kind"@),
            self.spec_token_kind() is Some && self.spec_action() is None ==> r is Err && r->Err_0.view() == ParsingErrorView::<K>::RequiredParserFieldMissing("action"@),
            self.spec_token_kind() is Some && self.spec_action() is Some ==> {
                &&& r is Ok
                &&& r->Ok_0.spec_kind() == self.spec_token_kind()->Some_0
                &&& r->Ok_0.spec_action() == self.spec_action()->Some_0
            },
    {
        match self.token_kind {
            None => Err(ParsingError::RequiredParserFieldMissing("token_kind".to_owned())),
            Some(token_kind) => match self.action {
                None => Err(ParsingError::RequiredParserFieldMissing("action".to_owned())),
                Some(action) => Ok(ParserToken::from_parts(token_kind, action)),
            },
        }
    }
}

impl<K: TokenKind, A: ParserAction> Default for ParserTokenBuilder<K, A> {
    fn default() -> (r: Self)
        ensures
            r.spec_token_kind() is None,
            r.spec_action() is None,
    {
        Self { token_kind: None, action: None }
    }
}

} // verus!
