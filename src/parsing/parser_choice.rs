use vstd::prelude::*;

use super::parse::{Parser, ParserAction, ParserChoice};
use super::parsing_error::{ParsingError, ParsingErrorView};
use crate::domain::token::TokenKind;

verus! {

/// Collects the alternatives of a choice parser, in the order tried.
pub struct ParserChoiceBuilder<K: TokenKind, A: ParserAction> {
    choices: Vec<Parser<K, A>>,
}

impl<K: TokenKind, A: ParserAction> ParserChoiceBuilder<K, A> {
    pub closed spec fn spec_choices(&self) -> Seq<Parser<K, A>> {
        self.choices@
    }

    /// Appends an alternative.
    pub fn choices(self, value: Parser<K, A>) -> (r: Self)
        ensures
            r.spec_choices() == self.spec_choices().push(value),
    {
        let mut choices = self.choices;
        choices.push(value);
        Self { choices }
    }

    /// Fails when there is no alternative.
    pub fn build(self) -> (r: Result<ParserChoice<K, A>, ParsingError<K>>)
        ensures
            self.spec_choices().len() == 0 ==> r is Err && r->Err_0.view() == ParsingErrorView::<K>::RequiredParserFieldMissing("choices"@),
            self.spec_choices().len() > 0 ==> {
                &&& r is Ok
                &&& r->Ok_0.spec_choices() == self.spec_choices()
            },
    {
        if self.choices.len() == 0 {
            return Err(ParsingError::RequiredParserFieldMissing("choices".to_owned()));
        }
        Ok(ParserChoice::from_parts(self.choices))
    }
}

impl<K: TokenKind, A: ParserAction> Default for ParserChoiceBuilder<K, A> {
    fn default() -> (r: Self)
        ensures
            r.spec_choices() == Seq::<Parser<K, A>>::empty(),
    {
        Self { choices: Vec::new() }
    }
}

} // verus!
