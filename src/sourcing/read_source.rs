use vstd::prelude::*;

use super::sourcing_error::{Result, SourcingError};
use crate::domain::source_info::SourceInfo;

verus! {

/// A stream of decoded characters with an offset into the raw input.
pub trait ReadSource {
    /// The characters not consumed yet.
    spec fn rest(&self) -> Seq<char>;

    /// The current offset into the raw input.
    spec fn spec_offset(&self) -> usize;

    spec fn spec_info(&self) -> SourceInfo;

    /// Whether the offset counts characters: it grows by one for each
    /// character consumed.
    spec fn counts_chars(&self) -> bool;

    fn info(&self) -> (r: &SourceInfo)
        ensures
            *r == self.spec_info(),
    ;

    fn offset(&self) -> (r: usize)
        ensures
            r == self.spec_offset(),
    ;

    /// Whether any character is left; may prefetch, but consumes nothing.
    fn has_more(&mut self) -> (r: bool)
        ensures
            r == (old(self).rest().len() > 0),
            final(self).rest() == old(self).rest(),
            final(self).spec_offset() == old(self).spec_offset(),
            final(self).spec_info() == old(self).spec_info(),
            final(self).counts_chars() == old(self).counts_chars(),
    ;

    /// The next character, which stays unconsumed.
    fn peek_next(&mut self) -> (r: Result<char>)
        ensures
            old(self).rest().len() > 0 ==> r == Ok::<char, SourcingError>(old(self).rest()[0]),
            old(self).rest().len() == 0 ==> r == Err::<char, SourcingError>(
                SourcingError::NoMoreChars,
            ),
            final(self).rest() == old(self).rest(),
            final(self).spec_offset() == old(self).spec_offset(),
            final(self).spec_info() == old(self).spec_info(),
            final(self).counts_chars() == old(self).counts_chars(),
    ;

    /// Consumes the next character.
    fn eat_next(&mut self) -> (r: Result<char>)
        ensures
            old(self).rest().len() > 0 ==> {
                &&& r == Ok::<char, SourcingError>(old(self).rest()[0])
                &&& final(self).rest() == old(self).rest().skip(1)
                &&& old(self).counts_chars() ==> final(self).spec_offset() == old(
                    self,
                ).spec_offset() + 1
            },
            old(self).rest().len() == 0 ==> {
                &&& r == Err::<char, SourcingError>(SourcingError::NoMoreChars)
                &&& final(self).rest() == old(self).rest()
                &&& final(self).spec_offset() == old(self).spec_offset()
            },
            final(self).spec_info() == old(self).spec_info(),
            final(self).counts_chars() == old(self).counts_chars(),
    ;
}

} // verus!
