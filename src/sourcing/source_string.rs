use vstd::prelude::*;
use vstd::std_specs::iter::IteratorSpec;

use super::read_source::ReadSource;
use super::sourcing_error::{Result, SourcingError};
use crate::domain::source_info::SourceInfo;

verus! {

/// The characters of `data`, in order.
pub fn chars_of(data: &str) -> (r: Vec<char>)
    ensures
        r@ == data@,
{
    broadcast use vstd::string::group_string_axioms;

    let mut chars: Vec<char> = Vec::new();
    let mut iter = data.chars();
    loop
        invariant
            iter.obeys_prophetic_iter_laws(),
            iter.decrease() is Some,
            chars@ + iter.remaining() == data@,
        ensures
            chars@ == data@,
        decreases iter.decrease()->0,
    {
        match iter.next() {
            Some(c) => {
                chars.push(c);
            },
            None => {
                assert(chars@ =~= data@);
                break;
            },
        }
    }
    chars
}

/// A character source over an in-memory string; the offset counts characters.
pub struct SourceString {
    info: SourceInfo,
    chars: Vec<char>,
    offset: usize,
}

impl SourceString {
    #[verifier::type_invariant]
    spec fn inv(&self) -> bool {
        self.offset <= self.chars.len()
    }

    pub fn new(info: SourceInfo, data: &str) -> (r: Self)
        ensures
            r.rest() == data@,
            r.spec_offset() == 0,
            r.spec_info() == info,
            r.counts_chars(),
    {
        let chars = chars_of(data);
        assert(chars@.skip(0) =~= chars@);
        SourceString { info, chars, offset: 0 }
    }
}

impl ReadSource for SourceString {
    closed spec fn rest(&self) -> Seq<char> {
        self.chars@.skip(self.offset as int)
    }

    closed spec fn spec_offset(&self) -> usize {
        self.offset
    }

    closed spec fn spec_info(&self) -> SourceInfo {
        self.info
    }

    open spec fn counts_chars(&self) -> bool {
        true
    }

    fn info(&self) -> (r: &SourceInfo) {
        &self.info
    }

    fn offset(&self) -> (r: usize) {
        self.offset
    }

    fn has_more(&mut self) -> (r: bool) {
        proof {
            use_type_invariant(&*self);
        }
        self.offset < self.chars.len()
    }

    fn peek_next(&mut self) -> (r: Result<char>) {
        proof {
            use_type_invariant(&*self);
        }
        if self.offset < self.chars.len() {
            Ok(self.chars[self.offset])
        } else {
            Err(SourcingError::NoMoreChars)
        }
    }

    fn eat_next(&mut self) -> (r: Result<char>) {
        proof {
            use_type_invariant(&*self);
        }
        if self.offset < self.chars.len() {
            let c = self.chars[self.offset];
            self.offset = self.offset + 1;
            proof {
                assert(self.chars@.skip(self.offset as int) =~= old(self).chars@.skip(
                    old(self).offset as int,
                ).skip(1));
            }
            Ok(c)
        } else {
            Err(SourcingError::NoMoreChars)
        }
    }
}

} // verus!
