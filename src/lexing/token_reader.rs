use vstd::prelude::*;

use crate::domain::token::{Token, TokenKind};

verus! {

/// An upstream of tokens, handed out one at a time.
pub trait TokenSource {
    type Kind: TokenKind;

    /// The tokens not handed out yet.
    spec fn rest(&self) -> Seq<Token<Self::Kind>>;

    fn next_token(&mut self) -> (r: Option<Token<Self::Kind>>)
        ensures
            old(self).rest().len() > 0 ==> {
                &&& r == Some(old(self).rest()[0])
                &&& final(self).rest() == old(self).rest().skip(1)
            },
            old(self).rest().len() == 0 ==> {
                &&& r is None
                &&& final(self).rest() == old(self).rest()
            },
    ;
}

/// Tokens held in memory, handed out in order.
pub struct TokenVec<K: TokenKind> {
    tokens: Vec<Token<K>>,
    next: usize,
}

impl<K: TokenKind> TokenVec<K> {
    pub fn new(tokens: Vec<Token<K>>) -> (r: Self)
        ensures
            r.rest() == tokens@,
    {
        let r = TokenVec { tokens, next: 0 };
        assert(r.tokens@.skip(0) =~= r.tokens@);
        r
    }
}

impl<K: TokenKind> TokenSource for TokenVec<K> {
    type Kind = K;

    closed spec fn rest(&self) -> Seq<Token<K>> {
        if self.next <= self.tokens@.len() {
            self.tokens@.skip(self.next as int)
        } else {
            Seq::empty()
        }
    }

    fn next_token(&mut self) -> (r: Option<Token<K>>) {
        if self.next < self.tokens.len() {
            let token = self.tokens[self.next].clone();
            self.next = self.next + 1;
            assert(self.tokens@.skip(self.next as int) =~= old(self).tokens@.skip(
                old(self).next as int,
            ).skip(1));
            Some(token)
        } else {
            None
        }
    }
}

/// A cursor over a lazily pulled token stream that keeps every token seen,
/// so that it can move back.
pub struct TokenReader<I: TokenSource> {
    tokens: Vec<Token<I::Kind>>,
    offset: usize,
    iter: I,
}

impl<I: TokenSource> TokenReader<I> {
    /// The whole stream: the tokens pulled so far, then those upstream.
    pub closed spec fn stream(&self) -> Seq<Token<I::Kind>> {
        self.tokens@ + self.iter.rest()
    }

    /// The number of tokens consumed.
    pub closed spec fn spec_offset(&self) -> nat {
        self.offset as nat
    }

    pub closed spec fn wf(&self) -> bool {
        self.offset <= self.tokens@.len()
    }

    pub fn new(iter: I) -> (r: Self)
        ensures
            r.wf(),
            r.stream() == iter.rest(),
            r.spec_offset() == 0,
    {
        let r = Self { tokens: Vec::new(), offset: 0, iter };
        assert(r.stream() =~= iter.rest());
        r
    }

    pub fn offset(&self) -> (r: usize)
        ensures
            r == self.spec_offset(),
    {
        self.offset
    }

    /// Moves back to `offset`; moving forward is not allowed.
    pub fn seek(&mut self, offset: usize)
        requires
            old(self).wf(),
            offset <= old(self).spec_offset(),
        ensures
            final(self).wf(),
            final(self).spec_offset() == offset,
            final(self).stream() == old(self).stream(),
    {
        self.offset = offset;
    }

    fn ensure_buffer_is_filled(&mut self)
        requires
            old(self).wf(),
        ensures
            final(self).wf(),
            final(self).stream() == old(self).stream(),
            final(self).spec_offset() == old(self).spec_offset(),
            final(self).spec_offset() < final(self).stream().len() ==> final(self).spec_offset()
                < final(self).tokens@.len(),
    {
        if self.offset >= self.tokens.len() {
            if let Some(token) = self.iter.next_token() {
                self.tokens.push(token);
                assert(self.stream() =~= old(self).stream());
            }
        }
    }

    pub fn has_more(&mut self) -> (r: bool)
        requires
            old(self).wf(),
        ensures
            final(self).wf(),
            r == (old(self).spec_offset() < old(self).stream().len()),
            final(self).stream() == old(self).stream(),
            final(self).spec_offset() == old(self).spec_offset(),
    {
        self.ensure_buffer_is_filled();
        self.offset < self.tokens.len()
    }

    /// The next token, which stays unconsumed.
    pub fn peek_next(&mut self) -> (r: Option<&Token<I::Kind>>)
        requires
            old(self).wf(),
        ensures
            final(self).wf(),
            old(self).spec_offset() < old(self).stream().len() ==> r == Some(
                &old(self).stream()[old(self).spec_offset() as int],
            ),
            old(self).spec_offset() >= old(self).stream().len() ==> r is None,
            final(self).stream() == old(self).stream(),
            final(self).spec_offset() == old(self).spec_offset(),
    {
        self.ensure_buffer_is_filled();
        if self.offset < self.tokens.len() {
            Some(&self.tokens[self.offset])
        } else {
            None
        }
    }

    /// Consumes the next token.
    pub fn eat_next(&mut self) -> (r: Option<&Token<I::Kind>>)
        requires
            old(self).wf(),
        ensures
            final(self).wf(),
            old(self).spec_offset() < old(self).stream().len() ==> {
                &&& r == Some(&old(self).stream()[old(self).spec_offset() as int])
                &&& final(self).spec_offset() == old(self).spec_offset() + 1
            },
            old(self).spec_offset() >= old(self).stream().len() ==> {
                &&& r is None
                &&& final(self).spec_offset() == old(self).spec_offset()
            },
            final(self).stream() == old(self).stream(),
    {
        self.ensure_buffer_is_filled();
        if self.offset < self.tokens.len() {
            let result = &self.tokens[self.offset];
            self.offset = self.offset + 1;
            Some(result)
        } else {
            None
        }
    }
}

} // verus!
