use vstd::prelude::*;

use super::read_source::ReadSource;
use super::sourcing_error::{Result, SourcingError};
use crate::domain::source_info::SourceInfo;
use crate::domain::source_location::{
    SourceLocation, COLUMN_INITIAL, LINE_INITIAL, OFFSET_INITIAL,
};

verus! {

/// How many raw characters the next logical character takes: a carriage
/// return followed by a line feed or by another carriage return takes two.
pub open spec fn fold_width(s: Seq<char>) -> int {
    if s.len() >= 2 && s[0] == '\r' && (s[1] == '\r' || s[1] == '\n') {
        2
    } else {
        1
    }
}

/// The next logical character: a carriage return reads as a line feed.
pub open spec fn fold_head(s: Seq<char>) -> char {
    if s[0] == '\r' {
        '\n'
    } else {
        s[0]
    }
}

/// The raw characters `s` with every newline convention (LF, CRLF, CRCR, CR)
/// folded to a single line feed.
pub open spec fn fold_newlines(s: Seq<char>) -> Seq<char>
    decreases s.len(),
{
    if s.len() == 0 {
        Seq::empty()
    } else {
        seq![fold_head(s)] + fold_newlines(s.skip(fold_width(s)))
    }
}

pub open spec fn next_line(line: int, c: char) -> int {
    if c == '\n' {
        line + 1
    } else {
        line
    }
}

pub open spec fn next_column(column: int, c: char) -> int {
    if c == '\n' {
        1
    } else {
        column + 1
    }
}

/// The line reached from `line` after reading the logical characters `d`.
pub open spec fn line_after(line: int, d: Seq<char>) -> int
    decreases d.len(),
{
    if d.len() == 0 {
        line
    } else {
        line_after(next_line(line, d[0]), d.skip(1))
    }
}

/// The column reached from `column` after reading the logical characters `d`.
pub open spec fn column_after(column: int, d: Seq<char>) -> int
    decreases d.len(),
{
    if d.len() == 0 {
        column
    } else {
        column_after(next_column(column, d[0]), d.skip(1))
    }
}

pub proof fn lemma_line_after_concat(line: int, d1: Seq<char>, d2: Seq<char>)
    ensures
        line_after(line, d1 + d2) == line_after(line_after(line, d1), d2),
    decreases d1.len(),
{
    if d1.len() > 0 {
        assert((d1 + d2).skip(1) =~= d1.skip(1) + d2);
        lemma_line_after_concat(next_line(line, d1[0]), d1.skip(1), d2);
    } else {
        assert(d1 + d2 =~= d2);
    }
}

pub proof fn lemma_column_after_concat(column: int, d1: Seq<char>, d2: Seq<char>)
    ensures
        column_after(column, d1 + d2) == column_after(column_after(column, d1), d2),
    decreases d1.len(),
{
    if d1.len() > 0 {
        assert((d1 + d2).skip(1) =~= d1.skip(1) + d2);
        lemma_column_after_concat(next_column(column, d1[0]), d1.skip(1), d2);
    } else {
        assert(d1 + d2 =~= d2);
    }
}

/// Reading at least one character moves the line or the column forward.
pub proof fn lemma_position_moves(line: int, column: int, d: Seq<char>)
    ensures
        line_after(line, d) >= line,
        line_after(line, d) == line ==> column_after(column, d) == column + d.len(),
    decreases d.len(),
{
    if d.len() > 0 {
        lemma_position_moves(next_line(line, d[0]), next_column(column, d[0]), d.skip(1));
    }
}

/// The raw text of a line break: 0 for LF, 1 for CRLF, otherwise CRCR.
pub open spec fn line_break(convention: int) -> Seq<char> {
    if convention == 0 {
        seq!['\n']
    } else if convention == 1 {
        seq!['\r', '\n']
    } else {
        seq!['\r', '\r']
    }
}

/// Line breaks written in the given conventions, one after the other.
pub open spec fn line_breaks(conventions: Seq<int>) -> Seq<char>
    decreases conventions.len(),
{
    if conventions.len() == 0 {
        Seq::empty()
    } else {
        line_break(conventions[0]) + line_breaks(conventions.skip(1))
    }
}

/// Folding line breaks written in any mix of LF, CRLF and CRCR gives one
/// line feed per line break, and moves the line by their number.
pub proof fn lemma_fold_line_breaks(conventions: Seq<int>, line: int)
    ensures
        fold_newlines(line_breaks(conventions)) == Seq::new(conventions.len(), |i: int| '\n'),
        line_after(line, fold_newlines(line_breaks(conventions))) == line + conventions.len(),
    decreases conventions.len(),
{
    let t = line_breaks(conventions);
    if conventions.len() > 0 {
        let rest = conventions.skip(1);
        lemma_fold_line_breaks(rest, line + 1);
        let b = line_break(conventions[0]);
        assert(t == b + line_breaks(rest));
        assert(fold_width(t) == b.len());
        assert(t.skip(b.len() as int) =~= line_breaks(rest));
        assert(fold_newlines(t) == seq!['\n'] + fold_newlines(line_breaks(rest)));
        assert(fold_newlines(t) =~= Seq::new(conventions.len(), |i: int| '\n'));
        assert(fold_newlines(t).skip(1) =~= fold_newlines(line_breaks(rest)));
    } else {
        assert(fold_newlines(t) =~= Seq::new(0, |i: int| '\n'));
    }
}

/// Relies on String::push: appends one character.
#[verifier::external_body]
pub(crate) fn push_char(s: &mut String, c: char)
    ensures
        final(s)@ == old(s)@.push(c),
{
    s.push(c)
}

/// Wraps a character source: folds newlines, tracks the line and column of
/// the next character, and optionally captures what is consumed.
pub struct SourceReader<S: ReadSource> {
    source: S,
    location: SourceLocation,
    buffer: Option<String>,
    consumed: Ghost<Seq<char>>,
}

impl<S: ReadSource> SourceReader<S> {
    /// The raw characters not consumed yet.
    pub closed spec fn pending(&self) -> Seq<char> {
        self.source.rest()
    }

    /// Every logical character consumed so far.
    pub closed spec fn consumed(&self) -> Seq<char> {
        self.consumed@
    }

    /// The capture buffer: `None` when buffering is disabled.
    pub closed spec fn buffer_view(&self) -> Option<Seq<char>> {
        match self.buffer {
            Some(b) => Some(b@),
            None => None,
        }
    }

    /// The position of the next character.
    pub closed spec fn spec_location(&self) -> SourceLocation {
        self.location
    }

    pub closed spec fn source_offset(&self) -> usize {
        self.source.spec_offset()
    }

    pub closed spec fn source_info(&self) -> SourceInfo {
        self.source.spec_info()
    }

    /// Whether the source's offset grows by one per raw character consumed.
    pub closed spec fn source_counts_chars(&self) -> bool {
        self.source.counts_chars()
    }

    /// Line and column counters cannot overflow while the rest is read.
    pub open spec fn wf(&self) -> bool {
        &&& self.spec_location().line + self.pending().len() <= u32::MAX
        &&& self.spec_location().column + self.pending().len() <= u32::MAX
    }

    /// The same position in the same input; the buffer may differ.
    pub open spec fn same_position(&self, other: &Self) -> bool {
        &&& self.pending() == other.pending()
        &&& self.consumed() == other.consumed()
        &&& self.spec_location() == other.spec_location()
        &&& self.source_offset() == other.source_offset()
        &&& self.source_info() == other.source_info()
        &&& self.source_counts_chars() == other.source_counts_chars()
    }

    /// Nothing observable changed.
    pub open spec fn same_view(&self, other: &Self) -> bool {
        &&& self.same_position(other)
        &&& self.buffer_view() == other.buffer_view()
    }

    /// The logical characters consumed since `earlier`.
    pub open spec fn consumed_since(&self, earlier: &Self) -> Seq<char> {
        self.consumed().skip(earlier.consumed().len() as int)
    }

    /// `self` is `earlier` after consuming zero or more logical characters,
    /// folded from the raw input, which moved the line and column. Whether
    /// buffering is enabled is kept; what the buffer holds is not said.
    pub open spec fn progressed_from(&self, earlier: &Self) -> bool {
        let d = self.consumed_since(earlier);
        &&& self.wf()
        &&& earlier.consumed().len() <= self.consumed().len()
        &&& self.consumed() == earlier.consumed() + d
        &&& fold_newlines(earlier.pending()) == d + fold_newlines(self.pending())
        &&& self.buffer_view().is_some() == earlier.buffer_view().is_some()
        &&& self.spec_location().line == line_after(earlier.spec_location().line as int, d)
        &&& self.spec_location().column == column_after(
            earlier.spec_location().column as int,
            d,
        )
        &&& self.spec_location().info == earlier.spec_location().info
        &&& d.len() == 0 ==> self.same_position(earlier)
        &&& d.len() > 0 ==> self.spec_location().offset == self.source_offset()
        &&& self.source_info() == earlier.source_info()
        &&& self.source_counts_chars() == earlier.source_counts_chars()
        &&& earlier.source_counts_chars() ==> self.source_offset() == earlier.source_offset() + (
        earlier.pending().len() - self.pending().len())
    }

    /// As `progressed_from`, and every character consumed was appended to
    /// the buffer, if buffering is enabled.
    pub open spec fn advanced_from(&self, earlier: &Self) -> bool {
        &&& self.progressed_from(earlier)
        &&& self.buffer_view() == match earlier.buffer_view() {
            Some(b) => Some(b + self.consumed_since(earlier)),
            None => None::<Seq<char>>,
        }
    }

    pub proof fn lemma_progressed_trans(&self, mid: &Self, earlier: &Self)
        requires
            mid.progressed_from(earlier),
            self.progressed_from(mid),
        ensures
            self.progressed_from(earlier),
    {
        let d1 = mid.consumed_since(earlier);
        let d2 = self.consumed_since(mid);
        let d = self.consumed_since(earlier);
        assert(d =~= d1 + d2);
        assert(fold_newlines(earlier.pending()) =~= d + fold_newlines(self.pending()));
        lemma_line_after_concat(earlier.spec_location().line as int, d1, d2);
        lemma_column_after_concat(earlier.spec_location().column as int, d1, d2);
        assert(self.consumed() =~= earlier.consumed() + d);
        if d.len() == 0 {
            assert(d1.len() == 0 && d2.len() == 0);
        }
        if d.len() > 0 && d2.len() == 0 {
            assert(self.same_position(mid));
        }
    }

    /// A change of the buffer alone keeps progress.
    pub proof fn lemma_progressed_same_position(&self, mid: &Self, earlier: &Self)
        requires
            mid.progressed_from(earlier),
            self.same_position(mid),
            self.buffer_view().is_some() == mid.buffer_view().is_some(),
        ensures
            self.progressed_from(earlier),
    {
        assert(self.consumed_since(earlier) == mid.consumed_since(earlier));
    }

    pub proof fn lemma_advanced_refl(&self)
        requires
            self.wf(),
        ensures
            self.advanced_from(self),
    {
        assert(self.consumed_since(self) =~= Seq::<char>::empty());
        assert(self.consumed() =~= self.consumed() + Seq::<char>::empty());
        assert(fold_newlines(self.pending()) =~= Seq::<char>::empty() + fold_newlines(
            self.pending(),
        ));
        match self.buffer_view() {
            Some(b) => {
                assert(b =~= b + Seq::<char>::empty());
            },
            None => {},
        }
    }

    pub proof fn lemma_advanced_trans(&self, mid: &Self, earlier: &Self)
        requires
            mid.advanced_from(earlier),
            self.advanced_from(mid),
        ensures
            self.advanced_from(earlier),
    {
        self.lemma_progressed_trans(mid, earlier);
        let d1 = mid.consumed_since(earlier);
        let d2 = self.consumed_since(mid);
        let d = self.consumed_since(earlier);
        assert(d =~= d1 + d2);
        match earlier.buffer_view() {
            Some(b) => {
                assert(b + d1 + d2 =~= b + d);
            },
            None => {},
        }
    }

    pub fn new(mut source: S) -> (r: Self)
        requires
            source.rest().len() < u32::MAX,
        ensures
            r.pending() == source.rest(),
            r.consumed() == Seq::<char>::empty(),
            r.buffer_view() == None::<Seq<char>>,
            r.spec_location().info == source.spec_info(),
            r.spec_location().offset == OFFSET_INITIAL,
            r.spec_location().line == LINE_INITIAL,
            r.spec_location().column == COLUMN_INITIAL,
            r.source_offset() == source.spec_offset(),
            r.source_info() == source.spec_info(),
            r.source_counts_chars() == source.counts_chars(),
            r.wf(),
    {
        let info = source.info().clone();
        Self::new_with_location(
            source,
            SourceLocation::new_from_info(info, OFFSET_INITIAL, LINE_INITIAL, COLUMN_INITIAL),
        )
    }

    pub fn new_with_location(source: S, location: SourceLocation) -> (r: Self)
        requires
            location.line + source.rest().len() <= u32::MAX,
            location.column + source.rest().len() <= u32::MAX,
        ensures
            r.pending() == source.rest(),
            r.consumed() == Seq::<char>::empty(),
            r.buffer_view() == None::<Seq<char>>,
            r.spec_location() == location,
            r.source_offset() == source.spec_offset(),
            r.source_info() == source.spec_info(),
            r.source_counts_chars() == source.counts_chars(),
            r.wf(),
    {
        Self { source, location, buffer: None, consumed: Ghost(Seq::empty()) }
    }

    /// The position of the next character.
    pub fn location(&self) -> (r: &SourceLocation)
        ensures
            *r == self.spec_location(),
    {
        &self.location
    }

    pub fn is_buffering_enabled(&self) -> (r: bool)
        ensures
            r == self.buffer_view().is_some(),
    {
        self.buffer.is_some()
    }

    pub fn enable_buffering(&mut self) -> (r: Result<()>)
        ensures
            old(self).buffer_view().is_some() ==> {
                &&& r == Err::<(), SourcingError>(SourcingError::BufferingAlreadyEnabled)
                &&& final(self).same_view(old(self))
            },
            old(self).buffer_view().is_none() ==> {
                &&& r == Ok::<(), SourcingError>(())
                &&& final(self).buffer_view() == Some(Seq::<char>::empty())
            },
            final(self).pending() == old(self).pending(),
            final(self).consumed() == old(self).consumed(),
            final(self).spec_location() == old(self).spec_location(),
            final(self).source_offset() == old(self).source_offset(),
            final(self).source_info() == old(self).source_info(),
            final(self).source_counts_chars() == old(self).source_counts_chars(),
    {
        if self.buffer.is_some() {
            Err(SourcingError::BufferingAlreadyEnabled)
        } else {
            self.buffer = Some(String::new());
            Ok(())
        }
    }

    pub fn disable_buffering(&mut self) -> (r: Result<()>)
        ensures
            old(self).buffer_view().is_none() ==> r == Err::<(), SourcingError>(
                SourcingError::BufferingAlreadyDisabled,
            ),
            old(self).buffer_view().is_some() ==> r == Ok::<(), SourcingError>(()),
            final(self).buffer_view() == None::<Seq<char>>,
            final(self).pending() == old(self).pending(),
            final(self).consumed() == old(self).consumed(),
            final(self).spec_location() == old(self).spec_location(),
            final(self).source_offset() == old(self).source_offset(),
            final(self).source_info() == old(self).source_info(),
            final(self).source_counts_chars() == old(self).source_counts_chars(),
    {
        if self.buffer.is_none() {
            Err(SourcingError::BufferingAlreadyDisabled)
        } else {
            self.buffer = None;
            Ok(())
        }
    }

    /// True when buffering is disabled or the buffer holds nothing.
    pub fn is_buffer_empty(&self) -> (r: bool)
        ensures
            r == match self.buffer_view() {
                Some(b) => b.len() == 0,
                None => true,
            },
    {
        match &self.buffer {
            Some(b) => b.as_str().is_empty(),
            None => true,
        }
    }

    pub fn clear_buffer(&mut self) -> (r: Result<()>)
        ensures
            old(self).buffer_view().is_none() ==> {
                &&& r == Err::<(), SourcingError>(SourcingError::BufferingNeedsToBeEnabled)
                &&& final(self).buffer_view() == None::<Seq<char>>
            },
            old(self).buffer_view().is_some() ==> {
                &&& r == Ok::<(), SourcingError>(())
                &&& final(self).buffer_view() == Some(Seq::<char>::empty())
            },
            final(self).pending() == old(self).pending(),
            final(self).consumed() == old(self).consumed(),
            final(self).spec_location() == old(self).spec_location(),
            final(self).source_offset() == old(self).source_offset(),
            final(self).source_info() == old(self).source_info(),
            final(self).source_counts_chars() == old(self).source_counts_chars(),
    {
        if self.buffer.is_none() {
            Err(SourcingError::BufferingNeedsToBeEnabled)
        } else {
            self.buffer = Some(String::new());
            Ok(())
        }
    }

    /// Returns the buffered text and leaves an empty buffer, still enabled.
    pub fn pop_buffer(&mut self) -> (r: Result<String>)
        ensures
            old(self).buffer_view().is_none() ==> {
                &&& r == Err::<String, SourcingError>(SourcingError::BufferingNeedsToBeEnabled)
                &&& final(self).buffer_view() == None::<Seq<char>>
            },
            old(self).buffer_view().is_some() ==> {
                &&& r is Ok
                &&& r->Ok_0@ == old(self).buffer_view()->Some_0
                &&& final(self).buffer_view() == Some(Seq::<char>::empty())
            },
            final(self).pending() == old(self).pending(),
            final(self).consumed() == old(self).consumed(),
            final(self).spec_location() == old(self).spec_location(),
            final(self).source_offset() == old(self).source_offset(),
            final(self).source_info() == old(self).source_info(),
            final(self).source_counts_chars() == old(self).source_counts_chars(),
    {
        if self.buffer.is_none() {
            Err(SourcingError::BufferingNeedsToBeEnabled)
        } else {
            let popped = self.buffer.take();
            self.buffer = Some(String::new());
            match popped {
                Some(b) => Ok(b),
                None => Err(SourcingError::BufferingNeedsToBeEnabled),
            }
        }
    }

    /// `self` is `earlier` after consuming exactly the logical character `c`.
    pub open spec fn stepped_from(&self, earlier: &Self, c: char) -> bool {
        &&& earlier.pending().len() > 0
        &&& c == fold_head(earlier.pending())
        &&& self.pending() == earlier.pending().skip(fold_width(earlier.pending()))
        &&& self.consumed() == earlier.consumed().push(c)
        &&& self.buffer_view() == match earlier.buffer_view() {
            Some(b) => Some(b.push(c)),
            None => None::<Seq<char>>,
        }
        &&& self.spec_location().line == next_line(earlier.spec_location().line as int, c)
        &&& self.spec_location().column == next_column(earlier.spec_location().column as int, c)
        &&& self.spec_location().info == earlier.spec_location().info
        &&& self.spec_location().offset == self.source_offset()
        &&& self.source_info() == earlier.source_info()
        &&& self.source_counts_chars() == earlier.source_counts_chars()
        &&& earlier.source_counts_chars() ==> self.source_offset() == earlier.source_offset()
            + fold_width(earlier.pending())
    }

    pub proof fn lemma_stepped_advanced(&self, earlier: &Self, c: char)
        requires
            earlier.wf(),
            self.stepped_from(earlier, c),
        ensures
            self.advanced_from(earlier),
    {
        let d = self.consumed_since(earlier);
        assert(d =~= seq![c]);
        assert(self.consumed() =~= earlier.consumed() + d);
        assert(fold_newlines(earlier.pending()) =~= d + fold_newlines(self.pending()));
        assert(d.skip(1) =~= Seq::<char>::empty());
        assert(line_after(next_line(earlier.spec_location().line as int, c), d.skip(1))
            == next_line(earlier.spec_location().line as int, c));
        assert(column_after(next_column(earlier.spec_location().column as int, c), d.skip(1))
            == next_column(earlier.spec_location().column as int, c));
        assert(fold_width(earlier.pending()) >= 1);
        match earlier.buffer_view() {
            Some(b) => {
                assert(b.push(c) =~= b + d);
            },
            None => {},
        }
    }

    pub fn info(&self) -> (r: &SourceInfo)
        ensures
            *r == self.source_info(),
    {
        self.source.info()
    }

    pub fn offset(&self) -> (r: usize)
        ensures
            r == self.source_offset(),
    {
        self.source.offset()
    }

    pub fn has_more(&mut self) -> (r: bool)
        ensures
            r == (old(self).pending().len() > 0),
            final(self).same_view(old(self)),
    {
        self.source.has_more()
    }

    /// The next logical character, which stays unconsumed.
    pub fn peek_next(&mut self) -> (r: Result<char>)
        ensures
            old(self).pending().len() > 0 ==> r == Ok::<char, SourcingError>(
                fold_head(old(self).pending()),
            ),
            old(self).pending().len() == 0 ==> r == Err::<char, SourcingError>(
                SourcingError::NoMoreChars,
            ),
            final(self).same_view(old(self)),
    {
        let result = self.source.peek_next();
        match result {
            Ok('\r') => Ok('\n'),
            _ => result,
        }
    }

    fn eat_next_helper_fold_newlines(&mut self) -> (r: Result<char>)
        ensures
            old(self).pending().len() == 0 ==> {
                &&& r == Err::<char, SourcingError>(SourcingError::NoMoreChars)
                &&& final(self).same_view(old(self))
            },
            old(self).pending().len() > 0 ==> {
                &&& r == Ok::<char, SourcingError>(fold_head(old(self).pending()))
                &&& final(self).pending() == old(self).pending().skip(
                    fold_width(old(self).pending()),
                )
                &&& old(self).source_counts_chars() ==> final(self).source_offset() == old(
                    self,
                ).source_offset() + fold_width(old(self).pending())
            },
            final(self).consumed() == old(self).consumed(),
            final(self).buffer_view() == old(self).buffer_view(),
            final(self).spec_location() == old(self).spec_location(),
            final(self).source_info() == old(self).source_info(),
            final(self).source_counts_chars() == old(self).source_counts_chars(),
    {
        let result = self.source.eat_next();
        match result {
            Ok(c) => {
                if c == '\r' {
                    let next = self.source.peek_next();
                    match next {
                        Ok(n) => {
                            if n == '\r' || n == '\n' {
                                let _ = self.source.eat_next();
                                assert(old(self).pending().skip(1).skip(1) =~= old(
                                    self,
                                ).pending().skip(2));
                            }
                        },
                        Err(_) => {},
                    }
                    Ok('\n')
                } else {
                    Ok(c)
                }
            },
            Err(e) => Err(e),
        }
    }

    fn eat_next_helper_update_location(&mut self) -> (r: Result<char>)
        requires
            old(self).wf(),
        ensures
            old(self).pending().len() == 0 ==> {
                &&& r == Err::<char, SourcingError>(SourcingError::NoMoreChars)
                &&& final(self).same_view(old(self))
            },
            old(self).pending().len() > 0 ==> {
                &&& r == Ok::<char, SourcingError>(fold_head(old(self).pending()))
                &&& final(self).pending() == old(self).pending().skip(
                    fold_width(old(self).pending()),
                )
                &&& final(self).consumed() == old(self).consumed().push(r->Ok_0)
                &&& final(self).spec_location().line == next_line(
                    old(self).spec_location().line as int,
                    r->Ok_0,
                )
                &&& final(self).spec_location().column == next_column(
                    old(self).spec_location().column as int,
                    r->Ok_0,
                )
                &&& final(self).spec_location().info == old(self).spec_location().info
                &&& final(self).spec_location().offset == final(self).source_offset()
                &&& old(self).source_counts_chars() ==> final(self).source_offset() == old(
                    self,
                ).source_offset() + fold_width(old(self).pending())
            },
            final(self).buffer_view() == old(self).buffer_view(),
            final(self).source_info() == old(self).source_info(),
            final(self).source_counts_chars() == old(self).source_counts_chars(),
    {
        let result = self.eat_next_helper_fold_newlines();
        match result {
            Ok(c) => {
                if c == '\n' {
                    self.location.line = self.location.line + 1;
                    self.location.column = COLUMN_INITIAL;
                } else {
                    self.location.column = self.location.column + 1;
                }
                self.location.offset = self.source.offset();
                self.consumed = Ghost(self.consumed@.push(c));
                Ok(c)
            },
            Err(e) => Err(e),
        }
    }

    fn eat_next_helper_push_buffer(&mut self) -> (r: Result<char>)
        requires
            old(self).wf(),
        ensures
            old(self).pending().len() == 0 ==> {
                &&& r == Err::<char, SourcingError>(SourcingError::NoMoreChars)
                &&& final(self).same_view(old(self))
            },
            old(self).pending().len() > 0 ==> {
                &&& r is Ok
                &&& final(self).stepped_from(old(self), r->Ok_0)
            },
    {
        let result = self.eat_next_helper_update_location();
        match result {
            Ok(c) => {
                match self.buffer.take() {
                    Some(mut b) => {
                        push_char(&mut b, c);
                        self.buffer = Some(b);
                    },
                    None => {},
                }
                Ok(c)
            },
            Err(e) => Err(e),
        }
    }

    /// Consumes the next logical character, folding newlines, moving the
    /// position and appending to the buffer when buffering is enabled.
    pub fn eat_next(&mut self) -> (r: Result<char>)
        requires
            old(self).wf(),
        ensures
            old(self).pending().len() == 0 ==> {
                &&& r == Err::<char, SourcingError>(SourcingError::NoMoreChars)
                &&& final(self).same_view(old(self))
            },
            old(self).pending().len() > 0 ==> {
                &&& r is Ok
                &&& final(self).stepped_from(old(self), r->Ok_0)
            },
            final(self).advanced_from(old(self)),
    {
        let r = self.eat_next_helper_push_buffer();
        proof {
            if old(self).pending().len() > 0 {
                self.lemma_stepped_advanced(old(self), r->Ok_0);
            } else {
                old(self).lemma_advanced_refl();
            }
        }
        r
    }
}

} // verus!
