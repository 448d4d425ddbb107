use vstd::prelude::*;

use super::source_info::SourceInfo;

verus! {

pub type Offset = usize;

pub type Line = u32;

pub type Column = Line;

pub const OFFSET_INITIAL: Offset = 0;

pub const LINE_INITIAL: Line = 1;

pub const COLUMN_INITIAL: Column = 1;

/// A character position: the source, a 0-based offset into the raw input,
/// and a 1-based line and column.
#[derive(Debug)]
pub struct SourceLocation {
    pub info: SourceInfo,
    pub offset: Offset,
    pub line: Line,
    pub column: Column,
}

impl SourceLocation {
    pub fn new(path: String, offset: Offset, line: Line, column: Column) -> (r: Self)
        ensures
            r.info.path@ == path@,
            r.offset == offset,
            r.line == line,
            r.column == column,
    {
        Self::new_from_info(SourceInfo::new(path), offset, line, column)
    }

    pub fn new_from_info(info: SourceInfo, offset: Offset, line: Line, column: Column) -> (r: Self)
        ensures
            r.info == info,
            r.offset == offset,
            r.line == line,
            r.column == column,
    {
        Self { info, offset, line, column }
    }

    /// The same position, seen as a plain value.
    pub open spec fn same_as(&self, other: &SourceLocation) -> bool {
        &&& self.info.path@ == other.info.path@
        &&& self.offset == other.offset
        &&& self.line == other.line
        &&& self.column == other.column
    }
}

impl Clone for SourceLocation {
    fn clone(&self) -> (r: Self)
        ensures
            r == *self,
    {
        SourceLocation {
            info: self.info.clone(),
            offset: self.offset,
            line: self.line,
            column: self.column,
        }
    }
}

impl PartialEq for SourceLocation {
    fn eq(&self, other: &SourceLocation) -> (r: bool)
        ensures
            r == self.same_as(other),
    {
        self.info == other.info && self.offset == other.offset && self.line == other.line
            && self.column == other.column
    }
}

impl Eq for SourceLocation {

}

impl vstd::std_specs::cmp::PartialEqSpecImpl for SourceLocation {
    open spec fn obeys_eq_spec() -> bool {
        true
    }

    open spec fn eq_spec(&self, other: &SourceLocation) -> bool {
        self.same_as(other)
    }
}

} // verus!
