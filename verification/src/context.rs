//! Immutable spans over a shared source buffer.
//!
//! A [`FullContext`] names a span of Twee source: an optional file name,
//! one-indexed inclusive start and end positions, the whole buffer behind a
//! reference count, and a table of line-start offsets computed once.
//! Narrower views are carved with [`FullContext::subcontext`] without
//! copying any text.

use crate::position::Position;
use crate::position::PositionKind;
use crate::text::end_offset;
use crate::text::line_len_at;
use crate::text::line_start;
use crate::text::line_starts_of;
use crate::text::num_lines;
use crate::text::start_offset;
use crate::text::valid_end;
use crate::text::valid_start;
use crate::text::lemma_line_starts;
use crate::text::lemma_line_in_bounds;
use std::sync::Arc;
use vstd::prelude::*;
use vstd::string::StrSliceExecFns;

verus! {

/// The (line, column) pair a possibly relative position resolves to
/// against a base position.
pub open spec fn resolve_pos(base: Position, p: Position) -> (int, int) {
    if p.kind == PositionKind::Absolute {
        (p.line as int, p.column as int)
    } else {
        base.spec_subposition(p.line as int, p.column as int)
    }
}

/// Selects the part of a context that a subcontext shall span: an optional
/// start position (the context's own start when absent), an optional end
/// position (the context's own end when absent), and whether the end
/// position is excluded from the span.
#[derive(Clone, Copy, Debug)]
pub struct SubContextRange {
    /// Where the span begins; `None` keeps the context's start
    pub start: Option<Position>,

    /// Where the span stops; `None` keeps the context's end
    pub end: Option<Position>,

    /// Whether `end` itself stands outside the span
    pub end_exclusive: bool,
}

impl SubContextRange {
    /// The whole context.
    pub fn all() -> (r: SubContextRange)
        ensures
            r == (SubContextRange { start: None::<Position>, end: None::<Position>, end_exclusive: false }),
    {
        SubContextRange { start: None, end: None, end_exclusive: false }
    }

    /// From `start` through `end`, both included.
    pub fn between(start: Position, end: Position) -> (r: SubContextRange)
        ensures
            r == (SubContextRange { start: Some(start), end: Some(end), end_exclusive: false }),
    {
        SubContextRange { start: Some(start), end: Some(end), end_exclusive: false }
    }

    /// From `start`, included, to the context's end.
    pub fn starting_at(start: Position) -> (r: SubContextRange)
        ensures
            r == (SubContextRange { start: Some(start), end: None::<Position>, end_exclusive: false }),
    {
        SubContextRange { start: Some(start), end: None, end_exclusive: false }
    }

    /// From the context's start through `end`, included.
    pub fn up_to(end: Position) -> (r: SubContextRange)
        ensures
            r == (SubContextRange { start: None::<Position>, end: Some(end), end_exclusive: false }),
    {
        SubContextRange { start: None, end: Some(end), end_exclusive: false }
    }

    /// From the context's start to just before `end`, which is excluded.
    pub fn before(end: Position) -> (r: SubContextRange)
        ensures
            r == (SubContextRange { start: None::<Position>, end: Some(end), end_exclusive: true }),
    {
        SubContextRange { start: None, end: Some(end), end_exclusive: true }
    }
}

/// A context that represents a span of twee code with a beginning, end,
/// and contents, along with an optional file name and helper functions.
#[derive(Debug, PartialEq, Eq)]
pub struct FullContext {
    file_name: Option<String>,
    start_position: Position,
    end_position: Position,
    contents: Arc<String>,
    line_starts: Arc<Vec<usize>>,
}

impl FullContext {
    /// The whole source buffer behind this context, as characters.
    pub closed spec fn text(&self) -> Seq<char> {
        self.contents@
    }

    /// The optional file name.
    pub closed spec fn spec_file_name(&self) -> Option<Seq<char>> {
        match self.file_name {
            Some(ref n) => Some(n@),
            None => None,
        }
    }

    /// The inclusive start position of the span.
    pub closed spec fn spec_start(&self) -> Position {
        self.start_position
    }

    /// The inclusive end position of the span.
    pub closed spec fn spec_end(&self) -> Position {
        self.end_position
    }

    /// The line-start table matches the buffer.
    pub closed spec fn table_ok(&self) -> bool {
        self.line_starts@.map_values(|x: usize| x as int) == line_starts_of(self.contents@)
    }

    /// A well-formed context: its table matches its buffer, its positions
    /// are absolute, lie on lines of the buffer, and address a span whose
    /// start does not come after its end.
    pub open spec fn wf(&self) -> bool {
        &&& self.table_ok()
        &&& self.text().len() < usize::MAX
        &&& num_lines(self.text()) <= usize::MAX
        &&& self.spec_start().kind == PositionKind::Absolute
        &&& self.spec_end().kind == PositionKind::Absolute
        &&& valid_start(self.text(), self.spec_start().line as int, self.spec_start().column as int)
        &&& valid_end(self.text(), self.spec_end().line as int, self.spec_end().column as int)
        &&& self.spec_start_offset() <= self.spec_end_offset()
    }

    /// The character offset at which the span begins.
    pub open spec fn spec_start_offset(&self) -> int {
        start_offset(self.text(), self.spec_start().line as int, self.spec_start().column as int)
    }

    /// The character offset one past the span's last character.
    pub open spec fn spec_end_offset(&self) -> int {
        end_offset(self.text(), self.spec_end().line as int, self.spec_end().column as int)
    }

    /// The characters the span covers.
    pub open spec fn spec_contents(&self) -> Seq<char> {
        self.text().subrange(self.spec_start_offset(), self.spec_end_offset())
    }

    /// Creates a new context spanning the whole of the given buffer, from
    /// the given file name and string.  The span of the fresh context
    /// covers exactly the buffer: reading its contents hands the buffer
    /// back unchanged.
    pub fn from(file_name: Option<String>, contents: String) -> (r: FullContext)
        requires
            contents@.len() < usize::MAX,
        ensures
            r.wf(),
            r.text() == contents@,
            r.spec_file_name() == (match file_name {
                Some(n) => Some(n@),
                None => None::<Seq<char>>,
            }),
            r.spec_start() == (Position { line: 1, column: 1, kind: PositionKind::Absolute }),
            r.spec_end().line == num_lines(contents@),
            r.spec_end().column == line_len_at(contents@, num_lines(contents@) - 1),
            r.spec_contents() == contents@,
    {
        let line_starts = compute_line_starts(contents.as_str());
        let n = contents.as_str().unicode_len();
        proof {
            lemma_line_starts(contents@);
        }
        let last = line_starts.len() - 1;
        let last_start = line_starts[last];
        proof {
            assert(line_starts@.map_values(|x: usize| x as int)[last as int]
                == line_starts@[last as int] as int);
            assert(line_starts_of(contents@)[last as int] <= contents@.len());
        }
        let end = Position::abs(line_starts.len(), n - last_start);
        let r = FullContext {
            file_name,
            start_position: Position::abs(1, 1),
            end_position: end,
            contents: Arc::new(contents),
            line_starts: Arc::new(line_starts),
        };
        proof {
            lemma_line_in_bounds(r.text(), 0);
            lemma_line_in_bounds(r.text(), num_lines(r.text()) - 1);
            assert(r.spec_contents() =~= r.text());
        }
        r
    }

    /// Gets a reference to the optional file name.
    pub fn get_file_name(&self) -> (r: &Option<String>)
        ensures
            self.spec_file_name() == (match r {
                Some(n) => Some(n@),
                None => None::<Seq<char>>,
            }),
    {
        &self.file_name
    }

    /// Gets a reference to the 1-indexed start position of this context.
    pub fn get_start_position(&self) -> (r: &Position)
        ensures
            r == self.spec_start(),
    {
        &self.start_position
    }

    /// Gets a reference to the inclusive 1-indexed end position of this context.
    pub fn get_end_position(&self) -> (r: &Position)
        ensures
            r == self.spec_end(),
    {
        &self.end_position
    }

    /// The length, not counting any ending newline, of a one-indexed line
    /// of the underlying buffer.
    pub(crate) fn line_len(&self, line: usize) -> (l: usize)
        requires
            self.wf(),
            1 <= line <= num_lines(self.text()),
        ensures
            l as int == line_len_at(self.text(), line as int - 1),
    {
        proof {
            lemma_line_starts(self.text());
            assert(self.line_starts@.map_values(|x: usize| x as int)[line as int - 1]
                == self.line_starts@[line as int - 1] as int);
        }
        let table: &Vec<usize> = &self.line_starts;
        let start = table[line - 1];
        if line < table.len() {
            proof {
                assert(self.line_starts@.map_values(|x: usize| x as int)[line as int]
                    == self.line_starts@[line as int] as int);
            }
            table[line] - start - 1
        } else {
            proof {
                lemma_line_in_bounds(self.text(), line as int - 1);
            }
            let n = self.contents.as_str().unicode_len();
            n - start
        }
    }

    /// The table of character offsets at which the buffer's lines begin.
    pub(crate) fn get_line_starts(&self) -> (r: &Vec<usize>)
        requires
            self.wf(),
        ensures
            r@.map_values(|x: usize| x as int) == line_starts_of(self.text()),
    {
        &self.line_starts
    }

    /// The text of a one-indexed line of the underlying buffer, without
    /// its ending newline.
    pub(crate) fn line_text(&self, line: usize) -> (r: &str)
        requires
            self.wf(),
            1 <= line <= num_lines(self.text()),
        ensures
            r@ == self.text().subrange(
                line_start(self.text(), line as int - 1),
                line_start(self.text(), line as int - 1) + line_len_at(
                    self.text(),
                    line as int - 1,
                ),
            ),
    {
        proof {
            lemma_line_starts(self.text());
            lemma_line_in_bounds(self.text(), line as int - 1);
            assert(self.line_starts@.map_values(|x: usize| x as int)[line as int - 1]
                == self.line_starts@[line as int - 1] as int);
        }
        let table: &Vec<usize> = &self.line_starts;
        let a = table[line - 1];
        let l = self.line_len(line);
        let s: &String = &self.contents;
        s.as_str().substring_char(a, a + l)
    }

    /// Given a 1-indexed line number, absolute or relative to this
    /// context's start, returns the absolute position of the end of that
    /// line: its last column, or column 0 on an empty line.
    pub(crate) fn end_of_line(&self, line: usize, kind: PositionKind) -> (p: Position)
        requires
            self.wf(),
            1 <= line,
            kind == PositionKind::Relative ==> self.spec_start().line + line - 1 <= num_lines(
                self.text(),
            ),
            kind == PositionKind::Absolute ==> line <= num_lines(self.text()),
        ensures
            p.kind == PositionKind::Absolute,
            p.line as int == (if kind == PositionKind::Relative {
                self.spec_start().line + line - 1
            } else {
                line as int
            }),
            p.column as int == line_len_at(self.text(), p.line as int - 1),
    {
        let abs_line = match kind {
            PositionKind::Absolute => line,
            PositionKind::Relative => (self.start_position.line - 1) + line,
        };
        let col = self.line_len(abs_line);
        Position::abs(abs_line, col)
    }

    /// Gets the span of this context as a character-offset range within
    /// the underlying buffer.
    pub fn get_byte_range(&self) -> (r: (usize, usize))
        requires
            self.wf(),
        ensures
            r.0 as int == self.spec_start_offset(),
            r.1 as int == self.spec_end_offset(),
    {
        proof {
            lemma_line_starts(self.text());
            lemma_line_in_bounds(self.text(), self.spec_start().line as int - 1);
            lemma_line_in_bounds(self.text(), self.spec_end().line as int - 1);
            assert(self.line_starts@.map_values(|x: usize| x as int)[self.spec_start().line as int
                - 1] == self.line_starts@[self.spec_start().line as int - 1] as int);
            assert(self.line_starts@.map_values(|x: usize| x as int)[self.spec_end().line as int
                - 1] == self.line_starts@[self.spec_end().line as int - 1] as int);
        }
        let table: &Vec<usize> = &self.line_starts;
        let a = table[self.start_position.line - 1] + (self.start_position.column - 1);
        let b = table[self.end_position.line - 1] + self.end_position.column;
        (a, b)
    }

    /// Gets the contents of this context: the exact character slice of the
    /// buffer between the span's start and end offsets.
    pub fn get_contents(&self) -> (r: &str)
        requires
            self.wf(),
        ensures
            r@ == self.spec_contents(),
    {
        let (a, b) = self.get_byte_range();
        proof {
            crate::text::lemma_offsets_in_bounds(
                self.text(),
                self.spec_end().line as int,
                self.spec_end().column as int,
            );
        }
        let s: &String = &self.contents;
        s.as_str().substring_char(a, b)
    }

    /// Resolves a possibly relative position against this context's start.
    fn resolve(&self, p: Position) -> (q: Position)
        requires
            self.wf(),
            p.kind == PositionKind::Relative ==> 1 <= p.line,
            resolve_pos(self.spec_start(), p).0 <= usize::MAX,
            resolve_pos(self.spec_start(), p).1 <= usize::MAX,
            p.kind == PositionKind::Relative && p.line == 1 ==> 1 <= self.spec_start().column
                + p.column,
        ensures
            q.kind == PositionKind::Absolute,
            (q.line as int, q.column as int) == resolve_pos(self.spec_start(), p),
    {
        match p.kind {
            PositionKind::Absolute => Position::abs(p.line, p.column),
            PositionKind::Relative => self.start_position.subposition(p.line, p.column),
        }
    }

    /// The (line, column) the range's start resolves to.
    pub open spec fn resolved_range_start(&self, range: SubContextRange) -> (int, int) {
        match range.start {
            None => (self.spec_start().line as int, self.spec_start().column as int),
            Some(p) => resolve_pos(self.spec_start(), p),
        }
    }

    /// The (line, column) the range's end bound resolves to, before any
    /// exclusive-end adjustment.
    pub open spec fn resolved_range_end_raw(&self, range: SubContextRange) -> (int, int) {
        match range.end {
            None => (self.spec_end().line as int, self.spec_end().column as int),
            Some(p) => resolve_pos(self.spec_start(), p),
        }
    }

    /// The inclusive (line, column) the range's end resolves to: an
    /// exclusive end steps one column back, or, from column 1, to the end
    /// of the previous line.
    pub open spec fn resolved_range_end(&self, range: SubContextRange) -> (int, int) {
        let (l, c) = self.resolved_range_end_raw(range);
        if !range.end_exclusive {
            (l, c)
        } else if c > 1 {
            (l, c - 1)
        } else {
            (l - 1, line_len_at(self.text(), l - 2))
        }
    }

    /// The conditions under which a range may carve a subcontext out of
    /// this context: its bounds resolve to positions on the buffer's
    /// lines, in order, and an exclusive end has somewhere to step back to.
    pub open spec fn range_ok(&self, range: SubContextRange) -> bool {
        let rs = self.resolved_range_start(range);
        let raw = self.resolved_range_end_raw(range);
        let re = self.resolved_range_end(range);
        &&& (range.start matches Some(p) ==> (p.kind == PositionKind::Relative ==> 1 <= p.line))
        &&& (range.end matches Some(p) ==> (p.kind == PositionKind::Relative ==> 1 <= p.line))
        &&& valid_start(self.text(), rs.0, rs.1)
        &&& raw.0 <= usize::MAX
        &&& raw.1 <= usize::MAX
        &&& (range.end_exclusive ==> (raw.1 >= 2 || raw.0 >= 2))
        &&& (range.end_exclusive && raw.1 <= 1 ==> 1 <= raw.0 - 1 <= num_lines(self.text()))
        &&& valid_end(self.text(), re.0, re.1)
        &&& start_offset(self.text(), rs.0, rs.1) <= end_offset(self.text(), re.0, re.1)
    }

    /// Creates a subcontext out of the current context from the given
    /// range of positions.  The subcontext shares this context's buffer
    /// and covers exactly the characters between the range's resolved
    /// start and end offsets.
    pub fn subcontext(&self, range: SubContextRange) -> (r: FullContext)
        requires
            self.wf(),
            self.range_ok(range),
        ensures
            r.wf(),
            r.text() == self.text(),
            r.spec_file_name() == self.spec_file_name(),
            (r.spec_start().line as int, r.spec_start().column as int) == self.resolved_range_start(
                range,
            ),
            (r.spec_end().line as int, r.spec_end().column as int) == self.resolved_range_end(
                range,
            ),
            r.spec_contents() == self.text().subrange(
                start_offset(
                    self.text(),
                    self.resolved_range_start(range).0,
                    self.resolved_range_start(range).1,
                ),
                end_offset(
                    self.text(),
                    self.resolved_range_end(range).0,
                    self.resolved_range_end(range).1,
                ),
            ),
    {
        let start = match range.start {
            None => self.start_position,
            Some(p) => self.resolve(p),
        };
        let end_raw = match range.end {
            None => self.end_position,
            Some(p) => self.resolve(p),
        };
        let end = if range.end_exclusive {
            if end_raw.column > 1 {
                Position::abs(end_raw.line, end_raw.column - 1)
            } else {
                let prev = end_raw.line - 1;
                let col = self.line_len(prev);
                Position::abs(prev, col)
            }
        } else {
            end_raw
        };
        FullContext {
            file_name: self.file_name.clone(),
            start_position: start,
            end_position: end,
            contents: self.contents.clone(),
            line_starts: self.line_starts.clone(),
        }
    }
}

impl Clone for FullContext {
    /// A clone is equal to the original and shares its buffer.
    fn clone(&self) -> (r: FullContext)
        ensures
            r == *self,
    {
        FullContext {
            file_name: self.file_name.clone(),
            start_position: self.start_position,
            end_position: self.end_position,
            contents: self.contents.clone(),
            line_starts: self.line_starts.clone(),
        }
    }
}

/// A context that holds only an optional file name and a 1-indexed start
/// position.
///
/// Intended to be constructed from a [`FullContext`] as a way of
/// discarding additional, unwanted information.
#[derive(Clone, Debug, PartialEq, Eq)]
pub struct PartialContext {
    /// The optional file name
    pub file_name: Option<String>,

    /// The 1-indexed start position
    pub start_position: Position,
}

impl PartialContext {
    /// Returns a reference to the optional file name.
    pub fn get_file_name(&self) -> (r: &Option<String>)
        ensures
            r == self.file_name,
    {
        &self.file_name
    }

    /// Returns a reference to the 1-indexed start position.
    pub fn get_start_position(&self) -> (r: &Position)
        ensures
            r == self.start_position,
    {
        &self.start_position
    }
}

impl core::convert::From<FullContext> for PartialContext {
    /// Keeps the full context's file name and start position and discards
    /// the rest.
    fn from(full: FullContext) -> (r: PartialContext)
        ensures
            (match r.file_name {
                Some(ref n) => Some(n@),
                None => None::<Seq<char>>,
            }) == full.spec_file_name(),
            r.start_position == full.spec_start(),
    {
        let start = *full.get_start_position();
        let mut full = full;
        PartialContext { file_name: take_file_name(&mut full), start_position: start }
    }
}

impl vstd::std_specs::convert::FromSpecImpl<FullContext> for PartialContext {
    open spec fn obeys_from_spec() -> bool {
        false
    }

    open spec fn from_spec(full: FullContext) -> PartialContext {
        arbitrary()
    }
}

/// Moves the file name out of a context.
fn take_file_name(ctx: &mut FullContext) -> (r: Option<String>)
    ensures
        (match r {
            Some(ref n) => Some(n@),
            None => None::<Seq<char>>,
        }) == old(ctx).spec_file_name(),
{
    let mut name: Option<String> = None;
    core::mem::swap(&mut name, &mut ctx.file_name);
    name
}

/// Computes the table of character offsets at which each line of `s`
/// begins: 0, then one past each newline.
fn compute_line_starts(s: &str) -> (v: Vec<usize>)
    requires
        s@.len() < usize::MAX,
    ensures
        v@.map_values(|x: usize| x as int) == line_starts_of(s@),
        v@.len() >= 1,
{
    let n = s.unicode_len();
    let mut v: Vec<usize> = Vec::new();
    v.push(0);
    proof {
        assert(s@.take(0) =~= Seq::<char>::empty());
        assert(v@.map_values(|x: usize| x as int) =~= line_starts_of(s@.take(0)));
    }
    let mut i: usize = 0;
    while i < n
        invariant
            n as int == s@.len(),
            s@.len() < usize::MAX,
            i <= n,
            v@.len() >= 1,
            v@.map_values(|x: usize| x as int) == line_starts_of(s@.take(i as int)),
        decreases n - i,
    {
        let c = s.get_char(i);
        proof {
            assert(s@.take(i as int + 1).drop_last() =~= s@.take(i as int));
            assert(s@.take(i as int + 1).last() == s@[i as int]);
        }
        if c == '\n' {
            v.push(i + 1);
            proof {
                assert(v@.map_values(|x: usize| x as int) =~= line_starts_of(
                    s@.take(i as int),
                ).push(i as int + 1));
            }
        }
        i += 1;
    }
    proof {
        assert(s@.take(n as int) =~= s@);
    }
    v
}

} // verus!
