//! Coarse positions for diagnostics: a story-level location that can be
//! refined step by step with a column, a row, and a file name.

use vstd::prelude::*;

verus! {

/// A position within the content of a Twee story.
///
/// By default, a `Position` is a global `StoryLevel`.  Additional context
/// can be added from there to create a position at file, row, and column
/// level.  Setting a field that the current variant does not support
/// promotes the value to the most general variant that does, with
/// defaults of 0 for any still unset fields.
#[derive(Clone, Debug, Eq, PartialEq)]
pub enum Position {
    /// A column location, contains the column number
    Column(usize),
    /// A row and column location, contains the row number then column number
    RowColumn(usize, usize),
    /// A file location, contains the file name, row, and column
    File(String, usize, usize),
    /// Default, global level
    StoryLevel,
}

impl Position {
    /// The column this position carries, if any.
    pub open spec fn spec_column(&self) -> Option<usize> {
        match self {
            Position::Column(col) => Some(*col),
            Position::RowColumn(_, col) => Some(*col),
            Position::File(_, _, col) => Some(*col),
            Position::StoryLevel => None,
        }
    }

    /// The row this position carries, if any.
    pub open spec fn spec_row(&self) -> Option<usize> {
        match self {
            Position::RowColumn(row, _) => Some(*row),
            Position::File(_, row, _) => Some(*row),
            _ => None,
        }
    }

    /// The file name this position carries, if any.
    pub open spec fn spec_file(&self) -> Option<Seq<char>> {
        match self {
            Position::File(file, _, _) => Some(file@),
            _ => None,
        }
    }

    /// Gets the column of this `Position` if one exists.
    pub fn get_column(&self) -> (r: Option<usize>)
        ensures
            r == self.spec_column(),
    {
        match self {
            Position::Column(col) => Some(*col),
            Position::RowColumn(_, col) => Some(*col),
            Position::File(_, _, col) => Some(*col),
            Position::StoryLevel => None,
        }
    }

    /// Sets the column of this `Position`, promoting the variant if the
    /// current one does not accommodate a column.
    pub fn set_column(&mut self, col: usize)
        ensures
            *final(self) == (match *old(self) {
                Position::RowColumn(row, _) => Position::RowColumn(row, col),
                Position::File(file, row, _) => Position::File(file, row, col),
                _ => Position::Column(col),
            }),
    {
        *self = match self {
            Position::RowColumn(row, _) => Position::RowColumn(*row, col),
            Position::File(file, row, _) => Position::File(file.clone(), *row, col),
            _ => Position::Column(col),
        };
    }

    /// Gets the file name referenced by this `Position`, if there is one.
    pub fn get_file(&self) -> (r: Option<&str>)
        ensures
            (match r {
                Some(f) => Some(f@),
                None => None::<Seq<char>>,
            }) == self.spec_file(),
    {
        match self {
            Position::File(file, _, _) => Some(file.as_str()),
            _ => None,
        }
    }

    /// Sets the file name of this `Position`, promoting the variant; a
    /// row or column not yet set becomes 0.
    pub fn set_file(&mut self, file: String)
        ensures
            *final(self) == (Position::File(
                file,
                (match old(self).spec_row() {
                    Some(r) => r,
                    None => 0,
                }),
                (match old(self).spec_column() {
                    Some(c) => c,
                    None => 0,
                }),
            )),
    {
        let row = match self.get_row() {
            Some(r) => r,
            None => 0,
        };
        let col = match self.get_column() {
            Some(c) => c,
            None => 0,
        };
        *self = Position::File(file, row, col);
    }

    /// Offsets the column of this `Position` by `offset`, saturating at
    /// the largest representable column; a column not yet stored counts
    /// as 0.
    pub fn offset_column(&mut self, offset: usize)
        ensures
            *final(self) == (match *old(self) {
                Position::RowColumn(row, c) => Position::RowColumn(
                    row,
                    sat_add(c as int, offset as int),
                ),
                Position::File(file, row, c) => Position::File(
                    file,
                    row,
                    sat_add(c as int, offset as int),
                ),
                Position::Column(c) => Position::Column(sat_add(c as int, offset as int)),
                Position::StoryLevel => Position::Column(offset),
            }),
    {
        let col = match self.get_column() {
            Some(c) => c,
            None => 0,
        };
        self.set_column(col.saturating_add(offset));
    }

    /// Gets the row of this `Position` if one exists.
    pub fn get_row(&self) -> (r: Option<usize>)
        ensures
            r == self.spec_row(),
    {
        match self {
            Position::File(_, row, _) => Some(*row),
            Position::RowColumn(row, _) => Some(*row),
            _ => None,
        }
    }

    /// Sets the row of this `Position`, promoting the variant if the
    /// current one does not accommodate a row; a column not yet set
    /// becomes 0.
    pub fn set_row(&mut self, row: usize)
        ensures
            *final(self) == (match *old(self) {
                Position::File(file, _, col) => Position::File(file, row, col),
                Position::RowColumn(_, col) => Position::RowColumn(row, col),
                Position::Column(col) => Position::RowColumn(row, col),
                Position::StoryLevel => Position::RowColumn(row, 0),
            }),
    {
        let col = match self.get_column() {
            Some(c) => c,
            None => 0,
        };
        *self = match self {
            Position::File(file, _, _) => Position::File(file.clone(), row, col),
            _ => Position::RowColumn(row, col),
        };
    }

    /// Offsets the row of this `Position` by `offset`, saturating at the
    /// largest representable row; a row not yet stored counts as 0.
    pub fn offset_row(&mut self, offset: usize)
        ensures
            *final(self) == (match *old(self) {
                Position::File(file, r, col) => Position::File(
                    file,
                    sat_add(r as int, offset as int),
                    col,
                ),
                Position::RowColumn(r, col) => Position::RowColumn(
                    sat_add(r as int, offset as int),
                    col,
                ),
                Position::Column(col) => Position::RowColumn(offset, col),
                Position::StoryLevel => Position::RowColumn(offset, 0),
            }),
    {
        let row = match self.get_row() {
            Some(r) => r,
            None => 0,
        };
        self.set_row(offset.saturating_add(row));
    }
}

/// Addition of two usize-ranged values, saturating at usize::MAX.
pub open spec fn sat_add(a: int, b: int) -> usize {
    if a + b <= usize::MAX {
        (a + b) as usize
    } else {
        usize::MAX
    }
}

impl core::default::Default for Position {
    /// The default position is the story-level one.
    fn default() -> (r: Position)
        ensures
            r == Position::StoryLevel,
    {
        Position::StoryLevel
    }
}

/// Something that has a [`Position`] associated with it, which can be
/// read and refined through this interface.
pub trait Positional {
    /// Gets a reference to the associated `Position`.
    fn get_position(&self) -> &Position;

    /// Sets the row of the associated `Position`.
    fn set_row(&mut self, row: usize);

    /// Sets the column of the associated `Position`.
    fn set_column(&mut self, col: usize);

    /// Offsets the row of the associated `Position` by `offset`.
    fn offset_row(&mut self, offset: usize);

    /// Offsets the column of the associated `Position` by `offset`.
    fn offset_column(&mut self, offset: usize);

    /// Sets the file name of the associated `Position`.
    fn set_file(&mut self, file: String);
}

} // verus!
