//! The diagnostic vocabulary: fatal errors, which abort the passage they
//! belong to, and warnings, which ride along with a still-produced value.

use crate::context::FullContext;
use crate::positions::Position;
use crate::positions::Positional;
use vstd::prelude::*;

verus! {

/// The types of errors that can be produced while parsing.  An error is
/// fatal for the passage it belongs to, but never for the whole story.
#[derive(Clone, Debug, Eq, PartialEq)]
pub enum ErrorType {
    /// No passage name present in a header line
    EmptyName,
    /// Whitespace before the `::` sigil on a header line
    LeadingWhitespace,
    /// Metadata and tags present in a header but in the wrong order
    MetadataBeforeTags,
    /// No `::` sigil at the beginning of a header line
    MissingSigil,
    /// Tag block present in a header but unclosed
    UnclosedTagBlock,
    /// Unescaped `{` character in a passage name
    UnescapedOpenCurly,
    /// Unescaped `}` character in a passage name
    UnescapedCloseCurly,
    /// Unescaped `[` character in a passage name
    UnescapedOpenSquare,
    /// Unescaped `]` character in a passage name
    UnescapedCloseSquare,
    /// An input path could not be read; carries the path and the reason
    BadInputPath(String, String),
}

/// An error with an [`ErrorType`] and the context of the offending text.
#[derive(Clone, Debug, Eq, PartialEq)]
pub struct Error {
    /// The type of error
    pub error_type: ErrorType,

    /// The context of the error
    pub context: Option<FullContext>,

    /// The length of the text the context covers, when diagnostics are
    /// configured to carry it; see [`crate::DiagnosticsConfig`]
    pub context_len: Option<usize>,
}

impl Error {
    /// Creates a new `Error` with the given [`ErrorType`] and context,
    /// and no context length.
    pub fn new(error_type: ErrorType, context: Option<FullContext>) -> (r: Error)
        ensures
            r == (Error { error_type, context, context_len: None::<usize> }),
    {
        Error { error_type, context, context_len: None }
    }
}

/// The types of warnings that can be produced while parsing.  A warning
/// never blocks producing a value.
#[derive(Clone, Debug, Eq, PartialEq)]
pub enum WarningType {
    /// `\[` in a passage title
    EscapedOpenSquare,
    /// `\]` in a passage title
    EscapedCloseSquare,
    /// `\{` in a passage title
    EscapedOpenCurly,
    /// `\}` in a passage title
    EscapedCloseCurly,
    /// Error encountered while parsing JSON; contains the text of the error
    JsonError(String),
    /// `StoryTitle` passage encountered after an earlier `StoryTitle`
    DuplicateStoryTitle,
    /// `StoryData` passage encountered after an earlier `StoryData`
    DuplicateStoryData,
    /// A passage name seen before; contains that name
    DuplicatePassage(String),
    /// No `StoryTitle` passage found while parsing a story
    MissingStoryTitle,
    /// No `StoryData` passage found while parsing a story
    MissingStoryData,
    /// An unterminated `[[` link in passage content
    UnclosedLink,
    /// Errant whitespace in a Twine link's target
    WhitespaceInLink,
    /// A link to a passage name that no parsed passage carries
    DeadLink(String),
    /// No passage called `Start` found and no start passage set in `StoryData`
    MissingStartPassage,
    /// Start passage set in `StoryData` that cannot be found
    DeadStartPassage(String),
}

/// The name of each warning variant, as characters.
pub open spec fn warning_type_name(t: WarningType) -> Seq<char> {
    match t {
        WarningType::EscapedOpenSquare => "EscapedOpenSquare"@,
        WarningType::EscapedCloseSquare => "EscapedCloseSquare"@,
        WarningType::EscapedOpenCurly => "EscapedOpenCurly"@,
        WarningType::EscapedCloseCurly => "EscapedCloseCurly"@,
        WarningType::JsonError(_) => "JsonError"@,
        WarningType::DuplicateStoryTitle => "DuplicateStoryTitle"@,
        WarningType::DuplicateStoryData => "DuplicateStoryData"@,
        WarningType::DuplicatePassage(_) => "DuplicatePassage"@,
        WarningType::MissingStoryTitle => "MissingStoryTitle"@,
        WarningType::MissingStoryData => "MissingStoryData"@,
        WarningType::UnclosedLink => "UnclosedLink"@,
        WarningType::WhitespaceInLink => "WhitespaceInLink"@,
        WarningType::DeadLink(_) => "DeadLink"@,
        WarningType::MissingStartPassage => "MissingStartPassage"@,
        WarningType::DeadStartPassage(_) => "DeadStartPassage"@,
    }
}

impl WarningType {
    /// Gets a string representation of a `WarningType` variant's name.
    pub fn get_name(&self) -> (r: &str)
        ensures
            r@ == warning_type_name(*self),
    {
        match self {
            WarningType::EscapedOpenSquare => "EscapedOpenSquare",
            WarningType::EscapedCloseSquare => "EscapedCloseSquare",
            WarningType::EscapedOpenCurly => "EscapedOpenCurly",
            WarningType::EscapedCloseCurly => "EscapedCloseCurly",
            WarningType::JsonError(_) => "JsonError",
            WarningType::DuplicateStoryTitle => "DuplicateStoryTitle",
            WarningType::DuplicateStoryData => "DuplicateStoryData",
            WarningType::DuplicatePassage(_) => "DuplicatePassage",
            WarningType::MissingStoryTitle => "MissingStoryTitle",
            WarningType::MissingStoryData => "MissingStoryData",
            WarningType::UnclosedLink => "UnclosedLink",
            WarningType::WhitespaceInLink => "WhitespaceInLink",
            WarningType::DeadLink(_) => "DeadLink",
            WarningType::MissingStartPassage => "MissingStartPassage",
            WarningType::DeadStartPassage(_) => "DeadStartPassage",
        }
    }
}

/// A warning with a [`WarningType`], the context it points at, optionally
/// a referent pointing at a related earlier location, and a coarse
/// [`Position`] that diagnostics tooling may refine.
#[derive(Clone, Debug, Eq, PartialEq)]
pub struct Warning {
    /// The warning type
    pub kind: WarningType,

    /// The context of this warning
    pub context: Option<FullContext>,

    /// The location referenced by this warning
    pub referent: Option<FullContext>,

    /// The coarse position of this warning, refined through [`Positional`]
    pub position: Position,

    /// The length of the text the context covers, when diagnostics are
    /// configured to carry it; see [`crate::DiagnosticsConfig`]
    pub context_len: Option<usize>,
}

impl Warning {
    /// Creates a new `Warning` with no referent, a default position, and
    /// no context length.
    pub fn new(kind: WarningType, context: Option<FullContext>) -> (r: Warning)
        ensures
            r.kind == kind,
            r.context == context,
            r.referent is None,
            r.position == Position::StoryLevel,
            r.context_len is None,
    {
        Warning { kind, context, referent: None, position: Position::StoryLevel, context_len: None }
    }

    /// Returns `true` if this `Warning` has a referent.
    pub fn has_referent(&self) -> (r: bool)
        ensures
            r == (self.referent is Some),
    {
        self.referent.is_some()
    }

    /// Gets the referent if one exists.
    pub fn get_referent(&self) -> (r: Option<&FullContext>)
        ensures
            (match r {
                Some(c) => self.referent == Some(*c),
                None => self.referent is None,
            }),
    {
        self.referent.as_ref()
    }

    /// Sets the referent to the given context.
    pub fn set_referent(&mut self, referent: FullContext)
        ensures
            final(self).kind == old(self).kind,
            final(self).context == old(self).context,
            final(self).referent == Some(referent),
            final(self).position == old(self).position,
            final(self).context_len == old(self).context_len,
    {
        self.referent = Some(referent);
    }

    /// Moves the object, sets the referent, and hands the object back.
    pub fn with_referent(self, referent: FullContext) -> (r: Warning)
        ensures
            r.kind == self.kind,
            r.context == self.context,
            r.referent == Some(referent),
            r.position == self.position,
            r.context_len == self.context_len,
    {
        let mut w = self;
        w.set_referent(referent);
        w
    }

    /// Gets a string representation of this warning's kind.
    pub fn get_name(&self) -> (r: &str)
        ensures
            r@ == warning_type_name(self.kind),
    {
        self.kind.get_name()
    }
}

impl Positional for Warning {
    fn get_position(&self) -> &Position {
        &self.position
    }

    fn set_row(&mut self, row: usize) {
        self.position.set_row(row);
    }

    fn set_column(&mut self, col: usize) {
        self.position.set_column(col);
    }

    fn offset_row(&mut self, offset: usize) {
        self.position.offset_row(offset);
    }

    fn offset_column(&mut self, offset: usize) {
        self.position.offset_column(offset);
    }

    fn set_file(&mut self, file: String) {
        self.position.set_file(file);
    }
}

/// A wrapper type for a list of [`Error`]s.
#[derive(Clone, Debug, Eq, PartialEq)]
pub struct ErrorList {
    /// The list of `Error`s
    pub errors: Vec<Error>,
}

/// The errors a `Result` carries: the error list's contents on `Err`,
/// nothing on `Ok`.
pub open spec fn errors_of<T>(r: Result<T, ErrorList>) -> Seq<Error> {
    match r {
        Ok(_) => Seq::empty(),
        Err(e) => e.errors@,
    }
}

impl ErrorList {
    /// Creates a new, empty `ErrorList`.
    pub fn new() -> (r: ErrorList)
        ensures
            r.errors@ == Seq::<Error>::empty(),
    {
        ErrorList { errors: Vec::new() }
    }

    /// Adds the given [`Error`] to the end of the list.
    pub fn push(&mut self, error: Error)
        ensures
            final(self).errors@ == old(self).errors@.push(error),
    {
        self.errors.push(error);
    }

    /// Returns `true` if the list is empty.
    pub fn is_empty(&self) -> (r: bool)
        ensures
            r == (self.errors@.len() == 0),
    {
        self.errors.is_empty()
    }

    /// Given two `Result`s with `ErrorList` as the `Err` type, returns
    /// `Ok(())` if both are `Ok`, and otherwise an `ErrorList` holding the
    /// errors of `left` followed by the errors of `right`.  The inputs'
    /// error lists are drained in the process.
    pub fn merge<T, U>(left: &mut Result<T, ErrorList>, right: &mut Result<U, ErrorList>) -> (r:
        Result<(), ErrorList>)
        ensures
            errors_of(*old(left)).len() + errors_of(*old(right)).len() == 0 ==> r is Ok,
            errors_of(*old(left)).len() + errors_of(*old(right)).len() > 0 ==> (match r {
                Err(e) => e.errors@ == errors_of(*old(left)) + errors_of(*old(right)),
                Ok(_) => false,
            }),
            (*final(left)) is Ok <==> (*old(left)) is Ok,
            (*final(right)) is Ok <==> (*old(right)) is Ok,
            (*old(left)) is Ok ==> *final(left) == *old(left),
            (*old(right)) is Ok ==> *final(right) == *old(right),
    {
        let mut errors: Vec<Error> = Vec::new();
        match left {
            Err(l) => errors.append(&mut l.errors),
            _ => {},
        }
        match right {
            Err(l) => errors.append(&mut l.errors),
            _ => {},
        }
        if errors.is_empty() {
            proof {
                assert(errors_of(*old(left)) + errors_of(*old(right)) =~= errors@);
            }
            Ok(())
        } else {
            proof {
                assert(errors_of(*old(left)) + errors_of(*old(right)) =~= errors@);
            }
            Err(ErrorList { errors })
        }
    }
}

impl core::default::Default for ErrorList {
    /// The default `ErrorList` is empty.
    fn default() -> (r: ErrorList)
        ensures
            r.errors@ == Seq::<Error>::empty(),
    {
        ErrorList::new()
    }
}

impl core::convert::From<Error> for ErrorList {
    /// An `ErrorList` holding just the given error.
    fn from(e: Error) -> (r: ErrorList)
        ensures
            r.errors@ == seq![e],
    {
        let mut list = ErrorList::new();
        list.push(e);
        proof {
            assert(list.errors@ =~= seq![e]);
        }
        list
    }
}

impl vstd::std_specs::convert::FromSpecImpl<Error> for ErrorList {
    open spec fn obeys_from_spec() -> bool {
        false
    }

    open spec fn from_spec(e: Error) -> ErrorList {
        arbitrary()
    }
}

} // verus!

verus! {

/// Something that can carry the length of the text its context covers,
/// for display.
pub trait Contextual: Sized {
    /// Gets the stored context length, if any.
    fn get_context_len(&self) -> &Option<usize>;

    /// Moves the object, stores the given context length, and hands the
    /// object back.
    fn with_context_len(self, context_len: usize) -> Self;
}

impl Contextual for Warning {
    fn get_context_len(&self) -> (r: &Option<usize>)
        ensures
            r == self.context_len,
    {
        &self.context_len
    }

    fn with_context_len(self, context_len: usize) -> (r: Warning)
        ensures
            r.kind == self.kind,
            r.context == self.context,
            r.referent == self.referent,
            r.position == self.position,
            r.context_len == Some(context_len),
    {
        Warning { context_len: Some(context_len), ..self }
    }
}

impl Contextual for Error {
    fn get_context_len(&self) -> (r: &Option<usize>)
        ensures
            r == self.context_len,
    {
        &self.context_len
    }

    fn with_context_len(self, context_len: usize) -> (r: Error)
        ensures
            r.error_type == self.error_type,
            r.context == self.context,
            r.context_len == Some(context_len),
    {
        Error { context_len: Some(context_len), ..self }
    }
}

/// Runtime configuration for diagnostics: whether warnings and errors
/// carry the length of the text their context covers, so that one
/// binary can serve both verbosity levels.
#[derive(Clone, Copy, Debug, PartialEq, Eq, Structural)]
pub struct DiagnosticsConfig {
    /// Whether diagnostics carry their context's length
    pub context_length: bool,
}

impl DiagnosticsConfig {
    /// Creates a configuration.
    pub fn new(context_length: bool) -> (r: DiagnosticsConfig)
        ensures
            r == (DiagnosticsConfig { context_length }),
    {
        DiagnosticsConfig { context_length }
    }

    /// Annotates a warning as this configuration asks: when context
    /// lengths are on and the warning has a context, the length of the
    /// text that context covers is attached; otherwise the warning is
    /// handed back as it is.
    pub fn annotate_warning(&self, w: Warning) -> (r: Warning)
        requires
            (match w.context {
                Some(c) => c.wf(),
                None => true,
            }),
        ensures
            r.kind == w.kind,
            r.context == w.context,
            r.referent == w.referent,
            r.position == w.position,
            r.context_len == (match w.context {
                Some(c) => if self.context_length {
                    Some((c.spec_end_offset() - c.spec_start_offset()) as usize)
                } else {
                    w.context_len
                },
                None => w.context_len,
            }),
    {
        if !self.context_length {
            return w;
        }
        match &w.context {
            Some(c) => {
                let (a, b) = c.get_byte_range();
                let len = b - a;
                w.with_context_len(len)
            },
            None => w,
        }
    }

    /// Annotates an error in the same way.
    pub fn annotate_error(&self, e: Error) -> (r: Error)
        requires
            (match e.context {
                Some(c) => c.wf(),
                None => true,
            }),
        ensures
            r.error_type == e.error_type,
            r.context == e.context,
            r.context_len == (match e.context {
                Some(c) => if self.context_length {
                    Some((c.spec_end_offset() - c.spec_start_offset()) as usize)
                } else {
                    e.context_len
                },
                None => e.context_len,
            }),
    {
        if !self.context_length {
            return e;
        }
        match &e.context {
            Some(c) => {
                let (a, b) = c.get_byte_range();
                let len = b - a;
                e.with_context_len(len)
            },
            None => e,
        }
    }
}

} // verus!
