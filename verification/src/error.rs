//! Error types shared by the lexer, the parsers and the buffer builders.

use vstd::prelude::*;

verus! {

/// The ways a load can fail, beyond malformed numeric tokens.
#[derive(Clone, Copy, Debug, PartialEq, Eq, Structural)]
pub enum LoadErrorKind {
    /// A statement keyword the format does not define.
    UnexpectedStatement,
    /// A statement with an argument count its keyword does not allow.
    WrongNumberOfArguments,
    /// A vertex reference whose shape differs from the statement's first one.
    WrongTypeOfArguments,
    /// A vertex index of zero, one outside the referenced array, or one that
    /// does not fit the requested index width.
    IndexOutOfRange,
    /// The source ended while a backslash continuation was pending.
    BackslashAtEOF,
    /// An element lacks an attribute the requested vertex layout needs.
    InsufficientData,
    /// An element with other than three references where triangles are required.
    UntriangulatedModel,
}

/// Why an integer token failed to parse.
#[derive(Clone, Copy, Debug, PartialEq, Eq, Structural)]
pub enum IntErrorKind {
    /// The token was empty.
    Empty,
    /// The token held a character that is not part of an integer.
    InvalidDigit,
    /// The value is too large for the target type.
    PosOverflow,
    /// The value is too small for the target type.
    NegOverflow,
}

/// A load failure with a human-readable message.
#[derive(Clone, Debug, PartialEq)]
pub struct LoadError {
    /// What went wrong.
    pub kind: LoadErrorKind,
    /// A short description of the failure.
    pub message: String,
}

impl LoadError {
    /// Builds a `LoadError` of the given kind and message.
    pub fn new(kind: LoadErrorKind, message: &str) -> (r: LoadError)
        ensures
            r.kind == kind,
            r.message@ == message@,
    {
        LoadError { kind, message: message.to_owned() }
    }

    /// What went wrong.
    pub fn kind(&self) -> (r: &LoadErrorKind)
        ensures
            *r == self.kind,
    {
        &self.kind
    }

    /// The short description of the failure.
    pub fn message(&self) -> (r: &String)
        ensures
            r@ == self.message@,
    {
        &self.message
    }
}

/// Any failure of a parse or a buffer build.
#[derive(Clone, Debug, PartialEq)]
pub enum ObjError {
    /// A structural failure of the document.
    Load(LoadError),
    /// A malformed integer token.
    ParseInt(IntErrorKind),
    /// A token that is not a well-formed decimal number.
    ParseFloat,
}

/// The result type of every fallible operation of this library.
pub type ObjResult<T> = Result<T, ObjError>;

/// An `ObjError` stripped of its message: what the contracts speak about.
#[derive(Clone, Copy, Debug, PartialEq, Eq, Structural)]
pub enum ErrModel {
    /// A structural failure of the document.
    Load(LoadErrorKind),
    /// A malformed integer token.
    ParseInt(IntErrorKind),
    /// A token that is not a well-formed decimal number.
    ParseFloat,
}

/// The model of an error: its kind, with the message dropped.
pub open spec fn err_model(e: ObjError) -> ErrModel {
    match e {
        ObjError::Load(l) => ErrModel::Load(l.kind),
        ObjError::ParseInt(k) => ErrModel::ParseInt(k),
        ObjError::ParseFloat => ErrModel::ParseFloat,
    }
}

/// The failures the historic statement lexer distinguishes.
#[derive(Clone, Copy, Debug, PartialEq, Eq, Structural)]
pub enum ParseErrorKind {
    /// A statement keyword the format does not define.
    UnexpectedStatement,
    /// A statement with an argument count its keyword does not allow.
    WrongNumberOfArguments,
}

/// A failure reported by the historic statement lexer.
#[derive(Clone, Copy, Debug)]
pub struct ParseError {
    /// What went wrong.
    pub kind: ParseErrorKind,
    /// A short description of the failure.
    pub desc: &'static str,
}

/// Builds a `ParseError` of the given kind, with its canonical description.
pub fn parse_error(kind: ParseErrorKind) -> (r: ParseError)
    ensures
        r.kind == kind,
        kind == ParseErrorKind::UnexpectedStatement ==> r.desc@ == "Unexpected statement"@,
        kind == ParseErrorKind::WrongNumberOfArguments ==> r.desc@ == "Wrong number of arguments"@,
{
    let desc = match kind {
        ParseErrorKind::UnexpectedStatement => "Unexpected statement",
        ParseErrorKind::WrongNumberOfArguments => "Wrong number of arguments",
    };

    ParseError { kind, desc }
}

} // verus!
