//! The failures an assembly run can end in.

use vstd::prelude::*;
use vstd::string::*;
use crate::number::IntFault;

verus! {

/// What went wrong.
#[derive(Clone, Copy, Debug, PartialEq, Eq, Structural)]
pub enum ErrorKind {
    IOError,
    ParseConstantError,
    ParseOpCodeError,
    ParseRegisterError,
    ParseDirectiveError,
    InvalidTokenError,
    MissingLabelError,
    UnexpectedEof,
    SyntaxError,
    ValueError,
}

/// A failure: its kind and a message for the user.
#[derive(Debug, Clone, PartialEq)]
pub struct Error {
    pub kind: ErrorKind,
    pub message: String,
}

/// A failure as contracts speak of it: the kind, and the characters of the
/// message.
pub struct Failure {
    pub kind: ErrorKind,
    pub message: Seq<char>,
}

impl Failure {
    /// The failure of the given kind that carries the kind's default message.
    pub open spec fn of(kind: ErrorKind) -> Failure {
        Failure { kind, message: kind.text() }
    }

    /// The failure of a constant that is no number.
    pub open spec fn of_fault(fault: IntFault) -> Failure {
        Failure { kind: ErrorKind::ParseConstantError, message: fault.text() }
    }
}

impl View for Error {
    type V = Failure;

    open spec fn view(&self) -> Failure {
        Failure { kind: self.kind, message: self.message@ }
    }
}

/// Whether the words or the failure of `r` are those of `model`.
pub open spec fn words_match(r: Result<Vec<u16>, Error>, model: Result<Seq<u16>, Failure>) -> bool {
    match (r, model) {
        (Ok(words), Ok(expected)) => words@ == expected,
        (Err(e), Err(f)) => e@ == f,
        _ => false,
    }
}

impl ErrorKind {
    /// The default message of this kind of failure.
    pub open spec fn text(self) -> Seq<char> {
        match self {
            ErrorKind::IOError => "io error"@,
            ErrorKind::ParseConstantError => "parse constant error"@,
            ErrorKind::ParseOpCodeError => "parse op code error"@,
            ErrorKind::ParseRegisterError => "parse register error"@,
            ErrorKind::ParseDirectiveError => "parse directive error"@,
            ErrorKind::InvalidTokenError => "encountered invalid token while parsing"@,
            ErrorKind::UnexpectedEof => "unexpectedly reached EOF"@,
            ErrorKind::SyntaxError => "invalid syntax"@,
            ErrorKind::MissingLabelError => "missing label"@,
            ErrorKind::ValueError => "invalid value"@,
        }
    }

    /// The name of this kind, as it is written in source code.
    pub open spec fn label(self) -> Seq<char> {
        match self {
            ErrorKind::IOError => "IOError"@,
            ErrorKind::ParseConstantError => "ParseConstantError"@,
            ErrorKind::ParseOpCodeError => "ParseOpCodeError"@,
            ErrorKind::ParseRegisterError => "ParseRegisterError"@,
            ErrorKind::ParseDirectiveError => "ParseDirectiveError"@,
            ErrorKind::InvalidTokenError => "InvalidTokenError"@,
            ErrorKind::UnexpectedEof => "UnexpectedEof"@,
            ErrorKind::SyntaxError => "SyntaxError"@,
            ErrorKind::MissingLabelError => "MissingLabelError"@,
            ErrorKind::ValueError => "ValueError"@,
        }
    }

    pub fn as_str(&self) -> (s: &'static str)
        ensures
            s@ == self.text(),
    {
        match self {
            ErrorKind::IOError => "io error",
            ErrorKind::ParseConstantError => "parse constant error",
            ErrorKind::ParseOpCodeError => "parse op code error",
            ErrorKind::ParseRegisterError => "parse register error",
            ErrorKind::ParseDirectiveError => "parse directive error",
            ErrorKind::InvalidTokenError => "encountered invalid token while parsing",
            ErrorKind::UnexpectedEof => "unexpectedly reached EOF",
            ErrorKind::SyntaxError => "invalid syntax",
            ErrorKind::MissingLabelError => "missing label",
            ErrorKind::ValueError => "invalid value",
        }
    }

    /// The name of this kind, for display.
    pub fn name(&self) -> (s: &'static str)
        ensures
            s@ == self.label(),
    {
        match self {
            ErrorKind::IOError => "IOError",
            ErrorKind::ParseConstantError => "ParseConstantError",
            ErrorKind::ParseOpCodeError => "ParseOpCodeError",
            ErrorKind::ParseRegisterError => "ParseRegisterError",
            ErrorKind::ParseDirectiveError => "ParseDirectiveError",
            ErrorKind::InvalidTokenError => "InvalidTokenError",
            ErrorKind::UnexpectedEof => "UnexpectedEof",
            ErrorKind::SyntaxError => "SyntaxError",
            ErrorKind::MissingLabelError => "MissingLabelError",
            ErrorKind::ValueError => "ValueError",
        }
    }
}

impl Error {
    /// A failure of the given kind with that kind's default message.
    pub fn new(kind: ErrorKind) -> (e: Self)
        ensures
            e@ == Failure::of(kind),
    {
        Self { kind, message: kind.as_str().to_owned() }
    }

    /// The failure of a constant that is no number: a `ParseConstantError`
    /// whose message says what is wrong with the digits.
    pub fn from_fault(fault: IntFault) -> (e: Self)
        ensures
            e@ == Failure::of_fault(fault),
    {
        Self { kind: ErrorKind::ParseConstantError, message: fault.as_str().to_owned() }
    }

    /// What `describe` returns: the kind's name in square brackets, a space,
    /// and the message.
    pub open spec fn description(self) -> Seq<char> {
        "["@ + self.kind.label() + "] "@ + self.message@
    }

    /// The failure as one line of text.
    pub fn describe(&self) -> (s: String)
        ensures
            s@ == self.description(),
    {
        let mut s = String::from_str("[");
        s.append(self.kind.name());
        s.append("] ");
        s.append(self.message.as_str());
        s
    }
}

} // verus!
