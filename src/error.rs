//! Diagnostics: where a failure happened, and what it was.
use vstd::prelude::*;

use crate::value::Value;

verus! {

/// How many arguments a construct accepts.
#[derive(Clone, Copy, Debug, PartialEq, Eq, Structural)]
pub enum ArgumentType {
    Exact(usize),
    Range(usize, usize),
    AtLeast(usize),
    AtMost(usize),
}

impl ArgumentType {
    pub open spec fn accepts(self, value: nat) -> bool {
        match self {
            ArgumentType::Exact(num) => value == num,
            ArgumentType::Range(min, max) => min <= value <= max,
            ArgumentType::AtLeast(num) => value >= num,
            ArgumentType::AtMost(num) => value <= num,
        }
    }

    pub fn is_valid(&self, value: usize) -> (r: bool)
        ensures
            r == self.accepts(value as nat),
    {
        match *self {
            ArgumentType::Exact(num) => value == num,
            ArgumentType::Range(min, max) => value >= min && value <= max,
            ArgumentType::AtLeast(num) => value >= num,
            ArgumentType::AtMost(num) => value <= num,
        }
    }
}

/// What went wrong while a line was compiled.
pub enum ErrorType {
    Generic(String),
    InvalidValue(String),
    InvalidPointer(Value),
    Empty(String),
    ArgumentError { kind: String, name: String, num: usize, range: ArgumentType },
    NonExistent { kind: String, value: String },
}

/// What went wrong while a program ran.
#[derive(Debug, PartialEq, Eq, Structural)]
pub enum RuntimeError {
    /// A `pop` asked for more bits than the stack holds.
    StackUnderflow,
    /// An operand could not be reduced to bits, a size or an address.
    Unresolvable,
    /// A write whose source is wider than its destination.
    TooWide,
    /// A jump to a label that was never defined.
    NoSuchLabel,
    /// A `return` with no call to return from.
    EmptyCallStack,
    /// A position or size that does not fit in the machine's words.
    Overflow,
    /// An `extern` whose name no handler is registered under.
    NoSuchExternal,
}

/// The source line that a diagnostic belongs to.
pub struct Error {
    pub text: String,
    pub line: usize,
    pub file: Option<String>,
}

impl Error {
    pub fn new(text: String, line: usize, path: Option<String>) -> (r: Error)
        ensures
            r.text == text,
            r.line == line,
            r.file == path,
    {
        Error { text: text, line: line, file: path }
    }

    /// Fails with an `ArgumentError` exactly when `range` does not accept `num`.
    pub fn check_args(&self, err_type: &str, name: &str, num: usize, range: ArgumentType) -> (r:
        Result<(), ErrorType>)
        ensures
            r is Ok <==> range.accepts(num as nat),
            r matches Err(ErrorType::ArgumentError { kind, name: n, num: k, range: g }) ==> (
            kind@ == err_type@ && n@ == name@ && k == num && g == range),
            r is Err ==> r matches Err(ErrorType::ArgumentError { .. }),
    {
        if range.is_valid(num) {
            Ok(())
        } else {
            Err(
                ErrorType::ArgumentError {
                    kind: err_type.to_string(),
                    name: name.to_string(),
                    num: num,
                    range: range,
                },
            )
        }
    }
}

} // verus!
