//! The error that parsing reports.

use crate::pos::Pos;
use vstd::prelude::*;

verus! {

/// A parse error: where the text went wrong, and why.
#[derive(Clone, Debug, PartialEq, Eq)]
pub struct Error {
    pub pos: Pos,
    pub message: String,
}

/// What an [`Error`] holds, with its message as a sequence of characters.
pub struct ErrorModel {
    pub pos: Pos,
    pub message: Seq<char>,
}

impl DeepView for Error {
    type V = ErrorModel;

    open spec fn deep_view(&self) -> ErrorModel {
        ErrorModel { pos: self.pos, message: self.message@ }
    }
}

impl Error {
    /// An error at `pos` with the given message.
    pub fn new(pos: Pos, message: String) -> (r: Self)
        ensures
            r.pos == pos,
            r.message == message,
    {
        Error { pos, message }
    }

    /// The message, as `Display` would print the error.
    pub fn to_string(&self) -> (r: String)
        ensures
            r@ == self.message@,
    {
        self.message.clone()
    }
}

} // verus!
