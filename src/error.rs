//! The error that snippet operations report.
use vstd::prelude::*;

verus! {

/// An error carrying a message.
#[derive(Debug, Clone)]
pub struct SnippetError<'a> {
    message: &'a str,
}

impl<'a> View for SnippetError<'a> {
    type V = Seq<char>;

    closed spec fn view(&self) -> Seq<char> {
        self.message@
    }
}

impl<'a> SnippetError<'a> {
    /// An error with this message.
    pub fn new(message: &'a str) -> (r: SnippetError<'a>)
        ensures
            r@ == message@,
    {
        SnippetError { message }
    }

    /// The error's message.
    pub fn message(&self) -> (r: &'a str)
        ensures
            r@ == self@,
    {
        self.message
    }
}

} // verus!
