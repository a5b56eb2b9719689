use vstd::prelude::*;

verus! {

/// One recoverable lexical fault: what went wrong and on which line.
#[derive(Debug, Clone, PartialEq)]
pub struct ScanError {
    message: String,
    line: usize,
}

/// What a `ScanError` stands for: its message text and its line.
pub ghost struct ErrorView {
    pub message: Seq<char>,
    pub line: nat,
}

impl View for ScanError {
    type V = ErrorView;

    closed spec fn view(&self) -> ErrorView {
        ErrorView { message: self.message@, line: self.line as nat }
    }
}

impl ScanError {
    /// Builds an error from its message and the 1-based line it occurred on.
    pub fn new(message: &str, line: usize) -> (r: ScanError)
        ensures
            r@ == (ErrorView { message: message@, line: line as nat }),
    {
        ScanError { message: message.to_owned(), line }
    }

    pub fn message(&self) -> (r: &str)
        ensures
            r@ == self@.message,
    {
        self.message.as_str()
    }

    pub fn line(&self) -> (r: usize)
        ensures
            r == self@.line,
    {
        self.line
    }
}

} // verus!
