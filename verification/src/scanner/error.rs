use crate::text::{append_decimal, decimal_digits};
use vstd::prelude::*;
use vstd::string::StringExecFns;

verus! {

/// What a lexical error stands for: its message by its characters and the
/// line it occurred on.
pub struct LexicalErrorModel {
    pub message: Seq<char>,
    pub line: nat,
}

impl LexicalErrorModel {
    /// The error in words: the line, then the message.
    pub open spec fn text(self) -> Seq<char> {
        "Error on line "@ + decimal_digits(self.line) + ": "@ + self.message
    }
}

/// Error returned by the scanner when it cannot categorize a token.
#[derive(Debug)]
pub struct LexicalError {
    /// Error message.
    message: String,
    /// Line at which the error occurred.
    line: usize,
}

impl View for LexicalError {
    type V = LexicalErrorModel;

    closed spec fn view(&self) -> LexicalErrorModel {
        LexicalErrorModel { message: self.message@, line: self.line as nat }
    }
}

impl Clone for LexicalError {
    fn clone(&self) -> (copy: LexicalError)
        ensures
            copy@ == self@,
    {
        LexicalError { message: self.message.clone(), line: self.line }
    }
}

impl LexicalError {
    /// Creates a new error.
    pub fn new(message: String, line: usize) -> (error: LexicalError)
        ensures
            error@ == (LexicalErrorModel { message: message@, line: line as nat }),
    {
        Self { message, line }
    }

    /// Returns the error message.
    pub fn message(&self) -> (message: &str)
        ensures
            message@ == self@.message,
    {
        self.message.as_str()
    }

    /// Returns the line at which the error occurred.
    pub fn line(&self) -> (line: usize)
        ensures
            line == self@.line,
    {
        self.line
    }

    /// Returns the error in words: the line, then the message.
    pub fn to_string(&self) -> (text: String)
        ensures
            text@ == self@.text(),
    {
        let mut text = String::from_str("Error on line ");
        append_decimal(&mut text, self.line);
        text.append(": ");
        text.append(self.message.as_str());
        text
    }
}

} // verus!
