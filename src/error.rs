use vstd::prelude::*;

verus! {

/// A failure reported by the scanner. `EndOfFile` marks the clean end of the
/// token stream; every other variant reports malformed input.
#[derive(Debug, Clone, PartialEq)]
pub enum LexError {
    /// A character that starts no token, with the line and column reached
    /// after consuming it.
    UnexpectedCharacter { character: char, line: usize, column: usize },
    /// A catch-all failure with a message; used for malformed numbers.
    GenericError { message: String },
    /// No characters are left: the token stream is finished.
    EndOfFile,
    /// A string literal whose closing quote never came, with the line and
    /// column at the end of the input.
    UnclosedString { line: usize, column: usize },
    /// A block comment whose closing `*/` never came, with the line and column
    /// of its opening `/`.
    UnclosedComment { line: usize, column: usize },
}

/// The mathematical value of a `LexError`, with the message as characters.
pub ghost enum LexErrorView {
    UnexpectedCharacter { character: char, line: nat, column: nat },
    GenericError { message: Seq<char> },
    EndOfFile,
    UnclosedString { line: nat, column: nat },
    UnclosedComment { line: nat, column: nat },
}

impl View for LexError {
    type V = LexErrorView;

    open spec fn view(&self) -> LexErrorView {
        match self {
            LexError::UnexpectedCharacter { character, line, column } =>
                LexErrorView::UnexpectedCharacter {
                    character: *character,
                    line: *line as nat,
                    column: *column as nat,
                },
            LexError::GenericError { message } => LexErrorView::GenericError { message: message@ },
            LexError::EndOfFile => LexErrorView::EndOfFile,
            LexError::UnclosedString { line, column } =>
                LexErrorView::UnclosedString { line: *line as nat, column: *column as nat },
            LexError::UnclosedComment { line, column } =>
                LexErrorView::UnclosedComment { line: *line as nat, column: *column as nat },
        }
    }
}

impl LexError {
    /// Builds an `UnexpectedCharacter` error.
    pub fn unexpected_character(character: char, line: usize, column: usize) -> (e: Self)
        ensures
            e == (LexError::UnexpectedCharacter { character, line, column }),
    {
        LexError::UnexpectedCharacter { character, line, column }
    }

    /// Builds a `GenericError` carrying `message`.
    pub fn generic_error(message: String) -> (e: Self)
        ensures
            e == (LexError::GenericError { message }),
    {
        LexError::GenericError { message }
    }
}

} // verus!
