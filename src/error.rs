use vstd::prelude::*;

use crate::text::push_char;

verus! {

/// The kinds of malformed input the scanner reports.
#[derive(Debug, Clone, Copy, PartialEq, Eq, Structural)]
pub enum LexErrorKind {
    /// A `"` was opened and the input ended before the closing one.
    UnterminatedString,
    /// A `/*` was opened and the input ended before the closing `*/`.
    UnterminatedComment,
    /// The character starts no lexeme.
    UnexpectedCharacter(char),
}

/// A lexical error and the line it is reported on.
#[derive(Debug, Clone, Copy, PartialEq, Eq, Structural)]
pub struct LexError {
    pub kind: LexErrorKind,
    pub line: u32,
}

/// Mathematical model of a [`LexError`].
pub struct LexErrorView {
    pub kind: LexErrorKind,
    pub line: nat,
}

impl View for LexError {
    type V = LexErrorView;

    open spec fn view(&self) -> LexErrorView {
        LexErrorView { kind: self.kind, line: self.line as nat }
    }
}

/// The human-readable text of an error of kind `kind`.
pub open spec fn message_of(kind: LexErrorKind) -> Seq<char> {
    match kind {
        LexErrorKind::UnterminatedString => "unterminated string"@,
        LexErrorKind::UnterminatedComment => "unterminated comment"@,
        LexErrorKind::UnexpectedCharacter(c) => "unexpected character '"@ + seq![c, '\''],
    }
}

impl LexError {
    /// The human-readable message of this error.
    pub fn message(&self) -> (r: String)
        ensures
            r@ == message_of(self.kind),
    {
        match self.kind {
            LexErrorKind::UnterminatedString => String::from_str("unterminated string"),
            LexErrorKind::UnterminatedComment => String::from_str("unterminated comment"),
            LexErrorKind::UnexpectedCharacter(c) => {
                let mut m = String::from_str("unexpected character '");
                push_char(&mut m, c);
                push_char(&mut m, '\'');
                assert(m@ =~= message_of(self.kind));
                m
            },
        }
    }
}

} // verus!
