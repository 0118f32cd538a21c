use vstd::prelude::*;

verus! {

/// The value carried by a number, string or identifier token.
///
/// A number is kept as its decimal numeral (digits, optionally followed by
/// a `.` and more digits), which denotes the 64-bit floating-point value
/// that parsing it yields; the conversion itself is left to the caller.
#[derive(Debug, Clone, PartialEq)]
pub enum Literal {
    LoxNumber(String),
    LoxString(String),
    LoxIdentifier(String),
}

/// Mathematical model of a [`Literal`].
pub enum LiteralView {
    Number(Seq<char>),
    Str(Seq<char>),
    Identifier(Seq<char>),
}

impl View for Literal {
    type V = LiteralView;

    open spec fn view(&self) -> LiteralView {
        match self {
            Literal::LoxNumber(s) => LiteralView::Number(s@),
            Literal::LoxString(s) => LiteralView::Str(s@),
            Literal::LoxIdentifier(s) => LiteralView::Identifier(s@),
        }
    }
}

impl LiteralView {
    pub open spec fn text(self) -> Seq<char> {
        match self {
            LiteralView::Number(s) => s,
            LiteralView::Str(s) => s,
            LiteralView::Identifier(s) => s,
        }
    }
}

impl Literal {
    /// The text held by the literal: the numeral, the string's contents or
    /// the identifier's name.
    pub fn text(&self) -> (r: &str)
        ensures
            r@ == self@.text(),
    {
        match self {
            Literal::LoxNumber(s) => s.as_str(),
            Literal::LoxString(s) => s.as_str(),
            Literal::LoxIdentifier(s) => s.as_str(),
        }
    }
}

pub open spec fn option_literal_view(l: Option<Literal>) -> Option<LiteralView> {
    match l {
        Some(v) => Some(v@),
        None => None,
    }
}

} // verus!
