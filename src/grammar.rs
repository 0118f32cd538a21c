//! The lexical grammar as spec functions: what each lexeme is, where it
//! ends, which line it is on, and the whole item sequence of a source.
use vstd::prelude::*;

use crate::error::{LexErrorKind, LexErrorView};
use crate::literal::LiteralView;
use crate::token::{TokenType, TokenView};

verus! {

pub open spec fn is_digit(c: char) -> bool {
    '0' <= c && c <= '9'
}

pub open spec fn is_alpha(c: char) -> bool {
    ('a' <= c && c <= 'z') || ('A' <= c && c <= 'Z') || c == '_'
}

pub open spec fn is_alphanumeric(c: char) -> bool {
    is_alpha(c) || is_digit(c)
}

/// Space, tab, carriage return and newline separate lexemes.
pub open spec fn is_blank(c: char) -> bool {
    c == ' ' || c == '\t' || c == '\r' || c == '\n'
}

/// The kind of a lexeme that is always exactly one character.
pub open spec fn single_char_kind(c: char) -> Option<TokenType> {
    if c == '(' {
        Some(TokenType::LeftParen)
    } else if c == ')' {
        Some(TokenType::RightParen)
    } else if c == '{' {
        Some(TokenType::LeftBrace)
    } else if c == '}' {
        Some(TokenType::RightBrace)
    } else if c == ',' {
        Some(TokenType::Comma)
    } else if c == '.' {
        Some(TokenType::Dot)
    } else if c == '-' {
        Some(TokenType::Minus)
    } else if c == '+' {
        Some(TokenType::Plus)
    } else if c == ';' {
        Some(TokenType::Semicolon)
    } else if c == '*' {
        Some(TokenType::Star)
    } else {
        None
    }
}

/// For an operator that may be followed by `=`: its kind alone, and its
/// kind together with the `=`.
pub open spec fn operator_kinds(c: char) -> Option<(TokenType, TokenType)> {
    if c == '!' {
        Some((TokenType::Bang, TokenType::BangEqual))
    } else if c == '=' {
        Some((TokenType::Equal, TokenType::EqualEqual))
    } else if c == '<' {
        Some((TokenType::Less, TokenType::LessEqual))
    } else if c == '>' {
        Some((TokenType::Greater, TokenType::GreaterEqual))
    } else {
        None
    }
}

/// The keyword table: the kind of a reserved word, by exact text.
pub open spec fn keyword_of(word: Seq<char>) -> Option<TokenType> {
    if word == seq!['a', 'n', 'd'] {
        Some(TokenType::And)
    } else if word == seq!['c', 'l', 'a', 's', 's'] {
        Some(TokenType::Class)
    } else if word == seq!['e', 'l', 's', 'e'] {
        Some(TokenType::Else)
    } else if word == seq!['f', 'a', 'l', 's', 'e'] {
        Some(TokenType::False)
    } else if word == seq!['f', 'o', 'r'] {
        Some(TokenType::For)
    } else if word == seq!['f', 'u', 'n'] {
        Some(TokenType::Fun)
    } else if word == seq!['i', 'f'] {
        Some(TokenType::If)
    } else if word == seq!['n', 'i', 'l'] {
        Some(TokenType::Nil)
    } else if word == seq!['o', 'r'] {
        Some(TokenType::Or)
    } else if word == seq!['p', 'r', 'i', 'n', 't'] {
        Some(TokenType::Print)
    } else if word == seq!['r', 'e', 't', 'u', 'r', 'n'] {
        Some(TokenType::Return)
    } else if word == seq!['s', 'u', 'p', 'e', 'r'] {
        Some(TokenType::Super)
    } else if word == seq!['t', 'h', 'i', 's'] {
        Some(TokenType::This)
    } else if word == seq!['t', 'r', 'u', 'e'] {
        Some(TokenType::True)
    } else if word == seq!['v', 'a', 'r'] {
        Some(TokenType::Var)
    } else if word == seq!['w', 'h', 'i', 'l', 'e'] {
        Some(TokenType::While)
    } else {
        None
    }
}

/// A word is a keyword where the table has it, else an identifier.
pub open spec fn word_kind(word: Seq<char>) -> TokenType {
    match keyword_of(word) {
        Some(k) => k,
        None => TokenType::Identifier,
    }
}

/// Whether `s` holds `c` at index `i`.
pub open spec fn char_at_is(s: Seq<char>, i: int, c: char) -> bool {
    0 <= i < s.len() && s[i] == c
}

pub open spec fn newline_count(s: Seq<char>) -> nat
    decreases s.len(),
{
    if s.len() == 0 {
        0
    } else {
        newline_count(s.drop_last()) + if s.last() == '\n' {
            1nat
        } else {
            0nat
        }
    }
}

/// The 1-based line of the character at `pos`: one more than the
/// newlines before it.
pub open spec fn line_at(s: Seq<char>, pos: int) -> nat {
    1 + newline_count(s.take(pos))
}

/// End of the run of digits that starts at `i`.
pub open spec fn digits_end(s: Seq<char>, i: int) -> int
    decreases s.len() - i,
{
    if 0 <= i < s.len() && is_digit(s[i]) {
        digits_end(s, i + 1)
    } else {
        i
    }
}

/// End of the run of letters, digits and underscores that starts at `i`.
pub open spec fn word_end(s: Seq<char>, i: int) -> int
    decreases s.len() - i,
{
    if 0 <= i < s.len() && is_alphanumeric(s[i]) {
        word_end(s, i + 1)
    } else {
        i
    }
}

/// The first index from `i` on that holds `c`, or the length if none does.
pub open spec fn find_char(s: Seq<char>, i: int, c: char) -> int
    decreases s.len() - i,
{
    if 0 <= i < s.len() && s[i] != c {
        find_char(s, i + 1, c)
    } else {
        i
    }
}

/// The first index `k` from `i` on where `*/` starts; where there is none,
/// an index `k` with `k + 1 >= s.len()`.
pub open spec fn comment_close(s: Seq<char>, i: int) -> int
    decreases s.len() - i,
{
    if 0 <= i && i + 1 < s.len() && !(s[i] == '*' && s[i + 1] == '/') {
        comment_close(s, i + 1)
    } else {
        i
    }
}

/// End of the numeral that starts at `pos`: digits, then a `.` and more
/// digits only where a digit follows the `.`.
pub open spec fn number_end(s: Seq<char>, pos: int) -> int {
    let e = digits_end(s, pos + 1);
    if char_at_is(s, e, '.') && e + 1 < s.len() && is_digit(s[e + 1]) {
        digits_end(s, e + 2)
    } else {
        e
    }
}

/// What the characters from one position on amount to.
pub enum Lexed {
    /// Whitespace, a newline or a complete comment: no token.
    Blank,
    Token(TokenType),
    Error(LexErrorKind),
}

/// The lexeme that starts at `pos` (with `0 <= pos < s.len()`), and the
/// index just past it.
pub open spec fn lex_at(s: Seq<char>, pos: int) -> (Lexed, int) {
    let c = s[pos];
    if is_blank(c) {
        (Lexed::Blank, pos + 1)
    } else if single_char_kind(c) is Some {
        (Lexed::Token(single_char_kind(c)->0), pos + 1)
    } else if let Some((alone, with_equal)) = operator_kinds(c) {
        if char_at_is(s, pos + 1, '=') {
            (Lexed::Token(with_equal), pos + 2)
        } else {
            (Lexed::Token(alone), pos + 1)
        }
    } else if c == '/' {
        if char_at_is(s, pos + 1, '/') {
            (Lexed::Blank, find_char(s, pos + 2, '\n'))
        } else if char_at_is(s, pos + 1, '*') {
            let k = comment_close(s, pos + 2);
            if k + 1 < s.len() {
                (Lexed::Blank, k + 2)
            } else {
                (Lexed::Error(LexErrorKind::UnterminatedComment), s.len() as int)
            }
        } else {
            (Lexed::Token(TokenType::Slash), pos + 1)
        }
    } else if c == '"' {
        let k = find_char(s, pos + 1, '"');
        if k < s.len() {
            (Lexed::Token(TokenType::String), k + 1)
        } else {
            (Lexed::Error(LexErrorKind::UnterminatedString), s.len() as int)
        }
    } else if is_alpha(c) {
        let e = word_end(s, pos + 1);
        (Lexed::Token(word_kind(s.subrange(pos, e))), e)
    } else if is_digit(c) {
        (Lexed::Token(TokenType::Number), number_end(s, pos))
    } else {
        (Lexed::Error(LexErrorKind::UnexpectedCharacter(c)), pos + 1)
    }
}

/// The literal carried by a token of kind `kind` whose lexeme is `lexeme`:
/// a string's literal leaves out the two quotes.
pub open spec fn literal_for(kind: TokenType, lexeme: Seq<char>) -> Option<LiteralView> {
    match kind {
        TokenType::Number => Some(LiteralView::Number(lexeme)),
        TokenType::String => Some(LiteralView::Str(lexeme.subrange(1, lexeme.len() - 1))),
        TokenType::Identifier => Some(LiteralView::Identifier(lexeme)),
        _ => None,
    }
}

/// The token of kind `kind` made of `s[start..end]`.
pub open spec fn token_at(s: Seq<char>, kind: TokenType, start: int, end: int) -> TokenView {
    TokenView {
        kind,
        lexeme: s.subrange(start, end),
        literal: literal_for(kind, s.subrange(start, end)),
        line: line_at(s, start),
    }
}

/// The end-of-input marker of `s`, on its last line.
pub open spec fn end_token(s: Seq<char>) -> TokenView {
    TokenView { kind: TokenType::EndOfInput, lexeme: seq![], literal: None, line: line_at(s, s.len() as int) }
}

/// What scanning produces: a token, or an error.
pub type Item = Result<TokenView, LexErrorView>;

/// What the lexeme at `pos` produces: nothing for a blank, else a token or
/// an error reported on the line where the lexeme starts.
pub open spec fn item_at(s: Seq<char>, pos: int) -> Option<Item> {
    let (l, end) = lex_at(s, pos);
    match l {
        Lexed::Blank => None,
        Lexed::Token(k) => Some(Ok(token_at(s, k, pos, end))),
        Lexed::Error(e) => Some(Err(LexErrorView { kind: e, line: line_at(s, pos) })),
    }
}

/// The items that scanning `s` from `pos` on produces, in order, ending
/// with the end-of-input marker. An error does not stop the scan.
pub open spec fn scan_from(s: Seq<char>, pos: int) -> Seq<Item>
    decreases s.len() - pos,
    when 0 <= pos
{
    if pos >= s.len() {
        seq![Ok(end_token(s))]
    } else {
        proof {
            lemma_lex_advances(s, pos);
        }
        let rest = scan_from(s, lex_at(s, pos).1);
        match item_at(s, pos) {
            None => rest,
            Some(x) => seq![x] + rest,
        }
    }
}

/// The items that scanning the whole of `s` produces.
pub open spec fn scan_source(s: Seq<char>) -> Seq<Item> {
    scan_from(s, 0)
}

/// The tokens among `items`, in order.
pub open spec fn tokens_of(items: Seq<Item>) -> Seq<TokenView>
    decreases items.len(),
{
    if items.len() == 0 {
        seq![]
    } else {
        match items.last() {
            Ok(t) => tokens_of(items.drop_last()).push(t),
            Err(_) => tokens_of(items.drop_last()),
        }
    }
}

/// The errors among `items`, in order.
pub open spec fn errors_of(items: Seq<Item>) -> Seq<LexErrorView>
    decreases items.len(),
{
    if items.len() == 0 {
        seq![]
    } else {
        match items.last() {
            Ok(_) => errors_of(items.drop_last()),
            Err(e) => errors_of(items.drop_last()).push(e),
        }
    }
}

/// Moving past one character raises the line by one exactly where the
/// character is a newline.
pub proof fn lemma_line_step(s: Seq<char>, i: int)
    requires
        0 <= i < s.len(),
    ensures
        line_at(s, i + 1) == line_at(s, i) + if s[i] == '\n' {
            1int
        } else {
            0int
        },
{
    assert(s.take(i + 1).drop_last() =~= s.take(i));
}

/// No line number within `s` exceeds that of its end.
pub proof fn lemma_line_bound(s: Seq<char>, i: int)
    requires
        0 <= i <= s.len(),
    ensures
        line_at(s, i) <= line_at(s, s.len() as int),
    decreases s.len() - i,
{
    if i < s.len() {
        lemma_line_step(s, i);
        lemma_line_bound(s, i + 1);
    }
}

pub proof fn lemma_digits_end(s: Seq<char>, i: int)
    requires
        0 <= i <= s.len(),
    ensures
        i <= digits_end(s, i) <= s.len(),
    decreases s.len() - i,
{
    if i < s.len() && is_digit(s[i]) {
        lemma_digits_end(s, i + 1);
    }
}

pub proof fn lemma_word_end(s: Seq<char>, i: int)
    requires
        0 <= i <= s.len(),
    ensures
        i <= word_end(s, i) <= s.len(),
    decreases s.len() - i,
{
    if i < s.len() && is_alphanumeric(s[i]) {
        lemma_word_end(s, i + 1);
    }
}

pub proof fn lemma_find_char(s: Seq<char>, i: int, c: char)
    requires
        0 <= i <= s.len(),
    ensures
        i <= find_char(s, i, c) <= s.len(),
    decreases s.len() - i,
{
    if i < s.len() && s[i] != c {
        lemma_find_char(s, i + 1, c);
    }
}

pub proof fn lemma_comment_close(s: Seq<char>, i: int)
    requires
        0 <= i <= s.len(),
    ensures
        i <= comment_close(s, i) <= s.len(),
    decreases s.len() - i,
{
    if i + 1 < s.len() && !(s[i] == '*' && s[i + 1] == '/') {
        lemma_comment_close(s, i + 1);
    }
}

/// Each lexeme is at least one character long and lies within the source.
pub proof fn lemma_lex_advances(s: Seq<char>, pos: int)
    requires
        0 <= pos < s.len(),
    ensures
        pos < lex_at(s, pos).1 <= s.len(),
{
    lemma_digits_end(s, pos + 1);
    let e = digits_end(s, pos + 1);
    if 0 <= e && e + 2 <= s.len() {
        lemma_digits_end(s, e + 2);
    }
    lemma_word_end(s, pos + 1);
    if pos + 2 <= s.len() {
        lemma_find_char(s, pos + 2, '\n');
        lemma_comment_close(s, pos + 2);
    }
    lemma_find_char(s, pos + 1, '"');
}

} // verus!
