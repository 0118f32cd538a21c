use vstd::prelude::*;

use crate::error::{LexError, LexErrorKind, LexErrorView};
use crate::grammar::{
    comment_close, digits_end, errors_of, find_char, is_alpha, is_alphanumeric, is_digit,
    item_at, keyword_of, lemma_comment_close, lemma_digits_end, lemma_find_char,
    lemma_lex_advances, lemma_line_bound, lemma_line_step, lemma_word_end, lex_at, line_at,
    operator_kinds, scan_from, scan_source, single_char_kind, token_at, tokens_of, word_end,
    Item,
};
use crate::literal::Literal;
use crate::text::text_between;
use crate::token::{Token, TokenType, TokenView};

verus! {

/// The model of what `next_token` returned.
pub open spec fn item_view(r: Result<Token, LexError>) -> Item {
    match r {
        Ok(t) => Ok(t@),
        Err(e) => Err(e@),
    }
}

pub open spec fn token_views(v: Seq<Token>) -> Seq<TokenView> {
    v.map_values(|t: Token| t@)
}

pub open spec fn error_views(v: Seq<LexError>) -> Seq<LexErrorView> {
    v.map_values(|e: LexError| e@)
}

/// Turns a source text into tokens, one lexeme at a time.
///
/// A scanner serves one source and is done once it has handed out the
/// end-of-input marker. Lexical errors do not stop it: each is reported
/// where it occurs and scanning goes on after it, so that one pass finds
/// every error.
pub struct Scanner {
    chars: Vec<char>,
    current: usize,
    line: u32,
    finished: bool,
}

impl Scanner {
    /// The source text being scanned.
    pub closed spec fn source(&self) -> Seq<char> {
        self.chars@
    }

    pub closed spec fn wf(&self) -> bool {
        &&& self.current <= self.chars.len()
        &&& self.line == line_at(self.chars@, self.current as int)
        &&& line_at(self.chars@, self.chars.len() as int) <= u32::MAX
    }

    /// The items this scanner has yet to hand out.
    pub closed spec fn remaining(&self) -> Seq<Item> {
        if self.finished {
            seq![]
        } else {
            scan_from(self.chars@, self.current as int)
        }
    }

    /// Whether every line of `source` has a `u32` line number, as
    /// `from_source` requires.
    pub fn lines_fit(source: &str) -> (r: bool)
        ensures
            r == (line_at(source@, source@.len() as int) <= u32::MAX),
    {
        let mut newlines: u32 = 0;
        assert(source@.take(0) =~= Seq::<char>::empty());
        for c in it: source.chars()
            invariant
                it.seq() == source@,
                newlines < u32::MAX,
                newlines + 1 == line_at(source@, it.index() as int),
        {
            proof {
                lemma_line_step(source@, it.index() as int);
            }
            if c == '\n' {
                if newlines == u32::MAX - 1 {
                    proof {
                        lemma_line_bound(source@, it.index() + 1);
                    }
                    return false;
                }
                newlines = newlines + 1;
            }
        }
        true
    }

    /// A scanner at the start of `source`, on line 1.
    pub fn from_source(source: &str) -> (r: Scanner)
        requires
            line_at(source@, source@.len() as int) <= u32::MAX,
        ensures
            r.wf(),
            r.source() == source@,
            r.remaining() == scan_source(source@),
    {
        let mut chars: Vec<char> = Vec::new();
        for c in it: source.chars()
            invariant
                chars@ == it.seq().take(it.index() as int),
        {
            chars.push(c);
        }
        assert(chars@ == source@);
        assert(chars@.take(0) =~= Seq::<char>::empty());
        Scanner { chars, current: 0, line: 1, finished: false }
    }

    /// Consumes one character, keeping the line count.
    fn advance(&mut self) -> (c: char)
        requires
            old(self).wf(),
            old(self).current < old(self).chars.len(),
        ensures
            final(self).wf(),
            final(self).chars@ == old(self).chars@,
            final(self).finished == old(self).finished,
            final(self).current == old(self).current + 1,
            c == old(self).chars@[old(self).current as int],
    {
        let c = self.chars[self.current];
        proof {
            lemma_line_step(self.chars@, self.current as int);
            lemma_line_bound(self.chars@, self.current + 1);
        }
        if c == '\n' {
            self.line = self.line + 1;
        }
        self.current = self.current + 1;
        c
    }

    /// The character `offset` places past the current one, if any.
    fn peek(&self, offset: usize) -> (r: Option<char>)
        requires
            self.current <= self.chars.len(),
        ensures
            r == (if self.current + offset < self.chars.len() {
                Some(self.chars@[self.current + offset])
            } else {
                None::<char>
            }),
    {
        if self.chars.len() - self.current > offset {
            Some(self.chars[self.current + offset])
        } else {
            None
        }
    }

    fn skip_digits(&mut self)
        requires
            old(self).wf(),
        ensures
            final(self).wf(),
            final(self).chars@ == old(self).chars@,
            final(self).finished == old(self).finished,
            final(self).current == digits_end(old(self).chars@, old(self).current as int),
    {
        let ghost s = self.chars@;
        let ghost e = digits_end(s, self.current as int);
        while self.current < self.chars.len() && is_digit_char(self.chars[self.current])
            invariant
                self.wf(),
                self.chars@ == s,
                self.finished == old(self).finished,
                digits_end(s, self.current as int) == e,
            decreases self.chars.len() - self.current,
        {
            self.advance();
        }
    }

    fn skip_word(&mut self)
        requires
            old(self).wf(),
        ensures
            final(self).wf(),
            final(self).chars@ == old(self).chars@,
            final(self).finished == old(self).finished,
            final(self).current == word_end(old(self).chars@, old(self).current as int),
    {
        let ghost s = self.chars@;
        let ghost e = word_end(s, self.current as int);
        while self.current < self.chars.len() && is_alphanumeric_char(self.chars[self.current])
            invariant
                self.wf(),
                self.chars@ == s,
                self.finished == old(self).finished,
                word_end(s, self.current as int) == e,
            decreases self.chars.len() - self.current,
        {
            self.advance();
        }
    }

    /// Consumes up to, not including, the next `c`, or to the end.
    fn skip_until(&mut self, c: char)
        requires
            old(self).wf(),
        ensures
            final(self).wf(),
            final(self).chars@ == old(self).chars@,
            final(self).finished == old(self).finished,
            final(self).current == find_char(old(self).chars@, old(self).current as int, c),
    {
        let ghost s = self.chars@;
        let ghost e = find_char(s, self.current as int, c);
        while self.current < self.chars.len() && self.chars[self.current] != c
            invariant
                self.wf(),
                self.chars@ == s,
                self.finished == old(self).finished,
                find_char(s, self.current as int, c) == e,
            decreases self.chars.len() - self.current,
        {
            self.advance();
        }
    }

    /// Consumes up to, not including, the next `*/`; where there is none,
    /// up to the last character.
    fn skip_comment_body(&mut self)
        requires
            old(self).wf(),
        ensures
            final(self).wf(),
            final(self).chars@ == old(self).chars@,
            final(self).finished == old(self).finished,
            final(self).current == comment_close(old(self).chars@, old(self).current as int),
    {
        let ghost s = self.chars@;
        let ghost e = comment_close(s, self.current as int);
        while self.chars.len() - self.current > 1 && !(self.chars[self.current] == '*'
            && self.chars[self.current + 1] == '/')
            invariant
                self.wf(),
                self.chars@ == s,
                self.finished == old(self).finished,
                comment_close(s, self.current as int) == e,
            decreases self.chars.len() - self.current,
        {
            self.advance();
        }
    }

    /// The token of kind `kind` made of the characters from `start` to the
    /// current position.
    fn make_token(&self, kind: TokenType, start: usize, line: u32) -> (r: Token)
        requires
            self.wf(),
            start < self.current,
            line == line_at(self.chars@, start as int),
            kind == TokenType::String ==> start + 2 <= self.current,
        ensures
            r@ == token_at(self.chars@, kind, start as int, self.current as int),
    {
        let lexeme = text_between(&self.chars, start, self.current);
        let literal = match kind {
            TokenType::Number => Some(Literal::LoxNumber(lexeme.clone())),
            TokenType::String => {
                let contents = text_between(&self.chars, start + 1, self.current - 1);
                assert(contents@ =~= lexeme@.subrange(1, lexeme@.len() - 1));
                Some(Literal::LoxString(contents))
            },
            TokenType::Identifier => Some(Literal::LoxIdentifier(lexeme.clone())),
            _ => None,
        };
        Token::new(kind, lexeme.as_str(), literal, line)
    }

    /// Consumes the lexeme at the current position and returns what it
    /// produces: nothing for a blank or a comment.
    fn lex_one(&mut self) -> (r: Option<Result<Token, LexError>>)
        requires
            old(self).wf(),
            old(self).current < old(self).chars.len(),
        ensures
            final(self).lexed(old(self).chars@, old(self).current as int, r),
            final(self).finished == old(self).finished,
    {
        let start = self.current;
        let line = self.line;
        let c = self.advance();
        if c == ' ' || c == '\t' || c == '\r' || c == '\n' {
            None
        } else if let Some(kind) = single_kind(c) {
            Some(Ok(self.make_token(kind, start, line)))
        } else if let Some((alone, with_equal)) = operator_kind(c) {
            if self.peek(0) == Some('=') {
                self.advance();
                Some(Ok(self.make_token(with_equal, start, line)))
            } else {
                Some(Ok(self.make_token(alone, start, line)))
            }
        } else if c == '/' {
            self.lex_slash(start, line)
        } else if c == '"' {
            self.lex_string(start, line)
        } else if is_alpha_char(c) {
            Some(Ok(self.lex_word(start, line)))
        } else if is_digit_char(c) {
            Some(Ok(self.lex_number(start, line)))
        } else {
            Some(Err(LexError { kind: LexErrorKind::UnexpectedCharacter(c), line }))
        }
    }

    /// This scanner has consumed exactly the lexeme of `s` at `start`, and
    /// `r` is what that lexeme produces.
    spec fn lexed(&self, s: Seq<char>, start: int, r: Option<Result<Token, LexError>>) -> bool {
        &&& self.wf()
        &&& self.chars@ == s
        &&& 0 <= start < s.len()
        &&& self.current == lex_at(s, start).1
        &&& option_item_view(r) == item_at(s, start)
    }

    /// Scans what follows a `/` at `start`: a line comment, a block comment
    /// or a slash.
    fn lex_slash(&mut self, start: usize, line: u32) -> (r: Option<Result<Token, LexError>>)
        requires
            old(self).wf(),
            old(self).current == start + 1,
            start < old(self).chars.len(),
            old(self).chars@[start as int] == '/',
            line == line_at(old(self).chars@, start as int),
        ensures
            final(self).lexed(old(self).chars@, start as int, r),
            final(self).finished == old(self).finished,
    {
        if self.peek(0) == Some('/') {
            self.advance();
            self.skip_until('\n');
            None
        } else if self.peek(0) == Some('*') {
            self.advance();
            self.skip_comment_body();
            proof {
                lemma_comment_close(self.chars@, start + 2);
            }
            if self.chars.len() - self.current > 1 {
                self.advance();
                self.advance();
                None
            } else {
                if self.current < self.chars.len() {
                    self.advance();
                }
                Some(Err(LexError { kind: LexErrorKind::UnterminatedComment, line }))
            }
        } else {
            Some(Ok(self.make_token(TokenType::Slash, start, line)))
        }
    }

    /// Scans a string literal whose opening quote is at `start`.
    fn lex_string(&mut self, start: usize, line: u32) -> (r: Option<Result<Token, LexError>>)
        requires
            old(self).wf(),
            old(self).current == start + 1,
            start < old(self).chars.len(),
            old(self).chars@[start as int] == '"',
            line == line_at(old(self).chars@, start as int),
        ensures
            final(self).lexed(old(self).chars@, start as int, r),
            final(self).finished == old(self).finished,
    {
        proof {
            lemma_find_char(self.chars@, start + 1, '"');
        }
        self.skip_until('"');
        if self.current < self.chars.len() {
            self.advance();
            Some(Ok(self.make_token(TokenType::String, start, line)))
        } else {
            Some(Err(LexError { kind: LexErrorKind::UnterminatedString, line }))
        }
    }

    /// Scans an identifier or keyword whose first letter is at `start`.
    fn lex_word(&mut self, start: usize, line: u32) -> (r: Token)
        requires
            old(self).wf(),
            old(self).current == start + 1,
            start < old(self).chars.len(),
            is_alpha(old(self).chars@[start as int]),
            line == line_at(old(self).chars@, start as int),
        ensures
            final(self).lexed(old(self).chars@, start as int, Some(Ok(r))),
            final(self).finished == old(self).finished,
    {
        proof {
            lemma_word_end(self.chars@, start + 1);
        }
        self.skip_word();
        let kind = match keyword_kind(&self.chars, start, self.current) {
            Some(k) => k,
            None => TokenType::Identifier,
        };
        self.make_token(kind, start, line)
    }

    /// Scans a number whose first digit is at `start`.
    fn lex_number(&mut self, start: usize, line: u32) -> (r: Token)
        requires
            old(self).wf(),
            old(self).current == start + 1,
            start < old(self).chars.len(),
            is_digit(old(self).chars@[start as int]),
            line == line_at(old(self).chars@, start as int),
        ensures
            final(self).lexed(old(self).chars@, start as int, Some(Ok(r))),
            final(self).finished == old(self).finished,
    {
        proof {
            lemma_digits_end(self.chars@, start + 1);
        }
        self.skip_digits();
        if self.peek(0) == Some('.') {
            if let Some(d) = self.peek(1) {
                if is_digit_char(d) {
                    self.advance();
                    proof {
                        lemma_digits_end(self.chars@, self.current as int);
                    }
                    self.skip_digits();
                }
            }
        }
        self.make_token(TokenType::Number, start, line)
    }

    /// Hands out the next token or error; after the end-of-input marker,
    /// `None` for good.
    pub fn next_token(&mut self) -> (r: Option<Result<Token, LexError>>)
        requires
            old(self).wf(),
        ensures
            final(self).wf(),
            final(self).source() == old(self).source(),
            old(self).remaining().len() == 0 ==> r is None && final(self).remaining().len() == 0,
            old(self).remaining().len() > 0 ==> r is Some && old(self).remaining() == seq![
                item_view(r->0),
            ] + final(self).remaining(),
    {
        if self.finished {
            return None;
        }
        let ghost s = self.chars@;
        let ghost rest = self.remaining();
        while self.current < self.chars.len()
            invariant
                self.wf(),
                self.chars@ == s,
                s == old(self).chars@,
                !self.finished,
                self.remaining() == rest,
                rest == old(self).remaining(),
            decreases self.chars.len() - self.current,
        {
            let ghost pos = self.current as int;
            proof {
                lemma_lex_advances(s, pos);
            }
            let item = self.lex_one();
            assert(scan_from(s, pos) == match item_at(s, pos) {
                None => scan_from(s, lex_at(s, pos).1),
                Some(x) => seq![x] + scan_from(s, lex_at(s, pos).1),
            });
            if let Some(x) = item {
                return Some(x);
            }
        }
        self.finished = true;
        proof {
            reveal_strlit("");
            assert(""@ =~= Seq::<char>::empty());
        }
        Some(Ok(Token::new(TokenType::EndOfInput, "", None, self.line)))
    }

    /// Scans all that is left. The result is `Ok` with every token when no
    /// lexical error occurs, else `Err` with every error, in source order.
    pub fn scan_tokens(&mut self) -> (r: Result<Vec<Token>, Vec<LexError>>)
        requires
            old(self).wf(),
        ensures
            final(self).wf(),
            final(self).source() == old(self).source(),
            final(self).remaining().len() == 0,
            r is Ok <==> errors_of(old(self).remaining()).len() == 0,
            r matches Ok(v) ==> token_views(v@) == tokens_of(old(self).remaining()),
            r matches Err(e) ==> error_views(e@) == errors_of(old(self).remaining()),
    {
        let ghost items = self.remaining();
        let ghost mut done: Seq<Item> = seq![];
        let mut tokens: Vec<Token> = Vec::new();
        let mut errors: Vec<LexError> = Vec::new();
        loop
            invariant
                self.wf(),
                self.source() == old(self).source(),
                items == done + self.remaining(),
                token_views(tokens@) == tokens_of(done),
                error_views(errors@) == errors_of(done),
            ensures
                self.remaining().len() == 0,
                items == done,
                token_views(tokens@) == tokens_of(done),
                error_views(errors@) == errors_of(done),
            decreases self.remaining().len(),
        {
            match self.next_token() {
                None => {
                    assert(done + self.remaining() =~= done);
                    break;
                },
                Some(Ok(t)) => {
                    proof {
                        assert(done.push(Ok(t@)).drop_last() =~= done);
                        assert(token_views(tokens@.push(t)) =~= token_views(tokens@).push(t@));
                        done = done.push(Ok(t@));
                    }
                    tokens.push(t);
                },
                Some(Err(e)) => {
                    proof {
                        assert(done.push(Err(e@)).drop_last() =~= done);
                        assert(error_views(errors@.push(e)) =~= error_views(errors@).push(e@));
                        done = done.push(Err(e@));
                    }
                    errors.push(e);
                },
            }
        }
        if errors.len() == 0 {
            Ok(tokens)
        } else {
            Err(errors)
        }
    }
}

pub open spec fn option_item_view(r: Option<Result<Token, LexError>>) -> Option<Item> {
    match r {
        Some(x) => Some(item_view(x)),
        None => None,
    }
}

fn is_digit_char(c: char) -> (r: bool)
    ensures
        r == is_digit(c),
{
    '0' <= c && c <= '9'
}

fn is_alpha_char(c: char) -> (r: bool)
    ensures
        r == is_alpha(c),
{
    ('a' <= c && c <= 'z') || ('A' <= c && c <= 'Z') || c == '_'
}

fn is_alphanumeric_char(c: char) -> (r: bool)
    ensures
        r == is_alphanumeric(c),
{
    is_alpha_char(c) || is_digit_char(c)
}

fn single_kind(c: char) -> (r: Option<TokenType>)
    ensures
        r == single_char_kind(c),
{
    match c {
        '(' => Some(TokenType::LeftParen),
        ')' => Some(TokenType::RightParen),
        '{' => Some(TokenType::LeftBrace),
        '}' => Some(TokenType::RightBrace),
        ',' => Some(TokenType::Comma),
        '.' => Some(TokenType::Dot),
        '-' => Some(TokenType::Minus),
        '+' => Some(TokenType::Plus),
        ';' => Some(TokenType::Semicolon),
        '*' => Some(TokenType::Star),
        _ => None,
    }
}

fn operator_kind(c: char) -> (r: Option<(TokenType, TokenType)>)
    ensures
        r == operator_kinds(c),
{
    match c {
        '!' => Some((TokenType::Bang, TokenType::BangEqual)),
        '=' => Some((TokenType::Equal, TokenType::EqualEqual)),
        '<' => Some((TokenType::Less, TokenType::LessEqual)),
        '>' => Some((TokenType::Greater, TokenType::GreaterEqual)),
        _ => None,
    }
}

/// Whether `chars[start..end]` spells `word`.
fn spells(chars: &Vec<char>, start: usize, end: usize, word: &[char]) -> (r: bool)
    requires
        start <= end <= chars.len(),
    ensures
        r == (chars@.subrange(start as int, end as int) == word@),
{
    if end - start != word.len() {
        return false;
    }
    let mut i: usize = 0;
    while i < word.len()
        invariant
            start <= end <= chars.len(),
            end - start == word.len(),
            0 <= i <= word.len(),
            forall|j: int| 0 <= j < i ==> chars@[start + j] == word@[j],
        decreases word.len() - i,
    {
        if chars[start + i] != word[i] {
            assert(chars@.subrange(start as int, end as int)[i as int] != word@[i as int]);
            return false;
        }
        i = i + 1;
    }
    assert(chars@.subrange(start as int, end as int) =~= word@);
    true
}

/// Looks a word up in the keyword table.
fn keyword_kind(chars: &Vec<char>, start: usize, end: usize) -> (r: Option<TokenType>)
    requires
        start <= end <= chars.len(),
    ensures
        r == keyword_of(chars@.subrange(start as int, end as int)),
{
    if spells(chars, start, end, &['a', 'n', 'd']) {
        Some(TokenType::And)
    } else if spells(chars, start, end, &['c', 'l', 'a', 's', 's']) {
        Some(TokenType::Class)
    } else if spells(chars, start, end, &['e', 'l', 's', 'e']) {
        Some(TokenType::Else)
    } else if spells(chars, start, end, &['f', 'a', 'l', 's', 'e']) {
        Some(TokenType::False)
    } else if spells(chars, start, end, &['f', 'o', 'r']) {
        Some(TokenType::For)
    } else if spells(chars, start, end, &['f', 'u', 'n']) {
        Some(TokenType::Fun)
    } else if spells(chars, start, end, &['i', 'f']) {
        Some(TokenType::If)
    } else if spells(chars, start, end, &['n', 'i', 'l']) {
        Some(TokenType::Nil)
    } else if spells(chars, start, end, &['o', 'r']) {
        Some(TokenType::Or)
    } else if spells(chars, start, end, &['p', 'r', 'i', 'n', 't']) {
        Some(TokenType::Print)
    } else if spells(chars, start, end, &['r', 'e', 't', 'u', 'r', 'n']) {
        Some(TokenType::Return)
    } else if spells(chars, start, end, &['s', 'u', 'p', 'e', 'r']) {
        Some(TokenType::Super)
    } else if spells(chars, start, end, &['t', 'h', 'i', 's']) {
        Some(TokenType::This)
    } else if spells(chars, start, end, &['t', 'r', 'u', 'e']) {
        Some(TokenType::True)
    } else if spells(chars, start, end, &['v', 'a', 'r']) {
        Some(TokenType::Var)
    } else if spells(chars, start, end, &['w', 'h', 'i', 'l', 'e']) {
        Some(TokenType::While)
    } else {
        None
    }
}

} // verus!
