use vstd::prelude::*;
use vstd::string::{StrSliceExecFns, StringExecFns};
use crate::chars::{
    char_width, is_alphabetic, is_name_char, is_number_char, is_numeric, is_white_space,
    lemma_utf8_len_encoding, lemma_utf8_len_prefix, utf8_len,
};
use crate::error::{LexError, LexErrorView};
use crate::model::{
    ascii_digit, column_at, comment_close, decimal_of, invalid_number_message,
    lemma_comment_close_bounds, lemma_line_column_bound, lemma_run_ends, lemma_scan_step_bounds,
    line_at, name_end, negative_sign, number_end, offset_at, quote_close, scan_step, scan_stop,
    scanned_tokens, skip_trivia, token_at, unsigned_part,
};
use crate::token::{Decimal, Token, TokenKind, TokenKindView, TokenView};

verus! {

/// A scanner over a borrowed text that hands out one token per call.
pub struct Lexer<'a> {
    input: &'a str,
    chars: Vec<char>,
    index: usize,
    offset: usize,
    line: usize,
    column: usize,
}

/// The value of a scanning result.
pub open spec fn outcome(r: Result<Token, LexError>) -> Result<TokenView, LexErrorView> {
    match r {
        Ok(t) => Ok(t@),
        Err(e) => Err(e@),
    }
}

/// Scans all of `input`: the tokens in order, and the error that ended the
/// scan (`EndOfFile` where the whole input was well formed).
pub fn tokenize(input: &str) -> (r: (Vec<Token>, LexError))
    requires
        input@.len() < usize::MAX,
    ensures
        r.0@.map_values(|t: Token| t@) == scanned_tokens(input@, 0),
        r.1@ == scan_stop(input@, 0),
{
    let ghost s = input@;
    let mut lexer = Lexer::new(input);
    let mut tokens: Vec<Token> = Vec::new();
    loop
        invariant
            lexer.wf(),
            s == input@,
            lexer.text() == s,
            0 <= lexer.position() <= s.len(),
            scanned_tokens(s, 0) == tokens@.map_values(|t: Token| t@) + scanned_tokens(
                s,
                lexer.position(),
            ),
            scan_stop(s, 0) == scan_stop(s, lexer.position()),
        decreases s.len() - lexer.position(),
    {
        proof {
            lemma_scan_step_bounds(s, lexer.position());
        }
        let ghost before = tokens@.map_values(|t: Token| t@);
        let ghost p = lexer.position();
        match lexer.next_token() {
            Ok(t) => {
                tokens.push(t);
                assert(tokens@.map_values(|t: Token| t@) =~= before.push(t@));
                assert(scanned_tokens(s, p) == seq![t@] + scanned_tokens(s, lexer.position()));
                assert(before + scanned_tokens(s, p) =~= before.push(t@) + scanned_tokens(
                    s,
                    lexer.position(),
                ));
            },
            Err(e) => {
                assert(scanned_tokens(s, p) =~= Seq::<TokenView>::empty());
                assert(tokens@.map_values(|t: Token| t@) =~= before + scanned_tokens(s, p));
                assert(scan_stop(s, p) == e@);
                return (tokens, e);
            },
        }
    }
}

impl<'a> Lexer<'a> {
    /// The text being scanned.
    pub closed spec fn text(&self) -> Seq<char> {
        self.input@
    }

    /// The number of characters consumed so far.
    pub closed spec fn position(&self) -> int {
        self.index as int
    }

    /// The position state agrees with the characters consumed so far.
    pub closed spec fn wf(&self) -> bool {
        let s = self.input@;
        &&& self.chars@ == s
        &&& self.index <= s.len()
        &&& utf8_len(s) <= usize::MAX
        &&& s.len() < usize::MAX
        &&& self.offset == offset_at(s, self.index as int)
        &&& self.line == line_at(s, self.index as int)
        &&& self.column == column_at(s, self.index as int)
    }

    /// A scanner at the start of `input`. (No `str` holds `usize::MAX`
    /// characters: it is at most `isize::MAX` bytes long.)
    pub fn new(input: &'a str) -> (l: Self)
        requires
            input@.len() < usize::MAX,
        ensures
            l.wf(),
            l.text() == input@,
            l.position() == 0,
    {
        let ghost s = input@;
        // The byte length of a `str` fits in `usize`: so does every offset.
        let byte_len = input.as_bytes().len();
        let mut chars: Vec<char> = Vec::new();
        for c in it: input.chars()
            invariant
                chars@ == it.seq().take(it.index() as int),
        {
            chars.push(c);
        }
        assert(chars@ == s);
        proof {
            lemma_utf8_len_encoding(s);
            lemma_utf8_len_prefix(s, 0, s.len() as int);
            assert(s.take(s.len() as int) =~= s);
        }
        Lexer { input, chars, index: 0, offset: 0, line: 1, column: 1 }
    }

    /// Consumes the next character, if any, keeping offset, line and column
    /// in step.
    fn advance_char(&mut self) -> (r: Option<char>)
        requires
            old(self).wf(),
        ensures
            final(self).wf(),
            final(self).text() == old(self).text(),
            old(self).position() < old(self).text().len() ==> r == Some(
                old(self).text()[old(self).position()],
            ) && final(self).position() == old(self).position() + 1,
            old(self).position() >= old(self).text().len() ==> r is None && final(self).position()
                == old(self).position(),
    {
        if self.index >= self.chars.len() {
            return None;
        }
        let ghost s = self.input@;
        let ghost k = self.index as int;
        let c = self.chars[self.index];
        proof {
            lemma_utf8_len_prefix(s, k + 1, s.len() as int);
            lemma_utf8_len_prefix(s, 0, s.len() as int);
            assert(s.take(k + 1).drop_last() =~= s.take(k));
            assert(s.take(s.len() as int) =~= s);
            lemma_line_column_bound(s, k);
        }
        self.offset = self.offset + char_width(c);
        self.index = self.index + 1;
        if c == '\n' {
            self.line = self.line + 1;
            self.column = 1;
        } else {
            self.column = self.column + 1;
        }
        Some(c)
    }

    /// The next character, without consuming it.
    fn peek_char(&self) -> (r: Option<char>)
        requires
            self.wf(),
        ensures
            r == (if self.position() < self.text().len() {
                Some(self.text()[self.position()])
            } else {
                None
            }),
    {
        if self.index < self.chars.len() {
            Some(self.chars[self.index])
        } else {
            None
        }
    }

    /// The character after the next one, without consuming anything.
    fn peek_ahead_char(&self) -> (r: Option<char>)
        requires
            self.wf(),
        ensures
            r == (if self.position() + 1 < self.text().len() {
                Some(self.text()[self.position() + 1])
            } else {
                None
            }),
    {
        if self.index + 1 < self.chars.len() {
            Some(self.chars[self.index + 1])
        } else {
            None
        }
    }

    /// Consumes the body of a block comment up to and including its closing
    /// `*/`; returns whether one came before the end of the input.
    fn skip_block_comment(&mut self) -> (closed: bool)
        requires
            old(self).wf(),
        ensures
            final(self).wf(),
            final(self).text() == old(self).text(),
            match comment_close(old(self).text(), old(self).position()) {
                Some(j) => closed && final(self).position() == j,
                None => !closed && final(self).position() == final(self).text().len(),
            },
    {
        let ghost s = self.input@;
        let ghost start = self.index as int;
        loop
            invariant
                self.wf(),
                self.input@ == s,
                s == old(self).input@,
                start == old(self).index,
                comment_close(s, self.index as int) == comment_close(s, start),
            decreases s.len() - self.index,
        {
            match self.advance_char() {
                None => {
                    return false;
                },
                Some(c) => {
                    if c == '*' && self.peek_char() == Some('/') {
                        self.advance_char();
                        return true;
                    }
                },
            }
        }
    }

    /// Skips whitespace and block comments. Fails with `UnclosedComment`, at
    /// the comment's opening `/`, where a comment runs to the end of the input.
    fn skip_whitespace_and_comments(&mut self) -> (r: Result<(), LexError>)
        requires
            old(self).wf(),
        ensures
            final(self).wf(),
            final(self).text() == old(self).text(),
            match skip_trivia(old(self).text(), old(self).position()) {
                Ok(t) => r is Ok && final(self).position() == t,
                Err(c) => r is Err && r->Err_0@ == (LexErrorView::UnclosedComment {
                    line: line_at(old(self).text(), c),
                    column: column_at(old(self).text(), c),
                }) && final(self).position() == final(self).text().len(),
            },
    {
        let ghost s = self.input@;
        let ghost start = self.index as int;
        loop
            invariant
                self.wf(),
                self.input@ == s,
                s == old(self).input@,
                start == old(self).index,
                skip_trivia(s, self.index as int) == skip_trivia(s, start),
            decreases s.len() - self.index,
        {
            let next = self.peek_char();
            if next.is_some() && is_white_space(next.unwrap()) {
                self.advance_char();
            } else if next == Some('/') && self.peek_ahead_char() == Some('*') {
                let line = self.line;
                let column = self.column;
                self.advance_char();
                self.advance_char();
                proof {
                    lemma_comment_close_bounds(s, self.index as int);
                }
                if !self.skip_block_comment() {
                    return Err(LexError::UnclosedComment { line, column });
                }
            } else {
                return Ok(());
            }
        }
    }

    /// Consumes the run of name characters at the cursor.
    fn consume_name(&mut self)
        requires
            old(self).wf(),
        ensures
            final(self).wf(),
            final(self).text() == old(self).text(),
            final(self).position() == name_end(old(self).text(), old(self).position()),
    {
        let ghost s = self.input@;
        let ghost start = self.index as int;
        while self.index < self.chars.len() && is_name_char(self.chars[self.index])
            invariant
                self.wf(),
                self.input@ == s,
                s == old(self).input@,
                start == old(self).index,
                name_end(s, self.index as int) == name_end(s, start),
            decreases s.len() - self.index,
        {
            self.advance_char();
        }
    }

    /// Consumes the run of digits and points at the cursor.
    fn consume_number(&mut self)
        requires
            old(self).wf(),
        ensures
            final(self).wf(),
            final(self).text() == old(self).text(),
            final(self).position() == number_end(old(self).text(), old(self).position()),
    {
        let ghost s = self.input@;
        let ghost start = self.index as int;
        while self.index < self.chars.len() && is_number_char(self.chars[self.index])
            invariant
                self.wf(),
                self.input@ == s,
                s == old(self).input@,
                start == old(self).index,
                number_end(s, self.index as int) == number_end(s, start),
            decreases s.len() - self.index,
        {
            self.advance_char();
        }
    }

    /// The characters `from..to` of the text, as a `String`.
    fn slice(&self, from: usize, to: usize) -> (r: String)
        requires
            self.wf(),
            from <= to <= self.text().len(),
        ensures
            r@ == self.text().subrange(from as int, to as int),
    {
        self.input.substring_char(from, to).to_owned()
    }

    /// Scans an identifier whose first character, at `start`, is consumed.
    fn lex_identifier(&mut self, start: usize, start_offset: usize) -> (r: Result<Token, LexError>)
        requires
            old(self).wf(),
            start + 1 == old(self).position(),
            start_offset == offset_at(old(self).text(), start as int),
        ensures
            final(self).wf(),
            final(self).text() == old(self).text(),
            ({
                let s = old(self).text();
                let e = name_end(s, start + 1);
                &&& final(self).position() == e
                &&& outcome(r) == Ok::<TokenView, LexErrorView>(
                    token_at(s, TokenKindView::Identifier(s.subrange(start as int, e)), start as int, e),
                )
            }),
    {
        self.consume_name();
        proof {
            lemma_run_ends(old(self).input@, start + 1);
        }
        let value = self.slice(start, self.index);
        Ok(Token::new(TokenKind::Identifier(value), (start_offset, self.offset)))
    }

    /// Scans a hash token whose `#`, at `start`, is consumed.
    fn lex_hash(&mut self, start: usize, start_offset: usize) -> (r: Result<Token, LexError>)
        requires
            old(self).wf(),
            start + 1 == old(self).position(),
            start_offset == offset_at(old(self).text(), start as int),
        ensures
            final(self).wf(),
            final(self).text() == old(self).text(),
            ({
                let s = old(self).text();
                let e = name_end(s, start + 1);
                &&& final(self).position() == e
                &&& outcome(r) == Ok::<TokenView, LexErrorView>(
                    token_at(s, TokenKindView::Hash(s.subrange(start + 1, e)), start as int, e),
                )
            }),
    {
        self.consume_name();
        proof {
            lemma_run_ends(old(self).input@, start + 1);
        }
        let value = self.slice(start + 1, self.index);
        Ok(Token::new(TokenKind::Hash(value), (start_offset, self.offset)))
    }

    /// Scans an at-keyword whose `@`, at `start`, is consumed.
    fn lex_at_keyword(&mut self, start: usize, start_offset: usize) -> (r: Result<Token, LexError>)
        requires
            old(self).wf(),
            start + 1 == old(self).position(),
            start_offset == offset_at(old(self).text(), start as int),
        ensures
            final(self).wf(),
            final(self).text() == old(self).text(),
            ({
                let s = old(self).text();
                let e = name_end(s, start + 1);
                &&& final(self).position() == e
                &&& outcome(r) == Ok::<TokenView, LexErrorView>(
                    token_at(s, TokenKindView::AtKeyword(s.subrange(start + 1, e)), start as int, e),
                )
            }),
    {
        self.consume_name();
        proof {
            lemma_run_ends(old(self).input@, start + 1);
        }
        let value = self.slice(start + 1, self.index);
        Ok(Token::new(TokenKind::AtKeyword(value), (start_offset, self.offset)))
    }

    /// Scans a string literal whose opening `quote`, at `start`, is consumed.
    fn lex_string(&mut self, start: usize, start_offset: usize, quote: char) -> (r: Result<
        Token,
        LexError,
    >)
        requires
            old(self).wf(),
            start + 1 == old(self).position(),
            start_offset == offset_at(old(self).text(), start as int),
        ensures
            final(self).wf(),
            final(self).text() == old(self).text(),
            ({
                let s = old(self).text();
                match quote_close(s, start + 1, quote) {
                    Some(k) => final(self).position() == k + 1 && outcome(r) == Ok::<
                        TokenView,
                        LexErrorView,
                    >(
                        token_at(
                            s,
                            TokenKindView::StringLiteral(s.subrange(start + 1, k)),
                            start as int,
                            k + 1,
                        ),
                    ),
                    None => final(self).position() == s.len() && outcome(r) == Err::<
                        TokenView,
                        LexErrorView,
                    >(
                        LexErrorView::UnclosedString {
                            line: line_at(s, s.len() as int),
                            column: column_at(s, s.len() as int),
                        },
                    ),
                }
            }),
    {
        let ghost s = self.input@;
        loop
            invariant
                self.wf(),
                self.input@ == s,
                s == old(self).input@,
                start + 1 <= self.index,
                start_offset == offset_at(s, start as int),
                quote_close(s, self.index as int, quote) == quote_close(s, start + 1, quote),
            decreases s.len() - self.index,
        {
            match self.advance_char() {
                None => {
                    return Err(LexError::UnclosedString { line: self.line, column: self.column });
                },
                Some(c) => {
                    if c == quote {
                        assert(quote_close(s, self.index - 1, quote) == Some(self.index - 1));
                        let value = self.slice(start + 1, self.index - 1);
                        let t = Token::new(TokenKind::StringLiteral(value), (start_offset, self.offset));
                        return Ok(t);
                    }
                },
            }
        }
    }

    /// The decimal spelled by characters `from..to` of the text, if they
    /// spell one.
    fn parse_decimal(&self, from: usize, to: usize) -> (r: Option<Decimal>)
        requires
            self.wf(),
            from <= to <= self.text().len(),
        ensures
            match decimal_of(self.text().subrange(from as int, to as int)) {
                Some(d) => r is Some && r->0@ == d,
                None => r is None,
            },
    {
        let ghost s = self.input@;
        let ghost text = s.subrange(from as int, to as int);
        let negative = from < to && self.chars[from] == '-';
        let body_start = if negative {
            from + 1
        } else {
            from
        };
        let ghost body = s.subrange(body_start as int, to as int);
        assert(body =~= unsigned_part(text));
        let mut dot: Option<usize> = None;
        let mut digits = false;
        let mut k = body_start;
        while k < to
            invariant
                self.wf(),
                s == self.input@,
                body_start <= k <= to <= s.len(),
                body == s.subrange(body_start as int, to as int),
                text == s.subrange(from as int, to as int),
                negative == negative_sign(text),
                body == unsigned_part(text),
                forall|m: int| body_start <= m < k ==> ascii_digit(#[trigger] s[m]) || s[m] == '.',
                digits <==> exists|m: int| body_start <= m < k && ascii_digit(#[trigger] s[m]),
                match dot {
                    None => forall|m: int| body_start <= m < k ==> #[trigger] s[m] != '.',
                    Some(p) => body_start <= p < k && s[p as int] == '.' && forall|m: int|
                        body_start <= m < k && #[trigger] s[m] == '.' ==> m == p,
                },
            decreases to - k,
        {
            let c = self.chars[k];
            if '0' <= c && c <= '9' {
                digits = true;
            } else if c == '.' && dot.is_none() {
                dot = Some(k);
            } else {
                proof {
                    let j = k - body_start;
                    assert(body[j] == c);
                    if c == '.' {
                        let p = dot->0 - body_start;
                        assert(body[p] == '.');
                        assert(body[j] == '.');
                        assert(p != j);
                        assert(!(forall|i: int, j: int|
                            0 <= i < body.len() && 0 <= j < body.len() && #[trigger] body[i] == '.'
                                && #[trigger] body[j] == '.' ==> i == j));
                    } else {
                        assert(!(forall|i: int| 0 <= i < body.len() ==> ascii_digit(#[trigger] body[i])
                            || body[i] == '.'));
                    }
                }
                return None;
            }
            k = k + 1;
        }
        assert forall|m: int| 0 <= m < body.len() implies ascii_digit(#[trigger] body[m])
            || body[m] == '.' by {
            assert(body[m] == s[body_start + m]);
        }
        assert forall|i: int, j: int|
            0 <= i < body.len() && 0 <= j < body.len() && #[trigger] body[i] == '.'
                && #[trigger] body[j] == '.' implies i == j by {
            assert(body[i] == s[body_start + i]);
            assert(body[j] == s[body_start + j]);
        }
        if !digits {
            proof {
                if exists|m: int| 0 <= m < body.len() && ascii_digit(#[trigger] body[m]) {
                    let m = choose|m: int| 0 <= m < body.len() && ascii_digit(#[trigger] body[m]);
                    assert(s[body_start + m] == body[m]);
                }
            }
            return None;
        }
        proof {
            let m = choose|m: int| body_start <= m < k && ascii_digit(#[trigger] s[m]);
            assert(body[m - body_start] == s[m]);
        }
        match dot {
            Some(p) => {
                proof {
                    assert(body[p - body_start] == '.');
                }
                let integer = self.slice(body_start, p);
                let fraction = self.slice(p + 1, to);
                assert(integer@ =~= body.take(p - body_start));
                assert(fraction@ =~= body.skip(p - body_start + 1));
                Some(Decimal { negative, integer, fraction })
            },
            None => {
                proof {
                    assert forall|m: int| 0 <= m < body.len() implies #[trigger] body[m] != '.' by {
                        assert(body[m] == s[body_start + m]);
                    }
                }
                let integer = self.slice(body_start, to);
                let fraction = String::new();
                assert(fraction@ =~= Seq::<char>::empty());
                Some(Decimal { negative, integer, fraction })
            },
        }
    }

    /// Scans a number whose first character, at `start`, is consumed.
    fn lex_number(&mut self, start: usize, start_offset: usize) -> (r: Result<Token, LexError>)
        requires
            old(self).wf(),
            start + 1 == old(self).position(),
            start_offset == offset_at(old(self).text(), start as int),
        ensures
            final(self).wf(),
            final(self).text() == old(self).text(),
            ({
                let s = old(self).text();
                let e = number_end(s, start + 1);
                &&& final(self).position() == e
                &&& outcome(r) == match decimal_of(s.subrange(start as int, e)) {
                    Some(d) => Ok(token_at(s, TokenKindView::Number(d), start as int, e)),
                    None => Err(LexErrorView::GenericError { message: invalid_number_message() }),
                }
            }),
    {
        self.consume_number();
        proof {
            lemma_run_ends(old(self).input@, start + 1);
        }
        match self.parse_decimal(start, self.index) {
            Some(d) => Ok(Token::new(TokenKind::Number(d), (start_offset, self.offset))),
            None => {
                let message = String::from_str("Invalid number");
                proof {
                    reveal_strlit("Invalid number");
                }
                Err(LexError::GenericError { message })
            },
        }
    }

    /// Skips whitespace and comments, then scans one token. `EndOfFile` once
    /// the input is used up.
    pub fn next_token(&mut self) -> (r: Result<Token, LexError>)
        requires
            old(self).wf(),
        ensures
            final(self).wf(),
            final(self).text() == old(self).text(),
            outcome(r) == scan_step(old(self).text(), old(self).position()).0,
            final(self).position() == scan_step(old(self).text(), old(self).position()).1,
    {
        match self.skip_whitespace_and_comments() {
            Err(e) => {
                return Err(e);
            },
            Ok(()) => {},
        }
        let start = self.index;
        let start_offset = self.offset;
        let current = self.advance_char();
        let c = match current {
            None => {
                return Err(LexError::EndOfFile);
            },
            Some(c) => c,
        };
        let kind = if c == '{' {
            TokenKind::CurlyBracketOpen
        } else if c == '}' {
            TokenKind::CurlyBracketClose
        } else if c == ':' {
            TokenKind::Colon
        } else if c == ';' {
            TokenKind::Semicolon
        } else if c == ',' {
            TokenKind::Comma
        } else if c == '(' {
            TokenKind::ParenthesisOpen
        } else if c == ')' {
            TokenKind::ParenthesisClose
        } else if is_alphabetic(c) || c == '_' {
            return self.lex_identifier(start, start_offset);
        } else if is_numeric(c) || c == '-' {
            return self.lex_number(start, start_offset);
        } else if c == '"' || c == '\'' {
            return self.lex_string(start, start_offset, c);
        } else if c == '#' {
            return self.lex_hash(start, start_offset);
        } else if c == '@' {
            return self.lex_at_keyword(start, start_offset);
        } else {
            return Err(LexError::unexpected_character(c, self.line, self.column));
        };
        Ok(Token::new(kind, (start_offset, self.offset)))
    }
}

} // verus!
