use vstd::prelude::*;
use crate::chars::{alphabetic, name_char, number_char, numeric, utf8_len, white_space};
use crate::error::LexErrorView;
use crate::token::{DecimalView, TokenKindView, TokenView};

verus! {

/// The line (from 1) reached after the first `k` characters of `s`.
pub open spec fn line_at(s: Seq<char>, k: int) -> nat
    decreases k,
{
    if k <= 0 {
        1
    } else if s[k - 1] == '\n' {
        line_at(s, k - 1) + 1
    } else {
        line_at(s, k - 1)
    }
}

/// The column (from 1) reached after the first `k` characters of `s`.
pub open spec fn column_at(s: Seq<char>, k: int) -> nat
    decreases k,
{
    if k <= 0 {
        1
    } else if s[k - 1] == '\n' {
        1
    } else {
        column_at(s, k - 1) + 1
    }
}

pub proof fn lemma_line_column_bound(s: Seq<char>, k: int)
    requires
        0 <= k,
    ensures
        line_at(s, k) <= k + 1,
        column_at(s, k) <= k + 1,
    decreases k,
{
    if k > 0 {
        lemma_line_column_bound(s, k - 1);
    }
}

/// The byte offset of the `k`-th character of `s` in its UTF-8 encoding.
pub open spec fn offset_at(s: Seq<char>, k: int) -> nat {
    utf8_len(s.take(k))
}

/// The end of the run of name characters that starts at `i`.
pub open spec fn name_end(s: Seq<char>, i: int) -> int
    decreases s.len() - i,
{
    if 0 <= i < s.len() && name_char(s[i]) {
        name_end(s, i + 1)
    } else {
        i
    }
}

/// The end of the run of digits and points that starts at `i`.
pub open spec fn number_end(s: Seq<char>, i: int) -> int
    decreases s.len() - i,
{
    if 0 <= i < s.len() && number_char(s[i]) {
        number_end(s, i + 1)
    } else {
        i
    }
}

pub proof fn lemma_run_ends(s: Seq<char>, i: int)
    requires
        0 <= i <= s.len(),
    ensures
        i <= name_end(s, i) <= s.len(),
        i <= number_end(s, i) <= s.len(),
    decreases s.len() - i,
{
    if i < s.len() {
        lemma_run_ends(s, i + 1);
    }
}

/// The index of the first `q` at or after `i`, if there is one.
pub open spec fn quote_close(s: Seq<char>, i: int, q: char) -> Option<int>
    decreases s.len() - i,
{
    if i < 0 || i >= s.len() {
        None
    } else if s[i] == q {
        Some(i)
    } else {
        quote_close(s, i + 1, q)
    }
}

pub proof fn lemma_quote_close_bounds(s: Seq<char>, i: int, q: char)
    ensures
        quote_close(s, i, q) matches Some(k) ==> 0 <= i <= k < s.len() && s[k] == q,
    decreases s.len() - i,
{
    if 0 <= i < s.len() && s[i] != q {
        lemma_quote_close_bounds(s, i + 1, q);
    }
}

/// The index just past the first `*/` at or after `i`, if there is one.
pub open spec fn comment_close(s: Seq<char>, i: int) -> Option<int>
    decreases s.len() - i,
{
    if i < 0 || i >= s.len() {
        None
    } else if i + 1 < s.len() && s[i] == '*' && s[i + 1] == '/' {
        Some(i + 2)
    } else {
        comment_close(s, i + 1)
    }
}

pub proof fn lemma_comment_close_bounds(s: Seq<char>, i: int)
    ensures
        comment_close(s, i) matches Some(j) ==> 0 <= i && i + 2 <= j <= s.len(),
    decreases s.len() - i,
{
    if 0 <= i < s.len() && !(i + 1 < s.len() && s[i] == '*' && s[i + 1] == '/') {
        lemma_comment_close_bounds(s, i + 1);
    }
}

#[via_fn]
proof fn skip_trivia_decreases(s: Seq<char>, i: int) {
    lemma_comment_close_bounds(s, i + 2);
}

/// Skipping whitespace and block comments from `i`: `Ok` with the index of the
/// first character that is neither, or `Err` with the index of the `/` of a
/// block comment that is never closed.
pub open spec fn skip_trivia(s: Seq<char>, i: int) -> Result<int, int>
    decreases s.len() - i
    via skip_trivia_decreases
{
    if 0 <= i < s.len() && white_space(s[i]) {
        skip_trivia(s, i + 1)
    } else if 0 <= i && i + 1 < s.len() && s[i] == '/' && s[i + 1] == '*' {
        match comment_close(s, i + 2) {
            Some(j) => skip_trivia(s, j),
            None => Err(i),
        }
    } else {
        Ok(i)
    }
}

pub open spec fn ascii_digit(c: char) -> bool {
    '0' <= c <= '9'
}

/// Whether a number's text starts with a minus sign.
pub open spec fn negative_sign(text: Seq<char>) -> bool {
    text.len() > 0 && text[0] == '-'
}

/// A number's text without its minus sign.
pub open spec fn unsigned_part(text: Seq<char>) -> Seq<char> {
    if negative_sign(text) {
        text.drop_first()
    } else {
        text
    }
}

/// ASCII digits with at most one point among them, and at least one digit.
pub open spec fn decimal_digits(body: Seq<char>) -> bool {
    &&& forall|k: int| 0 <= k < body.len() ==> ascii_digit(#[trigger] body[k]) || body[k] == '.'
    &&& forall|j: int, k: int|
        0 <= j < body.len() && 0 <= k < body.len() && #[trigger] body[j] == '.' && #[trigger] body[k]
            == '.' ==> j == k
    &&& exists|k: int| 0 <= k < body.len() && ascii_digit(#[trigger] body[k])
}

/// The decimal that `text` spells: an optional `-`, then ASCII digits with at
/// most one point among them and at least one digit. `None` for anything else.
pub open spec fn decimal_of(text: Seq<char>) -> Option<DecimalView> {
    let negative = negative_sign(text);
    let body = unsigned_part(text);
    if decimal_digits(body) {
        if exists|k: int| 0 <= k < body.len() && #[trigger] body[k] == '.' {
            let p = choose|k: int| 0 <= k < body.len() && #[trigger] body[k] == '.';
            Some(DecimalView { negative, integer: body.take(p), fraction: body.skip(p + 1) })
        } else {
            Some(DecimalView { negative, integer: body, fraction: Seq::empty() })
        }
    } else {
        None
    }
}

/// The token kinds made of one punctuation character.
pub open spec fn structural_kind(c: char) -> Option<TokenKindView> {
    if c == '{' {
        Some(TokenKindView::CurlyBracketOpen)
    } else if c == '}' {
        Some(TokenKindView::CurlyBracketClose)
    } else if c == ':' {
        Some(TokenKindView::Colon)
    } else if c == ';' {
        Some(TokenKindView::Semicolon)
    } else if c == ',' {
        Some(TokenKindView::Comma)
    } else if c == '(' {
        Some(TokenKindView::ParenthesisOpen)
    } else if c == ')' {
        Some(TokenKindView::ParenthesisClose)
    } else {
        None
    }
}

pub open spec fn invalid_number_message() -> Seq<char> {
    "Invalid number"@
}

/// The token of kind `kind` that covers characters `start..end` of `s`.
pub open spec fn token_at(s: Seq<char>, kind: TokenKindView, start: int, end: int) -> TokenView {
    TokenView { kind, start: offset_at(s, start), end: offset_at(s, end) }
}

/// The token or error that starts with the character at index `t` of `s`,
/// and the index reached.
pub open spec fn scan_token(s: Seq<char>, t: int) -> (Result<TokenView, LexErrorView>, int) {
    let c = s[t];
    if structural_kind(c) is Some {
        (Ok(token_at(s, structural_kind(c)->0, t, t + 1)), t + 1)
    } else if alphabetic(c) || c == '_' {
        let e = name_end(s, t + 1);
        (Ok(token_at(s, TokenKindView::Identifier(s.subrange(t, e)), t, e)), e)
    } else if numeric(c) || c == '-' {
        let e = number_end(s, t + 1);
        match decimal_of(s.subrange(t, e)) {
            Some(d) => (Ok(token_at(s, TokenKindView::Number(d), t, e)), e),
            None => (Err(LexErrorView::GenericError { message: invalid_number_message() }), e),
        }
    } else if c == '"' || c == '\'' {
        match quote_close(s, t + 1, c) {
            Some(k) => (
                Ok(token_at(s, TokenKindView::StringLiteral(s.subrange(t + 1, k)), t, k + 1)),
                k + 1,
            ),
            None => (
                Err(
                    LexErrorView::UnclosedString {
                        line: line_at(s, s.len() as int),
                        column: column_at(s, s.len() as int),
                    },
                ),
                s.len() as int,
            ),
        }
    } else if c == '#' {
        let e = name_end(s, t + 1);
        (Ok(token_at(s, TokenKindView::Hash(s.subrange(t + 1, e)), t, e)), e)
    } else if c == '@' {
        let e = name_end(s, t + 1);
        (Ok(token_at(s, TokenKindView::AtKeyword(s.subrange(t + 1, e)), t, e)), e)
    } else {
        (
            Err(
                LexErrorView::UnexpectedCharacter {
                    character: c,
                    line: line_at(s, t + 1),
                    column: column_at(s, t + 1),
                },
            ),
            t + 1,
        )
    }
}

/// One scanning step on `s` from character index `i`: trivia is skipped, then
/// one token is scanned. Gives the token or error and the index reached.
pub open spec fn scan_step(s: Seq<char>, i: int) -> (Result<TokenView, LexErrorView>, int) {
    match skip_trivia(s, i) {
        Err(c) => (
            Err(LexErrorView::UnclosedComment { line: line_at(s, c), column: column_at(s, c) }),
            s.len() as int,
        ),
        Ok(t) => {
            if t >= s.len() {
                (Err(LexErrorView::EndOfFile), t)
            } else {
                scan_token(s, t)
            }
        },
    }
}

/// A scanning step never moves backwards; a token covers at least one
/// character, after the skipped trivia, and its byte range is that of its
/// characters.
pub proof fn lemma_scan_step_bounds(s: Seq<char>, i: int)
    requires
        0 <= i <= s.len(),
    ensures
        i <= scan_step(s, i).1 <= s.len(),
        scan_step(s, i).0 matches Ok(v) ==> skip_trivia(s, i) matches Ok(t) && i <= t < scan_step(
            s,
            i,
        ).1 && v.start == offset_at(s, t) && v.end == offset_at(s, scan_step(s, i).1),
        scan_step(s, i).0 == Err::<TokenView, LexErrorView>(LexErrorView::EndOfFile)
            ==> skip_trivia(s, i) == Ok::<int, int>(s.len() as int),
{
    lemma_skip_trivia_bounds(s, i);
    if let Ok(t) = skip_trivia(s, i) {
        if t < s.len() {
            lemma_run_ends(s, t + 1);
            lemma_quote_close_bounds(s, t + 1, s[t]);
        }
    }
}

pub proof fn lemma_skip_trivia_bounds(s: Seq<char>, i: int)
    requires
        0 <= i <= s.len(),
    ensures
        skip_trivia(s, i) matches Ok(t) ==> i <= t <= s.len(),
        skip_trivia(s, i) matches Err(c) ==> i <= c < s.len(),
    decreases s.len() - i,
{
    if i < s.len() && white_space(s[i]) {
        lemma_skip_trivia_bounds(s, i + 1);
    } else if i + 1 < s.len() && s[i] == '/' && s[i + 1] == '*' {
        lemma_comment_close_bounds(s, i + 2);
        if let Some(j) = comment_close(s, i + 2) {
            lemma_skip_trivia_bounds(s, j);
        }
    }
}

#[via_fn]
proof fn token_spans_decreases(s: Seq<char>, i: int) {
    if 0 <= i <= s.len() {
        lemma_scan_step_bounds(s, i);
    }
}

#[via_fn]
proof fn scanned_tokens_decreases(s: Seq<char>, i: int) {
    if 0 <= i <= s.len() {
        lemma_scan_step_bounds(s, i);
    }
}

#[via_fn]
proof fn scan_stop_decreases(s: Seq<char>, i: int) {
    if 0 <= i <= s.len() {
        lemma_scan_step_bounds(s, i);
    }
}

/// The character spans `(start, end)` of the tokens that successive scans
/// from `i` produce, up to the first error.
pub open spec fn token_spans(s: Seq<char>, i: int) -> Seq<(int, int)>
    decreases s.len() - i
    via token_spans_decreases
{
    if 0 <= i <= s.len() && scan_step(s, i).0 is Ok {
        seq![(skip_trivia(s, i)->Ok_0, scan_step(s, i).1)] + token_spans(s, scan_step(s, i).1)
    } else {
        Seq::empty()
    }
}

/// The tokens that successive scans from `i` produce, up to the first error.
pub open spec fn scanned_tokens(s: Seq<char>, i: int) -> Seq<TokenView>
    decreases s.len() - i
    via scanned_tokens_decreases
{
    if 0 <= i <= s.len() && scan_step(s, i).0 is Ok {
        seq![scan_step(s, i).0->Ok_0] + scanned_tokens(s, scan_step(s, i).1)
    } else {
        Seq::empty()
    }
}

/// The error that ends successive scans from `i`.
pub open spec fn scan_stop(s: Seq<char>, i: int) -> LexErrorView
    decreases s.len() - i
    via scan_stop_decreases
{
    if 0 <= i <= s.len() {
        match scan_step(s, i).0 {
            Ok(_) => scan_stop(s, scan_step(s, i).1),
            Err(e) => e,
        }
    } else {
        LexErrorView::EndOfFile
    }
}

} // verus!
