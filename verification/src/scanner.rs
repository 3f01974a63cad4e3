use vstd::prelude::*;

use crate::token::{
    keyword_spelling, keyword_type, law_keywords_are_exact_words, text, Token, TokenType,
};

verus! {

const NUL: u8 = 0;
const TAB: u8 = 9;
const NEWLINE: u8 = 10;
const CARRIAGE_RETURN: u8 = 13;
const SPACE: u8 = 32;
const BANG: u8 = 33;
const QUOTE: u8 = 34;
const LEFT_PAREN: u8 = 40;
const RIGHT_PAREN: u8 = 41;
const STAR: u8 = 42;
const PLUS: u8 = 43;
const COMMA: u8 = 44;
const MINUS: u8 = 45;
const DOT: u8 = 46;
const SLASH: u8 = 47;
const SEMICOLON: u8 = 59;
const LESS: u8 = 60;
const EQUAL: u8 = 61;
const GREATER: u8 = 62;
const UNDERSCORE: u8 = 95;
const LEFT_BRACE: u8 = 123;
const RIGHT_BRACE: u8 = 125;

/// An ASCII decimal digit.
pub open spec fn is_digit(b: u8) -> bool {
    48 <= b <= 57
}

/// An ASCII letter.
pub open spec fn is_alpha(b: u8) -> bool {
    (65 <= b <= 90) || (97 <= b <= 122)
}

/// A byte that may continue an identifier.
pub open spec fn is_word_byte(b: u8) -> bool {
    is_alpha(b) || is_digit(b) || b == 95
}

/// The byte at `i`, or 0 past either end of the source.
pub open spec fn byte_at(s: Seq<u8>, i: int) -> u8 {
    if 0 <= i < s.len() {
        s[i]
    } else {
        0
    }
}

/// The number of newline bytes in `s`.
pub open spec fn newlines(s: Seq<u8>) -> nat
    decreases s.len(),
{
    if s.len() == 0 {
        0
    } else {
        newlines(s.drop_last()) + if s.last() == 10 {
            1nat
        } else {
            0nat
        }
    }
}

/// The line on which position `pos` of the source lies, counting from 1.
pub open spec fn line_at(s: Seq<u8>, pos: int) -> int {
    1 + newlines(s.take(pos)) as int
}

/// The first position at or after `pos` that holds a newline, or the end.
pub open spec fn line_end(s: Seq<u8>, pos: int) -> int
    decreases s.len() - pos,
{
    if pos >= s.len() {
        s.len() as int
    } else if s[pos] == 10 {
        pos
    } else {
        line_end(s, pos + 1)
    }
}

/// The first position at or after `pos` that holds no digit, or the end.
pub open spec fn digits_end(s: Seq<u8>, pos: int) -> int
    decreases s.len() - pos,
{
    if pos >= s.len() {
        s.len() as int
    } else if !is_digit(s[pos]) {
        pos
    } else {
        digits_end(s, pos + 1)
    }
}

/// The first position at or after `pos` that holds no identifier byte, or the end.
pub open spec fn word_end(s: Seq<u8>, pos: int) -> int
    decreases s.len() - pos,
{
    if pos >= s.len() {
        s.len() as int
    } else if !is_word_byte(s[pos]) {
        pos
    } else {
        word_end(s, pos + 1)
    }
}

/// The first position at or after `pos` that holds a double quote, or the end.
pub open spec fn quote_end(s: Seq<u8>, pos: int) -> int
    decreases s.len() - pos,
{
    if pos >= s.len() {
        s.len() as int
    } else if s[pos] == 34 {
        pos
    } else {
        quote_end(s, pos + 1)
    }
}

pub proof fn lemma_line_end_bounds(s: Seq<u8>, pos: int)
    requires
        0 <= pos <= s.len(),
    ensures
        pos <= line_end(s, pos) <= s.len(),
        forall|k: int| pos <= k < line_end(s, pos) ==> s[k] != 10,
        line_end(s, pos) < s.len() ==> s[line_end(s, pos)] == 10,
    decreases s.len() - pos,
{
    if pos < s.len() && s[pos] != 10 {
        lemma_line_end_bounds(s, pos + 1);
    }
}

pub proof fn lemma_digits_end_bounds(s: Seq<u8>, pos: int)
    requires
        0 <= pos <= s.len(),
    ensures
        pos <= digits_end(s, pos) <= s.len(),
        forall|k: int| pos <= k < digits_end(s, pos) ==> is_digit(#[trigger] s[k]),
        digits_end(s, pos) < s.len() ==> !is_digit(s[digits_end(s, pos)]),
    decreases s.len() - pos,
{
    if pos < s.len() && is_digit(s[pos]) {
        lemma_digits_end_bounds(s, pos + 1);
    }
}

pub proof fn lemma_word_end_bounds(s: Seq<u8>, pos: int)
    requires
        0 <= pos <= s.len(),
    ensures
        pos <= word_end(s, pos) <= s.len(),
        forall|k: int| pos <= k < word_end(s, pos) ==> is_word_byte(#[trigger] s[k]),
        word_end(s, pos) < s.len() ==> !is_word_byte(s[word_end(s, pos)]),
    decreases s.len() - pos,
{
    if pos < s.len() && is_word_byte(s[pos]) {
        lemma_word_end_bounds(s, pos + 1);
    }
}

pub proof fn lemma_quote_end_bounds(s: Seq<u8>, pos: int)
    requires
        0 <= pos <= s.len(),
    ensures
        pos <= quote_end(s, pos) <= s.len(),
        forall|k: int| pos <= k < quote_end(s, pos) ==> s[k] != 34,
        quote_end(s, pos) < s.len() ==> s[quote_end(s, pos)] == 34,
    decreases s.len() - pos,
{
    if pos < s.len() && s[pos] != 34 {
        lemma_quote_end_bounds(s, pos + 1);
    }
}

/// Whether the byte at `pos` starts something the scanner skips: white space,
/// a newline, or a `//` comment.
pub open spec fn starts_space(s: Seq<u8>, pos: int) -> bool {
    let c = byte_at(s, pos);
    ||| c == 32 || c == 13 || c == 9 || c == 10
    ||| (c == 47 && byte_at(s, pos + 1) == 47)
}

/// Where the next token starts: the first position at or after `pos` that is
/// neither white space nor inside a `//` comment.
pub open spec fn skip_space(s: Seq<u8>, pos: int) -> int
    decreases s.len() - pos,
{
    if pos < 0 || pos >= s.len() {
        pos
    } else if s[pos] == 32 || s[pos] == 13 || s[pos] == 9 || s[pos] == 10 {
        skip_space(s, pos + 1)
    } else if s[pos] == 47 && byte_at(s, pos + 1) == 47 {
        proof {
            lemma_line_end_bounds(s, pos + 1);
        }
        skip_space(s, line_end(s, pos + 1))
    } else {
        pos
    }
}

pub proof fn lemma_skip_space_bounds(s: Seq<u8>, pos: int)
    requires
        0 <= pos <= s.len(),
    ensures
        pos <= skip_space(s, pos) <= s.len(),
        skip_space(s, pos) < s.len() ==> !starts_space(s, skip_space(s, pos)),
    decreases s.len() - pos,
{
    if pos < s.len() {
        if s[pos] == 32 || s[pos] == 13 || s[pos] == 9 || s[pos] == 10 {
            lemma_skip_space_bounds(s, pos + 1);
        } else if s[pos] == 47 && byte_at(s, pos + 1) == 47 {
            lemma_line_end_bounds(s, pos + 1);
            lemma_skip_space_bounds(s, line_end(s, pos + 1));
        }
    }
}

/// What the scanner reads at a token's first position: the token's kind, its
/// lexeme, and the position just after it.
pub struct Lexed {
    pub kind: TokenType,
    pub lexeme: Seq<u8>,
    pub end: int,
}

/// A token of one byte, or of two bytes where the second is `=`.
pub open spec fn one_or_two(s: Seq<u8>, start: int, one: TokenType, two: TokenType) -> Lexed {
    if byte_at(s, start + 1) == 61 {
        Lexed { kind: two, lexeme: s.subrange(start, start + 2), end: start + 2 }
    } else {
        Lexed { kind: one, lexeme: s.subrange(start, start + 1), end: start + 1 }
    }
}

/// The token that starts at `start`, a position that `skip_space` returned.
pub open spec fn lex_at(s: Seq<u8>, start: int) -> Lexed {
    if start >= s.len() {
        Lexed { kind: TokenType::Eof, lexeme: Seq::empty(), end: start }
    } else {
        let c = s[start];
        let single = |k: TokenType| Lexed { kind: k, lexeme: s.subrange(start, start + 1), end: start + 1 };
        if c == 40 {
            single(TokenType::LeftParen)
        } else if c == 41 {
            single(TokenType::RightParen)
        } else if c == 123 {
            single(TokenType::LeftBrace)
        } else if c == 125 {
            single(TokenType::RightBrace)
        } else if c == 44 {
            single(TokenType::Comma)
        } else if c == 46 {
            single(TokenType::Dot)
        } else if c == 45 {
            single(TokenType::Minus)
        } else if c == 43 {
            single(TokenType::Plus)
        } else if c == 59 {
            single(TokenType::Semicolon)
        } else if c == 42 {
            single(TokenType::Star)
        } else if c == 61 {
            one_or_two(s, start, TokenType::Assign, TokenType::Equals)
        } else if c == 33 {
            one_or_two(s, start, TokenType::Bang, TokenType::BangEqual)
        } else if c == 60 {
            one_or_two(s, start, TokenType::Less, TokenType::LessEqual)
        } else if c == 62 {
            one_or_two(s, start, TokenType::Greater, TokenType::GreaterEqual)
        } else if c == 47 {
            single(TokenType::Slash)
        } else if c == 34 {
            let e = quote_end(s, start + 1);
            if e >= s.len() {
                Lexed { kind: TokenType::Error, lexeme: text("Unterminated string."), end: e }
            } else {
                Lexed { kind: TokenType::String, lexeme: s.subrange(start + 1, e), end: e + 1 }
            }
        } else if is_digit(c) {
            let e = digits_end(s, start + 1);
            let e2 = if byte_at(s, e) == 46 && is_digit(byte_at(s, e + 1)) {
                digits_end(s, e + 1)
            } else {
                e
            };
            Lexed { kind: TokenType::Number, lexeme: s.subrange(start, e2), end: e2 }
        } else if is_alpha(c) || c == 95 {
            let e = word_end(s, start + 1);
            Lexed { kind: keyword_type(s.subrange(start, e)), lexeme: s.subrange(start, e), end: e }
        } else {
            Lexed { kind: TokenType::Error, lexeme: text("Unexpected character."), end: start + 1 }
        }
    }
}

/// The token that the scanner reads from position `pos` on.
pub open spec fn next_token(s: Seq<u8>, pos: int) -> Lexed {
    lex_at(s, skip_space(s, pos))
}

pub proof fn lemma_newlines_step(s: Seq<u8>, k: int)
    requires
        0 <= k < s.len(),
    ensures
        newlines(s.take(k + 1)) == newlines(s.take(k)) + if s[k] == 10 {
            1nat
        } else {
            0nat
        },
{
    assert(s.take(k + 1).drop_last() =~= s.take(k));
}

/// Lines do not change across a stretch of the source that holds no newline.
pub proof fn lemma_no_newlines(s: Seq<u8>, a: int, b: int)
    requires
        0 <= a <= b <= s.len(),
        forall|k: int| a <= k < b ==> s[k] != 10,
    ensures
        line_at(s, b) == line_at(s, a),
    decreases b - a,
{
    if a < b {
        lemma_no_newlines(s, a, b - 1);
        lemma_newlines_step(s, b - 1);
    }
}

pub proof fn lemma_newlines_bound(s: Seq<u8>)
    ensures
        newlines(s) <= s.len(),
    decreases s.len(),
{
    if s.len() > 0 {
        lemma_newlines_bound(s.drop_last());
    }
}

/// Whether `c` is an ASCII decimal digit.
fn is_ascii_digit(c: u8) -> (r: bool)
    ensures
        r == is_digit(c),
{
    48 <= c && c <= 57
}

/// Whether `c` is an ASCII letter.
fn is_ascii_alphabetic(c: u8) -> (r: bool)
    ensures
        r == is_alpha(c),
{
    (65 <= c && c <= 90) || (97 <= c && c <= 122)
}

/// Whether `c` is an ASCII letter or digit.
fn is_ascii_alphanumeric(c: u8) -> (r: bool)
    ensures
        r == (is_alpha(c) || is_digit(c)),
{
    is_ascii_alphabetic(c) || is_ascii_digit(c)
}

/// Every token ends within the source, after where scanning began; only
/// `Eof` consumes nothing, and it comes exactly where nothing but white space
/// and comments is left.
pub proof fn lemma_next_token_progress(s: Seq<u8>, pos: int)
    requires
        0 <= pos <= s.len(),
    ensures
        pos <= next_token(s, pos).end <= s.len(),
        next_token(s, pos).kind == TokenType::Eof <==> skip_space(s, pos) >= s.len(),
        next_token(s, pos).kind == TokenType::Eof ==> next_token(s, pos).end == s.len(),
        next_token(s, pos).kind != TokenType::Eof ==> pos < next_token(s, pos).end,
        1 <= line_at(s, next_token(s, pos).end) <= next_token(s, pos).end + 1,
{
    let st = skip_space(s, pos);
    lemma_skip_space_bounds(s, pos);
    if st < s.len() {
        let c = s[st];
        if c == 34 {
            lemma_quote_end_bounds(s, st + 1);
        } else if is_digit(c) {
            lemma_digits_end_bounds(s, st + 1);
            let e = digits_end(s, st + 1);
            if byte_at(s, e) == 46 && is_digit(byte_at(s, e + 1)) {
                lemma_digits_end_bounds(s, e + 1);
            }
        } else if is_alpha(c) || c == 95 {
            lemma_word_end_bounds(s, st + 1);
        }
        assert(keyword_type(s.subrange(st, word_end(s, st + 1))) != TokenType::Eof);
    }
    lemma_newlines_bound(s.take(next_token(s, pos).end));
}

/// Once the whole source is read, every further token is `Eof`, with no
/// text, and the scanner stays at the end.
pub proof fn law_eof_at_end(s: Seq<u8>)
    ensures
        next_token(s, s.len() as int).kind == TokenType::Eof,
        next_token(s, s.len() as int).lexeme == Seq::<u8>::empty(),
        next_token(s, s.len() as int).end == s.len(),
{
}

/// The lexeme of every token but a string literal or an error is exactly the
/// source text that the token spans, from where it starts (after white space
/// and comments) to where scanning stops; a string literal's lexeme is the
/// text between its quotes.
pub proof fn law_lexeme_is_source_text(s: Seq<u8>, pos: int)
    requires
        0 <= pos <= s.len(),
    ensures
        ({
            let start = skip_space(s, pos);
            let lx = next_token(s, pos);
            &&& lx.kind != TokenType::String && lx.kind != TokenType::Error ==> lx.lexeme
                == s.subrange(start, lx.end)
            &&& lx.kind == TokenType::String ==> lx.lexeme == s.subrange(start + 1, lx.end - 1)
        }),
{
    lemma_skip_space_bounds(s, pos);
    let start = skip_space(s, pos);
    if start >= s.len() {
        assert(s.subrange(start, start) =~= Seq::<u8>::empty());
    }
}

/// White space: a space, a carriage return, a tab or a newline.
pub open spec fn is_space(b: u8) -> bool {
    b == 32 || b == 13 || b == 9 || b == 10
}

/// Whether position `k` lies inside a `//` comment: a `//` starts at or
/// before it, with no newline from there up to `k`.
pub open spec fn in_comment(s: Seq<u8>, k: int) -> bool {
    exists|j: int|
        0 <= j <= k && #[trigger] s[j] == 47 && byte_at(s, j + 1) == 47 && forall|m: int|
            j <= m <= k ==> s[m] != 10
}

/// The scanner skips nothing but white space and comments: every byte it
/// passes over before a token is white space or inside a `//` comment.
pub proof fn law_skips_only_space(s: Seq<u8>, pos: int)
    requires
        0 <= pos <= s.len(),
    ensures
        forall|k: int| pos <= k < skip_space(s, pos) ==> is_space(#[trigger] s[k]) || in_comment(s, k),
    decreases s.len() - pos,
{
    if pos < s.len() {
        if is_space(s[pos]) {
            law_skips_only_space(s, pos + 1);
        } else if s[pos] == 47 && byte_at(s, pos + 1) == 47 {
            lemma_line_end_bounds(s, pos + 1);
            let e = line_end(s, pos + 1);
            law_skips_only_space(s, e);
            assert forall|k: int| pos <= k < e implies in_comment(s, k) by {
                assert(forall|m: int| pos <= m <= k ==> s[m] != 10);
                assert(s[pos] == 47);
            }
        }
    }
}

/// A number token is the longest number literal at its start: it begins and
/// ends with a digit, holds only digits and at most one `.`, and the source
/// goes on with no digit after it; where it has no fraction, the source does
/// not go on with a `.` and a digit either (so `3.14` is one token, and
/// `1.2.3` reads `1.2` first).
pub proof fn law_number_token_is_maximal(s: Seq<u8>, pos: int)
    requires
        0 <= pos <= s.len(),
        next_token(s, pos).kind == TokenType::Number,
    ensures
        ({
            let start = skip_space(s, pos);
            let end = next_token(s, pos).end;
            &&& next_token(s, pos).lexeme == s.subrange(start, end)
            &&& start < end <= s.len()
            &&& is_digit(s[start])
            &&& is_digit(s[end - 1])
            &&& forall|k: int| start <= k < end ==> is_digit(#[trigger] s[k]) || s[k] == 46
            &&& forall|k1: int, k2: int|
                start <= k1 < end && start <= k2 < end && #[trigger] s[k1] == 46 && #[trigger] s[k2]
                    == 46 ==> k1 == k2
            &&& !is_digit(byte_at(s, end))
            &&& (forall|k: int| start <= k < end ==> #[trigger] s[k] != 46) ==> !(byte_at(s, end)
                == 46 && is_digit(byte_at(s, end + 1)))
        }),
{
    lemma_skip_space_bounds(s, pos);
    let start = skip_space(s, pos);
    assert(start < s.len());
    let c = s[start];
    assert(is_digit(c));
    lemma_digits_end_bounds(s, start + 1);
    let e = digits_end(s, start + 1);
    if byte_at(s, e) == 46 && is_digit(byte_at(s, e + 1)) {
        lemma_digits_end_bounds(s, e + 1);
        let e2 = digits_end(s, e + 1);
        assert(next_token(s, pos).end == e2);
        assert(is_digit(s[e2 - 1]));
        assert forall|k1: int, k2: int|
            start <= k1 < e2 && start <= k2 < e2 && #[trigger] s[k1] == 46 && #[trigger] s[k2]
                == 46 implies k1 == k2 by {
            if k1 != e {
                assert(is_digit(s[k1]));
            }
            if k2 != e {
                assert(is_digit(s[k2]));
            }
        }
        assert(s[e] == 46);
    } else {
        assert(next_token(s, pos).end == e);
        if e > start + 1 {
            assert(is_digit(s[e - 1]));
        }
    }
}

/// How a token of fixed text is spelled: the punctuation, the operators and
/// the keywords; `None` for identifiers, literals, errors and the end.
pub open spec fn fixed_spelling(t: TokenType) -> Option<Seq<u8>> {
    match t {
        TokenType::LeftParen => Some(seq![40u8]),
        TokenType::RightParen => Some(seq![41u8]),
        TokenType::LeftBrace => Some(seq![123u8]),
        TokenType::RightBrace => Some(seq![125u8]),
        TokenType::Comma => Some(seq![44u8]),
        TokenType::Dot => Some(seq![46u8]),
        TokenType::Minus => Some(seq![45u8]),
        TokenType::Plus => Some(seq![43u8]),
        TokenType::Semicolon => Some(seq![59u8]),
        TokenType::Slash => Some(seq![47u8]),
        TokenType::Star => Some(seq![42u8]),
        TokenType::Bang => Some(seq![33u8]),
        TokenType::BangEqual => Some(seq![33u8, 61]),
        TokenType::Assign => Some(seq![61u8]),
        TokenType::Equals => Some(seq![61u8, 61]),
        TokenType::Greater => Some(seq![62u8]),
        TokenType::GreaterEqual => Some(seq![62u8, 61]),
        TokenType::Less => Some(seq![60u8]),
        TokenType::LessEqual => Some(seq![60u8, 61]),
        _ => keyword_spelling(t),
    }
}

/// Every token of fixed text is spelled as its kind says: its lexeme is the
/// spelling of its kind. The scanner takes the longest token it can: a
/// one-byte `!`, `=`, `<` or `>` is not followed by `=`, and an identifier or
/// a keyword is not followed by another identifier byte. An identifier
/// starts with a letter or `_`, holds only identifier bytes, and is no
/// keyword. A string literal ends at its closing quote, and its text holds
/// no quote.
pub proof fn law_token_spelling(s: Seq<u8>, pos: int)
    requires
        0 <= pos <= s.len(),
    ensures
        ({
            let lx = next_token(s, pos);
            &&& fixed_spelling(lx.kind) matches Some(w) ==> lx.lexeme == w
            &&& lx.kind == TokenType::Bang || lx.kind == TokenType::Assign || lx.kind
                == TokenType::Less || lx.kind == TokenType::Greater ==> byte_at(s, lx.end) != 61
            &&& lx.kind == TokenType::Identifier || keyword_spelling(lx.kind) is Some ==> !is_word_byte(
                byte_at(s, lx.end),
            )
            &&& lx.kind == TokenType::Identifier ==> {
                &&& lx.lexeme.len() > 0
                &&& is_alpha(lx.lexeme[0]) || lx.lexeme[0] == 95
                &&& forall|k: int| 0 <= k < lx.lexeme.len() ==> is_word_byte(#[trigger] lx.lexeme[k])
                &&& keyword_type(lx.lexeme) == TokenType::Identifier
            }
            &&& lx.kind == TokenType::String ==> {
                &&& 0 < lx.end <= s.len()
                &&& s[lx.end - 1] == 34
                &&& forall|k: int| 0 <= k < lx.lexeme.len() ==> #[trigger] lx.lexeme[k] != 34
            }
        }),
{
    lemma_skip_space_bounds(s, pos);
    let start = skip_space(s, pos);
    let lx = next_token(s, pos);
    if start < s.len() {
        let c = s[start];
        if c == 34 {
            lemma_quote_end_bounds(s, start + 1);
            let e = quote_end(s, start + 1);
            if e < s.len() {
                assert forall|k: int| 0 <= k < lx.lexeme.len() implies #[trigger] lx.lexeme[k]
                    != 34 by {
                    assert(s[start + 1 + k] != 34);
                }
            }
        } else if is_digit(c) {
            lemma_digits_end_bounds(s, start + 1);
        } else if is_alpha(c) || c == 95 {
            lemma_word_end_bounds(s, start + 1);
            let e = word_end(s, start + 1);
            let w = s.subrange(start, e);
            law_keywords_are_exact_words(w, keyword_type(w));
            assert forall|k: int| 0 <= k < w.len() implies is_word_byte(#[trigger] w[k]) by {
                if k > 0 {
                    assert(is_word_byte(s[start + k]));
                }
            }
        } else if c == 61 || c == 33 || c == 60 || c == 62 {
            if byte_at(s, start + 1) == 61 {
                assert(lx.lexeme =~= seq![c, 61u8]);
            } else {
                assert(lx.lexeme =~= seq![c]);
            }
        } else if lx.kind != TokenType::Error {
            assert(lx.lexeme =~= seq![c]);
        }
    }
}

/// A scanner over the bytes of Lox source text. It hands out one token at a
/// time.
#[derive(Debug)]
pub struct Scanner {
    source: Vec<u8>,
    start: usize,
    current: usize,
    line: usize,
}

impl Scanner {
    /// The bytes being scanned.
    pub closed spec fn src(&self) -> Seq<u8> {
        self.source@
    }

    /// The position from which the next token is read.
    pub closed spec fn pos(&self) -> int {
        self.current as int
    }

    /// The positions lie within the source and the line count matches them.
    pub closed spec fn wf(&self) -> bool {
        &&& self.inner_wf()
        &&& self.line == line_at(self.source@, self.current as int)
    }

    spec fn inner_wf(&self) -> bool {
        &&& self.start <= self.current <= self.source@.len()
        &&& self.source@.len() < usize::MAX
    }

    pub proof fn lemma_wf(&self)
        requires
            self.wf(),
        ensures
            0 <= self.pos() <= self.src().len() < usize::MAX,
    {
    }

    /// A scanner positioned at the start of `source`, on line 1.
    pub fn new(source: &str) -> (s: Scanner)
        requires
            text(source).len() < usize::MAX,
        ensures
            s.wf(),
            s.src() == text(source),
            s.pos() == 0,
    {
        let bytes = vstd::slice::slice_to_vec(source.as_bytes());
        let s = Scanner { source: bytes, start: 0, current: 0, line: 1 };
        assert(s.source@.take(0) =~= Seq::<u8>::empty());
        s
    }

    fn is_at_end(&self) -> (r: bool)
        requires
            self.inner_wf(),
        ensures
            r == (self.current >= self.source@.len()),
    {
        self.current >= self.source.len()
    }

    fn peek(&self) -> (r: u8)
        requires
            self.inner_wf(),
        ensures
            r == byte_at(self.source@, self.current as int),
    {
        if self.is_at_end() {
            NUL
        } else {
            self.source[self.current]
        }
    }

    fn peek_next(&self) -> (r: u8)
        requires
            self.inner_wf(),
        ensures
            r == byte_at(self.source@, self.current + 1),
    {
        if self.source.len() - self.current <= 1 {
            NUL
        } else {
            self.source[self.current + 1]
        }
    }

    fn advance(&mut self) -> (c: u8)
        requires
            old(self).inner_wf(),
            old(self).current < old(self).source@.len(),
        ensures
            c == old(self).source@[old(self).current as int],
            final(self).source == old(self).source,
            final(self).start == old(self).start,
            final(self).line == old(self).line,
            final(self).current == old(self).current + 1,
            final(self).inner_wf(),
    {
        let c = self.source[self.current];
        self.current += 1;
        c
    }

    fn matches(&mut self, ch: u8) -> (r: bool)
        requires
            old(self).inner_wf(),
        ensures
            r == (byte_at(old(self).source@, old(self).current as int) == ch
                && old(self).current < old(self).source@.len()),
            final(self).source == old(self).source,
            final(self).start == old(self).start,
            final(self).line == old(self).line,
            final(self).current == old(self).current + if r {
                1int
            } else {
                0int
            },
            final(self).inner_wf(),
    {
        if self.is_at_end() {
            return false;
        }
        if self.source[self.current] != ch {
            return false;
        }
        self.current += 1;
        true
    }

    fn skip_whitespace(&mut self)
        requires
            old(self).wf(),
        ensures
            final(self).wf(),
            final(self).source == old(self).source,
            final(self).start == old(self).start,
            final(self).current == skip_space(old(self).source@, old(self).current as int),
    {
        loop
            invariant
                self.wf(),
                self.source == old(self).source,
                self.start == old(self).start,
                skip_space(self.source@, self.current as int) == skip_space(
                    old(self).source@,
                    old(self).current as int,
                ),
            decreases self.source@.len() - self.current,
        {
            let c = self.peek();
            if c == SPACE || c == CARRIAGE_RETURN || c == TAB {
                proof {
                    lemma_newlines_step(self.source@, self.current as int);
                }
                self.advance();
            } else if c == NEWLINE {
                proof {
                    lemma_newlines_step(self.source@, self.current as int);
                    lemma_newlines_bound(self.source@.take(self.current as int));
                }
                self.line += 1;
                self.advance();
            } else if c == SLASH && self.peek_next() == SLASH {
                let ghost c0 = self.current as int;
                proof {
                    lemma_line_end_bounds(self.source@, c0 + 1);
                }
                while self.peek() != NEWLINE && !self.is_at_end()
                    invariant
                        self.wf(),
                        self.source == old(self).source,
                        self.start == old(self).start,
                        c0 <= self.current <= line_end(self.source@, c0 + 1),
                        line_end(self.source@, c0 + 1) <= self.source@.len(),
                        forall|k: int|
                            c0 + 1 <= k < line_end(self.source@, c0 + 1) ==> self.source@[k] != 10,
                        line_end(self.source@, c0 + 1) < self.source@.len() ==> self.source@[line_end(
                            self.source@,
                            c0 + 1,
                        )] == 10,
                        self.source@[c0] == 47,
                    decreases self.source@.len() - self.current,
                {
                    proof {
                        lemma_newlines_step(self.source@, self.current as int);
                    }
                    self.advance();
                }
                assert(self.current == line_end(self.source@, c0 + 1));
            } else {
                return;
            }
        }
    }

    fn make_token(&self, token_type: TokenType) -> (t: Token)
        requires
            self.inner_wf(),
        ensures
            t.token_type == token_type,
            t.lexeme@ == self.source@.subrange(self.start as int, self.current as int),
            t.line == self.line,
    {
        let lexeme = vstd::slice::slice_to_vec(
            vstd::slice::slice_subrange(self.source.as_slice(), self.start, self.current),
        );
        Token::new(token_type, lexeme, self.line)
    }

    fn error_token(&self, msg: &str) -> (t: Token)
        ensures
            t.token_type == TokenType::Error,
            t.lexeme@ == text(msg),
            t.line == self.line,
    {
        Token::new(TokenType::Error, vstd::slice::slice_to_vec(msg.as_bytes()), self.line)
    }

    fn identifier(&mut self) -> (t: Token)
        requires
            old(self).wf(),
            old(self).current == old(self).start + 1,
        ensures
            final(self).wf(),
            final(self).source == old(self).source,
            final(self).start == old(self).start,
            final(self).line == old(self).line,
            final(self).current == word_end(old(self).source@, old(self).current as int),
            t.token_type == keyword_type(
                old(self).source@.subrange(old(self).start as int, final(self).current as int),
            ),
            t.lexeme@ == old(self).source@.subrange(
                old(self).start as int,
                final(self).current as int,
            ),
            t.line == old(self).line,
    {
        proof {
            lemma_word_end_bounds(self.source@, self.current as int);
        }
        let ghost c0 = self.current as int;
        while !self.is_at_end() && (self.peek_is_word_byte())
            invariant
                self.inner_wf(),
                self.source == old(self).source,
                self.start == old(self).start,
                self.line == old(self).line,
                c0 <= self.current <= word_end(self.source@, c0),
                word_end(self.source@, c0) <= self.source@.len(),
                forall|k: int| c0 <= k < word_end(self.source@, c0) ==> is_word_byte(#[trigger] self.source@[k]),
                word_end(self.source@, c0) < self.source@.len() ==> !is_word_byte(self.source@[word_end(self.source@, c0)]),
            decreases self.source@.len() - self.current,
        {
            self.advance();
        }
        proof {
            lemma_no_newlines(self.source@, c0, self.current as int);
        }
        let word = vstd::slice::slice_subrange(self.source.as_slice(), self.start, self.current);
        let token_type = TokenType::parse(word);
        self.make_token(token_type)
    }

    fn peek_is_word_byte(&self) -> (r: bool)
        requires
            self.inner_wf(),
        ensures
            r == is_word_byte(byte_at(self.source@, self.current as int)),
    {
        let c = self.peek();
        is_ascii_alphanumeric(c) || c == UNDERSCORE
    }

    fn peek_is_digit(&self) -> (r: bool)
        requires
            self.inner_wf(),
        ensures
            r == is_digit(byte_at(self.source@, self.current as int)),
    {
        is_ascii_digit(self.peek())
    }

    fn number(&mut self) -> (t: Token)
        requires
            old(self).wf(),
            old(self).current == old(self).start + 1,
        ensures
            final(self).wf(),
            final(self).source == old(self).source,
            final(self).start == old(self).start,
            final(self).line == old(self).line,
            final(self).current == ({
                let s = old(self).source@;
                let e = digits_end(s, old(self).current as int);
                if byte_at(s, e) == 46 && is_digit(byte_at(s, e + 1)) {
                    digits_end(s, e + 1)
                } else {
                    e
                }
            }),
            t.token_type == TokenType::Number,
            t.lexeme@ == old(self).source@.subrange(
                old(self).start as int,
                final(self).current as int,
            ),
            t.line == old(self).line,
    {
        let ghost s = self.source@;
        let ghost c0 = self.current as int;
        proof {
            lemma_digits_end_bounds(s, c0);
        }
        while !self.is_at_end() && self.peek_is_digit()
            invariant
                self.inner_wf(),
                self.source == old(self).source,
                s == self.source@,
                self.start == old(self).start,
                self.line == old(self).line,
                c0 <= self.current <= digits_end(s, c0),
                digits_end(s, c0) <= s.len(),
                forall|k: int| c0 <= k < digits_end(s, c0) ==> is_digit(#[trigger] s[k]),
                digits_end(s, c0) < s.len() ==> !is_digit(s[digits_end(s, c0)]),
            decreases s.len() - self.current,
        {
            self.advance();
        }
        let ghost e = self.current as int;
        proof {
            lemma_no_newlines(s, c0, e);
        }
        if self.peek() == DOT && is_ascii_digit(self.peek_next()) {
            proof {
                lemma_newlines_step(s, e);
            }
            self.advance();
            proof {
                lemma_digits_end_bounds(s, e + 1);
            }
            while !self.is_at_end() && self.peek_is_digit()
                invariant
                    self.inner_wf(),
                    self.source == old(self).source,
                    s == self.source@,
                    self.start == old(self).start,
                    self.line == old(self).line,
                    e + 1 <= self.current <= digits_end(s, e + 1),
                    digits_end(s, e + 1) <= s.len(),
                    forall|k: int| e + 1 <= k < digits_end(s, e + 1) ==> is_digit(#[trigger] s[k]),
                    digits_end(s, e + 1) < s.len() ==> !is_digit(s[digits_end(s, e + 1)]),
                decreases s.len() - self.current,
            {
                self.advance();
            }
            proof {
                lemma_no_newlines(s, e + 1, self.current as int);
            }
        }
        self.make_token(TokenType::Number)
    }

    fn string(&mut self) -> (t: Token)
        requires
            old(self).wf(),
            old(self).current == old(self).start + 1,
        ensures
            final(self).wf(),
            final(self).source == old(self).source,
            final(self).start == old(self).start,
            ({
                let s = old(self).source@;
                let e = quote_end(s, old(self).current as int);
                if e >= s.len() {
                    &&& final(self).current == e
                    &&& t.token_type == TokenType::Error
                    &&& t.lexeme@ == text("Unterminated string.")
                } else {
                    &&& final(self).current == e + 1
                    &&& t.token_type == TokenType::String
                    &&& t.lexeme@ == s.subrange(old(self).current as int, e)
                }
            }),
            t.line == final(self).line,
    {
        let ghost s = self.source@;
        let ghost c0 = self.current as int;
        proof {
            lemma_quote_end_bounds(s, c0);
        }
        while self.peek() != QUOTE && !self.is_at_end()
            invariant
                self.wf(),
                self.source == old(self).source,
                s == self.source@,
                self.start == old(self).start,
                c0 <= self.current <= quote_end(s, c0),
                quote_end(s, c0) <= s.len(),
                forall|k: int| c0 <= k < quote_end(s, c0) ==> s[k] != 34,
                quote_end(s, c0) < s.len() ==> s[quote_end(s, c0)] == 34,
            decreases s.len() - self.current,
        {
            proof {
                lemma_newlines_step(s, self.current as int);
                lemma_newlines_bound(s.take(self.current as int));
            }
            if self.peek() == NEWLINE {
                self.line += 1;
            }
            self.advance();
        }
        if self.is_at_end() {
            return self.error_token("Unterminated string.");
        }
        let value = vstd::slice::slice_to_vec(
            vstd::slice::slice_subrange(self.source.as_slice(), self.start + 1, self.current),
        );
        proof {
            lemma_newlines_step(s, self.current as int);
        }
        self.advance();
        Token::new(TokenType::String, value, self.line)
    }

    /// Reads the next token, skipping white space and `//` comments before it.
    pub fn scan_token(&mut self) -> (t: Token)
        requires
            old(self).wf(),
        ensures
            final(self).wf(),
            final(self).src() == old(self).src(),
            ({
                let lx = next_token(old(self).src(), old(self).pos());
                &&& final(self).pos() == lx.end
                &&& t.token_type == lx.kind
                &&& t.lexeme@ == lx.lexeme
                &&& t.line == line_at(old(self).src(), lx.end)
            }),
    {
        self.skip_whitespace();
        proof {
            lemma_skip_space_bounds(self.source@, old(self).current as int);
        }
        self.start = self.current;
        if self.is_at_end() {
            let t = self.make_token(TokenType::Eof);
            assert(t.lexeme@ =~= Seq::<u8>::empty());
            return t;
        }
        let ghost s = self.source@;
        let ghost st = self.current as int;
        proof {
            lemma_newlines_step(s, st);
        }
        let ch = self.advance();
        assert(ch != 10);
        if ch == LEFT_PAREN {
            self.make_token(TokenType::LeftParen)
        } else if ch == RIGHT_PAREN {
            self.make_token(TokenType::RightParen)
        } else if ch == LEFT_BRACE {
            self.make_token(TokenType::LeftBrace)
        } else if ch == RIGHT_BRACE {
            self.make_token(TokenType::RightBrace)
        } else if ch == COMMA {
            self.make_token(TokenType::Comma)
        } else if ch == DOT {
            self.make_token(TokenType::Dot)
        } else if ch == MINUS {
            self.make_token(TokenType::Minus)
        } else if ch == PLUS {
            self.make_token(TokenType::Plus)
        } else if ch == SEMICOLON {
            self.make_token(TokenType::Semicolon)
        } else if ch == STAR {
            self.make_token(TokenType::Star)
        } else if ch == EQUAL {
            self.two_char_token(TokenType::Assign, TokenType::Equals)
        } else if ch == BANG {
            self.two_char_token(TokenType::Bang, TokenType::BangEqual)
        } else if ch == LESS {
            self.two_char_token(TokenType::Less, TokenType::LessEqual)
        } else if ch == GREATER {
            self.two_char_token(TokenType::Greater, TokenType::GreaterEqual)
        } else if ch == SLASH {
            self.make_token(TokenType::Slash)
        } else if ch == QUOTE {
            self.string()
        } else if is_ascii_digit(ch) {
            self.number()
        } else if is_ascii_alphabetic(ch) || ch == UNDERSCORE {
            self.identifier()
        } else {
            self.error_token("Unexpected character.")
        }
    }

    fn two_char_token(&mut self, one: TokenType, two: TokenType) -> (t: Token)
        requires
            old(self).wf(),
            old(self).current == old(self).start + 1,
        ensures
            final(self).wf(),
            final(self).source == old(self).source,
            final(self).start == old(self).start,
            ({
                let lx = one_or_two(old(self).source@, old(self).start as int, one, two);
                &&& final(self).current == lx.end
                &&& t.token_type == lx.kind
                &&& t.lexeme@ == lx.lexeme
                &&& t.line == final(self).line
            }),
    {
        proof {
            if self.current < self.source@.len() {
                lemma_newlines_step(self.source@, self.current as int);
            }
        }
        if self.matches(EQUAL) {
            assert(self.source@[self.current - 1] != 10);
            self.make_token(two)
        } else {
            self.make_token(one)
        }
    }
}

} // verus!
