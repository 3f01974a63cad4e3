use vstd::prelude::*;
use vstd::string::StringSliceAdditionalSpecFns;

verus! {

/// The kinds of lexical tokens of Lox.
#[derive(Debug, Clone, Copy, PartialEq, Eq, Structural)]
pub enum TokenType {
    LeftParen,
    RightParen,
    LeftBrace,
    RightBrace,
    Comma,
    Dot,
    Minus,
    Plus,
    Semicolon,
    Slash,
    Star,
    Bang,
    BangEqual,
    Assign,
    Equals,
    Greater,
    GreaterEqual,
    Less,
    LessEqual,
    Identifier,
    String,
    Number,
    And,
    Class,
    Else,
    False,
    For,
    Fun,
    If,
    Nil,
    Or,
    Print,
    Return,
    Super,
    This,
    True,
    Var,
    While,
    Error,
    Eof,
}

/// The bytes of a text: its UTF-8 encoding.
pub open spec fn text(s: &str) -> Seq<u8> {
    s.spec_bytes()
}

/// A lexical token: its kind, the source text it stands for, and the line on
/// which it ends.
///
/// For a string literal the lexeme is the text between the quotes; for an
/// error token it is the message that describes the error.
#[derive(Debug)]
pub struct Token {
    pub token_type: TokenType,
    pub lexeme: Vec<u8>,
    pub line: usize,
}

/// The model of a token.
pub struct SpecToken {
    pub kind: TokenType,
    pub lexeme: Seq<u8>,
    pub line: usize,
}

impl View for Token {
    type V = SpecToken;

    open spec fn view(&self) -> SpecToken {
        SpecToken { kind: self.token_type, lexeme: self.lexeme@, line: self.line }
    }
}

impl Token {
    pub fn new(token_type: TokenType, lexeme: Vec<u8>, line: usize) -> (t: Token)
        ensures
            t.token_type == token_type,
            t.lexeme@ == lexeme@,
            t.line == line,
    {
        Token { token_type, lexeme, line }
    }
}

/// The kind of a word: the keyword it spells, or `Identifier`.
pub open spec fn keyword_type(w: Seq<u8>) -> TokenType {
    if w == seq![97u8, 110, 100] /* "and" */ {
        TokenType::And
    } else if w == seq![99u8, 108, 97, 115, 115] /* "class" */ {
        TokenType::Class
    } else if w == seq![101u8, 108, 115, 101] /* "else" */ {
        TokenType::Else
    } else if w == seq![102u8, 97, 108, 115, 101] /* "false" */ {
        TokenType::False
    } else if w == seq![102u8, 111, 114] /* "for" */ {
        TokenType::For
    } else if w == seq![102u8, 117, 110] /* "fun" */ {
        TokenType::Fun
    } else if w == seq![105u8, 102] /* "if" */ {
        TokenType::If
    } else if w == seq![110u8, 105, 108] /* "nil" */ {
        TokenType::Nil
    } else if w == seq![111u8, 114] /* "or" */ {
        TokenType::Or
    } else if w == seq![112u8, 114, 105, 110, 116] /* "print" */ {
        TokenType::Print
    } else if w == seq![114u8, 101, 116, 117, 114, 110] /* "return" */ {
        TokenType::Return
    } else if w == seq![115u8, 117, 112, 101, 114] /* "super" */ {
        TokenType::Super
    } else if w == seq![116u8, 104, 105, 115] /* "this" */ {
        TokenType::This
    } else if w == seq![116u8, 114, 117, 101] /* "true" */ {
        TokenType::True
    } else if w == seq![118u8, 97, 114] /* "var" */ {
        TokenType::Var
    } else if w == seq![119u8, 104, 105, 108, 101] /* "while" */ {
        TokenType::While
    } else {
        TokenType::Identifier
    }
}

/// How a keyword is spelled; `None` for a kind that is no keyword.
pub open spec fn keyword_spelling(t: TokenType) -> Option<Seq<u8>> {
    match t {
        TokenType::And => Some(seq![97u8, 110, 100]),
        TokenType::Class => Some(seq![99u8, 108, 97, 115, 115]),
        TokenType::Else => Some(seq![101u8, 108, 115, 101]),
        TokenType::False => Some(seq![102u8, 97, 108, 115, 101]),
        TokenType::For => Some(seq![102u8, 111, 114]),
        TokenType::Fun => Some(seq![102u8, 117, 110]),
        TokenType::If => Some(seq![105u8, 102]),
        TokenType::Nil => Some(seq![110u8, 105, 108]),
        TokenType::Or => Some(seq![111u8, 114]),
        TokenType::Print => Some(seq![112u8, 114, 105, 110, 116]),
        TokenType::Return => Some(seq![114u8, 101, 116, 117, 114, 110]),
        TokenType::Super => Some(seq![115u8, 117, 112, 101, 114]),
        TokenType::This => Some(seq![116u8, 104, 105, 115]),
        TokenType::True => Some(seq![116u8, 114, 117, 101]),
        TokenType::Var => Some(seq![118u8, 97, 114]),
        TokenType::While => Some(seq![119u8, 104, 105, 108, 101]),
        _ => None,
    }
}

/// Keywords are exact words: a word is read as a keyword only where it is
/// that keyword's spelling, letter for letter (so `variable` and `andy` are
/// identifiers), and each keyword's spelling is read as that keyword.
pub proof fn law_keywords_are_exact_words(w: Seq<u8>, t: TokenType)
    ensures
        keyword_type(w) != TokenType::Identifier ==> keyword_spelling(keyword_type(w)) == Some(w),
        keyword_spelling(t) matches Some(k) ==> keyword_type(k) == t,
{
    if let Some(k) = keyword_spelling(t) {
        assert(k.len() >= 2);
        assert(seq![97u8, 110, 100][0] == 97);
    }
}

/// Whether two byte strings are equal.
fn same_bytes(a: &[u8], b: &[u8]) -> (r: bool)
    ensures
        r == (a@ == b@),
{
    if a.len() != b.len() {
        return false;
    }
    let mut i: usize = 0;
    while i < a.len()
        invariant
            a@.len() == b@.len(),
            0 <= i <= a@.len(),
            forall|j: int| 0 <= j < i ==> a@[j] == b@[j],
        decreases a@.len() - i,
    {
        if a[i] != b[i] {
            return false;
        }
        i += 1;
    }
    assert(a@ =~= b@);
    true
}

impl TokenType {
    /// The kind of an identifier-shaped word: a keyword, or `Identifier`.
    pub fn parse(w: &[u8]) -> (t: TokenType)
        ensures
            t == keyword_type(w@),
    {
        if same_bytes(w, &[97u8, 110, 100] /* "and" */) {
            TokenType::And
        } else if same_bytes(w, &[99u8, 108, 97, 115, 115] /* "class" */) {
            TokenType::Class
        } else if same_bytes(w, &[101u8, 108, 115, 101] /* "else" */) {
            TokenType::Else
        } else if same_bytes(w, &[102u8, 97, 108, 115, 101] /* "false" */) {
            TokenType::False
        } else if same_bytes(w, &[102u8, 111, 114] /* "for" */) {
            TokenType::For
        } else if same_bytes(w, &[102u8, 117, 110] /* "fun" */) {
            TokenType::Fun
        } else if same_bytes(w, &[105u8, 102] /* "if" */) {
            TokenType::If
        } else if same_bytes(w, &[110u8, 105, 108] /* "nil" */) {
            TokenType::Nil
        } else if same_bytes(w, &[111u8, 114] /* "or" */) {
            TokenType::Or
        } else if same_bytes(w, &[112u8, 114, 105, 110, 116] /* "print" */) {
            TokenType::Print
        } else if same_bytes(w, &[114u8, 101, 116, 117, 114, 110] /* "return" */) {
            TokenType::Return
        } else if same_bytes(w, &[115u8, 117, 112, 101, 114] /* "super" */) {
            TokenType::Super
        } else if same_bytes(w, &[116u8, 104, 105, 115] /* "this" */) {
            TokenType::This
        } else if same_bytes(w, &[116u8, 114, 117, 101] /* "true" */) {
            TokenType::True
        } else if same_bytes(w, &[118u8, 97, 114] /* "var" */) {
            TokenType::Var
        } else if same_bytes(w, &[119u8, 104, 105, 108, 101] /* "while" */) {
            TokenType::While
        } else {
            TokenType::Identifier
        }
    }
}

} // verus!
