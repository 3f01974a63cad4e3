use vstd::prelude::*;

use crate::chunk::{Chunk, ChunkView, OpCode, MAX_CONSTANTS};
use crate::parse_model::{
    CompileState, advance, apply_rule, binary, compile_model, consume, current_kind,
    diagnostic_for, emit, emit_op, expression, grouping, infix_loop, lemma_advance,
    lemma_infix_loop_bound, literal, measure, number, parse_precedence, previous_kind, ready,
    report, report_at_current, report_at_previous, reports_ok, scan_past_errors, unary,
};
use crate::compile_laws::{clean, lemma_compile_keeps, lined};
use crate::grammar::{grammar_compile_model, law_compile_follows_grammar};
use crate::scanner::{lemma_next_token_progress, Scanner};
use crate::token::{text, SpecToken, Token, TokenType};
use crate::value::{SpecValue, Value};
use crate::vm::InterpretError;

verus! {

/// How tightly an operator binds, from loosest to tightest.
#[derive(Debug, Clone, Copy, PartialEq, Eq, Structural, PartialOrd, Ord)]
pub enum Precedence {
    Lowest,
    Assignment,
    Or,
    And,
    Equality,
    Comparison,
    Term,
    Factor,
    Unary,
    Call,
    Primary,
}

/// The level of a precedence: `Lowest` is 0, `Primary` is 10.
pub open spec fn rank(p: Precedence) -> int {
    match p {
        Precedence::Lowest => 0,
        Precedence::Assignment => 1,
        Precedence::Or => 2,
        Precedence::And => 3,
        Precedence::Equality => 4,
        Precedence::Comparison => 5,
        Precedence::Term => 6,
        Precedence::Factor => 7,
        Precedence::Unary => 8,
        Precedence::Call => 9,
        Precedence::Primary => 10,
    }
}

/// The precedence one level tighter than `p` (`Primary` for `Primary`).
pub open spec fn tighter(p: Precedence) -> Precedence {
    match p {
        Precedence::Lowest => Precedence::Assignment,
        Precedence::Assignment => Precedence::Or,
        Precedence::Or => Precedence::And,
        Precedence::And => Precedence::Equality,
        Precedence::Equality => Precedence::Comparison,
        Precedence::Comparison => Precedence::Term,
        Precedence::Term => Precedence::Factor,
        Precedence::Factor => Precedence::Unary,
        Precedence::Unary => Precedence::Call,
        Precedence::Call => Precedence::Primary,
        Precedence::Primary => Precedence::Primary,
    }
}

/// The precedence one level looser than `p` (`Lowest` for `Lowest`).
pub open spec fn looser(p: Precedence) -> Precedence {
    match p {
        Precedence::Lowest => Precedence::Lowest,
        Precedence::Assignment => Precedence::Lowest,
        Precedence::Or => Precedence::Assignment,
        Precedence::And => Precedence::Or,
        Precedence::Equality => Precedence::And,
        Precedence::Comparison => Precedence::Equality,
        Precedence::Term => Precedence::Comparison,
        Precedence::Factor => Precedence::Term,
        Precedence::Unary => Precedence::Factor,
        Precedence::Call => Precedence::Unary,
        Precedence::Primary => Precedence::Call,
    }
}

/// Stepping one level tighter and then one level looser comes back to where
/// it began, and so does the other order, wherever both steps are defined.
pub proof fn law_precedence_steps(p: Precedence)
    ensures
        p != Precedence::Primary ==> looser(tighter(p)) == p,
        p != Precedence::Lowest ==> tighter(looser(p)) == p,
        p != Precedence::Primary ==> rank(tighter(p)) == rank(p) + 1,
        p != Precedence::Lowest ==> rank(looser(p)) == rank(p) - 1,
{
}

/// The precedence of level `v`, for `v` from 0 to 10 (`Primary` above).
pub open spec fn precedence_at(v: int) -> Precedence {
    if v <= 0 {
        Precedence::Lowest
    } else if v == 1 {
        Precedence::Assignment
    } else if v == 2 {
        Precedence::Or
    } else if v == 3 {
        Precedence::And
    } else if v == 4 {
        Precedence::Equality
    } else if v == 5 {
        Precedence::Comparison
    } else if v == 6 {
        Precedence::Term
    } else if v == 7 {
        Precedence::Factor
    } else if v == 8 {
        Precedence::Unary
    } else if v == 9 {
        Precedence::Call
    } else {
        Precedence::Primary
    }
}

/// Converting between precedences and levels round-trips: the precedence of
/// a level from 1 to 10 has that level, and every precedence but `Lowest` is
/// the precedence of its own level (what `Precedence::from` and
/// `Precedence::level` compute).
pub proof fn law_level_round_trip(p: Precedence, v: int)
    ensures
        1 <= v <= 10 ==> rank(precedence_at(v)) == v,
        p != Precedence::Lowest ==> precedence_at(rank(p)) == p,
        1 <= rank(p) <= 10 <==> p != Precedence::Lowest,
{
}

impl Precedence {
    /// The level of the precedence.
    pub fn level(self) -> (n: usize)
        ensures
            n == rank(self),
    {
        match self {
            Precedence::Lowest => 0,
            Precedence::Assignment => 1,
            Precedence::Or => 2,
            Precedence::And => 3,
            Precedence::Equality => 4,
            Precedence::Comparison => 5,
            Precedence::Term => 6,
            Precedence::Factor => 7,
            Precedence::Unary => 8,
            Precedence::Call => 9,
            Precedence::Primary => 10,
        }
    }

    /// The precedence of level `value`, for the levels from 1 to 10 (level 0,
    /// `Lowest`, and levels above 10 are not converted).
    pub fn from(value: usize) -> (p: Precedence)
        requires
            1 <= value <= 10,
        ensures
            rank(p) == value,
            p == precedence_at(value as int),
    {
        match value {
            1 => Precedence::Assignment,
            2 => Precedence::Or,
            3 => Precedence::And,
            4 => Precedence::Equality,
            5 => Precedence::Comparison,
            6 => Precedence::Term,
            7 => Precedence::Factor,
            8 => Precedence::Unary,
            9 => Precedence::Call,
            _ => Precedence::Primary,
        }
    }

    /// The precedence one level tighter.
    pub fn next(self) -> (p: Precedence)
        requires
            self != Precedence::Primary,
        ensures
            rank(p) == rank(self) + 1,
            p == tighter(self),
    {
        Precedence::from(self.level() + 1)
    }

    /// The precedence one level looser; `Assignment` has none below it that
    /// `from` names.
    pub fn previous(self) -> (p: Precedence)
        requires
            self != Precedence::Lowest,
            self != Precedence::Assignment,
        ensures
            rank(p) == rank(self) - 1,
            p == looser(self),
    {
        Precedence::from(self.level() - 1)
    }
}

/// A parse function of the Pratt parser.
#[derive(Debug, Clone, Copy, PartialEq, Eq, Structural)]
pub enum ParseFn {
    Grouping,
    Unary,
    Binary,
    Number,
    Literal,
}

/// What the parser does with a token: as the start of an expression
/// (`prefix`), after a left operand (`infix`), and how tightly it binds.
#[derive(Debug, Clone, Copy)]
pub struct ParseRule {
    pub prefix: Option<ParseFn>,
    pub infix: Option<ParseFn>,
    pub precedence: Precedence,
}

/// The parse function for a token that starts an expression.
pub open spec fn prefix_rule(t: TokenType) -> Option<ParseFn> {
    match t {
        TokenType::LeftParen => Some(ParseFn::Grouping),
        TokenType::Minus | TokenType::Bang => Some(ParseFn::Unary),
        TokenType::Number => Some(ParseFn::Number),
        TokenType::False | TokenType::True | TokenType::Nil => Some(ParseFn::Literal),
        _ => None,
    }
}

/// Whether a token is a binary operator.
pub open spec fn is_binary_operator(t: TokenType) -> bool {
    match t {
        TokenType::Minus | TokenType::Plus | TokenType::Slash | TokenType::Star
        | TokenType::BangEqual | TokenType::Equals | TokenType::Greater
        | TokenType::GreaterEqual | TokenType::Less | TokenType::LessEqual => true,
        _ => false,
    }
}

/// The parse function for a token that follows a left operand.
pub open spec fn infix_rule(t: TokenType) -> Option<ParseFn> {
    if is_binary_operator(t) {
        Some(ParseFn::Binary)
    } else {
        None
    }
}

/// How tightly a token binds as an infix operator.
pub open spec fn rule_precedence(t: TokenType) -> Precedence {
    match t {
        TokenType::Minus | TokenType::Plus => Precedence::Term,
        TokenType::Slash | TokenType::Star => Precedence::Factor,
        TokenType::BangEqual | TokenType::Equals => Precedence::Equality,
        TokenType::Greater | TokenType::GreaterEqual | TokenType::Less
        | TokenType::LessEqual => Precedence::Comparison,
        _ => Precedence::Lowest,
    }
}

/// Where an error was found, as the report names it.
#[derive(Debug)]
pub enum Location {
    /// At the end of the source.
    AtEnd,
    /// At the token with this lexeme.
    AtLexeme(Vec<u8>),
    /// Not named (the scanner's own errors).
    Unstated,
}

/// The model of a location.
pub enum SpecLocation {
    AtEnd,
    AtLexeme(Seq<u8>),
    Unstated,
}

/// A compile error report: `[line L] Error<location>: <message>`.
#[derive(Debug)]
pub struct Diagnostic {
    pub line: usize,
    pub location: Location,
    pub message: Vec<u8>,
}

/// The model of a report.
pub struct SpecDiagnostic {
    pub line: usize,
    pub location: SpecLocation,
    pub message: Seq<u8>,
}

impl View for Location {
    type V = SpecLocation;

    open spec fn view(&self) -> SpecLocation {
        match self {
            Location::AtEnd => SpecLocation::AtEnd,
            Location::AtLexeme(l) => SpecLocation::AtLexeme(l@),
            Location::Unstated => SpecLocation::Unstated,
        }
    }
}

impl View for Diagnostic {
    type V = SpecDiagnostic;

    open spec fn view(&self) -> SpecDiagnostic {
        SpecDiagnostic { line: self.line, location: self.location@, message: self.message@ }
    }
}

/// The model of an optional token.
pub open spec fn token_opt_view(t: Option<Token>) -> Option<SpecToken> {
    match t {
        Some(t) => Some(t@),
        None => None,
    }
}

/// The parser's state: the token just read, the one about to be read, and
/// whether an error has been reported (`panic_mode` keeps later errors of
/// the same compilation from being reported).
#[derive(Debug)]
pub struct Parser {
    previous: Option<Token>,
    current: Option<Token>,
    panic_mode: bool,
    had_error: bool,
}

/// A single-pass compiler from Lox source text to a chunk of bytecode.
#[derive(Debug)]
pub struct Compiler {
    parser: Parser,
    scanner: Scanner,
    chunk: Chunk,
    diagnostics: Vec<Diagnostic>,
}

impl View for Compiler {
    type V = CompileState;

    closed spec fn view(&self) -> CompileState {
        CompileState {
            src: self.scanner.src(),
            pos: self.scanner.pos(),
            previous: token_opt_view(self.parser.previous),
            current: token_opt_view(self.parser.current),
            panic_mode: self.parser.panic_mode,
            had_error: self.parser.had_error,
            chunk: self.chunk@,
            diagnostics: self.diagnostics@.map_values(|d: Diagnostic| d@),
        }
    }
}

impl Compiler {
    /// The compiler's scanner is in a consistent state.
    pub closed spec fn wf(&self) -> bool {
        self.scanner.wf()
    }

    proof fn lemma_wf(&self)
        requires
            self.wf(),
        ensures
            0 <= self@.pos <= self@.src.len() < usize::MAX,
    {
        self.scanner.lemma_wf();
    }

    /// A compiler with an empty chunk, no tokens read and no error.
    pub fn new() -> (c: Compiler)
        ensures
            c.wf(),
            c@.src == Seq::<u8>::empty(),
            c@.pos == 0,
            c@.previous is None,
            c@.current is None,
            !c@.panic_mode,
            !c@.had_error,
            c@.chunk.code == Seq::<u8>::empty(),
            c@.chunk.lines == Seq::<usize>::empty(),
            c@.chunk.constants == Seq::<SpecValue>::empty(),
            c@.diagnostics == Seq::<SpecDiagnostic>::empty(),
            clean(c@),
    {
        proof {
            reveal_strlit("");
            assert(text("") =~= Seq::<u8>::empty());
        }
        let c = Compiler {
            parser: Parser { previous: None, current: None, panic_mode: false, had_error: false },
            scanner: Scanner::new(""),
            chunk: Chunk::new(),
            diagnostics: Vec::new(),
        };
        assert(c@.diagnostics =~= Seq::<SpecDiagnostic>::empty());
        c
    }

    /// The chunk being written (after a failed compilation, what was written
    /// before the error was found and after it).
    pub fn chunk(&self) -> (c: &Chunk)
        ensures
            c@ == self@.chunk,
    {
        &self.chunk
    }

    /// The reports of the errors found so far.
    pub fn diagnostics(&self) -> (d: &[Diagnostic])
        ensures
            d@.map_values(|d: Diagnostic| d@) == self@.diagnostics,
    {
        self.diagnostics.as_slice()
    }

    /// Compiles `source`, which must be one expression, into a chunk that
    /// evaluates it and returns; or fails where an error was reported.
    pub fn compile(&mut self, source: &str) -> (r: Result<Chunk, InterpretError>)
        requires
            old(self).wf(),
            text(source).len() < usize::MAX,
        ensures
            final(self).wf(),
            ({
                let m = compile_model(old(self)@, text(source));
                &&& r is Err <==> m.had_error
                &&& r matches Err(e) ==> e == InterpretError::CompileError && final(self)@ == m
                &&& r matches Ok(c) ==> c@ == m.chunk && final(self)@ == CompileState {
                    chunk: ChunkView {
                        code: Seq::empty(),
                        lines: Seq::empty(),
                        constants: Seq::empty(),
                    },
                    ..m
                }
            }),
            reports_ok(old(self)@) && lined(old(self)@) ==> ({
                let g = grammar_compile_model(old(self)@, text(source));
                &&& r is Err <==> g.had_error
                &&& r matches Ok(c) ==> c@ == g.chunk
                &&& r is Err ==> final(self)@.diagnostics == g.diagnostics
                &&& reports_ok(final(self)@)
                &&& lined(final(self)@)
            }),
    {
        proof {
            if reports_ok(self@) && lined(self@) {
                law_compile_follows_grammar(self@, text(source));
                lemma_compile_keeps(self@, text(source));
            }
        }
        self.scanner = Scanner::new(source);
        proof {
            self.lemma_wf();
            lemma_advance(self@);
        }
        self.advance();
        self.expression();
        self.consume(TokenType::Eof, "Expect end of expression.");
        self.end_compiler();
        if self.parser.had_error {
            return Err(InterpretError::CompileError);
        }
        let mut out = Chunk::new();
        std::mem::swap(&mut out, &mut self.chunk);
        Ok(out)
    }

    fn previous_type(&self) -> (t: TokenType)
        requires
            self@.previous is Some,
        ensures
            t == previous_kind(self@),
    {
        match &self.parser.previous {
            Some(t) => t.token_type,
            None => TokenType::Eof,
        }
    }

    fn current_type(&self) -> (t: TokenType)
        requires
            self@.current is Some,
        ensures
            t == current_kind(self@),
    {
        match &self.parser.current {
            Some(t) => t.token_type,
            None => TokenType::Eof,
        }
    }

    fn expression(&mut self)
        requires
            old(self).wf(),
            ready(old(self)@),
        ensures
            final(self).wf(),
            ready(final(self)@),
            measure(final(self)@) <= measure(old(self)@),
            final(self)@ == expression(old(self)@),
        decreases measure(old(self)@), 1int,
    {
        self.parse_precedence(Precedence::Assignment);
    }

    fn apply_rule(&mut self, f: ParseFn)
        requires
            old(self).wf(),
            ready(old(self)@),
            old(self)@.previous is Some,
            f == ParseFn::Literal ==> previous_kind(old(self)@) == TokenType::True
                || previous_kind(old(self)@) == TokenType::False || previous_kind(old(self)@)
                == TokenType::Nil,
            f == ParseFn::Binary ==> is_binary_operator(previous_kind(old(self)@)),
        ensures
            final(self).wf(),
            ready(final(self)@),
            measure(final(self)@) <= measure(old(self)@),
            final(self)@ == apply_rule(old(self)@, f),
        decreases measure(old(self)@), 3int,
    {
        match f {
            ParseFn::Grouping => self.grouping(),
            ParseFn::Unary => self.unary(),
            ParseFn::Binary => self.binary(),
            ParseFn::Number => self.number(),
            ParseFn::Literal => self.literal(),
        }
    }

    fn binary(&mut self)
        requires
            old(self).wf(),
            ready(old(self)@),
            old(self)@.previous is Some,
            is_binary_operator(previous_kind(old(self)@)),
        ensures
            final(self).wf(),
            ready(final(self)@),
            measure(final(self)@) <= measure(old(self)@),
            final(self)@ == binary(old(self)@),
        decreases measure(old(self)@), 2int,
    {
        let operator_type = self.previous_type();
        let rule = Self::get_rule(&operator_type);
        self.parse_precedence(rule.precedence.next());
        match operator_type {
            TokenType::Plus => self.emit_byte(OpCode::Add.into()),
            TokenType::Minus => self.emit_byte(OpCode::Subtract.into()),
            TokenType::Star => self.emit_byte(OpCode::Multiple.into()),
            TokenType::Slash => self.emit_byte(OpCode::Divide.into()),
            TokenType::BangEqual => self.emit_bytes(OpCode::Equal.into(), OpCode::Not.into()),
            TokenType::Equals => self.emit_byte(OpCode::Equal.into()),
            TokenType::Greater => self.emit_byte(OpCode::Greater.into()),
            TokenType::GreaterEqual => self.emit_bytes(OpCode::Less.into(), OpCode::Not.into()),
            TokenType::Less => self.emit_byte(OpCode::Less.into()),
            TokenType::LessEqual => self.emit_bytes(OpCode::Greater.into(), OpCode::Not.into()),
            _ => {},
        }
    }

    fn grouping(&mut self)
        requires
            old(self).wf(),
            ready(old(self)@),
        ensures
            final(self).wf(),
            ready(final(self)@),
            measure(final(self)@) <= measure(old(self)@),
            final(self)@ == grouping(old(self)@),
        decreases measure(old(self)@), 2int,
    {
        self.expression();
        self.consume(TokenType::RightParen, "Expect ')' after expression.");
    }

    fn unary(&mut self)
        requires
            old(self).wf(),
            ready(old(self)@),
            old(self)@.previous is Some,
        ensures
            final(self).wf(),
            ready(final(self)@),
            measure(final(self)@) <= measure(old(self)@),
            final(self)@ == unary(old(self)@),
        decreases measure(old(self)@), 2int,
    {
        let operator_type = self.previous_type();
        self.parse_precedence(Precedence::Unary);
        match operator_type {
            TokenType::Minus => self.emit_byte(OpCode::Negate.into()),
            TokenType::Bang => self.emit_byte(OpCode::Not.into()),
            _ => (),
        }
    }

    fn number(&mut self)
        requires
            old(self).wf(),
            ready(old(self)@),
            old(self)@.previous is Some,
        ensures
            final(self).wf(),
            ready(final(self)@),
            measure(final(self)@) <= measure(old(self)@),
            final(self)@ == number(old(self)@),
    {
        let lexeme = match &self.parser.previous {
            Some(t) => vstd::slice::slice_to_vec(t.lexeme.as_slice()),
            None => Vec::new(),
        };
        let count = self.chunk.constants_len();
        let constant = self.chunk.add_constant(Value::Number(lexeme));
        if count < MAX_CONSTANTS {
            assert(constant == count as u8);
            self.emit_bytes(OpCode::Constant.into(), constant);
        } else {
            self.error_at_previous("Too many constants in one chunk.");
        }
    }

    fn literal(&mut self)
        requires
            old(self).wf(),
            ready(old(self)@),
            old(self)@.previous is Some,
            previous_kind(old(self)@) == TokenType::True || previous_kind(old(self)@)
                == TokenType::False || previous_kind(old(self)@) == TokenType::Nil,
        ensures
            final(self).wf(),
            ready(final(self)@),
            measure(final(self)@) <= measure(old(self)@),
            final(self)@ == literal(old(self)@),
    {
        match self.previous_type() {
            TokenType::True => self.emit_byte(OpCode::True.into()),
            TokenType::False => self.emit_byte(OpCode::False.into()),
            _ => self.emit_byte(OpCode::Nil.into()),
        }
    }

    fn parse_precedence(&mut self, precedence: Precedence)
        requires
            old(self).wf(),
            ready(old(self)@),
            rank(precedence) >= 1,
        ensures
            final(self).wf(),
            ready(final(self)@),
            measure(final(self)@) <= measure(old(self)@),
            final(self)@ == parse_precedence(old(self)@, precedence),
        decreases measure(old(self)@), 0int,
    {
        let ghost st0 = self@;
        proof {
            self.lemma_wf();
            lemma_advance(st0);
        }
        self.advance();
        let ghost a = self@;
        let prefix_rule = Self::get_rule(&self.previous_type()).prefix;
        match prefix_rule {
            Some(prefix) => self.apply_rule(prefix),
            None => {
                self.error_at_current("Expect expression.");
                return;
            },
        }
        proof {
            lemma_infix_loop_bound(self@, precedence, measure(a), measure(self@));
        }
        while precedence.level() <= Self::get_rule(&self.current_type()).precedence.level()
            invariant
                self.wf(),
                ready(self@),
                rank(precedence) >= 1,
                st0 == old(self)@,
                measure(self@) < measure(st0),
                infix_loop(self@, precedence, measure(self@)) == parse_precedence(st0, precedence),
            decreases measure(self@),
        {
            let ghost b = self@;
            proof {
                self.lemma_wf();
                lemma_advance(b);
            }
            self.advance();
            let ghost c = self@;
            let infix_rule = Self::get_rule(&self.previous_type()).infix;
            match infix_rule {
                Some(infix) => self.apply_rule(infix),
                None => return,
            }
            proof {
                lemma_infix_loop_bound(self@, precedence, measure(c), measure(self@));
            }
        }
    }

    /// The parse rule of a token kind.
    fn get_rule(token_type: &TokenType) -> (r: ParseRule)
        ensures
            r.prefix == prefix_rule(*token_type),
            r.infix == infix_rule(*token_type),
            r.precedence == rule_precedence(*token_type),
    {
        match token_type {
            TokenType::LeftParen => ParseRule {
                prefix: Some(ParseFn::Grouping),
                infix: None,
                precedence: Precedence::Lowest,
            },
            TokenType::RightParen => ParseRule { prefix: None, infix: None, precedence: Precedence::Lowest },
            TokenType::LeftBrace => ParseRule { prefix: None, infix: None, precedence: Precedence::Lowest },
            TokenType::RightBrace => ParseRule { prefix: None, infix: None, precedence: Precedence::Lowest },
            TokenType::Comma => ParseRule { prefix: None, infix: None, precedence: Precedence::Lowest },
            TokenType::Dot => ParseRule { prefix: None, infix: None, precedence: Precedence::Lowest },
            TokenType::Minus => ParseRule {
                prefix: Some(ParseFn::Unary),
                infix: Some(ParseFn::Binary),
                precedence: Precedence::Term,
            },
            TokenType::Plus => ParseRule {
                prefix: None,
                infix: Some(ParseFn::Binary),
                precedence: Precedence::Term,
            },
            TokenType::Semicolon => ParseRule { prefix: None, infix: None, precedence: Precedence::Lowest },
            TokenType::Slash => ParseRule {
                prefix: None,
                infix: Some(ParseFn::Binary),
                precedence: Precedence::Factor,
            },
            TokenType::Star => ParseRule {
                prefix: None,
                infix: Some(ParseFn::Binary),
                precedence: Precedence::Factor,
            },
            TokenType::Bang => ParseRule {
                prefix: Some(ParseFn::Unary),
                infix: None,
                precedence: Precedence::Lowest,
            },
            TokenType::BangEqual => ParseRule {
                prefix: None,
                infix: Some(ParseFn::Binary),
                precedence: Precedence::Equality,
            },
            TokenType::Assign => ParseRule { prefix: None, infix: None, precedence: Precedence::Lowest },
            TokenType::Equals => ParseRule {
                prefix: None,
                infix: Some(ParseFn::Binary),
                precedence: Precedence::Equality,
            },
            TokenType::Greater => ParseRule {
                prefix: None,
                infix: Some(ParseFn::Binary),
                precedence: Precedence::Comparison,
            },
            TokenType::GreaterEqual => ParseRule {
                prefix: None,
                infix: Some(ParseFn::Binary),
                precedence: Precedence::Comparison,
            },
            TokenType::Less => ParseRule {
                prefix: None,
                infix: Some(ParseFn::Binary),
                precedence: Precedence::Comparison,
            },
            TokenType::LessEqual => ParseRule {
                prefix: None,
                infix: Some(ParseFn::Binary),
                precedence: Precedence::Comparison,
            },
            TokenType::Identifier => ParseRule { prefix: None, infix: None, precedence: Precedence::Lowest },
            TokenType::String => ParseRule { prefix: None, infix: None, precedence: Precedence::Lowest },
            TokenType::Number => ParseRule {
                prefix: Some(ParseFn::Number),
                infix: None,
                precedence: Precedence::Lowest,
            },
            TokenType::And => ParseRule { prefix: None, infix: None, precedence: Precedence::Lowest },
            TokenType::Class => ParseRule { prefix: None, infix: None, precedence: Precedence::Lowest },
            TokenType::Else => ParseRule { prefix: None, infix: None, precedence: Precedence::Lowest },
            TokenType::False => ParseRule {
                prefix: Some(ParseFn::Literal),
                infix: None,
                precedence: Precedence::Lowest,
            },
            TokenType::For => ParseRule { prefix: None, infix: None, precedence: Precedence::Lowest },
            TokenType::Fun => ParseRule { prefix: None, infix: None, precedence: Precedence::Lowest },
            TokenType::If => ParseRule { prefix: None, infix: None, precedence: Precedence::Lowest },
            TokenType::Nil => ParseRule {
                prefix: Some(ParseFn::Literal),
                infix: None,
                precedence: Precedence::Lowest,
            },
            TokenType::Or => ParseRule { prefix: None, infix: None, precedence: Precedence::Lowest },
            TokenType::Print => ParseRule { prefix: None, infix: None, precedence: Precedence::Lowest },
            TokenType::Return => ParseRule { prefix: None, infix: None, precedence: Precedence::Lowest },
            TokenType::Super => ParseRule { prefix: None, infix: None, precedence: Precedence::Lowest },
            TokenType::This => ParseRule { prefix: None, infix: None, precedence: Precedence::Lowest },
            TokenType::True => ParseRule {
                prefix: Some(ParseFn::Literal),
                infix: None,
                precedence: Precedence::Lowest,
            },
            TokenType::Var => ParseRule { prefix: None, infix: None, precedence: Precedence::Lowest },
            TokenType::While => ParseRule { prefix: None, infix: None, precedence: Precedence::Lowest },
            TokenType::Error => ParseRule { prefix: None, infix: None, precedence: Precedence::Lowest },
            TokenType::Eof => ParseRule { prefix: None, infix: None, precedence: Precedence::Lowest },
        }
    }

    fn error_at_previous(&mut self, message: &str)
        requires
            old(self).wf(),
        ensures
            final(self).wf(),
            final(self)@ == report_at_previous(old(self)@, text(message)),
    {
        if let Some(token) = self.parser.previous.take() {
            self.error_at(&token, message.as_bytes());
            self.parser.previous = Some(token);
        }
    }

    fn advance(&mut self)
        requires
            old(self).wf(),
        ensures
            final(self).wf(),
            final(self)@ == advance(old(self)@),
    {
        self.parser.previous = self.parser.current.take();
        loop
            invariant_except_break
                self.parser.current is None,
                scan_past_errors(self@) == advance(old(self)@),
            invariant
                self.wf(),
            ensures
                self.wf(),
                self@ == advance(old(self)@),
            decreases self@.src.len() - self@.pos,
        {
            proof {
                self.lemma_wf();
                lemma_next_token_progress(self@.src, self@.pos);
            }
            let token = self.scanner.scan_token();
            if token.token_type == TokenType::Error {
                self.error_at(&token, token.lexeme.as_slice());
                continue;
            }
            self.parser.current = Some(token);
            break;
        }
    }

    fn consume(&mut self, token_type: TokenType, message: &str)
        requires
            old(self).wf(),
            ready(old(self)@),
        ensures
            final(self).wf(),
            ready(final(self)@),
            measure(final(self)@) <= measure(old(self)@),
            final(self)@ == consume(old(self)@, token_type, text(message)),
    {
        proof {
            self.lemma_wf();
            lemma_advance(self@);
        }
        if self.current_type() == token_type {
            self.advance();
            return;
        }
        self.error_at_current(message);
    }

    fn emit_byte(&mut self, byte: u8)
        ensures
            final(self).wf() == old(self).wf(),
            final(self)@ == emit(old(self)@, byte),
    {
        let line = match &self.parser.previous {
            Some(p) => p.line,
            None => 1,
        };
        self.chunk.write(byte, line);
    }

    fn emit_bytes(&mut self, a: u8, b: u8)
        ensures
            final(self).wf() == old(self).wf(),
            final(self)@ == emit(emit(old(self)@, a), b),
    {
        self.emit_byte(a);
        self.emit_byte(b);
    }

    fn end_compiler(&mut self)
        ensures
            final(self).wf() == old(self).wf(),
            final(self)@ == emit_op(old(self)@, OpCode::Return),
    {
        self.emit_return();
    }

    fn emit_return(&mut self)
        ensures
            final(self).wf() == old(self).wf(),
            final(self)@ == emit_op(old(self)@, OpCode::Return),
    {
        self.emit_byte(OpCode::Return.into());
    }

    fn error_at_current(&mut self, message: &str)
        requires
            old(self).wf(),
        ensures
            final(self).wf(),
            final(self)@ == report_at_current(old(self)@, text(message)),
    {
        if let Some(token) = self.parser.current.take() {
            self.error_at(&token, message.as_bytes());
            self.parser.current = Some(token);
        }
    }

    fn error(&mut self, token: &Token, message: &[u8])
        requires
            old(self).wf(),
        ensures
            final(self).wf(),
            final(self)@ == report(old(self)@, token@, message@),
    {
        self.error_at(token, message);
    }

    /// Reports an error at `token`, unless one was reported already (panic
    /// mode), in which case nothing changes.
    pub fn error_at(&mut self, token: &Token, message: &[u8])
        requires
            old(self).wf(),
        ensures
            final(self).wf(),
            final(self)@ == report(old(self)@, token@, message@),
            old(self)@.panic_mode ==> final(self)@ == old(self)@,
            !old(self)@.panic_mode ==> final(self)@.panic_mode && final(self)@.had_error
                && final(self)@.diagnostics == old(self)@.diagnostics.push(
                diagnostic_for(token@, message@),
            ),
    {
        if self.parser.panic_mode {
            return;
        }
        self.parser.panic_mode = true;
        let location = if token.token_type == TokenType::Eof {
            Location::AtEnd
        } else if token.token_type != TokenType::Error {
            Location::AtLexeme(vstd::slice::slice_to_vec(token.lexeme.as_slice()))
        } else {
            Location::Unstated
        };
        let d = Diagnostic { line: token.line, location, message: vstd::slice::slice_to_vec(message) };
        let ghost dv = d@;
        self.diagnostics.push(d);
        self.parser.had_error = true;
        assert(self.diagnostics@.map_values(|d: Diagnostic| d@) =~= old(self).diagnostics@.map_values(
            |d: Diagnostic| d@,
        ).push(dv));
    }
}

} // verus!
