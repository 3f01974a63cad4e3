use vstd::prelude::*;

use crate::chunk::{opcode_byte, ChunkView, OpCode};
use crate::compiler::{
    infix_rule, prefix_rule, rank, rule_precedence, tighter, ParseFn, Precedence, SpecDiagnostic,
    SpecLocation,
};
use crate::scanner::{lemma_next_token_progress, line_at, next_token};
use crate::token::{text, SpecToken, TokenType};
use crate::value::SpecValue;

verus! {

/// The model of the compiler: the scanner's source and position, the parser's
/// two tokens and flags, the chunk being written, and the reports so far.
#[verifier::ext_equal]
pub struct CompileState {
    pub src: Seq<u8>,
    pub pos: int,
    pub previous: Option<SpecToken>,
    pub current: Option<SpecToken>,
    pub panic_mode: bool,
    pub had_error: bool,
    pub chunk: ChunkView,
    pub diagnostics: Seq<SpecDiagnostic>,
}

/// The token that the scanner reads from `pos` on.
pub open spec fn token_at(src: Seq<u8>, pos: int) -> SpecToken {
    let lx = next_token(src, pos);
    SpecToken { kind: lx.kind, lexeme: lx.lexeme, line: line_at(src, lx.end) as usize }
}

/// The report for an error at `tok`.
pub open spec fn diagnostic_for(tok: SpecToken, message: Seq<u8>) -> SpecDiagnostic {
    SpecDiagnostic {
        line: tok.line,
        location: if tok.kind == TokenType::Eof {
            SpecLocation::AtEnd
        } else if tok.kind != TokenType::Error {
            SpecLocation::AtLexeme(tok.lexeme)
        } else {
            SpecLocation::Unstated
        },
        message,
    }
}

/// Reporting an error: only the first error of a compilation is reported;
/// it sets both flags.
pub open spec fn report(st: CompileState, tok: SpecToken, message: Seq<u8>) -> CompileState {
    if st.panic_mode {
        st
    } else {
        CompileState {
            panic_mode: true,
            had_error: true,
            diagnostics: st.diagnostics.push(diagnostic_for(tok, message)),
            ..st
        }
    }
}

pub open spec fn report_at_current(st: CompileState, message: Seq<u8>) -> CompileState {
    match st.current {
        Some(t) => report(st, t, message),
        None => st,
    }
}

pub open spec fn report_at_previous(st: CompileState, message: Seq<u8>) -> CompileState {
    match st.previous {
        Some(t) => report(st, t, message),
        None => st,
    }
}

/// Reads tokens, reporting each error token, up to the first token that is
/// not an error; that token becomes the current one.
pub open spec fn scan_past_errors(st: CompileState) -> CompileState
    decreases st.src.len() - st.pos,
{
    if st.pos < 0 || st.pos > st.src.len() {
        st
    } else {
        let tok = token_at(st.src, st.pos);
        let moved = CompileState { pos: next_token(st.src, st.pos).end, ..st };
        if tok.kind == TokenType::Error {
            proof {
                lemma_next_token_progress(st.src, st.pos);
            }
            scan_past_errors(report(moved, tok, tok.lexeme))
        } else {
            CompileState { current: Some(tok), ..moved }
        }
    }
}

/// The parser steps forward: the current token becomes the previous one,
/// and the next token that is not an error becomes the current one.
pub open spec fn advance(st: CompileState) -> CompileState {
    scan_past_errors(CompileState { previous: st.current, current: None, ..st })
}

/// The line that emitted code is attributed to: the previous token's.
pub open spec fn emit_line(st: CompileState) -> usize {
    match st.previous {
        Some(t) => t.line,
        None => 1,
    }
}

pub open spec fn emit(st: CompileState, byte: u8) -> CompileState {
    CompileState {
        chunk: ChunkView {
            code: st.chunk.code.push(byte),
            lines: st.chunk.lines.push(emit_line(st)),
            constants: st.chunk.constants,
        },
        ..st
    }
}

pub open spec fn emit_op(st: CompileState, op: OpCode) -> CompileState {
    emit(st, opcode_byte(op))
}

/// Steps past the current token where it has the expected kind, and reports
/// `message` at it otherwise.
pub open spec fn consume(st: CompileState, kind: TokenType, message: Seq<u8>) -> CompileState {
    if st.current matches Some(t) && t.kind == kind {
        advance(st)
    } else {
        report_at_current(st, message)
    }
}

/// What the parser may still read: the bytes left, and one more while the
/// current token is not `Eof`.
pub open spec fn measure(st: CompileState) -> int {
    (st.src.len() - st.pos) + if st.current matches Some(t) && t.kind != TokenType::Eof {
        1int
    } else {
        0int
    }
}

/// The state from which parse functions run: a current token is at hand,
/// the scanner lies within its source, and `Eof` is current only at its end.
pub open spec fn ready(st: CompileState) -> bool {
    &&& 0 <= st.pos <= st.src.len() < usize::MAX
    &&& st.current is Some
    &&& st.current.unwrap().kind == TokenType::Eof ==> st.pos == st.src.len()
}

/// The flags and the reports agree: either no error was reported and both
/// flags are clear, or exactly one report was made and both are set.
pub open spec fn reports_ok(st: CompileState) -> bool {
    &&& st.panic_mode == st.had_error
    &&& st.diagnostics.len() == if st.had_error {
        1nat
    } else {
        0nat
    }
}

pub proof fn lemma_scan_past_errors(st: CompileState)
    requires
        0 <= st.pos <= st.src.len() < usize::MAX,
    ensures
        ready(scan_past_errors(st)),
        scan_past_errors(st).src == st.src,
        scan_past_errors(st).previous == st.previous,
        scan_past_errors(st).chunk == st.chunk,
        st.pos <= scan_past_errors(st).pos,
        scan_past_errors(st).current.unwrap().kind != TokenType::Error,
        scan_past_errors(st).current.unwrap().kind != TokenType::Eof ==> st.pos
            < scan_past_errors(st).pos,
        st.had_error ==> scan_past_errors(st).had_error,
        reports_ok(st) ==> reports_ok(scan_past_errors(st)),
        st.panic_mode ==> scan_past_errors(st).panic_mode && scan_past_errors(st).diagnostics
            == st.diagnostics,
    decreases st.src.len() - st.pos,
{
    lemma_next_token_progress(st.src, st.pos);
    let tok = token_at(st.src, st.pos);
    let moved = CompileState { pos: next_token(st.src, st.pos).end, ..st };
    if tok.kind == TokenType::Error {
        lemma_scan_past_errors(report(moved, tok, tok.lexeme));
    }
}

/// Advancing keeps the parser ready and never increases the measure; it
/// decreases it unless the current token is `Eof`.
pub proof fn lemma_advance(st: CompileState)
    requires
        0 <= st.pos <= st.src.len() < usize::MAX,
    ensures
        ready(advance(st)),
        advance(st).src == st.src,
        advance(st).previous == st.current,
        advance(st).chunk == st.chunk,
        advance(st).current.unwrap().kind != TokenType::Error,
        ready(st) ==> measure(advance(st)) <= measure(st),
        ready(st) && current_kind(st) != TokenType::Eof ==> measure(advance(st)) < measure(st),
        st.had_error ==> advance(st).had_error,
        reports_ok(st) ==> reports_ok(advance(st)),
        st.panic_mode ==> advance(st).panic_mode && advance(st).diagnostics == st.diagnostics,
{
    let cleared = CompileState { previous: st.current, current: None, ..st };
    lemma_scan_past_errors(cleared);
    lemma_next_token_progress(st.src, st.pos);
}

/// The kind of the previous token.
pub open spec fn previous_kind(st: CompileState) -> TokenType {
    st.previous.unwrap().kind
}

/// The kind of the current token.
pub open spec fn current_kind(st: CompileState) -> TokenType {
    st.current.unwrap().kind
}

/// Parses an expression whose operators bind at least as tightly as `p`:
/// a prefix expression, then infix operators while they bind tightly enough.
pub open spec fn parse_precedence(st: CompileState, p: Precedence) -> CompileState
    decreases measure(st), 0int,
{
    if !ready(st) {
        st
    } else {
        let a = advance(st);
        match prefix_rule(previous_kind(a)) {
            None => report_at_current(a, text("Expect expression.")),
            Some(f) => {
                proof {
                    lemma_advance(st);
                }
                infix_loop(apply_rule(a, f), p, measure(a))
            },
        }
    }
}

/// The infix part of `parse_precedence`: while the current token binds at
/// least as tightly as `p`, step onto it and parse its right operand.
/// `bound` caps the measure of the states it runs from.
pub open spec fn infix_loop(st: CompileState, p: Precedence, bound: int) -> CompileState
    decreases bound, 4int,
{
    if !ready(st) || measure(st) > bound || rank(p) < 1 {
        st
    } else if rank(p) <= rank(rule_precedence(current_kind(st))) {
        let a = advance(st);
        proof {
            lemma_advance(st);
        }
        match infix_rule(previous_kind(a)) {
            None => a,
            Some(f) => infix_loop(apply_rule(a, f), p, measure(a)),
        }
    } else {
        st
    }
}

/// Runs a parse function.
pub open spec fn apply_rule(st: CompileState, f: ParseFn) -> CompileState
    decreases measure(st), 3int,
{
    match f {
        ParseFn::Grouping => grouping(st),
        ParseFn::Unary => unary(st),
        ParseFn::Binary => binary(st),
        ParseFn::Number => number(st),
        ParseFn::Literal => literal(st),
    }
}

/// An expression: the loosest precedence.
pub open spec fn expression(st: CompileState) -> CompileState
    decreases measure(st), 1int,
{
    parse_precedence(st, Precedence::Assignment)
}

/// A parenthesized expression, after its `(`.
pub open spec fn grouping(st: CompileState) -> CompileState
    decreases measure(st), 2int,
{
    consume(expression(st), TokenType::RightParen, text("Expect ')' after expression."))
}

/// A prefix `-` or `!` and its operand, which binds at `Unary`.
pub open spec fn unary(st: CompileState) -> CompileState
    decreases measure(st), 2int,
{
    let op = previous_kind(st);
    let a = parse_precedence(st, Precedence::Unary);
    if op == TokenType::Minus {
        emit_op(a, OpCode::Negate)
    } else if op == TokenType::Bang {
        emit_op(a, OpCode::Not)
    } else {
        a
    }
}

/// The code for a binary operator: one instruction, or two where the
/// operator is the negation of another.
pub open spec fn emit_binary(st: CompileState, op: TokenType) -> CompileState {
    match op {
        TokenType::Plus => emit_op(st, OpCode::Add),
        TokenType::Minus => emit_op(st, OpCode::Subtract),
        TokenType::Star => emit_op(st, OpCode::Multiple),
        TokenType::Slash => emit_op(st, OpCode::Divide),
        TokenType::BangEqual => emit_op(emit_op(st, OpCode::Equal), OpCode::Not),
        TokenType::Equals => emit_op(st, OpCode::Equal),
        TokenType::Greater => emit_op(st, OpCode::Greater),
        TokenType::GreaterEqual => emit_op(emit_op(st, OpCode::Less), OpCode::Not),
        TokenType::Less => emit_op(st, OpCode::Less),
        TokenType::LessEqual => emit_op(emit_op(st, OpCode::Greater), OpCode::Not),
        _ => st,
    }
}

/// A binary operator, after its left operand: the right operand binds one
/// level tighter than the operator, which makes the operators left-associative.
pub open spec fn binary(st: CompileState) -> CompileState
    decreases measure(st), 2int,
{
    let op = previous_kind(st);
    let a = parse_precedence(st, tighter(rule_precedence(op)));
    emit_binary(a, op)
}

/// A number literal: its text goes to the constant pool, and the code loads
/// it; where its index does not fit in one byte, that is an error.
pub open spec fn number(st: CompileState) -> CompileState {
    let n = st.chunk.constants.len();
    let added = CompileState {
        chunk: ChunkView {
            constants: st.chunk.constants.push(SpecValue::Number(st.previous.unwrap().lexeme)),
            ..st.chunk
        },
        ..st
    };
    if n < 256 {
        emit(emit_op(added, OpCode::Constant), n as u8)
    } else {
        report_at_previous(added, text("Too many constants in one chunk."))
    }
}

/// `true`, `false` or `nil`.
pub open spec fn literal(st: CompileState) -> CompileState {
    match previous_kind(st) {
        TokenType::True => emit_op(st, OpCode::True),
        TokenType::False => emit_op(st, OpCode::False),
        TokenType::Nil => emit_op(st, OpCode::Nil),
        _ => st,
    }
}

/// The state in which compiling `source` begins: a scanner at its start, the
/// parser as it was left.
pub open spec fn start_state(st: CompileState, source: Seq<u8>) -> CompileState {
    CompileState { src: source, pos: 0, ..st }
}

/// Compiling `source`: one expression, then the end of the source, then a
/// `Return`.
pub open spec fn compile_model(st: CompileState, source: Seq<u8>) -> CompileState {
    let a = advance(start_state(st, source));
    let b = expression(a);
    let c = consume(b, TokenType::Eof, text("Expect end of expression."));
    emit_op(c, OpCode::Return)
}

/// Changing the cap of `infix_loop` changes nothing while the cap bounds
/// the measure.
pub proof fn lemma_infix_loop_bound(st: CompileState, p: Precedence, b1: int, b2: int)
    requires
        measure(st) <= b1,
        measure(st) <= b2,
    ensures
        infix_loop(st, p, b1) == infix_loop(st, p, b2),
{
}

} // verus!
