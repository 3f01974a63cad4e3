use vstd::prelude::*;

use crate::chunk::{decodes_from, instruction_len, opcode_of, ChunkView, OpCode};
use crate::compiler::{
    infix_rule, is_binary_operator, prefix_rule, rank, rule_precedence, tighter, ParseFn,
    Precedence, SpecDiagnostic,
};
use crate::parse_model::{
    CompileState, advance, apply_rule, binary, compile_model, consume, current_kind,
    diagnostic_for, emit_binary, emit_op, expression, grouping, infix_loop, lemma_advance, literal, measure,
    number, parse_precedence, previous_kind, ready, report, reports_ok, scan_past_errors,
    start_state, token_at, unary,
};
use crate::scanner::{lemma_next_token_progress, next_token};
use crate::token::{text, SpecToken, TokenType};
use crate::value::{falsy, SpecValue};
use crate::vm::{
    all_numbers, arithmetic_from, can_step, chunk_extends, lemma_segment_concat,
    lemma_segment_extend, lemma_segment_shift, numeric_pool,
    lemma_segment_then_return, runs_to_return, segment_runs, VmState, law_number_instruction,
    run_steps, step_model, drop_top, ArithOp, CompareOp, law_negate_instruction,
};

verus! {

/// Every byte of code has a line.
pub open spec fn lined(st: CompileState) -> bool {
    st.chunk.lines.len() >= st.chunk.code.len()
}

/// What every compiling function keeps from `st` to `r`: the source, the
/// chunk written so far, an error once found, agreement of flags and
/// reports, and a line for every byte.
pub open spec fn keeps(st: CompileState, r: CompileState) -> bool {
    &&& r.src == st.src
    &&& chunk_extends(st.chunk, r.chunk)
    &&& st.had_error ==> r.had_error
    &&& reports_ok(st) ==> reports_ok(r)
    &&& lined(st) ==> lined(r)
    &&& measure(r) <= measure(st)
    &&& st.panic_mode ==> r.panic_mode && r.diagnostics == st.diagnostics
    &&& exactly_lined(st) ==> exactly_lined(r)
    &&& numeric_constants(st) ==> numeric_constants(r)
}

/// The line table has one entry per byte of code.
pub open spec fn exactly_lined(st: CompileState) -> bool {
    st.chunk.lines.len() == st.chunk.code.len()
}

/// Every constant of the pool is a number.
pub open spec fn numeric_constants(st: CompileState) -> bool {
    forall|i: int| 0 <= i < st.chunk.constants.len() ==> (#[trigger] st.chunk.constants[i]) is Number
}

/// Where no error was found, the code written from `st` to `r` runs from
/// `d1` values on the stack to `d2`.
pub open spec fn emits(st: CompileState, r: CompileState, d1: int, d2: int) -> bool {
    !r.had_error ==> segment_runs(
        r.chunk,
        st.chunk.code.len() as int,
        r.chunk.code.len() as int,
        d1,
        d2,
    )
}

/// The assumptions of the compiling lemmas.
pub open spec fn sound_state(st: CompileState) -> bool {
    &&& ready(st)
    &&& reports_ok(st)
    &&& lined(st)
}

pub(crate) proof fn lemma_advance_keeps(st: CompileState)
    requires
        sound_state(st),
    ensures
        sound_state(advance(st)),
        keeps(st, advance(st)),
        advance(st).chunk == st.chunk,
{
    lemma_advance(st);
}

pub(crate) proof fn lemma_consume_keeps(st: CompileState, kind: TokenType, message: Seq<u8>)
    requires
        sound_state(st),
    ensures
        sound_state(consume(st, kind, message)),
        keeps(st, consume(st, kind, message)),
        consume(st, kind, message).chunk == st.chunk,
{
    lemma_advance(st);
}

/// One emitted instruction of no operand runs from `d` to `d + change`.
pub(crate) proof fn lemma_emit_one(st: CompileState, op: OpCode, d: int)
    requires
        sound_state(st),
        op != OpCode::Constant,
        op != OpCode::Return,
        d >= crate::vm::arity(op),
    ensures
        sound_state(emit_op(st, op)),
        keeps(st, emit_op(st, op)),
        segment_runs(
            emit_op(st, op).chunk,
            st.chunk.code.len() as int,
            emit_op(st, op).chunk.code.len() as int,
            d,
            d + crate::vm::stack_change(op),
        ),
{
    let r = emit_op(st, op);
    let n = st.chunk.code.len() as int;
    crate::chunk::lemma_opcode_round_trip(op, 0);
    assert(segment_runs(r.chunk, n + 1, n + 1, d + crate::vm::stack_change(op), d + crate::vm::stack_change(op)));
}

/// A parse from `st` to `r` that writes code running from `d1` to `d2`,
/// followed by one instruction.
pub(crate) proof fn lemma_then_emit(st: CompileState, a: CompileState, op: OpCode, d1: int, d2: int)
    requires
        sound_state(a),
        keeps(st, a),
        emits(st, a, d1, d2),
        op != OpCode::Constant,
        op != OpCode::Return,
        d2 >= crate::vm::arity(op),
    ensures
        sound_state(emit_op(a, op)),
        keeps(st, emit_op(a, op)),
        emits(st, emit_op(a, op), d1, d2 + crate::vm::stack_change(op)),
{
    let r = emit_op(a, op);
    lemma_emit_one(a, op, d2);
    if !r.had_error {
        lemma_segment_extend(a.chunk, r.chunk, st.chunk.code.len() as int, a.chunk.code.len() as int, d1, d2);
        lemma_segment_concat(
            r.chunk,
            st.chunk.code.len() as int,
            a.chunk.code.len() as int,
            r.chunk.code.len() as int,
            d1,
            d2,
            d2 + crate::vm::stack_change(op),
        );
    }
}

/// Two parses in a row: the code of both runs as one.
pub(crate) proof fn lemma_chain(st: CompileState, a: CompileState, r: CompileState, d1: int, d2: int, d3: int)
    requires
        keeps(st, a),
        keeps(a, r),
        emits(st, a, d1, d2),
        emits(a, r, d2, d3),
    ensures
        keeps(st, r),
        emits(st, r, d1, d3),
{
    if !r.had_error {
        lemma_segment_extend(a.chunk, r.chunk, st.chunk.code.len() as int, a.chunk.code.len() as int, d1, d2);
        lemma_segment_concat(
            r.chunk,
            st.chunk.code.len() as int,
            a.chunk.code.len() as int,
            r.chunk.code.len() as int,
            d1,
            d2,
            d3,
        );
    }
}

pub(crate) proof fn lemma_parse_precedence(st: CompileState, p: Precedence)
    requires
        sound_state(st),
    ensures
        sound_state(parse_precedence(st, p)),
        keeps(st, parse_precedence(st, p)),
        emits(st, parse_precedence(st, p), 0, 1),
    decreases measure(st), 0int,
{
    let a = advance(st);
    lemma_advance_keeps(st);
    lemma_advance(st);
    match prefix_rule(previous_kind(a)) {
        None => {},
        Some(f) => {
            let b = apply_rule(a, f);
            lemma_apply_rule(a, f);
            lemma_infix_loop(b, p, measure(a));
            lemma_chain(a, b, infix_loop(b, p, measure(a)), 0, 1, 1);
            lemma_chain(st, a, infix_loop(b, p, measure(a)), 0, 0, 1);
        },
    }
}

pub(crate) proof fn lemma_infix_loop(st: CompileState, p: Precedence, bound: int)
    requires
        sound_state(st),
    ensures
        sound_state(infix_loop(st, p, bound)),
        keeps(st, infix_loop(st, p, bound)),
        emits(st, infix_loop(st, p, bound), 1, 1),
    decreases bound, 4int,
{
    if !ready(st) || measure(st) > bound || rank(p) < 1 {
    } else if rank(p) <= rank(rule_precedence(current_kind(st))) {
        let a = advance(st);
        lemma_advance_keeps(st);
        lemma_advance(st);
        match infix_rule(previous_kind(a)) {
            None => {},
            Some(f) => {
                let b = apply_rule(a, f);
                lemma_apply_rule(a, f);
                lemma_infix_loop(b, p, measure(a));
                lemma_chain(a, b, infix_loop(b, p, measure(a)), 1, 1, 1);
                lemma_chain(st, a, infix_loop(b, p, measure(a)), 1, 1, 1);
            },
        }
    }
}

pub(crate) proof fn lemma_apply_rule(st: CompileState, f: ParseFn)
    requires
        sound_state(st),
        st.previous is Some,
        f == ParseFn::Literal ==> previous_kind(st) == TokenType::True || previous_kind(st)
            == TokenType::False || previous_kind(st) == TokenType::Nil,
        f == ParseFn::Binary ==> is_binary_operator(previous_kind(st)),
    ensures
        sound_state(apply_rule(st, f)),
        keeps(st, apply_rule(st, f)),
        emits(st, apply_rule(st, f), if f == ParseFn::Binary { 1 } else { 0 }, 1),
    decreases measure(st), 3int,
{
    match f {
        ParseFn::Grouping => lemma_grouping(st),
        ParseFn::Unary => lemma_unary(st),
        ParseFn::Binary => lemma_binary(st),
        ParseFn::Number => lemma_number(st),
        ParseFn::Literal => lemma_literal(st),
    }
}

pub(crate) proof fn lemma_expression(st: CompileState)
    requires
        sound_state(st),
    ensures
        sound_state(expression(st)),
        keeps(st, expression(st)),
        emits(st, expression(st), 0, 1),
    decreases measure(st), 1int,
{
    lemma_parse_precedence(st, Precedence::Assignment);
}

pub(crate) proof fn lemma_grouping(st: CompileState)
    requires
        sound_state(st),
    ensures
        sound_state(grouping(st)),
        keeps(st, grouping(st)),
        emits(st, grouping(st), 0, 1),
    decreases measure(st), 2int,
{
    let e = expression(st);
    lemma_expression(st);
    lemma_consume_keeps(e, TokenType::RightParen, text("Expect ')' after expression."));
}

pub(crate) proof fn lemma_unary(st: CompileState)
    requires
        sound_state(st),
    ensures
        sound_state(unary(st)),
        keeps(st, unary(st)),
        emits(st, unary(st), 0, 1),
    decreases measure(st), 2int,
{
    let op = previous_kind(st);
    let a = parse_precedence(st, Precedence::Unary);
    lemma_parse_precedence(st, Precedence::Unary);
    if op == TokenType::Minus {
        lemma_then_emit(st, a, OpCode::Negate, 0, 1);
    } else if op == TokenType::Bang {
        lemma_then_emit(st, a, OpCode::Not, 0, 1);
    }
}

pub(crate) proof fn lemma_binary(st: CompileState)
    requires
        sound_state(st),
        st.previous is Some,
        is_binary_operator(previous_kind(st)),
    ensures
        sound_state(binary(st)),
        keeps(st, binary(st)),
        emits(st, binary(st), 1, 1),
    decreases measure(st), 2int,
{
    let op = previous_kind(st);
    let a = parse_precedence(st, tighter(rule_precedence(op)));
    lemma_parse_precedence(st, tighter(rule_precedence(op)));
    if !a.had_error {
        lemma_segment_shift(a.chunk, st.chunk.code.len() as int, a.chunk.code.len() as int, 0, 1, 1);
    }
    match op {
        TokenType::Plus => lemma_then_emit(st, a, OpCode::Add, 1, 2),
        TokenType::Minus => lemma_then_emit(st, a, OpCode::Subtract, 1, 2),
        TokenType::Star => lemma_then_emit(st, a, OpCode::Multiple, 1, 2),
        TokenType::Slash => lemma_then_emit(st, a, OpCode::Divide, 1, 2),
        TokenType::BangEqual => {
            lemma_then_emit(st, a, OpCode::Equal, 1, 2);
            lemma_then_emit(st, emit_op(a, OpCode::Equal), OpCode::Not, 1, 1);
        },
        TokenType::Equals => lemma_then_emit(st, a, OpCode::Equal, 1, 2),
        TokenType::Greater => lemma_then_emit(st, a, OpCode::Greater, 1, 2),
        TokenType::GreaterEqual => {
            lemma_then_emit(st, a, OpCode::Less, 1, 2);
            lemma_then_emit(st, emit_op(a, OpCode::Less), OpCode::Not, 1, 1);
        },
        TokenType::Less => lemma_then_emit(st, a, OpCode::Less, 1, 2),
        TokenType::LessEqual => {
            lemma_then_emit(st, a, OpCode::Greater, 1, 2);
            lemma_then_emit(st, emit_op(a, OpCode::Greater), OpCode::Not, 1, 1);
        },
        _ => {},
    }
}

pub(crate) proof fn lemma_number(st: CompileState)
    requires
        sound_state(st),
        st.previous is Some,
    ensures
        sound_state(number(st)),
        keeps(st, number(st)),
        emits(st, number(st), 0, 1),
{
    let n = st.chunk.constants.len();
    let r = number(st);
    if n < 256 {
        let k = st.chunk.code.len() as int;
        assert(r.chunk.code[k] == 0);
        assert((n as u8) as int == n);
        assert(r.chunk.code[k + 1] == n as u8);
        assert(segment_runs(r.chunk, k + 2, k + 2, 1, 1));
        assert(segment_runs(r.chunk, k, k + 2, 0, 1));
    }
}

pub(crate) proof fn lemma_literal(st: CompileState)
    requires
        sound_state(st),
        st.previous is Some,
        previous_kind(st) == TokenType::True || previous_kind(st) == TokenType::False
            || previous_kind(st) == TokenType::Nil,
    ensures
        sound_state(literal(st)),
        keeps(st, literal(st)),
        emits(st, literal(st), 0, 1),
{
    match previous_kind(st) {
        TokenType::True => lemma_emit_one(st, OpCode::True, 0),
        TokenType::False => lemma_emit_one(st, OpCode::False, 0),
        _ => lemma_emit_one(st, OpCode::Nil, 0),
    }
}

/// A compiler state with no error and no report, whose chunk is empty.
pub open spec fn fresh(st: CompileState) -> bool {
    &&& !st.had_error
    &&& !st.panic_mode
    &&& st.diagnostics.len() == 0
    &&& st.chunk.code.len() == 0
    &&& st.chunk.lines.len() == 0
}

/// The compiler only writes code that the machine can run: where compiling
/// from a fresh state succeeds, the chunk, run from an empty stack, reaches
/// its `Return` with the expression's value on the stack and never lacks an
/// operand on the way; every constant operand names a constant of the pool.
///
/// More precisely, every byte has exactly one line; the code ends with its
/// only `Return`; the code before it
/// takes an empty stack to exactly one value, the value that `Return` gives
/// back; and the whole chunk decodes into instructions (what
/// `Chunk::disassemble` asks).
pub proof fn law_compiled_code_runs(st: CompileState, source: Seq<u8>)
    requires
        fresh(st),
        source.len() < usize::MAX,
    ensures
        !compile_model(st, source).had_error ==> ({
            let c = compile_model(st, source).chunk;
            &&& runs_to_return(c, 0, 0)
            &&& c.code.len() >= 1
            &&& c.code.last() == 1
            &&& segment_runs(c, 0, c.code.len() - 1, 0, 1)
            &&& decodes_from(c, 0)
            &&& c.lines.len() == c.code.len()
        }),
{
    let s0 = start_state(st, source);
    let a = advance(s0);
    lemma_advance(s0);
    let b = expression(a);
    lemma_expression(a);
    let c = consume(b, TokenType::Eof, text("Expect end of expression."));
    lemma_consume_keeps(b, TokenType::Eof, text("Expect end of expression."));
    let m = emit_op(c, OpCode::Return);
    if !m.had_error {
        let k = c.chunk.code.len() as int;
        assert(m.chunk.code[k] == 1);
        assert(runs_to_return(m.chunk, k, 1));
        lemma_segment_extend(c.chunk, m.chunk, 0, k, 0, 1);
        lemma_segment_then_return(m.chunk, 0, k, 0, 1);
        assert(decodes_from(m.chunk, k + 1));
        assert(decodes_from(m.chunk, k));
        lemma_segment_decodes(m.chunk, 0, k, 0, 1);
    }
}

/// The instructions of a segment that runs decode, up to where the rest of
/// the code decodes.
pub proof fn lemma_segment_decodes(c: ChunkView, a: int, b: int, d1: int, d2: int)
    requires
        segment_runs(c, a, b, d1, d2),
        decodes_from(c, b),
    ensures
        decodes_from(c, a),
    decreases b - a,
{
    if a < b {
        let x = c.code[a];
        lemma_segment_decodes(
            c,
            a + instruction_len(x),
            b,
            d1 + crate::vm::stack_change(opcode_of(x)),
            d2,
        );
    }
}

/// Reporting an error in panic mode changes nothing; otherwise it records
/// this one report, sets both flags, and leaves the rest as it was. Since
/// nothing in a compilation clears panic mode, a compilation reports at most
/// one error (see `law_one_report`).
pub proof fn law_report_once(st: CompileState, tok: SpecToken, message: Seq<u8>)
    ensures
        st.panic_mode ==> report(st, tok, message) == st,
        !st.panic_mode ==> report(st, tok, message) == (CompileState {
            panic_mode: true,
            had_error: true,
            diagnostics: st.diagnostics.push(diagnostic_for(tok, message)),
            ..st
        }),
{
}

/// A compiler state from which nothing of an earlier compilation can show:
/// no error, no report, and an empty chunk. A new compiler is clean, and so
/// is a compiler after a compilation that succeeded.
pub open spec fn clean(st: CompileState) -> bool {
    &&& fresh(st)
    &&& st.chunk.constants.len() == 0
}

/// What a successful compilation leaves in the compiler: its chunk is
/// handed out and an empty one takes its place.
pub open spec fn after_success(m: CompileState) -> CompileState {
    CompileState {
        chunk: ChunkView { code: Seq::empty(), lines: Seq::empty(), constants: Seq::empty() },
        ..m
    }
}

pub proof fn lemma_scan_keeps_previous(x: CompileState, p: Option<SpecToken>)
    ensures
        scan_past_errors((CompileState { previous: p, ..x })) == (CompileState {
            previous: p,
            ..scan_past_errors(x)
        }),
    decreases x.src.len() - x.pos,
{
    if 0 <= x.pos <= x.src.len() {
        let tok = token_at(x.src, x.pos);
        let moved = CompileState { pos: next_token(x.src, x.pos).end, ..x };
        if tok.kind == TokenType::Error {
            lemma_next_token_progress(x.src, x.pos);
            lemma_scan_keeps_previous(report(moved, tok, tok.lexeme), p);
            assert(report(CompileState { previous: p, ..moved }, tok, tok.lexeme) == CompileState {
                previous: p,
                ..report(moved, tok, tok.lexeme)
            });
        }
    }
}

/// The result of a compilation depends on the source alone, wherever the
/// compiler is clean: two clean compilers compile a source to the same
/// state, the same chunk and the same reports.
pub proof fn law_compile_ignores_leftovers(st1: CompileState, st2: CompileState, source: Seq<u8>)
    requires
        clean(st1),
        clean(st2),
        source.len() < usize::MAX,
    ensures
        compile_model(st1, source) == compile_model(st2, source),
{
    let s1 = start_state(st1, source);
    let s2 = start_state(st2, source);
    let x1 = CompileState { previous: s1.current, current: None, ..s1 };
    let x2 = CompileState { previous: s2.current, current: None, ..s2 };
    assert(x2 == CompileState { previous: s2.current, ..x1 });
    lemma_scan_keeps_previous(x1, s2.current);
    let a1 = advance(s1);
    let a2 = advance(s2);
    assert(a2 == CompileState { previous: s2.current, ..a1 });
    lemma_advance(s1);
    assert(advance(a1) == advance(a2));
    assert(expression(a1) == expression(a2));
}

/// A compiler reused after successful compilations compiles as a new one
/// does: it is clean again, and what it makes of any source is what a new
/// compiler makes of it.
pub proof fn law_reused_compiler(st: CompileState, first: Seq<u8>, next: Seq<u8>)
    requires
        clean(st),
        first.len() < usize::MAX,
        next.len() < usize::MAX,
        !compile_model(st, first).had_error,
    ensures
        clean(after_success(compile_model(st, first))),
        compile_model(after_success(compile_model(st, first)), next) == compile_model(st, next),
{
    law_one_report(st, first);
    let m = compile_model(st, first);
    assert(after_success(m).diagnostics =~= Seq::<SpecDiagnostic>::empty());
    lemma_one_report_flags(st, first);
    law_compile_ignores_leftovers(after_success(m), st, next);
}

/// A compilation keeps flags and reports in agreement, and a line for every
/// byte of code.
pub proof fn lemma_compile_keeps(st: CompileState, source: Seq<u8>)
    requires
        reports_ok(st),
        lined(st),
        source.len() < usize::MAX,
    ensures
        reports_ok(compile_model(st, source)),
        lined(compile_model(st, source)),
{
    let s0 = start_state(st, source);
    let a = advance(s0);
    lemma_advance(s0);
    let b = expression(a);
    lemma_expression(a);
    let c = consume(b, TokenType::Eof, text("Expect end of expression."));
    lemma_consume_keeps(b, TokenType::Eof, text("Expect end of expression."));
}

/// A compilation from a fresh state leaves flags and reports in agreement.
proof fn lemma_one_report_flags(st: CompileState, source: Seq<u8>)
    requires
        fresh(st),
        source.len() < usize::MAX,
    ensures
        reports_ok(compile_model(st, source)),
{
    let s0 = start_state(st, source);
    let a = advance(s0);
    lemma_advance(s0);
    let b = expression(a);
    lemma_expression(a);
    let c = consume(b, TokenType::Eof, text("Expect end of expression."));
    lemma_consume_keeps(b, TokenType::Eof, text("Expect end of expression."));
}

/// A compilation reports at most one error, and it fails exactly when it
/// reported one.
pub proof fn law_one_report(st: CompileState, source: Seq<u8>)
    requires
        fresh(st),
        source.len() < usize::MAX,
    ensures
        compile_model(st, source).diagnostics.len() <= 1,
        compile_model(st, source).had_error <==> compile_model(st, source).diagnostics.len() == 1,
{
    let s0 = start_state(st, source);
    let a = advance(s0);
    lemma_advance(s0);
    let b = expression(a);
    lemma_expression(a);
    let c = consume(b, TokenType::Eof, text("Expect end of expression."));
    lemma_consume_keeps(b, TokenType::Eof, text("Expect end of expression."));
}

/// The machine can run compiled code: from the first instruction and an
/// empty stack it can take a step, and the code from there runs to its
/// `Return` (each later step keeps it so, by `law_step_keeps_running`).
pub proof fn law_compiled_code_starts(st: CompileState, source: Seq<u8>)
    requires
        fresh(st),
        source.len() < usize::MAX,
        !compile_model(st, source).had_error,
    ensures
        can_step(compile_model(st, source).chunk, VmState { ip: 0, stack: Seq::empty() }),
        runs_to_return(compile_model(st, source).chunk, 0, 0),
{
    law_compiled_code_runs(st, source);
    crate::vm::law_step_keeps_running(
        compile_model(st, source).chunk,
        VmState { ip: 0, stack: Seq::empty() },
    );
}

/// Every constant that a compilation from a clean state puts in the pool is
/// a number (the text of a number literal).
pub proof fn law_compiled_constants_are_numbers(st: CompileState, source: Seq<u8>)
    requires
        clean(st),
        source.len() < usize::MAX,
    ensures
        numeric_pool(compile_model(st, source).chunk),
{
    let s0 = start_state(st, source);
    let a = advance(s0);
    lemma_advance(s0);
    let b = expression(a);
    lemma_expression(a);
    let c = consume(b, TokenType::Eof, text("Expect end of expression."));
    lemma_consume_keeps(b, TokenType::Eof, text("Expect end of expression."));
    let m = compile_model(st, source);
    assert(numeric_constants(m));
    assert forall|i: int| 0 <= i < m.chunk.constants.len() implies (#[trigger] m.chunk.constants[i]) is Number by {
        assert(numeric_constants(m));
    }
}

/// An expression of number arithmetic never fails at run time: where
/// compiling from a clean state succeeds and the chunk is number arithmetic
/// throughout (number literals, `+ - * /`, unary `-`, parentheses), the
/// first state of the machine (instruction 0, empty stack) meets what
/// `law_arithmetic_stays_numeric` asks, and every step keeps it so: no step
/// is a runtime error or a comparison, and the value returned is a number.
pub proof fn law_arithmetic_never_fails(st: CompileState, source: Seq<u8>)
    requires
        clean(st),
        source.len() < usize::MAX,
        !compile_model(st, source).had_error,
        arithmetic_from(compile_model(st, source).chunk, 0),
    ensures
        runs_to_return(compile_model(st, source).chunk, 0, 0),
        numeric_pool(compile_model(st, source).chunk),
        all_numbers(Seq::<SpecValue>::empty()),
{
    law_compiled_code_runs(st, source);
    law_compiled_constants_are_numbers(st, source);
}

/// What a binary operator of Lox gives on the numbers `a` (left) and `b`
/// (right), where `holds` is the runner's comparison of two doubles and
/// `compute` its arithmetic: `+ - * /` give a number; `>`, `<` and `==`
/// give whether that relation holds; `>=`, `<=` and `!=` give the negation
/// of `<`, `>` and `==`.
pub open spec fn operator_value(
    op: TokenType,
    a: Seq<u8>,
    b: Seq<u8>,
    holds: spec_fn(CompareOp, Seq<u8>, Seq<u8>) -> bool,
    compute: spec_fn(ArithOp, Seq<u8>, Seq<u8>) -> Seq<u8>,
) -> SpecValue {
    match op {
        TokenType::Plus => SpecValue::Number(compute(ArithOp::Add, a, b)),
        TokenType::Minus => SpecValue::Number(compute(ArithOp::Subtract, a, b)),
        TokenType::Star => SpecValue::Number(compute(ArithOp::Multiply, a, b)),
        TokenType::Slash => SpecValue::Number(compute(ArithOp::Divide, a, b)),
        TokenType::Greater => SpecValue::Boolean(holds(CompareOp::Greater, a, b)),
        TokenType::GreaterEqual => SpecValue::Boolean(!holds(CompareOp::Less, a, b)),
        TokenType::Less => SpecValue::Boolean(holds(CompareOp::Less, a, b)),
        TokenType::LessEqual => SpecValue::Boolean(!holds(CompareOp::Greater, a, b)),
        TokenType::Equals => SpecValue::Boolean(holds(CompareOp::Equal, a, b)),
        _ => SpecValue::Boolean(!holds(CompareOp::Equal, a, b)),
    }
}

/// The code compiled for a binary operator means that operator: run on a
/// stack whose top two values are the numbers `a` and `b`, the machine,
/// with the runner's answers, goes through exactly the operator's code and
/// leaves in place of the two numbers the operator's value on them (so
/// `2 > 2` gives the runner's verdict on 2 > 2, and `>=` the negation of
/// its verdict on `<`).
pub proof fn law_binary_operator_meaning(
    st: CompileState,
    op: TokenType,
    below: Seq<SpecValue>,
    a: Seq<u8>,
    b: Seq<u8>,
    holds: spec_fn(CompareOp, Seq<u8>, Seq<u8>) -> bool,
    compute: spec_fn(ArithOp, Seq<u8>, Seq<u8>) -> Seq<u8>,
    negate: spec_fn(Seq<u8>) -> Seq<u8>,
)
    requires
        is_binary_operator(op),
    ensures
        ({
            let c = emit_binary(st, op).chunk;
            let k = st.chunk.code.len() as int;
            run_steps(
                c,
                VmState {
                    ip: k,
                    stack: below.push(SpecValue::Number(a)).push(SpecValue::Number(b)),
                },
                holds,
                compute,
                negate,
                (c.code.len() - k) as nat,
            ) == (VmState {
                ip: c.code.len() as int,
                stack: below.push(operator_value(op, a, b, holds, compute)),
            })
        }),
{
    let c = emit_binary(st, op).chunk;
    let k = st.chunk.code.len() as int;
    let s0 = below.push(SpecValue::Number(a)).push(SpecValue::Number(b));
    let st0 = VmState { ip: k, stack: s0 };
    assert(drop_top(s0, 2) =~= below);
    reveal_with_fuel(run_steps, 3);
    law_number_instruction(c, st0, a, b, holds, compute, negate);
    if op == TokenType::BangEqual || op == TokenType::GreaterEqual || op == TokenType::LessEqual {
        assert forall|x: bool| drop_top(#[trigger] below.push(SpecValue::Boolean(x)), 1) =~= below by {}
        assert(c.code.len() == k + 2);
    } else {
        assert(c.code.len() == k + 1);
    }
}

/// The value a literal token stands for: `true`, `false` or `nil`.
pub open spec fn literal_value(t: TokenType) -> SpecValue {
    match t {
        TokenType::True => SpecValue::Boolean(true),
        TokenType::False => SpecValue::Boolean(false),
        _ => SpecValue::Nil,
    }
}

/// The code compiled for an operand means it: run from where it begins, the
/// machine goes through exactly that code (one instruction) and pushes the
/// literal's value for `true`, `false` and `nil`, and for a number literal
/// whose constant fits the pool, the number whose text is the literal's
/// lexeme.
pub proof fn law_operand_meaning(
    st: CompileState,
    below: Seq<SpecValue>,
    holds: spec_fn(CompareOp, Seq<u8>, Seq<u8>) -> bool,
    compute: spec_fn(ArithOp, Seq<u8>, Seq<u8>) -> Seq<u8>,
    negate: spec_fn(Seq<u8>) -> Seq<u8>,
)
    requires
        st.previous is Some,
    ensures
        previous_kind(st) == TokenType::True || previous_kind(st) == TokenType::False
            || previous_kind(st) == TokenType::Nil ==> ({
            let c = literal(st).chunk;
            let k = st.chunk.code.len() as int;
            run_steps(
                c,
                VmState { ip: k, stack: below },
                holds,
                compute,
                negate,
                (c.code.len() - k) as nat,
            ) == (VmState {
                ip: c.code.len() as int,
                stack: below.push(literal_value(previous_kind(st))),
            })
        }),
        st.chunk.constants.len() < 256 ==> ({
            let c = number(st).chunk;
            let k = st.chunk.code.len() as int;
            run_steps(c, VmState { ip: k, stack: below }, holds, compute, negate, 1) == (VmState {
                ip: c.code.len() as int,
                stack: below.push(SpecValue::Number(st.previous.unwrap().lexeme)),
            })
        }),
{
    reveal_with_fuel(run_steps, 2);
    let k = st.chunk.code.len() as int;
    if previous_kind(st) == TokenType::True || previous_kind(st) == TokenType::False
        || previous_kind(st) == TokenType::Nil {
        assert(literal(st).chunk.code.len() == k + 1);
    }
    if st.chunk.constants.len() < 256 {
        let c = number(st).chunk;
        assert(c.code.len() == k + 2);
        assert(c.code[k] == 0);
        assert(c.code[k + 1] == st.chunk.constants.len());
    }
}

/// The code compiled for a prefix operator means it: after the code of its
/// operand, one instruction, which turns the number `x` into the runner's
/// negation of `x` for `-`, and any value into whether that value is falsey
/// (`nil` or `false`) for `!`.
pub proof fn law_prefix_operator_meaning(
    st: CompileState,
    below: Seq<SpecValue>,
    v: SpecValue,
    holds: spec_fn(CompareOp, Seq<u8>, Seq<u8>) -> bool,
    compute: spec_fn(ArithOp, Seq<u8>, Seq<u8>) -> Seq<u8>,
    negate: spec_fn(Seq<u8>) -> Seq<u8>,
)
    requires
        st.previous is Some,
        previous_kind(st) == TokenType::Minus || previous_kind(st) == TokenType::Bang,
    ensures
        ({
            let c = unary(st).chunk;
            let k = parse_precedence(st, Precedence::Unary).chunk.code.len() as int;
            let run = run_steps(
                c,
                VmState { ip: k, stack: below.push(v) },
                holds,
                compute,
                negate,
                1,
            );
            &&& c.code.len() == k + 1
            &&& previous_kind(st) == TokenType::Minus ==> (v matches SpecValue::Number(x) ==> run
                == (VmState { ip: k + 1, stack: below.push(SpecValue::Number(negate(x))) }))
            &&& previous_kind(st) == TokenType::Bang ==> run == (VmState {
                ip: k + 1,
                stack: below.push(SpecValue::Boolean(falsy(v))),
            })
        }),
{
    reveal_with_fuel(run_steps, 2);
    let c = unary(st).chunk;
    let k = parse_precedence(st, Precedence::Unary).chunk.code.len() as int;
    assert(drop_top(below.push(v), 1) =~= below);
    if previous_kind(st) == TokenType::Minus {
        if let SpecValue::Number(x) = v {
            law_negate_instruction(c, VmState { ip: k, stack: below.push(v) }, x, holds, compute, negate);
        }
    }
}

} // verus!
