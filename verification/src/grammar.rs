use vstd::prelude::*;

use crate::chunk::OpCode;
use crate::compile_laws::{
    keeps, lemma_advance_keeps, lemma_apply_rule, lemma_consume_keeps, lemma_expression,
    lemma_infix_loop, lemma_literal, lemma_number, lemma_parse_precedence, lined, sound_state,
};
use crate::compiler::{infix_rule, prefix_rule, rank, rule_precedence, tighter, ParseFn, Precedence};
use crate::parse_model::{
    CompileState, advance, apply_rule, binary, compile_model, consume, current_kind, emit,
    emit_binary, emit_op, expression, infix_loop, lemma_advance, literal, measure, number,
    parse_precedence, previous_kind, ready, report, report_at_current, reports_ok, start_state,
    unary,
};
use crate::token::{text, TokenType};

verus! {

/// The level of a binary operator in the expression grammar, from loosest
/// to tightest: 4 for equality, 5 for comparison, 6 for terms, 7 for factors;
/// 0 for a token that is no binary operator.
pub open spec fn grammar_level(t: TokenType) -> int {
    match t {
        TokenType::Equals | TokenType::BangEqual => 4,
        TokenType::Greater | TokenType::GreaterEqual | TokenType::Less | TokenType::LessEqual => 5,
        TokenType::Plus | TokenType::Minus => 6,
        TokenType::Star | TokenType::Slash => 7,
        _ => 0,
    }
}

/// The rank by which the grammar's levels are visited: level 4 first, the
/// unary level (8 and above) last.
pub open spec fn level_order(k: int) -> int {
    if k >= 8 {
        1
    } else {
        10 - k
    }
}

/// The expression grammar, written level by level:
///
/// ```text
/// expression := equality
/// equality   := comparison (("==" | "!=") comparison)*
/// comparison := term ((">" | ">=" | "<" | "<=") term)*
/// term       := factor (("+" | "-") factor)*
/// factor     := unary (("*" | "/") unary)*
/// unary      := ("-" | "!") unary | primary
/// primary    := NUMBER | "true" | "false" | "nil" | "(" expression ")"
/// ```
///
/// with the code of each operator after the code of its operands. This is
/// the grammar at `unary`.
pub open spec fn grammar_unary(st: CompileState) -> CompileState
    decreases measure(st), 0int,
{
    if !ready(st) {
        st
    } else {
        let a = advance(st);
        proof {
            lemma_advance(st);
        }
        match previous_kind(a) {
            TokenType::Minus => emit_op(grammar_unary(a), OpCode::Negate),
            TokenType::Bang => emit_op(grammar_unary(a), OpCode::Not),
            TokenType::LeftParen => consume(
                grammar_expression(a),
                TokenType::RightParen,
                text("Expect ')' after expression."),
            ),
            TokenType::Number => number(a),
            TokenType::True | TokenType::False | TokenType::Nil => literal(a),
            _ => report_at_current(a, text("Expect expression.")),
        }
    }
}

/// The grammar at level `k` (4 to 7), and at `unary` for 8 and above.
pub open spec fn grammar_level_at(st: CompileState, k: int) -> CompileState
    decreases measure(st), level_order(k),
{
    if k >= 8 {
        grammar_unary(st)
    } else {
        grammar_operators(grammar_level_at(st, k + 1), k, measure(st))
    }
}

/// The repetition of a level: while the current token is an operator of
/// level `k`, step onto it, read an operand of the next level, and emit the
/// operator. `bound` caps the measure of the states it runs from.
pub open spec fn grammar_operators(st: CompileState, k: int, bound: int) -> CompileState
    decreases bound, 2int,
{
    if !ready(st) || measure(st) > bound || k < 4 {
        st
    } else if grammar_level(current_kind(st)) == k {
        let op = current_kind(st);
        let a = advance(st);
        proof {
            lemma_advance(st);
        }
        grammar_operators(emit_binary(grammar_level_at(a, k + 1), op), k, measure(a))
    } else {
        st
    }
}

/// The grammar at `expression`.
pub open spec fn grammar_expression(st: CompileState) -> CompileState
    decreases measure(st), 11int,
{
    grammar_level_at(st, 4)
}

/// Compiling `source` by the grammar: one expression, the end of the source,
/// then a `Return`.
pub open spec fn grammar_compile_model(st: CompileState, source: Seq<u8>) -> CompileState {
    let a = advance(start_state(st, source));
    let b = grammar_expression(a);
    let c = consume(b, TokenType::Eof, text("Expect end of expression."));
    emit_op(c, OpCode::Return)
}

proof fn lemma_keeps_trans(a: CompileState, b: CompileState, c: CompileState)
    requires
        keeps(a, b),
        keeps(b, c),
    ensures
        keeps(a, c),
{
}

proof fn lemma_emit_keeps(st: CompileState, op: OpCode)
    requires
        sound_state(st),
    ensures
        sound_state(emit_op(st, op)),
        keeps(st, emit_op(st, op)),
{
}

proof fn lemma_emit_binary_keeps(st: CompileState, op: TokenType)
    requires
        sound_state(st),
    ensures
        sound_state(emit_binary(st, op)),
        keeps(st, emit_binary(st, op)),
{
    let e1 = emit_op(st, OpCode::Equal);
    let l1 = emit_op(st, OpCode::Less);
    let g1 = emit_op(st, OpCode::Greater);
    lemma_emit_keeps(st, OpCode::Equal);
    lemma_emit_keeps(e1, OpCode::Not);
    lemma_emit_keeps(st, OpCode::Less);
    lemma_emit_keeps(l1, OpCode::Not);
    lemma_emit_keeps(st, OpCode::Greater);
    lemma_emit_keeps(g1, OpCode::Not);
    lemma_keeps_trans(st, e1, emit_op(e1, OpCode::Not));
    lemma_keeps_trans(st, l1, emit_op(l1, OpCode::Not));
    lemma_keeps_trans(st, g1, emit_op(g1, OpCode::Not));
}

proof fn lemma_grammar_unary_keeps(st: CompileState)
    requires
        sound_state(st),
    ensures
        sound_state(grammar_unary(st)),
        keeps(st, grammar_unary(st)),
    decreases measure(st), 0int,
{
    let a = advance(st);
    lemma_advance_keeps(st);
    lemma_advance(st);
    match previous_kind(a) {
        TokenType::Minus => {
            lemma_grammar_unary_keeps(a);
            lemma_emit_keeps(grammar_unary(a), OpCode::Negate);
            lemma_keeps_trans(a, grammar_unary(a), emit_op(grammar_unary(a), OpCode::Negate));
            lemma_keeps_trans(st, a, emit_op(grammar_unary(a), OpCode::Negate));
        },
        TokenType::Bang => {
            lemma_grammar_unary_keeps(a);
            lemma_emit_keeps(grammar_unary(a), OpCode::Not);
            lemma_keeps_trans(a, grammar_unary(a), emit_op(grammar_unary(a), OpCode::Not));
            lemma_keeps_trans(st, a, emit_op(grammar_unary(a), OpCode::Not));
        },
        TokenType::LeftParen => {
            let e = grammar_expression(a);
            lemma_grammar_expression_keeps(a);
            lemma_consume_keeps(e, TokenType::RightParen, text("Expect ')' after expression."));
            lemma_keeps_trans(a, e, grammar_unary(st));
            lemma_keeps_trans(st, a, grammar_unary(st));
        },
        TokenType::Number => {
            lemma_number(a);
            lemma_keeps_trans(st, a, grammar_unary(st));
        },
        TokenType::True | TokenType::False | TokenType::Nil => {
            lemma_literal(a);
            lemma_keeps_trans(st, a, grammar_unary(st));
        },
        _ => {},
    }
}

proof fn lemma_grammar_level_keeps(st: CompileState, k: int)
    requires
        sound_state(st),
    ensures
        sound_state(grammar_level_at(st, k)),
        keeps(st, grammar_level_at(st, k)),
    decreases measure(st), level_order(k),
{
    if k >= 8 {
        lemma_grammar_unary_keeps(st);
    } else {
        let x = grammar_level_at(st, k + 1);
        lemma_grammar_level_keeps(st, k + 1);
        lemma_grammar_operators_keeps(x, k, measure(st));
        lemma_keeps_trans(st, x, grammar_level_at(st, k));
    }
}

proof fn lemma_grammar_operators_keeps(st: CompileState, k: int, bound: int)
    requires
        sound_state(st),
    ensures
        sound_state(grammar_operators(st, k, bound)),
        keeps(st, grammar_operators(st, k, bound)),
    decreases bound, 2int,
{
    if !ready(st) || measure(st) > bound || k < 4 {
    } else if grammar_level(current_kind(st)) == k {
        let op = current_kind(st);
        let a = advance(st);
        lemma_advance_keeps(st);
        lemma_advance(st);
        let b = grammar_level_at(a, k + 1);
        lemma_grammar_level_keeps(a, k + 1);
        let c = emit_binary(b, op);
        lemma_emit_binary_keeps(b, op);
        lemma_grammar_operators_keeps(c, k, measure(a));
        lemma_keeps_trans(a, b, c);
        lemma_keeps_trans(a, c, grammar_operators(c, k, measure(a)));
        lemma_keeps_trans(st, a, grammar_operators(c, k, measure(a)));
    }
}

proof fn lemma_grammar_expression_keeps(st: CompileState)
    requires
        sound_state(st),
    ensures
        sound_state(grammar_expression(st)),
        keeps(st, grammar_expression(st)),
    decreases measure(st), 11int,
{
    lemma_grammar_level_keeps(st, 4);
}

/// Two compiler states agree: they are equal, or both have found an error
/// and hold the same reports (what is left of an errored compilation is
/// thrown away).
pub open spec fn agree(x: CompileState, y: CompileState) -> bool {
    ||| x == y
    ||| x.had_error && y.had_error && x.panic_mode && y.panic_mode && x.diagnostics == y.diagnostics
}

proof fn lemma_agree_trans(a: CompileState, b: CompileState, c: CompileState)
    requires
        agree(a, b),
        agree(b, c),
    ensures
        agree(a, c),
{
}

/// Once an error is found, whatever follows keeps the reports as they are.
proof fn lemma_agree_after(x: CompileState, y: CompileState, fx: CompileState, fy: CompileState)
    requires
        agree(x, y),
        x != y || x.had_error,
        keeps(x, fx),
        keeps(y, fy),
        reports_ok(x),
        reports_ok(y),
    ensures
        agree(fx, fy),
{
}

proof fn lemma_grammar_operators_bound(st: CompileState, k: int, b1: int, b2: int)
    requires
        measure(st) <= b1,
        measure(st) <= b2,
    ensures
        grammar_operators(st, k, b1) == grammar_operators(st, k, b2),
{
}

/// The parser's loop treats every precedence from `Assignment` to `Equality`
/// alike: no operator binds looser than equality.
proof fn lemma_loop_low_levels(x: CompileState, p: Precedence, bound: int)
    requires
        1 <= rank(p) <= 4,
    ensures
        infix_loop(x, p, bound) == infix_loop(x, Precedence::Equality, bound),
    decreases bound,
{
    if !ready(x) || measure(x) > bound {
    } else if rank(p) <= rank(rule_precedence(current_kind(x))) {
        let a = advance(x);
        lemma_advance(x);
        match infix_rule(previous_kind(a)) {
            None => {},
            Some(f) => {
                lemma_loop_low_levels(apply_rule(a, f), p, measure(a));
            },
        }
    }
}

/// After the parser's loop at `q` ends without error, the current token does
/// not bind as tightly as `q`.
proof fn lemma_loop_exit(s: CompileState, q: Precedence, bound: int)
    requires
        sound_state(s),
        measure(s) <= bound,
        rank(q) >= 1,
    ensures
        !infix_loop(s, q, bound).had_error ==> rank(
            rule_precedence(current_kind(infix_loop(s, q, bound))),
        ) < rank(q),
    decreases bound,
{
    if rank(q) <= rank(rule_precedence(current_kind(s))) {
        let a = advance(s);
        lemma_advance(s);
        lemma_advance_keeps(s);
        let y = apply_rule(a, ParseFn::Binary);
        lemma_apply_rule(a, ParseFn::Binary);
        lemma_loop_exit(y, q, measure(a));
    }
}

proof fn lemma_parse_precedence_exit(st: CompileState, q: Precedence)
    requires
        sound_state(st),
        rank(q) >= 1,
    ensures
        !parse_precedence(st, q).had_error ==> rank(
            rule_precedence(current_kind(parse_precedence(st, q))),
        ) < rank(q),
{
    let a = advance(st);
    lemma_advance(st);
    lemma_advance_keeps(st);
    match prefix_rule(previous_kind(a)) {
        None => {},
        Some(f) => {
            let b = apply_rule(a, f);
            lemma_apply_rule(a, f);
            lemma_loop_exit(b, q, measure(a));
        },
    }
}

/// The level of the grammar that a parse at precedence `p` stands for.
pub open spec fn grammar_target(p: Precedence) -> int {
    if rank(p) < 4 {
        4
    } else {
        rank(p)
    }
}

proof fn lemma_parse_agrees(st: CompileState, p: Precedence)
    requires
        sound_state(st),
        1 <= rank(p) <= 8,
    ensures
        agree(parse_precedence(st, p), grammar_level_at(st, grammar_target(p))),
    decreases measure(st), 9 - rank(p),
{
    let a = advance(st);
    lemma_advance(st);
    lemma_advance_keeps(st);
    lemma_parse_precedence(st, p);
    if rank(p) < 4 {
        match prefix_rule(previous_kind(a)) {
            None => {},
            Some(f) => {
                lemma_loop_low_levels(apply_rule(a, f), p, measure(a));
            },
        }
        lemma_parse_agrees(st, Precedence::Equality);
    } else if rank(p) == 8 {
        lemma_grammar_unary_keeps(st);
        match prefix_rule(previous_kind(a)) {
            None => {},
            Some(f) => {
                let pre = apply_rule(a, f);
                lemma_apply_rule(a, f);
                assert(infix_loop(pre, p, measure(a)) == pre);
                match f {
                    ParseFn::Grouping => {
                        let x = expression(a);
                        let y = grammar_expression(a);
                        lemma_parse_agrees(a, Precedence::Assignment);
                        lemma_expression(a);
                        lemma_grammar_expression_keeps(a);
                        let msg = text("Expect ')' after expression.");
                        lemma_consume_keeps(x, TokenType::RightParen, msg);
                        lemma_consume_keeps(y, TokenType::RightParen, msg);
                        if x != y {
                            lemma_agree_after(
                                x,
                                y,
                                consume(x, TokenType::RightParen, msg),
                                consume(y, TokenType::RightParen, msg),
                            );
                        }
                    },
                    ParseFn::Unary => {
                        let x = parse_precedence(a, Precedence::Unary);
                        let y = grammar_unary(a);
                        lemma_parse_agrees(a, Precedence::Unary);
                        lemma_parse_precedence(a, Precedence::Unary);
                        lemma_grammar_unary_keeps(a);
                        let op = if previous_kind(a) == TokenType::Minus {
                            OpCode::Negate
                        } else {
                            OpCode::Not
                        };
                        lemma_emit_keeps(x, op);
                        lemma_emit_keeps(y, op);
                        if x != y {
                            lemma_agree_after(x, y, emit_op(x, op), emit_op(y, op));
                        }
                    },
                    _ => {},
                }
            },
        }
    } else {
        let k = rank(p);
        let t = tighter(p);
        lemma_parse_agrees(st, t);
        lemma_parse_precedence(st, t);
        let x = parse_precedence(st, t);
        let y = grammar_level_at(st, k + 1);
        lemma_grammar_level_keeps(st, k + 1);
        lemma_grammar_operators_keeps(x, k, measure(x));
        lemma_grammar_operators_keeps(y, k, measure(st));
        match prefix_rule(previous_kind(a)) {
            None => {
                if x != y {
                    lemma_agree_after(x, y, x, grammar_operators(y, k, measure(st)));
                } else {
                    lemma_grammar_operators_bound(y, k, measure(x), measure(st));
                }
            },
            Some(f) => {
                let pre = apply_rule(a, f);
                lemma_apply_rule(a, f);
                lemma_loop_split(pre, p, measure(a));
                if x != y {
                    lemma_agree_after(
                        x,
                        y,
                        grammar_operators(x, k, measure(x)),
                        grammar_operators(y, k, measure(st)),
                    );
                } else {
                    lemma_grammar_operators_bound(y, k, measure(x), measure(st));
                }
                lemma_agree_trans(
                    parse_precedence(st, p),
                    grammar_operators(x, k, measure(x)),
                    grammar_level_at(st, k),
                );
            },
        }
    }
}

proof fn lemma_loop_split(x: CompileState, p: Precedence, bound: int)
    requires
        sound_state(x),
        measure(x) <= bound,
        4 <= rank(p) <= 7,
    ensures
        agree(
            infix_loop(x, p, bound),
            grammar_operators(
                infix_loop(x, tighter(p), bound),
                rank(p),
                measure(infix_loop(x, tighter(p), bound)),
            ),
        ),
    decreases bound, 9int,
{
    let k = rank(p);
    let r = rank(rule_precedence(current_kind(x)));
    if r < k {
    } else {
        let op = current_kind(x);
        let a = advance(x);
        lemma_advance(x);
        lemma_advance_keeps(x);
        let y = apply_rule(a, ParseFn::Binary);
        lemma_apply_rule(a, ParseFn::Binary);
        lemma_infix_loop(y, p, measure(a));
        if r > k {
            lemma_loop_split(y, p, measure(a));
        } else {
            let t = tighter(p);
            assert(rule_precedence(op) == p);
            let xa = parse_precedence(a, t);
            let ya = grammar_level_at(a, k + 1);
            lemma_parse_agrees(a, t);
            lemma_parse_precedence(a, t);
            lemma_grammar_level_keeps(a, k + 1);
            let y2 = emit_binary(ya, op);
            lemma_emit_binary_keeps(xa, op);
            lemma_emit_binary_keeps(ya, op);
            assert(y == emit_binary(xa, op));
            lemma_grammar_operators_keeps(y2, k, measure(a));
            assert(grammar_operators(x, k, measure(x)) == grammar_operators(y2, k, measure(a)));
            lemma_loop_split(y, p, measure(a));
            if !y.had_error {
                lemma_parse_precedence_exit(a, t);
                assert(xa == ya);
                assert(infix_loop(y, t, measure(a)) == y);
                lemma_grammar_operators_bound(y, k, measure(y), measure(a));
            } else {
                if xa != ya {
                    lemma_agree_after(xa, ya, y, y2);
                }
                lemma_agree_after(y, y2, infix_loop(y, p, measure(a)), grammar_operators(y2, k, measure(a)));
            }
        }
    }
}

/// The parser follows the expression grammar: parsing an expression with
/// precedence climbing writes the same code, reads the same tokens and
/// reports the same error as parsing it level by level by the grammar of
/// `grammar_unary`; where an error is found, both report the same error.
pub proof fn law_parser_follows_grammar(st: CompileState)
    requires
        sound_state(st),
    ensures
        agree(expression(st), grammar_expression(st)),
{
    lemma_parse_agrees(st, Precedence::Assignment);
}

/// Compiling follows the expression grammar: either both compilations
/// succeed with the same chunk, or both fail with the same report.
pub proof fn law_compile_follows_grammar(st: CompileState, source: Seq<u8>)
    requires
        reports_ok(st),
        lined(st),
        source.len() < usize::MAX,
    ensures
        agree(compile_model(st, source), grammar_compile_model(st, source)),
        !compile_model(st, source).had_error ==> compile_model(st, source) == grammar_compile_model(
            st,
            source,
        ),
{
    let s0 = start_state(st, source);
    let a = advance(s0);
    lemma_advance(s0);
    let x = expression(a);
    let y = grammar_expression(a);
    lemma_parse_agrees(a, Precedence::Assignment);
    lemma_expression(a);
    lemma_grammar_expression_keeps(a);
    let msg = text("Expect end of expression.");
    let cx = consume(x, TokenType::Eof, msg);
    let cy = consume(y, TokenType::Eof, msg);
    lemma_consume_keeps(x, TokenType::Eof, msg);
    lemma_consume_keeps(y, TokenType::Eof, msg);
    lemma_emit_keeps(cx, OpCode::Return);
    lemma_emit_keeps(cy, OpCode::Return);
    if x != y {
        lemma_agree_after(x, y, emit_op(cx, OpCode::Return), emit_op(cy, OpCode::Return));
    }
}

} // verus!
