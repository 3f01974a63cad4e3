use lox_rs::chunk::{Chunk, OpCode};
use lox_rs::compiler::{Compiler, Diagnostic, Location, Precedence};
use lox_rs::token::{Token, TokenType};
use lox_rs::value::Value;
use lox_rs::vm::InterpretError;

fn code_of(chunk: &Chunk) -> Vec<u8> {
    (0..chunk.code_len()).map(|i| chunk.read(i)).collect()
}

fn op(o: OpCode) -> u8 {
    o.into()
}

fn compile_ok(source: &str) -> Chunk {
    let mut c = Compiler::new();
    let chunk = c.compile(source).ok().expect("compiles");
    assert!(c.diagnostics().is_empty());
    chunk
}

fn compile_err(source: &str) -> Vec<Diagnostic> {
    let mut c = Compiler::new();
    let r = c.compile(source);
    assert!(matches!(r, Err(InterpretError::CompileError)));
    let mut out = Vec::new();
    for d in c.diagnostics() {
        out.push(Diagnostic {
            line: d.line,
            location: match &d.location {
                Location::AtEnd => Location::AtEnd,
                Location::AtLexeme(l) => Location::AtLexeme(l.clone()),
                Location::Unstated => Location::Unstated,
            },
            message: d.message.clone(),
        });
    }
    out
}

fn number_text(v: &Value) -> Vec<u8> {
    match v {
        Value::Number(t) => t.clone(),
        _ => panic!("not a number"),
    }
}

#[test]
fn multiplication_binds_tighter_than_addition() {
    let chunk = compile_ok("1 + 2 * 3");
    let c = op(OpCode::Constant);
    assert_eq!(
        code_of(&chunk),
        vec![c, 0, c, 1, c, 2, op(OpCode::Multiple), op(OpCode::Add), op(OpCode::Return)]
    );
    assert_eq!(number_text(&chunk.get_constant(0)), b"1".to_vec());
    assert_eq!(number_text(&chunk.get_constant(2)), b"3".to_vec());
    assert_eq!(chunk.constants_len(), 3);
}

#[test]
fn subtraction_is_left_associative() {
    let chunk = compile_ok("1 - 2 - 3");
    let c = op(OpCode::Constant);
    assert_eq!(
        code_of(&chunk),
        vec![c, 0, c, 1, op(OpCode::Subtract), c, 2, op(OpCode::Subtract), op(OpCode::Return)]
    );
}

#[test]
fn grouping_overrides_precedence() {
    let chunk = compile_ok("(1 + 2) * 3");
    let c = op(OpCode::Constant);
    assert_eq!(
        code_of(&chunk),
        vec![c, 0, c, 1, op(OpCode::Add), c, 2, op(OpCode::Multiple), op(OpCode::Return)]
    );
}

#[test]
fn unary_operators() {
    let c = op(OpCode::Constant);
    assert_eq!(
        code_of(&compile_ok("-1")),
        vec![c, 0, op(OpCode::Negate), op(OpCode::Return)]
    );
    assert_eq!(
        code_of(&compile_ok("!true")),
        vec![op(OpCode::True), op(OpCode::Not), op(OpCode::Return)]
    );
    assert_eq!(
        code_of(&compile_ok("--1")),
        vec![c, 0, op(OpCode::Negate), op(OpCode::Negate), op(OpCode::Return)]
    );
}

#[test]
fn negated_comparisons_use_two_instructions() {
    let c = op(OpCode::Constant);
    assert_eq!(
        code_of(&compile_ok("1 >= 2")),
        vec![c, 0, c, 1, op(OpCode::Less), op(OpCode::Not), op(OpCode::Return)]
    );
    assert_eq!(
        code_of(&compile_ok("1 <= 2")),
        vec![c, 0, c, 1, op(OpCode::Greater), op(OpCode::Not), op(OpCode::Return)]
    );
    assert_eq!(
        code_of(&compile_ok("1 != 2")),
        vec![c, 0, c, 1, op(OpCode::Equal), op(OpCode::Not), op(OpCode::Return)]
    );
    assert_eq!(
        code_of(&compile_ok("1 == 2 < 3")),
        vec![c, 0, c, 1, c, 2, op(OpCode::Less), op(OpCode::Equal), op(OpCode::Return)]
    );
}

#[test]
fn literals_compile_to_their_instructions() {
    assert_eq!(code_of(&compile_ok("nil")), vec![op(OpCode::Nil), op(OpCode::Return)]);
    assert_eq!(code_of(&compile_ok("false")), vec![op(OpCode::False), op(OpCode::Return)]);
}

#[test]
fn lines_follow_the_tokens() {
    let chunk = compile_ok("1 +\n2");
    assert_eq!(chunk.code_len(), 6);
    assert_eq!(chunk.get_line(0), 1);
    assert_eq!(chunk.get_line(2), 2);
    assert_eq!(chunk.get_line(4), 2);
}

#[test]
fn empty_source_expects_an_expression() {
    let ds = compile_err("");
    assert_eq!(ds.len(), 1);
    assert_eq!(ds[0].line, 1);
    assert!(matches!(ds[0].location, Location::AtEnd));
    assert_eq!(ds[0].message, b"Expect expression.".to_vec());
}

#[test]
fn missing_right_paren_is_reported_at_end() {
    let ds = compile_err("(1 + 2");
    assert_eq!(ds.len(), 1);
    assert!(matches!(ds[0].location, Location::AtEnd));
    assert_eq!(ds[0].message, b"Expect ')' after expression.".to_vec());
}

#[test]
fn trailing_tokens_are_reported_at_the_token() {
    let ds = compile_err("1 2");
    assert_eq!(ds.len(), 1);
    match &ds[0].location {
        Location::AtLexeme(l) => assert_eq!(l, &b"2".to_vec()),
        _ => panic!("wrong location"),
    }
    assert_eq!(ds[0].message, b"Expect end of expression.".to_vec());
}

#[test]
fn scanner_error_is_reported_once_without_location() {
    let ds = compile_err("@");
    assert_eq!(ds.len(), 1);
    assert!(matches!(ds[0].location, Location::Unstated));
    assert_eq!(ds[0].message, b"Unexpected character.".to_vec());
}

#[test]
fn only_the_first_error_is_reported() {
    let ds = compile_err("1 + * 2 )");
    assert_eq!(ds.len(), 1);
    match &ds[0].location {
        // The report names the token after the one that cannot start an
        // expression.
        Location::AtLexeme(l) => assert_eq!(l, &b"2".to_vec()),
        _ => panic!("wrong location"),
    }
    assert_eq!(ds[0].message, b"Expect expression.".to_vec());
}

#[test]
fn too_many_constants_is_an_error() {
    let mut source = String::from("0");
    for i in 1..257 {
        source.push_str(&format!(" + {}", i));
    }
    let ds = compile_err(&source);
    assert_eq!(ds.len(), 1);
    match &ds[0].location {
        Location::AtLexeme(l) => assert_eq!(l, &b"256".to_vec()),
        _ => panic!("wrong location"),
    }
    assert_eq!(ds[0].message, b"Too many constants in one chunk.".to_vec());
}

#[test]
fn two_hundred_fifty_six_constants_fit() {
    let mut source = String::from("0");
    for i in 1..256 {
        source.push_str(&format!(" + {}", i));
    }
    let chunk = compile_ok(&source);
    assert_eq!(chunk.constants_len(), 256);
}

#[test]
fn compiler_can_be_reused_after_success() {
    let mut c = Compiler::new();
    let first = c.compile("1").ok().unwrap();
    let second = c.compile("2").ok().unwrap();
    assert_eq!(code_of(&first), code_of(&second));
    assert_eq!(number_text(&second.get_constant(0)), b"2".to_vec());
}

#[test]
fn reused_compiler_matches_a_new_one() {
    let mut c = Compiler::new();
    let _ = c.compile("(1 + 2) * 3 == 9").ok().unwrap();
    let again = c.compile("4 -\n5 / 6").ok().unwrap();
    let fresh = compile_ok("4 -\n5 / 6");
    assert_eq!(code_of(&again), code_of(&fresh));
    assert_eq!(again.constants_len(), fresh.constants_len());
    for i in 0..again.constants_len() {
        assert_eq!(number_text(&again.get_constant(i)), number_text(&fresh.get_constant(i)));
    }
    for i in 0..again.code_len() {
        assert_eq!(again.get_line(i), fresh.get_line(i));
    }
}

#[test]
fn compiled_chunks_decode_and_end_with_return() {
    for source in ["1", "-(2 + 3) * 4", "!nil == false", "1 <= 2 != (3 > 4)"] {
        let chunk = compile_ok(source);
        assert!(chunk.decodes());
        assert_eq!(chunk.read(chunk.code_len() - 1), op(OpCode::Return));
        assert_eq!(chunk.disassemble().last().unwrap().op, OpCode::Return);
    }
    let mut bad = Chunk::new();
    bad.write(200, 1);
    assert!(!bad.decodes());
    let mut cut = Chunk::new();
    cut.write_opcode(OpCode::Constant, 1);
    assert!(!cut.decodes());
}

#[test]
fn precedence_steps() {
    assert_eq!(Precedence::Term.next(), Precedence::Factor);
    assert_eq!(Precedence::Factor.previous(), Precedence::Term);
    assert_eq!(Precedence::Call.next().previous(), Precedence::Call);
    assert_eq!(Precedence::Assignment.level(), 1);
    assert_eq!(Precedence::from(10), Precedence::Primary);
    for v in 1..=10usize {
        assert_eq!(Precedence::from(v).level(), v);
    }
    assert_eq!(Precedence::Lowest.next(), Precedence::Assignment);
}

#[test]
fn error_at_reports_only_the_first_error() {
    let mut c = Compiler::new();
    let first = Token::new(TokenType::Number, b"12".to_vec(), 3);
    let second = Token::new(TokenType::Eof, Vec::new(), 4);
    c.error_at(&first, b"first");
    c.error_at(&second, b"second");
    let ds = c.diagnostics();
    assert_eq!(ds.len(), 1);
    assert_eq!(ds[0].line, 3);
    assert!(matches!(&ds[0].location, Location::AtLexeme(l) if l == &b"12".to_vec()));
    assert_eq!(ds[0].message, b"first".to_vec());
    // A failed compilation afterwards adds no report either.
    assert!(c.compile("1").is_err());
    assert_eq!(c.diagnostics().len(), 1);
}

#[test]
fn arithmetic_compiles_to_arithmetic_opcodes_and_number_constants() {
    let chunk = compile_ok("-(1 + 2) * 3 / 4 - 5");
    for d in chunk.disassemble() {
        assert!(op(d.op) <= op(OpCode::Divide));
        if let Some((_, v)) = &d.operand {
            assert!(v.is_number());
        }
    }
    assert_eq!(chunk.line_count(), chunk.code_len());
}
