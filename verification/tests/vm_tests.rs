use lox_rs::chunk::{Chunk, OpCode};
use lox_rs::compiler::Compiler;
use lox_rs::object::ObjString;
use lox_rs::value::{Value, ValueArray};
use lox_rs::vm::{equal_values, ArithOp, CompareOp, Step, VM};

fn compile(source: &str) -> Chunk {
    Compiler::new().compile(source).ok().expect("compiles")
}

fn run_until_work(vm: &mut VM, chunk: &Chunk) -> Step {
    loop {
        assert!(vm.can_step(chunk));
        match vm.step(chunk) {
            Step::Continue => {}
            other => return other,
        }
    }
}

#[test]
fn addition_hands_out_the_numbers() {
    let chunk = compile("1 + 2");
    let mut vm = VM::new();
    match run_until_work(&mut vm, &chunk) {
        Step::Arithmetic { op, a, b } => {
            assert_eq!(op, ArithOp::Add);
            assert_eq!(a, b"1".to_vec());
            assert_eq!(b, b"2".to_vec());
        }
        _ => panic!("expected arithmetic"),
    }
    vm.push(Value::Number(b"3".to_vec()));
    match run_until_work(&mut vm, &chunk) {
        Step::Return(Value::Number(t)) => assert_eq!(t, b"3".to_vec()),
        _ => panic!("expected return"),
    }
}

#[test]
fn negating_a_boolean_is_a_runtime_error() {
    let chunk = compile("\n-true");
    let mut vm = VM::new();
    match run_until_work(&mut vm, &chunk) {
        Step::RuntimeError { message, line } => {
            assert_eq!(message, b"Operand must be numbers.".to_vec());
            assert_eq!(line, 2);
        }
        _ => panic!("expected a runtime error"),
    }
}

#[test]
fn adding_nil_is_a_runtime_error() {
    let chunk = compile("1 + nil");
    let mut vm = VM::new();
    match run_until_work(&mut vm, &chunk) {
        Step::RuntimeError { message, line } => {
            assert_eq!(message, b"Operand must be numbers.".to_vec());
            assert_eq!(line, 1);
        }
        _ => panic!("expected a runtime error"),
    }
}

#[test]
fn negation_hands_out_the_number() {
    let chunk = compile("-4");
    let mut vm = VM::new();
    match run_until_work(&mut vm, &chunk) {
        Step::Negate(t) => assert_eq!(t, b"4".to_vec()),
        _ => panic!("expected negate"),
    }
}

#[test]
fn equality_of_non_numbers_is_decided_by_the_machine() {
    for (source, expected) in [("nil == nil", true), ("true == nil", false), ("false == false", true), ("true != false", true)] {
        let chunk = compile(source);
        let mut vm = VM::new();
        match run_until_work(&mut vm, &chunk) {
            Step::Return(Value::Boolean(b)) => assert_eq!(b, expected, "{}", source),
            _ => panic!("expected a boolean"),
        }
    }
}

#[test]
fn equality_of_numbers_is_handed_out() {
    let chunk = compile("1 == 1");
    let mut vm = VM::new();
    match run_until_work(&mut vm, &chunk) {
        Step::Compare { relation, a, b } => {
            assert_eq!(relation, CompareOp::Equal);
            assert_eq!(a, b"1".to_vec());
            assert_eq!(b, b"1".to_vec());
        }
        _ => panic!("expected a comparison"),
    }
}

#[test]
fn less_hands_out_a_comparison() {
    let chunk = compile("1 < 2");
    let mut vm = VM::new();
    match run_until_work(&mut vm, &chunk) {
        Step::Compare { relation, .. } => assert_eq!(relation, CompareOp::Less),
        _ => panic!("expected a comparison"),
    }
}

#[test]
fn not_follows_truthiness() {
    for (source, expected) in [("!nil", true), ("!false", true), ("!true", false), ("!0", false)] {
        let chunk = compile(source);
        let mut vm = VM::new();
        match run_until_work(&mut vm, &chunk) {
            Step::Return(Value::Boolean(b)) => assert_eq!(b, expected, "{}", source),
            _ => panic!("expected a boolean"),
        }
    }
}

#[test]
fn runtime_error_empties_the_stack() {
    let chunk = compile("-nil");
    let mut vm = VM::new();
    vm.push(Value::Nil);
    let _ = run_until_work(&mut vm, &chunk);
    vm.rewind();
    // With an empty stack, Return has nothing to pop.
    let mut empty = Chunk::new();
    empty.write_opcode(OpCode::Return, 1);
    assert!(!vm.can_step(&empty));
}

#[test]
fn disassembly_of_a_chunk() {
    let chunk = compile("1 +\n2");
    let ds = chunk.disassemble();
    assert_eq!(ds.len(), 4);
    assert_eq!(ds[0].offset, 0);
    assert_eq!(ds[0].line, Some(1));
    assert_eq!(ds[0].op, OpCode::Constant);
    match &ds[0].operand {
        Some((0, Value::Number(t))) => assert_eq!(t, &b"1".to_vec()),
        _ => panic!("expected a constant operand"),
    }
    assert_eq!(ds[1].offset, 2);
    assert_eq!(ds[1].line, Some(2));
    assert_eq!(ds[2].op, OpCode::Add);
    assert_eq!(ds[2].line, None);
    assert_eq!(ds[3].op, OpCode::Return);
    assert_eq!(ds[3].next, 6);
}

#[test]
fn opcode_bytes_round_trip() {
    for b in 0u8..14 {
        let op = OpCode::from_byte(b);
        assert_eq!(op.to_byte(), b);
        let back: u8 = op.into();
        assert_eq!(back, b);
    }
    assert_eq!(OpCode::from_byte(5), OpCode::Multiple);
}

#[test]
fn chunk_write_and_read() {
    let mut chunk = Chunk::new();
    chunk.write(7, 3);
    chunk.write_opcode(OpCode::Return, 4);
    assert_eq!(chunk.read(0), 7);
    assert_eq!(chunk.read(1), 1);
    assert_eq!(chunk.get_line(1), 4);
    chunk.free();
    assert_eq!(chunk.code_len(), 0);
    assert_eq!(chunk.line_count(), 2);
}

#[test]
fn constant_index_wraps_after_256_values() {
    let mut chunk = Chunk::new();
    for i in 0..256u32 {
        assert_eq!(chunk.add_constant(Value::Boolean(i % 2 == 0)) as u32, i);
    }
    assert_eq!(chunk.add_constant(Value::Nil), 0);
    assert_eq!(chunk.constants_len(), 257);
    assert!(matches!(chunk.get_constant(4), Value::Boolean(true)));
    assert!(matches!(chunk.get_constant(256), Value::Nil));
}

#[test]
fn value_array_write_index_wraps_at_256() {
    let mut values = ValueArray::new();
    for i in 0..256u32 {
        assert_eq!(values.write(Value::Nil) as u32, i);
    }
    assert_eq!(values.write(Value::Boolean(true)), 0);
    assert_eq!(values.len(), 257);
    assert!(matches!(values.get_value(256), Value::Boolean(true)));
    values.free();
    assert_eq!(values.len(), 0);
}

#[test]
fn value_predicates() {
    assert!(Value::Nil.is_falsy());
    assert!(Value::Boolean(false).is_falsy());
    assert!(!Value::Boolean(true).is_falsy());
    assert!(!Value::Number(b"0".to_vec()).is_falsy());
    assert!(Value::Number(b"0".to_vec()).is_number());
    let o = Value::Object(ObjString::new(String::from("s")));
    assert!(o.is_object());
    assert!(!o.is_number());
    assert!(!o.is_falsy());
}

#[test]
fn strings_concatenate_and_compare() {
    let a = ObjString::new(String::from("foo"));
    let b = ObjString::new(String::from("bar"));
    let ab = ObjString::concat(&a, &b);
    assert_eq!(ab.0, "foobar");
    assert!(equal_values(&Value::Object(ab.clone()), &Value::Object(ObjString::new(String::from("foobar")))));
    assert!(!equal_values(&Value::Object(a), &Value::Nil));
}
