use lox_rs::compiler::Compiler;
use lox_rs::value::Value;
use lox_rs::vm::{ArithOp, CompareOp, Step, VM};

/// The printed result of running `source`, as the command line prints it, or
/// the runtime error message.
fn run(source: &str) -> Result<String, String> {
    let chunk = Compiler::new().compile(source).ok().expect("compiles");
    let mut vm = VM::new();
    let num = |t: &[u8]| -> f64 { String::from_utf8_lossy(t).parse().unwrap() };
    loop {
        // Compiled code never leaves the machine stuck.
        assert!(vm.can_step(&chunk), "stuck at {}", vm.ip());
        match vm.step(&chunk) {
            Step::Continue => {}
            Step::Return(v) => {
                return Ok(match v {
                    Value::Number(t) => format!("{}", num(&t)),
                    Value::Nil => "nil".to_string(),
                    Value::Boolean(b) => format!("{}", b),
                    Value::Object(o) => o.0.clone(),
                });
            }
            Step::Arithmetic { op, a, b } => {
                let (a, b) = (num(&a), num(&b));
                let r = match op {
                    ArithOp::Add => a + b,
                    ArithOp::Subtract => a - b,
                    ArithOp::Multiply => a * b,
                    ArithOp::Divide => a / b,
                };
                vm.push(Value::Number(format!("{:?}", r).into_bytes()));
            }
            Step::Negate(a) => vm.push(Value::Number(format!("{:?}", -num(&a)).into_bytes())),
            Step::Compare { relation, a, b } => {
                let (a, b) = (num(&a), num(&b));
                vm.push(Value::Boolean(match relation {
                    CompareOp::Equal => a == b,
                    CompareOp::Greater => a > b,
                    CompareOp::Less => a < b,
                }));
            }
            Step::RuntimeError { message, .. } => {
                assert!(vm.stack().is_empty());
                return Err(String::from_utf8_lossy(&message).into_owned());
            }
        }
    }
}

#[test]
fn evaluates_arithmetic_with_precedence() {
    assert_eq!(run("1 + 2 * 3"), Ok("7".to_string()));
    assert_eq!(run("(1 + 2) * 3"), Ok("9".to_string()));
    assert_eq!(run("8 / 2 / 2"), Ok("2".to_string()));
    assert_eq!(run("10 - 4 - 3"), Ok("3".to_string()));
    assert_eq!(run("-(1.5 + 1)"), Ok("-2.5".to_string()));
}

#[test]
fn evaluates_comparisons_and_logic() {
    assert_eq!(run("1 < 2 == true"), Ok("true".to_string()));
    assert_eq!(run("2 >= 3"), Ok("false".to_string()));
    assert_eq!(run("!(5 - 4 > 3 * 2 == !nil)"), Ok("true".to_string()));
    assert_eq!(run("nil != false"), Ok("true".to_string()));
    assert_eq!(run("0.1 + 0.2 == 0.3"), Ok("false".to_string()));
}

#[test]
fn division_by_zero_follows_doubles() {
    assert_eq!(run("1 / 0"), Ok("inf".to_string()));
    assert_eq!(run("0 / 0 == 0 / 0"), Ok("false".to_string()));
}

#[test]
fn type_errors_stop_the_program() {
    assert_eq!(run("1 + true"), Err("Operand must be numbers.".to_string()));
    assert_eq!(run("-nil"), Err("Operand must be numbers.".to_string()));
    assert_eq!(run("nil < 1"), Err("Operand must be numbers.".to_string()));
}

#[test]
fn many_nested_groups_run() {
    let mut source = String::new();
    for _ in 0..50 {
        source.push('(');
    }
    source.push('1');
    for _ in 0..50 {
        source.push_str(" + 1)");
    }
    assert_eq!(run(&source), Ok("51".to_string()));
}
