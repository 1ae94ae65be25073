use rlox::value::Value;
use rlox::vm::InterpretError;
use rlox::vm::VM;

fn eval(source: &str) -> Result<Value, InterpretError> {
    let mut vm = VM::new();
    vm.interpret(source)
}

fn eval_number(source: &str) -> f64 {
    match eval(source) {
        Ok(Value::Number(bits)) => f64::from_bits(bits),
        other => panic!("expected a number, got {:?}", other),
    }
}

#[test]
fn adds_numbers() {
    assert_eq!(eval_number("1 + 2"), 3.0);
    assert_eq!(format!("{}", eval_number("1 + 2")), "3");
}

#[test]
fn grouping_and_precedence() {
    assert_eq!(eval_number("(-1 + 2) * 3 - -4"), 7.0);
    assert_eq!(eval_number("1 + 2 * 3"), 7.0);
    assert_eq!(eval_number("(1 + 2) * 3"), 9.0);
    assert_eq!(eval_number("10 - 4 - 3"), 3.0);
    assert_eq!(eval_number("8 / 4 / 2"), 1.0);
}

#[test]
fn division_by_zero_is_infinity() {
    let x = eval_number("1 / 0");
    assert!(x.is_infinite() && x > 0.0);
    assert_eq!(format!("{}", x), "inf");
}

#[test]
fn fractions_compute_exactly() {
    assert_eq!(eval_number("1.5 + 2.25"), 3.75);
    assert_eq!(eval_number("0.1 + 0.2"), 0.1f64 + 0.2f64);
}

#[test]
fn negate_twice_is_identity() {
    assert_eq!(eval_number("--5"), 5.0);
    assert_eq!(eval_number("---5"), -5.0);
}

#[test]
fn negate_non_number_is_runtime_error() {
    let mut vm = VM::new();
    let r = vm.interpret("-true");
    assert!(matches!(r, Err(InterpretError::RuntimeError)));
    let diag = vm.runtime_diagnostic().as_ref().expect("runtime diagnostic");
    assert_eq!(diag.message, "Operand must be a number.");
    assert_eq!(diag.line, 1);
}

#[test]
fn unclosed_group_reports_at_end() {
    let mut vm = VM::new();
    let r = vm.interpret("(1 + 2");
    assert!(matches!(r, Err(InterpretError::CompilerError)));
    let diag = vm.compile_diagnostic().as_ref().expect("compile diagnostic");
    assert_eq!(diag.message, "Expect ')' after expression.");
    assert_eq!(diag.line, 1);
    assert!(diag.at_end);
}

#[test]
fn missing_operand_reports_at_lexeme() {
    let mut vm = VM::new();
    let r = vm.interpret("1 + * 2");
    assert!(matches!(r, Err(InterpretError::CompilerError)));
    let diag = vm.compile_diagnostic().as_ref().expect("compile diagnostic");
    assert_eq!(diag.message, "Expect expression.");
    assert_eq!(diag.line, 1);
    assert!(!diag.at_end);
    assert_eq!(diag.lexeme.as_deref(), Some("*"));
}

#[test]
fn empty_source_is_compile_error() {
    let mut vm = VM::new();
    let r = vm.interpret("");
    assert!(matches!(r, Err(InterpretError::CompilerError)));
    let diag = vm.compile_diagnostic().as_ref().expect("compile diagnostic");
    assert_eq!(diag.message, "Expect expression.");
    assert!(diag.at_end);
}

#[test]
fn trailing_tokens_are_rejected() {
    let mut vm = VM::new();
    let r = vm.interpret("1 2");
    assert!(matches!(r, Err(InterpretError::CompilerError)));
    let diag = vm.compile_diagnostic().as_ref().expect("compile diagnostic");
    assert_eq!(diag.message, "Expect end of expression.");
}

#[test]
fn only_first_error_is_reported() {
    let mut vm = VM::new();
    let r = vm.interpret("* *");
    assert!(matches!(r, Err(InterpretError::CompilerError)));
    let diag = vm.compile_diagnostic().as_ref().expect("compile diagnostic");
    assert_eq!(diag.message, "Expect expression.");
    assert_eq!(diag.lexeme.as_deref(), Some("*"));
}

#[test]
fn runtime_error_line_is_of_failing_instruction() {
    let mut vm = VM::new();
    let r = vm.interpret("1 +\n-true");
    assert!(matches!(r, Err(InterpretError::RuntimeError)));
    let diag = vm.runtime_diagnostic().as_ref().expect("runtime diagnostic");
    assert_eq!(diag.message, "Operand must be a number.");
    assert_eq!(diag.line, 2);
}

#[test]
fn pool_of_256_constants_compiles() {
    let mut source = String::new();
    for i in 0..256 {
        if i > 0 {
            source.push('+');
        }
        source.push_str(&format!("{}", i));
    }
    assert_eq!(eval_number(&source), (0..256).sum::<i64>() as f64);
}

#[test]
fn the_constant_past_the_operand_range_is_an_error() {
    let mut source = String::new();
    for i in 0..257 {
        if i > 0 {
            source.push('+');
        }
        source.push_str(&format!("{}", i));
    }
    let mut vm = VM::new();
    let r = vm.interpret(&source);
    assert!(matches!(r, Err(InterpretError::CompilerError)));
    let diag = vm.compile_diagnostic().as_ref().expect("compile diagnostic");
    assert_eq!(diag.message, "Too many constants in one chunk.");
}

#[test]
fn comment_to_end_of_file_is_valid() {
    assert_eq!(eval_number("1 + 2 // fine"), 3.0);
    assert_eq!(eval_number("// leading\n4 * 2"), 8.0);
}

#[test]
fn big_double_arithmetic_matches_ieee() {
    assert_eq!(eval_number("0.1 * 0.2"), 0.1f64 * 0.2f64);
    assert_eq!(eval_number("1 / 3"), 1.0f64 / 3.0f64);
    assert_eq!(eval_number("123456789.5 - 0.25"), 123456789.5f64 - 0.25f64);
}

#[test]
fn literals_evaluate_to_themselves() {
    assert_eq!(eval("true"), Ok(Value::Bool(true)));
    assert_eq!(eval("false"), Ok(Value::Bool(false)));
    assert_eq!(eval("nil"), Ok(Value::Nil));
}

#[test]
fn arithmetic_on_non_numbers_is_a_runtime_error() {
    let mut vm = VM::new();
    let r = vm.interpret("1 + true");
    assert!(matches!(r, Err(InterpretError::RuntimeError)));
    let diag = vm.runtime_diagnostic().as_ref().expect("runtime diagnostic");
    assert_eq!(diag.message, "Operands must be numbers.");
    assert_eq!(diag.line, 1);
}
