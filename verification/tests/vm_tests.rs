use bytecode_vm::compiler::Compiler;
use bytecode_vm::lexer::Lexer;
use bytecode_vm::number::ArithOp;
use bytecode_vm::token::read_numbers;
use bytecode_vm::value::Value;
use bytecode_vm::vm::{InterpretResult, Signal, VirtualMachine};

fn number(x: f64) -> Value {
    Value::Number(x.to_bits())
}

fn read(text: &str) -> Option<u64> {
    text.parse::<f64>().ok().map(f64::to_bits)
}

fn compiler_for(input: &str) -> Compiler {
    let mut lexer = Lexer::new(input);
    Compiler::new(read_numbers(lexer.tokenize(), read))
}

fn compute(op: ArithOp, lhs: u64, rhs: u64) -> u64 {
    let (x, y) = (f64::from_bits(lhs), f64::from_bits(rhs));
    let z = match op {
        ArithOp::Add => x + y,
        ArithOp::Subtract => x - y,
        ArithOp::Multiply => x * y,
        ArithOp::Divide => x / y,
    };
    z.to_bits()
}

fn run(vm: &mut VirtualMachine) -> InterpretResult {
    loop {
        match vm.run(compute, 1000) {
            Signal::Continue => {}
            Signal::Halt(result) => return result,
            Signal::Return(_) => return InterpretResult::Success,
            Signal::Compute(..) => unreachable!(),
        }
    }
}

fn check_compiler_errors(compiler: &Compiler) {
    let errors = compiler.errors();
    if errors.is_empty() {
        return;
    }

    println!("compiler has {} errors", errors.len());
    for error in errors {
        println!("compiler error: {}", error);
    }
    panic!("compiler errors encountered");
}

fn run_one_statement(input: &str) -> VirtualMachine {
    let mut compiler = compiler_for(input);
    compiler.compile_one_statement();

    check_compiler_errors(&compiler);

    let mut vm = VirtualMachine::new(compiler.into_chunk());

    assert_eq!(
        run(&mut vm),
        InterpretResult::Success,
        "VM should run without errors"
    );
    vm
}

fn run_program(input: &str) -> VirtualMachine {
    let mut compiler = compiler_for(input);
    compiler.compile();

    check_compiler_errors(&compiler);

    let mut vm = VirtualMachine::new(compiler.into_chunk());

    assert_eq!(
        run(&mut vm),
        InterpretResult::Success,
        "VM should run without errors"
    );
    vm
}

fn test_number(input: &str, result: f64) {
    let vm = run_one_statement(input);
    assert_eq!(vm.stack.get(0), Some(&number(result)));
}

fn test_bool(input: &str, result: bool) {
    let vm = run_one_statement(input);
    assert_eq!(vm.stack.get(0), Some(&Value::Boolean(result)));
}

fn test_string(input: &str, result: String) {
    let vm = run_one_statement(input);
    println!("{}", input);
    assert_eq!(vm.stack.get(0), Some(&Value::String(result)));
}

#[test]
fn test_constant() {
    test_number("1", 1.0);
}

#[test]
fn test_boolean() {
    let tests = [("true", true), ("false", false)];

    for (input, result) in tests {
        test_bool(input, result);
    }
}

#[test]
fn test_null() {
    let mut compiler = compiler_for("null");

    assert!(
        compiler.compile_one_statement(),
        "Compiler should compile without errors"
    );

    let mut vm = VirtualMachine::new(compiler.into_chunk());

    assert_eq!(
        run(&mut vm),
        InterpretResult::Success,
        "VM should run without errors"
    );

    assert_eq!(vm.stack.get(0), Some(&Value::Null));
}

#[test]
fn test_negate() {
    test_number("-1.2", -1.2);
}

#[test]
fn test_add() {
    test_number("10+5", 15.0);
}

#[test]
fn test_subtract() {
    test_number("10-5", 5.0);
}

#[test]
fn test_multiply() {
    test_number("10*5", 50.0);
}

#[test]
fn test_divide() {
    test_number("10/5", 2.0);
}

#[test]
fn test_division_by_zero() {
    let input = "10 / 0";
    let mut compiler = compiler_for(input);

    assert!(
        compiler.compile_one_statement(),
        "Compiler should compile without errors"
    );

    let mut vm = VirtualMachine::new(compiler.into_chunk());
    assert_eq!(
        run(&mut vm),
        InterpretResult::RuntimeError,
        "VM should return a runtime error for division by zero"
    );
}

#[test]
fn test_not() {
    let tests = [
        ("!true", false),
        ("!false", true),
        ("!null", true),
        ("!1", false),
    ];

    for (input, result) in tests {
        test_bool(input, result);
    }
}

#[test]
fn test_boolean_infix() {
    let tests = [
        ("true == true", true),
        ("false == true", false),
        ("\"hola\" == \"hola\"", true),
        ("\"hola\" == \"mundo\"", false),
        ("1 == 1", true),
        ("1 == 2", false),
        ("1 != 1", false),
        ("1 != 2", true),
        ("\"hola\" != \"hola\"", false),
        ("\"hola\" != \"mundo\"", true),
        ("true != true", false),
        ("true != false", true),
        ("1 > 0", true),
        ("1 > 1", false),
        ("1 >= 1", true),
        ("1 >= 2", false),
        ("1 < 1", false),
        ("1 < 2", true),
        ("1 <= 1", true),
        ("1 <= 0", false),
    ];

    for (input, result) in tests {
        test_bool(input, result);
    }
}

#[test]
fn test_string_literal() {
    test_string("\"hola\"", "hola".to_string());
}

#[test]
fn test_string_concatenation() {
    test_string("\"hola\" + \" mundo\"", "hola mundo".to_string());
}

#[test]
fn test_define_global() {
    let vm = run_program("let a = 1");
    assert_eq!(vm.globals.get("a"), Some(&number(1.0)));
}

#[test]
fn test_get_global() {
    let vm = run_program("let a = 1\nlet b = a + 3");
    assert_eq!(vm.globals.get("b"), Some(&number(4.0)));
}

#[test]
fn test_set_global() {
    let vm = run_program("let a = 1\na = 3");
    assert_eq!(vm.globals.get("a"), Some(&number(3.0)));
}
