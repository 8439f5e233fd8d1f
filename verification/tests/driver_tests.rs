use bytecode_vm::driver::{compile_and_run, run_tokens, Launch};
use bytecode_vm::diagnostic::{describe, ErrorKind};
use bytecode_vm::lexer::Lexer;
use bytecode_vm::number::ArithOp;
use bytecode_vm::token::read_numbers;
use bytecode_vm::value::Value;
use bytecode_vm::vm::{InterpretResult, Signal, VirtualMachine};

fn read(text: &str) -> Option<u64> {
    text.parse::<f64>().ok().map(f64::to_bits)
}

fn compute(op: ArithOp, lhs: u64, rhs: u64) -> u64 {
    let (x, y) = (f64::from_bits(lhs), f64::from_bits(rhs));
    let z = match op {
        ArithOp::Add => x + y,
        ArithOp::Subtract => x - y,
        ArithOp::Multiply => x * y,
        ArithOp::Divide => x / y,
    };
    z.to_bits()
}

fn number(x: f64) -> Value {
    Value::Number(x.to_bits())
}

fn ran(input: &str) -> (VirtualMachine, Signal) {
    match compile_and_run(input, read, compute, 100_000) {
        Launch::Ran(vm, signal) => (vm, signal),
        Launch::Rejected(errors) => panic!("{:?}", errors),
    }
}

fn finished(input: &str) -> VirtualMachine {
    let (vm, signal) = ran(input);
    assert_eq!(signal, Signal::Halt(InterpretResult::Success), "{}", input);
    vm
}

fn global(vm: &VirtualMachine, name: &str) -> Value {
    vm.globals.get(name).unwrap().clone()
}

#[test]
fn a_number_literal_is_left_on_the_stack() {
    for literal in ["0", "1", "1.2", "10", "3.14159", "123456789", "0.1", "1000000.5"] {
        let vm = finished(literal);
        let expected: f64 = literal.parse().unwrap();
        assert_eq!(vm.stack, vec![number(expected)], "{}", literal);
    }
}

#[test]
fn a_malformed_program_is_rejected_with_its_diagnostics() {
    match compile_and_run("let = 1;\n(2", read, compute, 100) {
        Launch::Rejected(errors) => assert_eq!(
            errors,
            vec![
                describe(ErrorKind::ExpectedName),
                describe(ErrorKind::ExpectedRightParen)
            ]
        ),
        Launch::Ran(..) => panic!("the program ran"),
    }
}

#[test]
fn a_numeral_that_the_reader_refuses_is_a_compile_error() {
    match compile_and_run("1 + 2", |_: &str| None, compute, 100) {
        Launch::Rejected(errors) => {
            assert_eq!(errors, vec![describe(ErrorKind::NumberNotRead)])
        }
        Launch::Ran(..) => panic!("the program ran"),
    }
}

#[test]
fn run_tokens_takes_tokens_that_are_read() {
    let tokens = read_numbers(Lexer::new("2 * 3.5").tokenize(), read);
    match run_tokens(tokens, compute, 100) {
        Launch::Ran(vm, signal) => {
            assert_eq!(signal, Signal::Halt(InterpretResult::Success));
            assert_eq!(vm.stack, vec![number(7.0)]);
        }
        Launch::Rejected(errors) => panic!("{:?}", errors),
    }
}

#[test]
fn a_run_time_error_is_reported() {
    let (vm, signal) = ran("1 + true");
    assert_eq!(signal, Signal::Halt(InterpretResult::RuntimeError));
    assert!(vm.stack.is_empty());
    let (_, signal) = ran("-\"a\"");
    assert_eq!(signal, Signal::Halt(InterpretResult::RuntimeError));
    let (_, signal) = ran("a");
    assert_eq!(signal, Signal::Halt(InterpretResult::RuntimeError));
    let (_, signal) = ran("1 < \"a\"");
    assert_eq!(signal, Signal::Halt(InterpretResult::RuntimeError));
}

#[test]
fn arithmetic_follows_the_binding_powers() {
    assert_eq!(finished("1 + 2 * 3").stack, vec![number(7.0)]);
    assert_eq!(finished("(1 + 2) * 3").stack, vec![number(9.0)]);
    assert_eq!(finished("10 - 4 - 3").stack, vec![number(3.0)]);
    assert_eq!(finished("100 / 10 / 5").stack, vec![number(2.0)]);
    assert_eq!(finished("-(1 + 2)").stack, vec![number(-3.0)]);
    assert_eq!(finished("1 + 2 < 4 == true").stack, vec![Value::Boolean(true)]);
    assert_eq!(finished("!(1 > 2)").stack, vec![Value::Boolean(true)]);
}

#[test]
fn text_is_joined_in_order() {
    assert_eq!(
        finished("\"a\" + \"b\" + \"c\"").stack,
        vec![Value::String("abc".to_string())]
    );
}

#[test]
fn a_defined_value_stays_on_the_stack() {
    let vm = finished("let a = 1");
    assert_eq!(vm.stack, vec![number(1.0)]);
    assert_eq!(global(&vm, "a"), number(1.0));
}

#[test]
fn globals_are_defined_read_and_overwritten() {
    let vm = finished("let a = 1\nlet b = a + 3\na = b * 2");
    assert_eq!(global(&vm, "a"), number(8.0));
    assert_eq!(global(&vm, "b"), number(4.0));
    assert_eq!(vm.globals.len(), 2);
}

#[test]
fn assigning_to_an_unknown_global_defines_it() {
    let vm = finished("a = 3");
    assert_eq!(global(&vm, "a"), number(3.0));
    assert!(vm.stack.is_empty());
}

#[test]
fn an_if_runs_its_block_when_the_condition_holds() {
    let vm = finished("let r = 0 if 1 < 2 { r = 1 }");
    assert_eq!(global(&vm, "r"), number(1.0));
    assert_eq!(vm.stack, vec![number(0.0)]);
}

#[test]
fn an_if_skips_its_block_when_the_condition_fails() {
    let vm = finished("let r = 0 if 2 < 1 { r = 1 }");
    assert_eq!(global(&vm, "r"), number(0.0));
    assert_eq!(vm.stack, vec![number(0.0)]);
}

#[test]
fn an_if_with_else_runs_one_block() {
    let vm = finished("let r = 0 if true { r = 1 } else { r = 2 }");
    assert_eq!(global(&vm, "r"), number(1.0));
    let vm = finished("let r = 0 if null { r = 1 } else { r = 2 }");
    assert_eq!(global(&vm, "r"), number(2.0));
    assert_eq!(vm.stack, vec![number(0.0)]);
}

#[test]
fn a_block_of_any_length_is_jumped_over_exactly() {
    for n in 0..8 {
        let mut input = String::from("let r = 0 let s = 0 if false {");
        for _ in 0..n {
            input.push_str(" r = r + 1");
        }
        input.push_str(" } s = 7");
        let vm = finished(&input);
        assert_eq!(global(&vm, "r"), number(0.0), "{}", input);
        assert_eq!(global(&vm, "s"), number(7.0), "{}", input);
        let taken = input.replace("if false", "if true");
        let vm = finished(&taken);
        assert_eq!(global(&vm, "r"), number(n as f64), "{}", taken);
        assert_eq!(global(&vm, "s"), number(7.0), "{}", taken);
    }
}

#[test]
fn locals_in_the_blocks_of_an_if() {
    let vm = finished(
        "let g = 0 let h = 0
         { let a = 5
           if a > 3 { let b = a * 2 g = b + a } else { let b = 1 g = b }
           if a > 9 { let c = 1 h = c } else { let c = a - 1 { let d = c * c h = d + a } }
         }",
    );
    assert_eq!(global(&vm, "g"), number(15.0));
    assert_eq!(global(&vm, "h"), number(21.0));
    assert_eq!(vm.stack, vec![number(0.0), number(0.0)]);
}

#[test]
fn an_if_in_a_loop_leaves_the_stack_as_it_was() {
    let vm = finished(
        "let i = 0 let n = 0
         while i < 10 {
             if i > 4 { n = n + 1 }
             if i > 7 { let k = 2 n = n + k } else { }
             i = i + 1
         }",
    );
    assert_eq!(global(&vm, "n"), number(9.0));
    assert_eq!(vm.stack, vec![number(0.0), number(0.0)]);
}

#[test]
fn zero_is_true() {
    let vm = finished("let r = 0 if 0 { r = 1 }");
    assert_eq!(global(&vm, "r"), number(1.0));
}

#[test]
fn a_while_runs_until_its_condition_fails() {
    let vm = finished("let i = 0 let s = 0 while i < 5 { s = s + i i = i + 1 }");
    assert_eq!(global(&vm, "i"), number(5.0));
    assert_eq!(global(&vm, "s"), number(10.0));
    assert_eq!(vm.stack, vec![number(0.0), number(0.0)]);
}

#[test]
fn a_while_whose_condition_fails_at_once_runs_nothing() {
    let vm = finished("let s = 1 while false { s = 2 }");
    assert_eq!(global(&vm, "s"), number(1.0));
}

#[test]
fn locals_live_in_their_block() {
    let vm = finished("let g = 0 { let x = 2 let y = x + 3 g = y * x }");
    assert_eq!(global(&vm, "g"), number(10.0));
    assert_eq!(vm.stack, vec![number(0.0)]);
    assert_eq!(vm.globals.len(), 1);
}

#[test]
fn a_local_is_assigned_in_place() {
    let vm = finished("let g = 0 { let x = 1 x = x + 1 g = x }");
    assert_eq!(global(&vm, "g"), number(2.0));
    assert_eq!(vm.stack, vec![number(0.0)]);
}

#[test]
fn an_inner_local_hides_the_outer_one() {
    let vm = finished("let g = 0 let h = 0 { let x = 1 { let x = 2 g = x } h = x }");
    assert_eq!(global(&vm, "g"), number(2.0));
    assert_eq!(global(&vm, "h"), number(1.0));
}

#[test]
fn a_local_in_a_loop_is_made_anew_each_time() {
    let vm = finished("let i = 0 let s = 0 while i < 3 { let t = i * 2 s = s + t i = i + 1 }");
    assert_eq!(global(&vm, "s"), number(6.0));
    assert_eq!(vm.stack, vec![number(0.0), number(0.0)]);
}

#[test]
fn nested_control_flow() {
    let vm = finished(
        "let i = 0 let even = 0 let odd = 0
         while i < 6 {
             let half = i / 2
             if half * 2 == i { even = even + 1 } else { odd = odd + i }
             i = i + 1
         }",
    );
    assert_eq!(global(&vm, "i"), number(6.0));
    assert_eq!(global(&vm, "even"), number(6.0));
    assert_eq!(global(&vm, "odd"), number(0.0));
}

#[test]
fn a_return_hands_the_value_to_the_host() {
    let (vm, signal) = ran("let a = 2 return a * 21; a = 0");
    assert_eq!(signal, Signal::Return(number(42.0)));
    assert_eq!(global(&vm, "a"), number(2.0));
}

#[test]
fn an_endless_program_stops_at_the_budget() {
    match compile_and_run("while true { }", read, compute, 50) {
        Launch::Ran(mut vm, signal) => {
            assert_eq!(signal, Signal::Continue);
            assert_eq!(vm.run(compute, 50), Signal::Continue);
        }
        Launch::Rejected(errors) => panic!("{:?}", errors),
    }
}

#[test]
fn the_empty_program_succeeds() {
    let vm = finished("");
    assert!(vm.stack.is_empty());
    assert_eq!(vm.chunk().len(), 0);
}
