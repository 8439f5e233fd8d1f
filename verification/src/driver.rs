//! From source text to a running machine.

use vstd::prelude::*;
use crate::compiler::{Compiler, texts};
use crate::grammar::{program_spec, start};
use crate::lexer::{Lexer, tokens_from};
use crate::number::ArithOp;
use crate::token::{Token, TokenView, numbers_read, read_numbers, token_views};
use crate::vm::{Signal, VirtualMachine, boot, driven};

verus! {

/// How the attempt to run a program went.
pub enum Launch {
    /// The program is malformed and did not run: its diagnostics, oldest
    /// first.
    Rejected(Vec<String>),
    /// The program compiled and ran: the machine, and the signal that the
    /// run ended with.
    Ran(VirtualMachine, Signal),
}

/// Whether `launch` is what compiling `tokens` and running the chunk gives,
/// for up to `budget` steps and with `arithmetic` for the arithmetic.
///
/// A program with a diagnostic is rejected with all its diagnostics, and does
/// not run. A program without one runs on a new machine, with an empty
/// stack and no globals.
pub open spec fn compiled_and_run<A: Fn(ArithOp, u64, u64) -> u64>(
    tokens: Seq<TokenView>,
    arithmetic: A,
    budget: nat,
    launch: Launch,
) -> bool {
    let compiled = program_spec(start(tokens));
    match launch {
        Launch::Rejected(errors) => compiled.errors.len() > 0 && texts(errors@)
            == compiled.errors,
        Launch::Ran(vm, signal) => compiled.errors.len() == 0 && driven(
            arithmetic,
            boot(compiled.chunk, Map::empty()),
            budget,
            vm@,
            signal@,
        ),
    }
}

/// Whether `launch` is what scanning `input`, reading its numbers with
/// `reader`, compiling the tokens and running the chunk gives.
pub open spec fn scanned_and_run<R: Fn(&str) -> Option<u64>, A: Fn(ArithOp, u64, u64) -> u64>(
    input: Seq<char>,
    reader: R,
    arithmetic: A,
    budget: nat,
    launch: Launch,
) -> bool {
    exists|scanned: Seq<Token>, tokens: Seq<Token>|
        {
            &&& token_views(scanned) == tokens_from(input, 0)
            &&& #[trigger] numbers_read(reader, scanned, tokens)
            &&& compiled_and_run(token_views(tokens), arithmetic, budget, launch)
        }
}

/// Compiles `tokens` and, where the program is well formed, runs it on a
/// new machine for up to `budget` steps, as [`compiled_and_run`] says.
pub fn run_tokens<A: Fn(ArithOp, u64, u64) -> u64>(
    tokens: Vec<Token>,
    arithmetic: A,
    budget: usize,
) -> (launch: Launch)
    requires
        forall|op: ArithOp, lhs: u64, rhs: u64| arithmetic.requires((op, lhs, rhs)),
    ensures
        compiled_and_run(token_views(tokens@), arithmetic, budget as nat, launch),
{
    let mut compiler = Compiler::new(tokens);
    compiler.compile();
    let (chunk, errors) = compiler.into_parts();
    if errors.len() > 0 {
        return Launch::Rejected(errors);
    }
    let mut vm = VirtualMachine::new(chunk);
    let signal = vm.run(arithmetic, budget);
    Launch::Ran(vm, signal)
}

/// Scans `input`, has `reader` read the value of every numeral, compiles the
/// tokens and, where the program is well formed, runs it on a new machine
/// for up to `budget` steps, as [`scanned_and_run`] says.
pub fn compile_and_run<R: Fn(&str) -> Option<u64>, A: Fn(ArithOp, u64, u64) -> u64>(
    input: &str,
    reader: R,
    arithmetic: A,
    budget: usize,
) -> (launch: Launch)
    requires
        forall|text: &str| reader.requires((text,)),
        forall|op: ArithOp, lhs: u64, rhs: u64| arithmetic.requires((op, lhs, rhs)),
    ensures
        scanned_and_run(input@, reader, arithmetic, budget as nat, launch),
{
    let mut lexer = Lexer::new(input);
    let scanned = lexer.tokenize();
    let ghost before = scanned@;
    let tokens = read_numbers(scanned, reader);
    let ghost read = tokens@;
    let launch = run_tokens(tokens, arithmetic, budget);
    assert(numbers_read(reader, before, read));
    launch
}

} // verus!
