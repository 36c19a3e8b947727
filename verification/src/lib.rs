//! Dawn (`dwn`) is a small line-oriented scripting language. This crate is the
//! language engine: the lexer that turns one source line into tokens, the
//! evaluator that executes token lists against a scoped variable environment,
//! and the bytecode codec that serializes token streams to the persisted
//! `.light` form and back.

pub mod argparser;
pub mod bytecode;
pub mod dwn;
pub mod framework;
pub mod interpreter;
pub mod lexer;
pub mod numbers;
pub mod runner;
pub mod text;

use vstd::prelude::*;

verus! {

/// How a run of the engine ends when it does not produce a value: a fatal,
/// line-numbered message (the driver prints it and exits non-zero), an
/// explicit exit with a code (the `quit`/`exit` builtin), or exhaustion of
/// the recursion and iteration budget that every call into the engine is
/// given.
#[derive(Debug)]
pub enum Abort {
    Fatal(String),
    Exit(i32),
    Budget,
}

/// A fatal abort whose message names the 1-based source line: the engine's
/// uniform `Error on line N: ...` shape, stated exactly.
pub fn fatal_at(line_count: usize, msg: &str) -> (r: Abort)
    ensures
        r matches Abort::Fatal(m) && m@ == "Error on line "@ + crate::numbers::dec_digits(
            if line_count == usize::MAX {
                line_count as int
            } else {
                line_count as int + 1
            },
        ) + ": "@ + msg@,
{
    let n: usize = if line_count == usize::MAX {
        line_count
    } else {
        line_count + 1
    };
    let mut m = "Error on line ".to_owned();
    let n_text = crate::numbers::dec_string(n);
    m.append(n_text.as_str());
    m.append(": ");
    m.append(msg);
    Abort::Fatal(m)
}

/// A fatal abort with the message as it stands.
pub fn fatal(msg: &str) -> (r: Abort)
    ensures
        r matches Abort::Fatal(m) && m@ == msg@,
{
    Abort::Fatal(msg.to_owned())
}

} // verus!
