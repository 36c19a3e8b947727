//! The interpreter for Dawn (dwn): runs a program's source lines in order
//! against one environment and one execution context.

use vstd::prelude::*;

use crate::Abort;
use crate::dwn::{Environment, Metadata};
use crate::numbers::Numerics;
use crate::text::{chars_of, remove_all_after_chars, split_on, string_of, trim_end_chars};

verus! {

/// The function to remove every character in `text` after `ch` is reached
/// (including `ch`).
pub fn remove_all_after(text: String, ch: char) -> (r: String)
    ensures
        r@ == split_on(text@, ch)[0],
{
    let cs = chars_of(text.as_str());
    let cut = remove_all_after_chars(&cs, ch);
    string_of(&cut)
}

/// Interprets a program given as its source lines: each line loses its
/// comment tail and trailing blank space, then runs; the first abort ends
/// the run. The context's scope-capture state carries across lines, which
/// is what lets a scope body span several of them.
#[verifier::loop_isolation(false)]
pub fn interpret_lines<E: Numerics>(
    lines: &Vec<String>,
    env: &mut Environment,
    eng: &E,
    fuel: u32,
) -> (r: Result<(), Abort>)
    requires
        old(env).wf(),
    ensures
        final(env).wf(),
        lines@.len() == 0 ==> r is Ok && final(env)@ == old(env)@,
        lines@.len() == 1 && crate::lexer::bare_int_line(lines@[0]@, *old(env)) ==> r is Ok
            && final(env)@ == old(env)@,
{
    let ghost pinned = lines@.len() == 1 && crate::lexer::bare_int_line(lines@[0]@, *old(env));
    let mut meta = Metadata::new(0);
    let mut count: usize = 0;
    while count < lines.len()
        invariant
            env.wf(),
            lines@.len() == 0 ==> env@ == old(env)@,
            pinned ==> (count == 0 || count == 1) && env@ == old(env)@ && !meta.in_scope,
        decreases lines@.len() - count,
    {
        meta.line_count = count;
        let raw = chars_of(lines[count].as_str());
        proof {
            if pinned {
                crate::numbers::lemma_i64_chars(lines@[0]@);
                assert(forall|j: int|
                    0 <= j < raw@.len() ==> #[trigger] raw@[j] != ';' && !crate::text::is_space(
                        raw@[j],
                    )) by {
                    assert(forall|j: int|
                        0 <= j < raw@.len() ==> crate::numbers::is_digit(#[trigger] raw@[j]) || (j
                            == 0 && (raw@[0] == '+' || raw@[0] == '-')));
                }
                crate::text::lemma_split_single(raw@, ';');
            }
        }
        let cut = remove_all_after_chars(&raw, ';');
        let trimmed = trim_end_chars(&cut);
        proof {
            if pinned {
                assert(cut@ == raw@);
                assert(trimmed@ == raw@);
            }
        }
        match crate::runner::run(string_of(&trimmed), &mut meta, env, eng, fuel) {
            Ok(_) => {},
            Err(a) => {
                return Err(a);
            },
        }
        count += 1;
    }
    Ok(())
}

} // verus!
