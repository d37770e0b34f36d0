//! An interpreter for the eight-instruction tape language: `>` `<` `+` `-`
//! `.` `,` `[` `]`. A program is loaded once (comments stripped, brackets
//! matched) and then run step by step on a growable tape of wrapping bytes.
use vstd::prelude::*;

pub mod laws;
pub mod machine;
pub mod program;

use crate::machine::{RuntimeError, initial_state, run_spec};
use crate::program::{LoadError, Program, balanced, strip_comments};

verus! {

/// Why loading or running a program failed.
#[derive(Debug, Clone, Copy, PartialEq, Eq, Structural)]
pub enum Error {
    /// The program did not load; nothing ran.
    Load(LoadError),
    /// The run stopped on this error.
    Runtime(RuntimeError),
}

/// Loads `source` and runs it on `input` for at most `max_steps` steps,
/// appending what it writes to `output`. Returns `Ok(true)` when the run
/// went past the last instruction and `Ok(false)` when the steps ran out.
/// A program that does not load writes nothing.
pub fn interpret(source: &[u8], input: &[u8], output: &mut Vec<u8>, max_steps: u64) -> (r: Result<
    bool,
    Error,
>)
    ensures
        !balanced(strip_comments(source@)) ==> r == Err::<bool, Error>(
            Error::Load(LoadError::UnbalancedBrackets),
        ) && final(output)@ == old(output)@,
        balanced(strip_comments(source@)) ==> exists|p: Program|
            {
                &&& #[trigger] p.code_view() == strip_comments(source@)
                &&& p.wf()
                &&& r == match run_spec(
                    p.code_view(),
                    p.jump_view(),
                    initial_state(),
                    input@,
                    max_steps as nat,
                ).0 {
                    Ok(h) => Ok::<bool, Error>(h),
                    Err(e) => Err(Error::Runtime(e)),
                }
                &&& final(output)@ == old(output)@ + run_spec(
                    p.code_view(),
                    p.jump_view(),
                    initial_state(),
                    input@,
                    max_steps as nat,
                ).1
            },
{
    match Program::new(source) {
        Err(e) => Err(Error::Load(e)),
        Ok(p) => match p.run(input, output, max_steps) {
            Ok(h) => Ok(h),
            Err(e) => Err(Error::Runtime(e)),
        },
    }
}

} // verus!
