use vstd::prelude::*;

use crate::machine::{
    RuntimeError, State, cell_value, dec_cell, inc_cell, initial_state, run_spec, state_valid,
    step_spec,
};
use crate::program::{CLOSE, DEC, INC, INPUT, OPEN, OUTPUT, RIGHT, brackets_match, jumps_valid};

verus! {

/// A `]` closes at most one `[`, and a `[` is closed by at most one `]`.
pub proof fn lemma_match_unique(code: Seq<u8>, i: int, j: int, a: int, b: int)
    requires
        brackets_match(code, i, j),
        brackets_match(code, a, b),
        i == a || j == b,
    ensures
        i == a && j == b,
{
    if i == a && j < b {
        assert(level_gt(code, a, j + 1));
    } else if i == a && b < j {
        assert(level_gt(code, i, b + 1));
    } else if j == b && i < a {
        assert(level_gt(code, i, a));
    } else if j == b && a < i {
        assert(level_gt(code, a, i));
    }
}

spec fn level_gt(code: Seq<u8>, i: int, p: int) -> bool {
    crate::program::level(code, p) > crate::program::level(code, i)
}

/// In a valid jump table, following the jump of a bracket and then the jump
/// of the bracket reached leads back to where it started.
pub proof fn lemma_jump_involution(code: Seq<u8>, jump: Seq<usize>)
    requires
        jumps_valid(code, jump),
    ensures
        forall|i: int|
            0 <= i < code.len() && (code[i] == OPEN || code[i] == CLOSE) ==> jump[jump[i] as int]
                == i,
{
    assert forall|i: int|
        0 <= i < code.len() && (code[i] == OPEN || code[i] == CLOSE) implies jump[jump[i] as int]
        == i by {
        let k = jump[i] as int;
        if code[i] == OPEN {
            assert(brackets_match(code, i, k));
            assert(brackets_match(code, jump[k] as int, k));
            lemma_match_unique(code, i, k, jump[k] as int, k);
        } else {
            assert(brackets_match(code, k, i));
            assert(brackets_match(code, k, jump[k] as int));
            lemma_match_unique(code, k, i, k, jump[k] as int);
        }
    }
}

/// `+` and `-` count modulo 256: `+` on 255 gives 0, `-` on 0 gives 255.
pub proof fn lemma_cell_arithmetic_wraps(
    code: Seq<u8>,
    jump: Seq<usize>,
    s: State,
    input: Option<u8>,
)
    requires
        state_valid(s),
        s.pc < code.len(),
        code[s.pc] == INC || code[s.pc] == DEC,
    ensures
        ({
            let v = s.tape[s.ptr];
            let t = step_spec(code, jump, s, input).1.tape;
            &&& code[s.pc] == INC ==> t[s.ptr] == (v + 1) % 256
            &&& code[s.pc] == DEC ==> t[s.ptr] == (v + 255) % 256
            &&& code[s.pc] == INC && v == 255 ==> t[s.ptr] == 0
            &&& code[s.pc] == DEC && v == 0 ==> t[s.ptr] == 255
        }),
{
}

/// The tape starts as zeroes everywhere.
pub proof fn lemma_tape_starts_zeroed()
    ensures
        state_valid(initial_state()),
        forall|i: int| cell_value(initial_state(), i) == 0,
{
}

/// Moving right changes no cell: where the tape grows, the new cell reads 0,
/// as it read before; and the pointer lands on a cell of the tape.
pub proof fn lemma_tape_growth_transparent(
    code: Seq<u8>,
    jump: Seq<usize>,
    s: State,
    input: Option<u8>,
)
    requires
        state_valid(s),
        s.pc < code.len(),
        code[s.pc] == RIGHT,
    ensures
        ({
            let (r, t) = step_spec(code, jump, s, input);
            &&& r == Ok::<Option<u8>, RuntimeError>(None)
            &&& state_valid(t)
            &&& t.ptr == s.ptr + 1
            &&& forall|i: int| cell_value(t, i) == cell_value(s, i)
        }),
{
}

/// The state after `n` steps from `s` that take no input.
pub open spec fn advance(code: Seq<u8>, jump: Seq<usize>, s: State, n: nat) -> State
    decreases n,
{
    if n == 0 {
        s
    } else {
        advance(code, jump, step_spec(code, jump, s, None).1, (n - 1) as nat)
    }
}

/// `n` moves to the right, however far they take the pointer past the end
/// of the tape, change no cell. A `,` that then stores a byte there, and a
/// `.` after it, write that byte back; every other cell still reads as it
/// did before the moves, so cells that were never written read 0.
pub proof fn lemma_far_write_read_back(
    code: Seq<u8>,
    jump: Seq<usize>,
    s: State,
    n: nat,
    b: u8,
)
    requires
        state_valid(s),
        s.pc + n + 2 <= code.len(),
        forall|k: int| s.pc <= k < s.pc + n ==> code[k] == RIGHT,
        code[s.pc + n] == INPUT,
        code[s.pc + n + 1] == OUTPUT,
    ensures
        ({
            let t = advance(code, jump, s, n);
            let u = step_spec(code, jump, t, Some(b)).1;
            &&& state_valid(t)
            &&& t.pc == s.pc + n
            &&& t.ptr == s.ptr + n
            &&& forall|i: int| cell_value(t, i) == cell_value(s, i)
            &&& step_spec(code, jump, u, None).0 == Ok::<Option<u8>, RuntimeError>(Some(b))
            &&& forall|i: int| i != s.ptr + n ==> cell_value(u, i) == cell_value(s, i)
        }),
    decreases n,
{
    if n > 0 {
        let s2 = step_spec(code, jump, s, None).1;
        assert(code[s.pc] == RIGHT);
        lemma_tape_growth_transparent(code, jump, s, None);
        lemma_far_write_read_back(code, jump, s2, (n - 1) as nat, b);
    }
}

/// `[]` on a zero cell writes nothing and halts in one step.
pub proof fn lemma_empty_loop_skipped(
    code: Seq<u8>,
    jump: Seq<usize>,
    s: State,
    input: Seq<u8>,
    fuel: nat,
)
    requires
        code == seq![OPEN, CLOSE],
        jumps_valid(code, jump),
        state_valid(s),
        s.pc == 0,
        s.tape[s.ptr] == 0,
        fuel >= 1,
    ensures
        run_spec(code, jump, s, input, fuel) == (Ok::<bool, RuntimeError>(true), Seq::<u8>::empty()),
{
    assert(brackets_match(code, 0, jump[0] as int));
    let next = if input.len() > 0 {
        Some(input[0])
    } else {
        None
    };
    let s2 = step_spec(code, jump, s, next).1;
    assert(s2.pc == 2);
    assert(run_spec(code, jump, s2, input, (fuel - 1) as nat) == (
        Ok::<bool, RuntimeError>(true),
        Seq::<u8>::empty(),
    ));
}

/// A `,` with no input left stops the run with `InputExhausted`.
pub proof fn lemma_input_exhausted(code: Seq<u8>, jump: Seq<usize>, s: State, fuel: nat)
    requires
        state_valid(s),
        s.pc < code.len(),
        code[s.pc] == INPUT,
        fuel >= 1,
    ensures
        step_spec(code, jump, s, None).0 == Err::<Option<u8>, RuntimeError>(
            RuntimeError::InputExhausted,
        ),
        run_spec(code, jump, s, Seq::empty(), fuel).0 == Err::<bool, RuntimeError>(
            RuntimeError::InputExhausted,
        ),
{
}

} // verus!
