use vstd::prelude::*;

use crate::program::{Program, RIGHT, LEFT, INC, DEC, OUTPUT, INPUT, OPEN, CLOSE, jumps_valid};

verus! {

/// Why a run stopped before the end of the program.
#[derive(Debug, Clone, Copy, PartialEq, Eq, Structural)]
pub enum RuntimeError {
    /// A `,` found no input byte left.
    InputExhausted,
    /// A `<` with the cell pointer at cell 0. The tape has no cell left of 0,
    /// and the pointer is never moved there.
    PointerUnderflow,
}

/// The state of a run: program counter, cell pointer and tape.
pub struct State {
    pub pc: int,
    pub ptr: int,
    pub tape: Seq<u8>,
}

/// The state a run starts in: at the first instruction, on a tape of one
/// zeroed cell.
pub open spec fn initial_state() -> State {
    State { pc: 0, ptr: 0, tape: seq![0u8] }
}

/// The value of cell `i` in `s`: what the tape holds there, and zero past its
/// end, where the tape has not grown yet.
pub open spec fn cell_value(s: State, i: int) -> u8 {
    if 0 <= i < s.tape.len() {
        s.tape[i]
    } else {
        0
    }
}

/// The cell pointer points into the tape.
pub open spec fn state_valid(s: State) -> bool {
    0 <= s.ptr < s.tape.len() && 0 <= s.pc
}

/// The run has gone past the last instruction of `code`.
pub open spec fn halted(code: Seq<u8>, s: State) -> bool {
    s.pc >= code.len()
}

/// `v + 1` modulo 256.
pub open spec fn inc_cell(v: u8) -> u8 {
    ((v + 1) % 256) as u8
}

/// `v - 1` modulo 256.
pub open spec fn dec_cell(v: u8) -> u8 {
    ((v + 255) % 256) as u8
}

/// One step of a run from `s`: the instruction at the program counter is
/// executed. `input` is the next input byte, if any is left; only `,` takes
/// it. The result is the byte written, if any, or the error that stopped the
/// run, and the next state. An error leaves the state as it was; a halted run
/// stays as it is.
pub open spec fn step_spec(code: Seq<u8>, jump: Seq<usize>, s: State, input: Option<u8>) -> (
    Result<Option<u8>, RuntimeError>,
    State,
) {
    if halted(code, s) {
        (Ok(None), s)
    } else {
        let op = code[s.pc];
        let cur = s.tape[s.ptr];
        let next = State { pc: s.pc + 1, ..s };
        if op == RIGHT {
            let tape = if s.ptr + 1 == s.tape.len() {
                s.tape.push(0)
            } else {
                s.tape
            };
            (Ok(None), State { pc: s.pc + 1, ptr: s.ptr + 1, tape })
        } else if op == LEFT {
            if s.ptr == 0 {
                (Err(RuntimeError::PointerUnderflow), s)
            } else {
                (Ok(None), State { ptr: s.ptr - 1, ..next })
            }
        } else if op == INC {
            (Ok(None), State { tape: s.tape.update(s.ptr, inc_cell(cur)), ..next })
        } else if op == DEC {
            (Ok(None), State { tape: s.tape.update(s.ptr, dec_cell(cur)), ..next })
        } else if op == OUTPUT {
            (Ok(Some(cur)), next)
        } else if op == INPUT {
            match input {
                None => (Err(RuntimeError::InputExhausted), s),
                Some(b) => (Ok(None), State { tape: s.tape.update(s.ptr, b), ..next }),
            }
        } else if op == OPEN && cur == 0 {
            (Ok(None), State { pc: jump[s.pc] + 1, ..s })
        } else if op == CLOSE && cur != 0 {
            (Ok(None), State { pc: jump[s.pc] + 1, ..s })
        } else {
            (Ok(None), next)
        }
    }
}

/// A run from `s` on `input` for at most `fuel` steps: `Ok(true)` when it
/// halts, `Ok(false)` when the steps run out first, or the error that stopped
/// it; with the bytes written meanwhile, in order.
pub open spec fn run_spec(code: Seq<u8>, jump: Seq<usize>, s: State, input: Seq<u8>, fuel: nat) -> (
    Result<bool, RuntimeError>,
    Seq<u8>,
)
    decreases fuel,
{
    if halted(code, s) {
        (Ok(true), seq![])
    } else if fuel == 0 {
        (Ok(false), seq![])
    } else {
        let next_input = if input.len() > 0 {
            Some(input[0])
        } else {
            None
        };
        let (r, s2) = step_spec(code, jump, s, next_input);
        match r {
            Err(e) => (Err(e), seq![]),
            Ok(o) => {
                let rest = if code[s.pc] == INPUT {
                    input.drop_first()
                } else {
                    input
                };
                let (r2, out) = run_spec(code, jump, s2, rest, (fuel - 1) as nat);
                match o {
                    Some(b) => (r2, seq![b] + out),
                    None => (r2, out),
                }
            },
        }
    }
}

/// The state of a run of a program.
pub struct Machine {
    pc: usize,
    ptr: usize,
    tape: Vec<u8>,
}

impl View for Machine {
    type V = State;

    closed spec fn view(&self) -> State {
        State { pc: self.pc as int, ptr: self.ptr as int, tape: self.tape@ }
    }
}

impl Machine {
    /// The cell pointer points into the tape.
    pub open spec fn inv(&self) -> bool {
        state_valid(self@)
    }

    /// A machine at the start of a run.
    pub fn new() -> (m: Machine)
        ensures
            m@ == initial_state(),
            m.inv(),
    {
        let m = Machine { pc: 0, ptr: 0, tape: vec![0u8] };
        assert(m.tape@ =~= seq![0u8]);
        m
    }

    /// The program counter.
    pub fn pc(&self) -> (r: usize)
        ensures
            r == self@.pc,
    {
        self.pc
    }

    /// The cell pointer.
    pub fn ptr(&self) -> (r: usize)
        ensures
            r == self@.ptr,
    {
        self.ptr
    }

    /// The value of cell `i`; zero past the end of the tape.
    pub fn cell(&self, i: usize) -> (r: u8)
        ensures
            r == cell_value(self@, i as int),
    {
        if i < self.tape.len() {
            self.tape[i]
        } else {
            0
        }
    }
}

impl Program {
    /// The run in `m` has gone past the last instruction.
    pub fn is_halted(&self, m: &Machine) -> (r: bool)
        ensures
            r == halted(self.code_view(), m@),
    {
        m.pc >= self.instructions().len()
    }

    /// The next instruction of the run in `m` is a `,`, which takes an input
    /// byte.
    pub fn wants_input(&self, m: &Machine) -> (r: bool)
        ensures
            r == (!halted(self.code_view(), m@) && self.code_view()[m@.pc] == INPUT),
    {
        let code = self.instructions();
        m.pc < code.len() && code[m.pc] == INPUT
    }

    /// Executes one instruction of the run in `m`. `input` is the next input
    /// byte, or `None` where the input is exhausted; only `,` takes it.
    /// Returns the byte that a `.` writes.
    pub fn step(&self, m: &mut Machine, input: Option<u8>) -> (r: Result<Option<u8>, RuntimeError>)
        requires
            self.wf(),
            old(m).inv(),
        ensures
            final(m).inv(),
            (r, final(m)@) == step_spec(self.code_view(), self.jump_view(), old(m)@, input),
    {
        let code = self.instructions();
        let jump = self.jump_table();
        if m.pc >= code.len() {
            return Ok(None);
        }
        let op = code[m.pc];
        let cur = m.tape[m.ptr];
        if op == RIGHT {
            let len = m.tape.len();
            m.ptr = m.ptr + 1;
            if m.ptr == len {
                m.tape.push(0);
            }
        } else if op == LEFT {
            if m.ptr == 0 {
                return Err(RuntimeError::PointerUnderflow);
            }
            m.ptr = m.ptr - 1;
        } else if op == INC {
            m.tape.set(m.ptr, cur.wrapping_add(1));
        } else if op == DEC {
            m.tape.set(m.ptr, cur.wrapping_sub(1));
        } else if op == OUTPUT {
            m.pc = m.pc + 1;
            return Ok(Some(cur));
        } else if op == INPUT {
            match input {
                None => {
                    return Err(RuntimeError::InputExhausted);
                },
                Some(b) => {
                    m.tape.set(m.ptr, b);
                },
            }
        } else if (op == OPEN && cur == 0) || (op == CLOSE && cur != 0) {
            m.pc = jump[m.pc];
        }
        m.pc = m.pc + 1;
        Ok(None)
    }

    /// Runs the program from its start on `input` for at most `max_steps`
    /// steps, and appends the bytes it writes to `output`. Returns `Ok(true)`
    /// when the run went past the last instruction, `Ok(false)` when the steps
    /// ran out first, or the error that stopped it. Bytes written before an
    /// error stay in `output`.
    pub fn run(&self, input: &[u8], output: &mut Vec<u8>, max_steps: u64) -> (r: Result<bool, RuntimeError>)
        requires
            self.wf(),
        ensures
            r == run_spec(self.code_view(), self.jump_view(), initial_state(), input@, max_steps as nat).0,
            final(output)@ == old(output)@ + run_spec(
                self.code_view(),
                self.jump_view(),
                initial_state(),
                input@,
                max_steps as nat,
            ).1,
    {
        let ghost code = self.code_view();
        let ghost jump = self.jump_view();
        let ghost whole = run_spec(code, jump, initial_state(), input@, max_steps as nat);
        let ghost start = output@;
        let ghost mut done: Seq<u8> = seq![];
        let mut m = Machine::new();
        let mut pos: usize = 0;
        let mut fuel: u64 = max_steps;
        assert(input@.skip(0) =~= input@);
        assert(done + whole.1 =~= whole.1);
        loop
            invariant
                self.wf(),
                m.inv(),
                pos <= input.len(),
                code == self.code_view(),
                jump == self.jump_view(),
                whole == run_spec(code, jump, initial_state(), input@, max_steps as nat),
                whole.0 == run_spec(code, jump, m@, input@.skip(pos as int), fuel as nat).0,
                whole.1 == done + run_spec(code, jump, m@, input@.skip(pos as int), fuel as nat).1,
                start == old(output)@,
                output@ == start + done,
            decreases fuel,
        {
            let ghost rest = input@.skip(pos as int);
            if self.is_halted(&m) {
                assert(done + seq![] =~= done);
                return Ok(true);
            }
            if fuel == 0 {
                assert(done + seq![] =~= done);
                return Ok(false);
            }
            let next = if pos < input.len() {
                Some(input[pos])
            } else {
                None
            };
            let takes = self.wants_input(&m);
            let ghost before = m@;
            match self.step(&mut m, next) {
                Err(e) => {
                    assert(done + seq![] =~= done);
                    return Err(e);
                },
                Ok(o) => {
                    proof {
                        if takes {
                            assert(input@.skip(pos + 1) =~= rest.drop_first());
                        }
                    }
                    match o {
                        Some(b) => {
                            output.push(b);
                            proof {
                                let tail = run_spec(
                                    code,
                                    jump,
                                    m@,
                                    if takes { input@.skip(pos + 1) } else { rest },
                                    (fuel - 1) as nat,
                                ).1;
                                assert(done + (seq![b] + tail) =~= done.push(b) + tail);
                                done = done.push(b);
                            }
                        },
                        None => {},
                    }
                    if takes {
                        pos = pos + 1;
                    }
                    fuel = fuel - 1;
                },
            }
        }
    }
}

} // verus!
