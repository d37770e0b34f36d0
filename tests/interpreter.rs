use bf_idiomatic::machine::{Machine, RuntimeError};
use bf_idiomatic::program::{LoadError, Program};
use bf_idiomatic::{interpret, Error};

fn run_all(source: &[u8], input: &[u8]) -> (Result<bool, Error>, Vec<u8>) {
    let mut out = Vec::new();
    let r = interpret(source, input, &mut out, 10_000_000);
    (r, out)
}

#[test]
fn loader_strips_comments() {
    let p = Program::new(b"a+b[c-]d\n").unwrap();
    assert_eq!(p.instructions(), &b"+[-]".to_vec());
    assert_eq!(p.jump_table()[0], 0);
    assert_eq!(p.jump_table()[1], 3);
    assert_eq!(p.jump_table()[2], 0);
    assert_eq!(p.jump_table()[3], 1);
    assert_eq!(p.jump_table().len(), 4);
}

#[test]
fn loader_matches_nested_brackets() {
    let p = Program::new(b"[[]][]").unwrap();
    assert_eq!(p.jump_table(), &vec![3, 2, 1, 0, 5, 4]);
}

#[test]
fn jump_table_is_an_involution() {
    let sources: [&[u8]; 4] = [
        b"++++++++[>++++++++<-]>.",
        b"[[[]][[]]]",
        b"+[>[-]<[>+<-]]x[y]z",
        b"",
    ];
    for src in sources.iter() {
        let p = Program::new(src).unwrap();
        let code = p.instructions();
        let jump = p.jump_table();
        for i in 0..code.len() {
            if code[i] == b'[' || code[i] == b']' {
                assert_eq!(jump[jump[i]], i);
                assert_ne!(code[jump[i]], code[i]);
            }
        }
    }
}

#[test]
fn unmatched_close_is_rejected() {
    assert_eq!(Program::new(b"+]").err(), Some(LoadError::UnbalancedBrackets));
    assert_eq!(Program::new(b"[]][").err(), Some(LoadError::UnbalancedBrackets));
}

#[test]
fn unmatched_open_is_rejected() {
    assert_eq!(Program::new(b"[[]").err(), Some(LoadError::UnbalancedBrackets));
    assert_eq!(Program::new(b"+[").err(), Some(LoadError::UnbalancedBrackets));
}

#[test]
fn unbalanced_program_runs_nothing() {
    let (r, out) = run_all(b".+.]", b"");
    assert_eq!(r, Err(Error::Load(LoadError::UnbalancedBrackets)));
    assert!(out.is_empty());
}

#[test]
fn decrement_wraps_to_255() {
    let (r, out) = run_all(b"-.", b"");
    assert_eq!(r, Ok(true));
    assert_eq!(out, vec![255]);
}

#[test]
fn increment_wraps_to_zero() {
    let mut src = vec![b'-'];
    src.push(b'.');
    src.push(b'+');
    src.push(b'.');
    let (r, out) = run_all(&src, b"");
    assert_eq!(r, Ok(true));
    assert_eq!(out, vec![255, 0]);
    let mut src = vec![b'+'; 256];
    src.push(b'.');
    assert_eq!(run_all(&src, b"").1, vec![0]);
}

#[test]
fn tape_growth_is_transparent() {
    let mut src = vec![b'>'; 10_000];
    src.extend_from_slice(b"+++++++.<.>.");
    let (r, out) = run_all(&src, b"");
    assert_eq!(r, Ok(true));
    assert_eq!(out, vec![7, 0, 7]);
}

#[test]
fn far_cells_read_zero_through_machine() {
    let mut src = vec![b'>'; 300];
    src.extend_from_slice(b"++");
    let p = Program::new(&src).unwrap();
    let mut m = Machine::new();
    while !p.is_halted(&m) {
        assert_eq!(p.step(&mut m, None), Ok(None));
    }
    assert_eq!(m.ptr(), 300);
    assert_eq!(m.cell(300), 2);
    assert_eq!(m.cell(299), 0);
    assert_eq!(m.cell(0), 0);
    assert_eq!(m.cell(5000), 0);
}

#[test]
fn empty_loop_on_zero_cell_is_skipped() {
    let mut out = Vec::new();
    let p = Program::new(b"[]").unwrap();
    assert_eq!(p.run(b"", &mut out, 1), Ok(true));
    assert!(out.is_empty());
}

#[test]
fn echo_one_byte() {
    let (r, out) = run_all(b",.", &[0x41]);
    assert_eq!(r, Ok(true));
    assert_eq!(out, vec![0x41]);
}

#[test]
fn nested_loop_builds_64() {
    let (r, out) = run_all(b"++++++++[>++++++++<-]>.", b"");
    assert_eq!(r, Ok(true));
    assert_eq!(out, vec![64]);
}

#[test]
fn clear_loop_ends_with_no_output() {
    let (r, out) = run_all(b"+[-]", b"");
    assert_eq!(r, Ok(true));
    assert!(out.is_empty());
}

#[test]
fn missing_input_is_input_exhausted() {
    let (r, out) = run_all(b",.,.", &[7]);
    assert_eq!(r, Err(Error::Runtime(RuntimeError::InputExhausted)));
    assert_eq!(out, vec![7]);
}

#[test]
fn step_without_input_at_read_fails() {
    let p = Program::new(b",").unwrap();
    let mut m = Machine::new();
    assert!(p.wants_input(&m));
    assert_eq!(p.step(&mut m, None), Err(RuntimeError::InputExhausted));
    assert_eq!(m.pc(), 0);
    assert_eq!(p.step(&mut m, Some(9)), Ok(None));
    assert_eq!(m.cell(0), 9);
    assert!(p.is_halted(&m));
}

#[test]
fn moving_left_of_cell_zero_fails() {
    let (r, out) = run_all(b".<.", b"");
    assert_eq!(r, Err(Error::Runtime(RuntimeError::PointerUnderflow)));
    assert_eq!(out, vec![0]);
}

#[test]
fn step_budget_runs_out() {
    let mut out = Vec::new();
    let p = Program::new(b"+[]").unwrap();
    assert_eq!(p.run(b"", &mut out, 100), Ok(false));
    assert!(out.is_empty());
}

#[test]
fn output_keeps_earlier_bytes() {
    let mut out = vec![1, 2];
    let p = Program::new(b"+.").unwrap();
    assert_eq!(p.run(b"", &mut out, 10), Ok(true));
    assert_eq!(out, vec![1, 2, 1]);
}

#[test]
fn input_bytes_are_taken_in_order() {
    let (r, out) = run_all(b",>,<.>.", &[3, 4, 5]);
    assert_eq!(r, Ok(true));
    assert_eq!(out, vec![3, 4]);
}
