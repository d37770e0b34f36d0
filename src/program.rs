use vstd::prelude::*;

verus! {

/// `>`: move the cell pointer one cell right.
pub const RIGHT: u8 = 62;
/// `<`: move the cell pointer one cell left.
pub const LEFT: u8 = 60;
/// `+`: add one to the current cell, modulo 256.
pub const INC: u8 = 43;
/// `-`: subtract one from the current cell, modulo 256.
pub const DEC: u8 = 45;
/// `.`: write the current cell to the output.
pub const OUTPUT: u8 = 46;
/// `,`: read one byte of input into the current cell.
pub const INPUT: u8 = 44;
/// `[`: skip past the matching `]` when the current cell is zero.
pub const OPEN: u8 = 91;
/// `]`: go back to the matching `[` when the current cell is not zero.
pub const CLOSE: u8 = 93;

/// The reason a program cannot be loaded.
#[derive(Debug, Clone, Copy, PartialEq, Eq, Structural)]
pub enum LoadError {
    /// A `]` without a `[` before it, or a `[` that is never closed.
    UnbalancedBrackets,
}

/// True of the eight instruction bytes; every other byte is a comment.
pub open spec fn is_op(b: u8) -> bool {
    b == RIGHT || b == LEFT || b == INC || b == DEC || b == OUTPUT || b == INPUT || b == OPEN
        || b == CLOSE
}

/// The instructions of `s`, in order, with every comment byte left out.
pub open spec fn strip_comments(s: Seq<u8>) -> Seq<u8>
    decreases s.len(),
{
    if s.len() == 0 {
        seq![]
    } else {
        let rest = strip_comments(s.drop_last());
        if is_op(s.last()) {
            rest.push(s.last())
        } else {
            rest
        }
    }
}

/// How a single instruction changes the bracket nesting depth.
pub open spec fn nesting(b: u8) -> int {
    if b == OPEN {
        1
    } else if b == CLOSE {
        -1
    } else {
        0
    }
}

/// The nesting depth before position `p` of `code`: opening brackets minus
/// closing brackets among its first `p` instructions.
pub open spec fn level(code: Seq<u8>, p: int) -> int
    decreases p,
{
    if p <= 0 || p > code.len() {
        0
    } else {
        level(code, p - 1) + nesting(code[p - 1])
    }
}

/// No prefix of `code` closes more brackets than it opens, and the whole of
/// it closes all that it opens.
pub open spec fn balanced(code: Seq<u8>) -> bool {
    &&& level(code, code.len() as int) == 0
    &&& forall|p: int| 0 <= p <= code.len() ==> level(code, p) >= 0
}

/// The `]` at `j` closes the `[` at `i`: after `i` the depth stays above the
/// depth before `i` up to `j`, and falls back to it just after `j`.
pub open spec fn brackets_match(code: Seq<u8>, i: int, j: int) -> bool {
    &&& 0 <= i < j < code.len()
    &&& code[i] == OPEN
    &&& code[j] == CLOSE
    &&& level(code, j + 1) == level(code, i)
    &&& forall|p: int| i < p <= j ==> level(code, p) > level(code, i)
}

/// `jump` has one entry per instruction, and the entry of each bracket is the
/// position of the bracket that matches it.
pub open spec fn jumps_valid(code: Seq<u8>, jump: Seq<usize>) -> bool {
    &&& jump.len() == code.len()
    &&& forall|i: int|
        0 <= i < code.len() && code[i] == OPEN ==> brackets_match(code, i, #[trigger] jump[i] as int)
    &&& forall|j: int|
        0 <= j < code.len() && code[j] == CLOSE ==> brackets_match(code, #[trigger] jump[j] as int, j)
}

/// Two sequences that agree on their first `p` bytes have the same depth at `p`.
pub proof fn lemma_level_prefix(a: Seq<u8>, b: Seq<u8>, p: int)
    requires
        0 <= p <= a.len(),
        p <= b.len(),
        forall|q: int| 0 <= q < p ==> a[q] == b[q],
    ensures
        level(a, p) == level(b, p),
    decreases p,
{
    if p > 0 {
        lemma_level_prefix(a, b, p - 1);
    }
}

/// What comments are stripped from a prefix of `s` is a prefix of what they
/// are stripped from `s` itself.
pub proof fn lemma_strip_prefix(s: Seq<u8>, n: int)
    requires
        0 <= n <= s.len(),
    ensures
        strip_comments(s.take(n)).len() <= strip_comments(s).len(),
        forall|q: int|
            0 <= q < strip_comments(s.take(n)).len() ==> strip_comments(s.take(n))[q]
                == strip_comments(s)[q],
    decreases s.len(),
{
    if n < s.len() {
        assert(s.drop_last().take(n) =~= s.take(n));
        lemma_strip_prefix(s.drop_last(), n);
    } else {
        assert(s.take(n) =~= s);
    }
}

/// A loaded program: its instructions, with comments stripped, and the
/// position of the matching bracket for each bracket among them.
pub struct Program {
    code: Vec<u8>,
    jump: Vec<usize>,
}

impl Program {
    /// The instructions.
    pub closed spec fn code_view(&self) -> Seq<u8> {
        self.code@
    }

    /// The jump table.
    pub closed spec fn jump_view(&self) -> Seq<usize> {
        self.jump@
    }

    /// The jump table gives each bracket its match.
    pub open spec fn wf(&self) -> bool {
        jumps_valid(self.code_view(), self.jump_view())
    }

    /// The instructions.
    pub fn instructions(&self) -> (r: &Vec<u8>)
        ensures
            r@ == self.code_view(),
    {
        &self.code
    }

    /// The jump table: entry `i` is the position of the bracket matching the
    /// bracket at `i`, and 0 where `i` holds no bracket.
    pub fn jump_table(&self) -> (r: &Vec<usize>)
        ensures
            r@ == self.jump_view(),
    {
        &self.jump
    }

    /// Loads `source`: strips the comment bytes and matches the brackets.
    pub fn new(source: &[u8]) -> (r: Result<Program, LoadError>)
        ensures
            r is Ok <==> balanced(strip_comments(source@)),
            r is Err ==> r == Err::<Program, LoadError>(LoadError::UnbalancedBrackets),
            r matches Ok(p) ==> p.code_view() == strip_comments(source@) && p.wf(),
            r matches Ok(p) ==> forall|i: int|
                0 <= i < p.code_view().len() && p.code_view()[i] != OPEN && p.code_view()[i]
                    != CLOSE ==> #[trigger] p.jump_view()[i] == 0,
    {
        let mut code: Vec<u8> = Vec::new();
        let mut jump: Vec<usize> = Vec::new();
        let mut stack: Vec<usize> = Vec::new();
        let mut idx: usize = 0;
        while idx < source.len()
            invariant
                0 <= idx <= source.len(),
                code@ == strip_comments(source@.take(idx as int)),
                code.len() <= idx,
                jump.len() == code.len(),
                level(code@, code.len() as int) == stack.len(),
                forall|p: int| 0 <= p <= code.len() ==> level(code@, p) >= 0,
                forall|k: int|
                    0 <= k < stack.len() ==> {
                        &&& #[trigger] stack[k] < code.len()
                        &&& code[stack[k] as int] == OPEN
                        &&& level(code@, stack[k] as int) == k
                        &&& forall|p: int|
                            stack[k] < p <= code.len() ==> level(code@, p) > k
                    },
                forall|i: int|
                    0 <= i < code.len() && code[i] == OPEN ==> {
                        ||| (level(code@, i) < stack.len() && stack[level(code@, i)] == i)
                        ||| brackets_match(code@, i, #[trigger] jump[i] as int)
                    },
                forall|j: int|
                    0 <= j < code.len() && code[j] == CLOSE ==> brackets_match(
                        code@,
                        #[trigger] jump[j] as int,
                        j,
                    ),
                forall|i: int|
                    0 <= i < code.len() && code[i] != OPEN && code[i] != CLOSE ==> #[trigger] jump[i]
                        == 0,
            decreases source.len() - idx,
        {
            let b = source[idx];
            let ghost old_code = code@;
            let ghost old_jump = jump@;
            let ghost old_stack = stack@;
            assert(source@.take(idx + 1).drop_last() =~= source@.take(idx as int));
            if b == RIGHT || b == LEFT || b == INC || b == DEC || b == OUTPUT || b == INPUT {
                code.push(b);
                jump.push(0);
                assert forall|p: int| 0 <= p <= old_code.len() implies level(code@, p) == level(
                    old_code,
                    p,
                ) by {
                    lemma_level_prefix(code@, old_code, p);
                }
                assert(level(code@, code.len() as int) == level(old_code, old_code.len() as int)
                    + nesting(b));
                assert forall|i: int, j: int|
                    brackets_match(old_code, i, j) implies brackets_match(code@, i, j) by {
                    assert forall|p: int| i < p <= j implies level(code@, p) > level(code@, i) by {
                        lemma_level_prefix(code@, old_code, p);
                    }
                }
                assert(forall|i: int| 0 <= i < old_code.len() ==> jump@[i] == old_jump[i]);
            } else if b == OPEN {
                let pos = code.len();
                code.push(b);
                jump.push(0);
                stack.push(pos);
                assert forall|p: int| 0 <= p <= old_code.len() implies level(code@, p) == level(
                    old_code,
                    p,
                ) by {
                    lemma_level_prefix(code@, old_code, p);
                }
                assert(level(code@, code.len() as int) == level(old_code, old_code.len() as int)
                    + nesting(b));
                assert forall|i: int, j: int|
                    brackets_match(old_code, i, j) implies brackets_match(code@, i, j) by {
                    assert forall|p: int| i < p <= j implies level(code@, p) > level(code@, i) by {
                        lemma_level_prefix(code@, old_code, p);
                    }
                }
                assert(forall|i: int| 0 <= i < old_code.len() ==> jump@[i] == old_jump[i]);
                assert(forall|k: int| 0 <= k < old_stack.len() ==> stack@[k] == old_stack[k]);
            } else if b == CLOSE {
                let pos = code.len();
                code.push(b);
                assert forall|p: int| 0 <= p <= old_code.len() implies level(code@, p) == level(
                    old_code,
                    p,
                ) by {
                    lemma_level_prefix(code@, old_code, p);
                }
                match stack.pop() {
                    None => {
                        proof {
                            assert(code@ == strip_comments(source@.take(idx + 1)));
                            assert(level(code@, code.len() as int) == -1);
                            lemma_strip_prefix(source@, idx + 1);
                            lemma_level_prefix(code@, strip_comments(source@), code.len() as int);
                        }
                        return Err(LoadError::UnbalancedBrackets);
                    },
                    Some(left) => {
                        proof {
                            let k = stack.len() as int;
                            assert(old_stack[k] == left);
                            assert(level(code@, code.len() as int) == level(
                                old_code,
                                old_code.len() as int,
                            ) - 1);
                            assert(level(code@, left as int) == k);
                            assert forall|p: int| left < p <= pos implies level(code@, p) > k by {
                                assert(old_stack[k] < p <= old_code.len());
                                assert(level(old_code, p) > k);
                                lemma_level_prefix(code@, old_code, p);
                            }
                        }
                        jump.push(left);
                        jump.set(left, pos);
                        assert forall|i: int, j: int|
                            brackets_match(old_code, i, j) implies brackets_match(code@, i, j) by {
                            assert forall|p: int| i < p <= j implies level(code@, p) > level(
                                code@,
                                i,
                            ) by {
                                lemma_level_prefix(code@, old_code, p);
                            }
                        }
                        assert(brackets_match(code@, left as int, pos as int));
                        assert(forall|k: int| 0 <= k < stack.len() ==> stack@[k] == old_stack[k]);
                    },
                }
            }
            proof {
                if code.len() > old_code.len() {
                    assert forall|p: int| 0 <= p <= code.len() implies level(code@, p) >= 0 by {
                        if p <= old_code.len() {
                            lemma_level_prefix(code@, old_code, p);
                        }
                    }
                    assert forall|k: int| 0 <= k < stack.len() && k < old_stack.len() implies forall|
                        p: int,
                    | #[trigger] stack[k] < p <= code.len() ==> level(code@, p) > k by {
                        assert(stack[k] == old_stack[k]);
                        assert forall|p: int| stack[k] < p <= code.len() implies level(code@, p)
                            > k by {
                            if p <= old_code.len() {
                                lemma_level_prefix(code@, old_code, p);
                                assert(old_stack[k] < p <= old_code.len());
                            }
                        }
                    }
                }
            }
            idx += 1;
        }
        assert(source@.take(source.len() as int) =~= source@);
        if stack.len() == 0 {
            Ok(Program { code, jump })
        } else {
            Err(LoadError::UnbalancedBrackets)
        }
    }
}

} // verus!
