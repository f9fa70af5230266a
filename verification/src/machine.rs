//! The target machine: a stack of integer cells and a fixed set of
//! instructions, with their meaning stated as a function on stacks.
//!
//! A stack is a sequence whose last entry is the top. An instruction either
//! yields the next stack or aborts the whole program; there is no recovery.
//! Arithmetic and comparison take operands of at most four bytes and may leave
//! a wider result, which later arithmetic will refuse.

use vstd::prelude::*;

verus! {

/// The largest magnitude that an arithmetic operand may have: 2^31 - 1.
pub const NUM_MAX: i64 = 0x7fff_ffff;

/// The largest magnitude that a byte shift accepts, so that its result still
/// fits a cell: 2^55 - 1.
pub const SHIFT_MAX: i64 = 0x7f_ffff_ffff_ffff;

/// One instruction of the target machine.
#[derive(Clone, Copy, Debug, PartialEq, Eq, Structural)]
pub enum Opcode {
    /// Pushes a constant.
    Push(i32),
    /// Duplicates the top cell.
    Dup,
    /// Removes the top cell.
    Drop,
    /// Exchanges the two top cells.
    Swap,
    /// Moves the third cell from the top to the top.
    Rot,
    /// Pops `n` and copies the cell `n` below the top to the top.
    Pick,
    /// Pops `n` and moves the cell `n` below the top to the top.
    Roll,
    /// Pushes the number of cells on the stack.
    Depth,
    /// Replaces the two top cells by their sum.
    Add,
    /// Replaces the two top cells `a`, `b` (with `b` on top) by `a - b`.
    Sub,
    /// Subtracts one from the top cell.
    Sub1,
    /// Replaces the top cell by its absolute value.
    Abs,
    /// Multiplies the top cell by 256 in one instruction.
    ShiftByte,
    /// Replaces the two top cells `a`, `b` by 1 if `a < b` and by 0 if not.
    LessThan,
    /// Replaces the two top cells `a`, `b` by 1 if `a >= b` and by 0 if not.
    GreaterThanOrEqual,
    /// Pops the top cell and aborts if it is zero.
    Verify,
    /// Pops the two top cells and aborts unless they are equal.
    EqualVerify,
}

/// Whether `x` may be an operand of arithmetic and comparison.
pub open spec fn is_num(x: int) -> bool {
    -NUM_MAX <= x <= NUM_MAX
}

/// The effect of one instruction on a stack; `None` is an abort.
pub open spec fn step(op: Opcode, s: Seq<int>) -> Option<Seq<int>> {
    let n = s.len() as int;
    match op {
        Opcode::Push(v) => Some(s.push(v as int)),
        Opcode::Dup => if n >= 1 {
            Some(s.push(s[n - 1]))
        } else {
            None
        },
        Opcode::Drop => if n >= 1 {
            Some(s.take(n - 1))
        } else {
            None
        },
        Opcode::Swap => if n >= 2 {
            Some(s.take(n - 2).push(s[n - 1]).push(s[n - 2]))
        } else {
            None
        },
        Opcode::Rot => if n >= 3 {
            Some(s.take(n - 3).push(s[n - 2]).push(s[n - 1]).push(s[n - 3]))
        } else {
            None
        },
        Opcode::Pick => if n >= 1 && is_num(s[n - 1]) && 0 <= s[n - 1] < n - 1 {
            Some(s.take(n - 1).push(s[n - 2 - s[n - 1]]))
        } else {
            None
        },
        Opcode::Roll => if n >= 1 && is_num(s[n - 1]) && 0 <= s[n - 1] < n - 1 {
            Some(s.take(n - 1).remove(n - 2 - s[n - 1]).push(s[n - 2 - s[n - 1]]))
        } else {
            None
        },
        Opcode::Depth => if n <= NUM_MAX {
            Some(s.push(n))
        } else {
            None
        },
        Opcode::Add => if n >= 2 && is_num(s[n - 2]) && is_num(s[n - 1]) {
            Some(s.take(n - 2).push(s[n - 2] + s[n - 1]))
        } else {
            None
        },
        Opcode::Sub => if n >= 2 && is_num(s[n - 2]) && is_num(s[n - 1]) {
            Some(s.take(n - 2).push(s[n - 2] - s[n - 1]))
        } else {
            None
        },
        Opcode::Sub1 => if n >= 1 && is_num(s[n - 1]) {
            Some(s.take(n - 1).push(s[n - 1] - 1))
        } else {
            None
        },
        Opcode::Abs => if n >= 1 && is_num(s[n - 1]) {
            Some(s.take(n - 1).push(if s[n - 1] < 0 { -s[n - 1] } else { s[n - 1] }))
        } else {
            None
        },
        Opcode::ShiftByte => if n >= 1 && -SHIFT_MAX <= s[n - 1] <= SHIFT_MAX {
            Some(s.take(n - 1).push(256 * s[n - 1]))
        } else {
            None
        },
        Opcode::LessThan => if n >= 2 && is_num(s[n - 2]) && is_num(s[n - 1]) {
            Some(s.take(n - 2).push(if s[n - 2] < s[n - 1] { 1int } else { 0int }))
        } else {
            None
        },
        Opcode::GreaterThanOrEqual => if n >= 2 && is_num(s[n - 2]) && is_num(s[n - 1]) {
            Some(s.take(n - 2).push(if s[n - 2] >= s[n - 1] { 1int } else { 0int }))
        } else {
            None
        },
        Opcode::Verify => if n >= 1 && s[n - 1] != 0 {
            Some(s.take(n - 1))
        } else {
            None
        },
        Opcode::EqualVerify => if n >= 2 && s[n - 2] == s[n - 1] {
            Some(s.take(n - 2))
        } else {
            None
        },
    }
}

/// The effect of `op` after an earlier outcome: an abort stays an abort.
pub open spec fn step_after(before: Option<Seq<int>>, op: Opcode) -> Option<Seq<int>> {
    match before {
        Some(s) => step(op, s),
        None => None,
    }
}

/// The effect of running `code` from its first instruction to its last.
#[verifier::opaque]
pub open spec fn run(code: Seq<Opcode>, stack: Seq<int>) -> Option<Seq<int>>
    decreases code.len(),
{
    if code.len() == 0 {
        Some(stack)
    } else {
        step_after(run(code.drop_last(), stack), code.last())
    }
}

/// The effect of `code` after an earlier outcome.
pub open spec fn run_after(before: Option<Seq<int>>, code: Seq<Opcode>) -> Option<Seq<int>> {
    match before {
        Some(s) => run(code, s),
        None => None,
    }
}

/// Running a program with one more instruction at its end is running the
/// program and then that instruction.
pub proof fn lemma_run_push(code: Seq<Opcode>, op: Opcode, stack: Seq<int>)
    ensures
        run(code.push(op), stack) == step_after(run(code, stack), op),
{
    reveal(run);
    assert(code.push(op).drop_last() =~= code);
}

/// Running two programs one after the other is running their concatenation.
pub proof fn lemma_run_concat(first: Seq<Opcode>, second: Seq<Opcode>, stack: Seq<int>)
    ensures
        run(first + second, stack) == run_after(run(first, stack), second),
    decreases second.len(),
{
    reveal(run);
    if second.len() == 0 {
        assert(first + second =~= first);
    } else {
        lemma_run_concat(first, second.drop_last(), stack);
        assert((first + second).drop_last() =~= first + second.drop_last());
        assert((first + second).last() == second.last());
    }
}

/// Once a prefix of a program has aborted, the program has aborted.
pub proof fn lemma_run_abort_is_final(code: Seq<Opcode>, k: int, stack: Seq<int>)
    requires
        0 <= k <= code.len(),
        run(code.take(k), stack) is None,
    ensures
        run(code, stack) is None,
{
    lemma_run_concat(code.take(k), code.skip(k), stack);
    assert(code.take(k) + code.skip(k) =~= code);
}

/// Concatenation is associative.
pub proof fn lemma_concat_assoc(a: Seq<Opcode>, b: Seq<Opcode>, c: Seq<Opcode>)
    ensures
        a + b + c == a + (b + c),
{
    assert(a + b + c =~= a + (b + c));
}

/// The unfolding of `run` at every program that ends in a given instruction.
pub proof fn lemma_run_unfold()
    ensures
        forall|stack: Seq<int>| #[trigger] run(Seq::<Opcode>::empty(), stack) == Some(stack),
        forall|code: Seq<Opcode>, op: Opcode, stack: Seq<int>| #[trigger]
            run(code.push(op), stack) == step_after(run(code, stack), op),
{
    reveal(run);
    assert forall|code: Seq<Opcode>, op: Opcode, stack: Seq<int>| #[trigger]
        run(code.push(op), stack) == step_after(run(code, stack), op) by {
        lemma_run_push(code, op, stack);
    }
}

/// A program: the instructions in the order in which they run.
pub struct Script {
    pub ops: Vec<Opcode>,
}

impl View for Script {
    type V = Seq<Opcode>;

    open spec fn view(&self) -> Seq<Opcode> {
        self.ops@
    }
}

impl Script {
    /// The empty program.
    pub fn new() -> (r: Script)
        ensures
            r@ == Seq::<Opcode>::empty(),
    {
        Script { ops: Vec::new() }
    }

    /// The number of instructions.
    pub fn len(&self) -> (n: usize)
        ensures
            n == self@.len(),
    {
        self.ops.len()
    }

    /// Adds one instruction at the end.
    pub fn push_opcode(&mut self, op: Opcode)
        ensures
            final(self)@ == old(self)@.push(op),
    {
        self.ops.push(op);
    }

    /// Adds the instructions of `other` at the end.
    pub fn push_script(&mut self, other: &Script)
        ensures
            final(self)@ == old(self)@ + other@,
    {
        let n: usize = other.ops.len();
        let mut i: usize = 0;
        while i < n
            invariant
                i <= n,
                n == other@.len(),
                self@ == old(self)@ + other@.take(i as int),
            decreases n - i,
        {
            self.ops.push(other.ops[i]);
            i += 1;
            assert(self@ =~= old(self)@ + other@.take(i as int));
        }
        assert(other@.take(n as int) =~= other@);
    }
}

/// The cells of an executable stack as mathematical integers.
pub open spec fn cells(stack: Seq<i64>) -> Seq<int> {
    Seq::new(stack.len(), |i: int| stack[i] as int)
}

/// Whether `x` may be an operand of arithmetic and comparison.
fn num(x: i64) -> (r: bool)
    ensures
        r == is_num(x as int),
{
    -NUM_MAX <= x && x <= NUM_MAX
}

/// Performs one instruction on `stack`. Returns whether the program goes on;
/// after an abort the stack is of no use.
pub fn execute_opcode(op: Opcode, stack: &mut Vec<i64>) -> (ok: bool)
    ensures
        ok <==> step(op, cells(old(stack)@)) is Some,
        ok ==> step(op, cells(old(stack)@)) == Some(cells(final(stack)@)),
{
    let n: usize = stack.len();
    let ghost s = cells(stack@);
    match op {
        Opcode::Push(v) => {
            stack.push(v as i64);
            assert(cells(stack@) =~= s.push(v as int));
            true
        },
        Opcode::Dup => {
            if n < 1 {
                return false;
            }
            let x: i64 = stack[n - 1];
            stack.push(x);
            assert(cells(stack@) =~= s.push(s[n - 1]));
            true
        },
        Opcode::Drop => {
            if n < 1 {
                return false;
            }
            stack.pop();
            assert(cells(stack@) =~= s.take(n - 1));
            true
        },
        Opcode::Swap => {
            if n < 2 {
                return false;
            }
            let b: i64 = stack[n - 1];
            let a: i64 = stack[n - 2];
            stack.set(n - 2, b);
            stack.set(n - 1, a);
            assert(cells(stack@) =~= s.take(n - 2).push(s[n - 1]).push(s[n - 2]));
            true
        },
        Opcode::Rot => {
            if n < 3 {
                return false;
            }
            let c: i64 = stack[n - 1];
            let b: i64 = stack[n - 2];
            let a: i64 = stack[n - 3];
            stack.set(n - 3, b);
            stack.set(n - 2, c);
            stack.set(n - 1, a);
            assert(cells(stack@) =~= s.take(n - 3).push(s[n - 2]).push(s[n - 1]).push(s[n - 3]));
            true
        },
        Opcode::Pick => {
            if n < 1 {
                return false;
            }
            let k: i64 = stack[n - 1];
            if !num(k) || k < 0 || k as usize >= n - 1 {
                return false;
            }
            let x: i64 = stack[n - 2 - k as usize];
            stack.set(n - 1, x);
            assert(cells(stack@) =~= s.take(n - 1).push(s[n - 2 - s[n - 1]]));
            true
        },
        Opcode::Roll => {
            if n < 1 {
                return false;
            }
            let k: i64 = stack[n - 1];
            if !num(k) || k < 0 || k as usize >= n - 1 {
                return false;
            }
            stack.pop();
            let x: i64 = stack.remove(n - 2 - k as usize);
            stack.push(x);
            assert(cells(stack@) =~= s.take(n - 1).remove(n - 2 - s[n - 1]).push(
                s[n - 2 - s[n - 1]],
            ));
            true
        },
        Opcode::Depth => {
            if n > NUM_MAX as usize {
                return false;
            }
            stack.push(n as i64);
            assert(cells(stack@) =~= s.push(n as int));
            true
        },
        Opcode::Add => {
            if n < 2 {
                return false;
            }
            let b: i64 = stack[n - 1];
            let a: i64 = stack[n - 2];
            if !num(a) || !num(b) {
                return false;
            }
            stack.pop();
            stack.set(n - 2, a + b);
            assert(cells(stack@) =~= s.take(n - 2).push(s[n - 2] + s[n - 1]));
            true
        },
        Opcode::Sub => {
            if n < 2 {
                return false;
            }
            let b: i64 = stack[n - 1];
            let a: i64 = stack[n - 2];
            if !num(a) || !num(b) {
                return false;
            }
            stack.pop();
            stack.set(n - 2, a - b);
            assert(cells(stack@) =~= s.take(n - 2).push(s[n - 2] - s[n - 1]));
            true
        },
        Opcode::Sub1 => {
            if n < 1 {
                return false;
            }
            let a: i64 = stack[n - 1];
            if !num(a) {
                return false;
            }
            stack.set(n - 1, a - 1);
            assert(cells(stack@) =~= s.take(n - 1).push(s[n - 1] - 1));
            true
        },
        Opcode::Abs => {
            if n < 1 {
                return false;
            }
            let a: i64 = stack[n - 1];
            if !num(a) {
                return false;
            }
            stack.set(n - 1, if a < 0 { -a } else { a });
            assert(cells(stack@) =~= s.take(n - 1).push(if s[n - 1] < 0 { -s[n - 1] } else { s[n - 1] }));
            true
        },
        Opcode::ShiftByte => {
            if n < 1 {
                return false;
            }
            let a: i64 = stack[n - 1];
            if a < -SHIFT_MAX || a > SHIFT_MAX {
                return false;
            }
            stack.set(n - 1, 256 * a);
            assert(cells(stack@) =~= s.take(n - 1).push(256 * s[n - 1]));
            true
        },
        Opcode::LessThan => {
            if n < 2 {
                return false;
            }
            let b: i64 = stack[n - 1];
            let a: i64 = stack[n - 2];
            if !num(a) || !num(b) {
                return false;
            }
            stack.pop();
            stack.set(n - 2, if a < b { 1 } else { 0 });
            assert(cells(stack@) =~= s.take(n - 2).push(if s[n - 2] < s[n - 1] { 1int } else { 0int }));
            true
        },
        Opcode::GreaterThanOrEqual => {
            if n < 2 {
                return false;
            }
            let b: i64 = stack[n - 1];
            let a: i64 = stack[n - 2];
            if !num(a) || !num(b) {
                return false;
            }
            stack.pop();
            stack.set(n - 2, if a >= b { 1 } else { 0 });
            assert(cells(stack@) =~= s.take(n - 2).push(
                if s[n - 2] >= s[n - 1] { 1int } else { 0int },
            ));
            true
        },
        Opcode::Verify => {
            if n < 1 {
                return false;
            }
            let a: i64 = stack[n - 1];
            if a == 0 {
                return false;
            }
            stack.pop();
            assert(cells(stack@) =~= s.take(n - 1));
            true
        },
        Opcode::EqualVerify => {
            if n < 2 {
                return false;
            }
            let b: i64 = stack[n - 1];
            let a: i64 = stack[n - 2];
            if a != b {
                return false;
            }
            stack.pop();
            stack.pop();
            assert(cells(stack@) =~= s.take(n - 2));
            true
        },
    }
}

/// Runs `script` on `stack`. Returns the stack that the program leaves, or
/// `None` if it aborts.
pub fn execute(script: &Script, stack: Vec<i64>) -> (res: Option<Vec<i64>>)
    ensures
        match res {
            Some(left) => run(script@, cells(stack@)) == Some(cells(left@)),
            None => run(script@, cells(stack@)) is None,
        },
{
    let mut current: Vec<i64> = stack;
    let mut pc: usize = 0;
    proof {
        lemma_run_unfold();
        assert(script@.take(0) =~= Seq::<Opcode>::empty());
    }
    while pc < script.ops.len()
        invariant
            pc <= script@.len(),
            run(script@.take(pc as int), cells(stack@)) == Some(cells(current@)),
        decreases script@.len() - pc,
    {
        let ghost before = cells(current@);
        let ok: bool = execute_opcode(script.ops[pc], &mut current);
        proof {
            let prefix = script@.take(pc + 1);
            assert(prefix =~= script@.take(pc as int).push(script@[pc as int]));
            lemma_run_push(script@.take(pc as int), script@[pc as int], cells(stack@));
            assert(run(prefix, cells(stack@)) == step(script@[pc as int], before));
        }
        if !ok {
            proof {
                lemma_run_abort_is_final(script@, pc + 1, cells(stack@));
            }
            return None;
        }
        pc += 1;
    }
    assert(script@.take(pc as int) =~= script@);
    Some(current)
}

} // verus!
