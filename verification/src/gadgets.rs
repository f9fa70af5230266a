//! The small code generators that every larger one is built from: the limb
//! range check, the multiplication by 256 and the retrieval of a hint.

use vstd::prelude::*;
use crate::limbs::{all_limbs, is_limb};
use crate::machine::{
    lemma_run_concat, lemma_run_unfold, run, Opcode, Script, NUM_MAX, SHIFT_MAX,
};

verus! {

/// Whether the multiplication by 256 is emitted as the machine's single
/// shift instruction. Where the machine has none, eight doublings stand in.
/// The choice is made here, once, for every program.
pub const NATIVE_SHIFT: bool = false;

/// The largest magnitude on which both forms of the multiplication by 256
/// agree: 2^24 - 1.
pub const SHIFT_OPERAND_MAX: i64 = 0xff_ffff;

/// The instructions of the limb range check.
pub open spec fn check_limb_format_code() -> Seq<Opcode> {
    range_check_code(0, 256)
}

/// The limb range check leaves the stack as it is when the top cell is a byte
/// limb, and aborts on every other stack.
pub proof fn lemma_check_limb_format(s: Seq<int>)
    ensures
        run(check_limb_format_code(), s) == (if s.len() >= 1 && 0 <= s.last() < 256 {
            Some(s)
        } else {
            None
        }),
{
    lemma_run_unfold();
    if s.len() >= 1 && 0 <= s.last() < 256 {
        assert(run(check_limb_format_code(), s).unwrap() =~= s);
    }
}

/// The limb range check accepts every entry of a sequence, each taken to the
/// top of a stack, exactly when every entry is a byte limb.
pub proof fn lemma_check_limb_format_on_sequence(below: Seq<int>, l: Seq<int>)
    ensures
        all_limbs(l) <==> forall|i: int|
            0 <= i < l.len() ==> run(check_limb_format_code(), #[trigger] below.push(l[i])) is Some,
{
    assert forall|i: int| 0 <= i < l.len() implies (is_limb(l[i]) <==> run(
        check_limb_format_code(),
        #[trigger] below.push(l[i]),
    ) is Some) by {
        lemma_check_limb_format(below.push(l[i]));
    }
    if all_limbs(l) {
        assert forall|i: int| 0 <= i < l.len() implies run(
            check_limb_format_code(),
            #[trigger] below.push(l[i]),
        ) is Some by {
            assert(is_limb(l[i]));
        }
    }
    if forall|i: int|
        0 <= i < l.len() ==> run(check_limb_format_code(), #[trigger] below.push(l[i])) is Some {
        assert forall|i: int| 0 <= i < l.len() implies is_limb(#[trigger] l[i]) by {
            assert(run(check_limb_format_code(), below.push(l[i])) is Some);
        }
    }
}

/// Emits the check that the top cell is a byte limb. The cell stays on the
/// stack.
pub fn check_limb_format() -> (script: Script)
    ensures
        script@ == check_limb_format_code(),
        forall|s: Seq<int>| #[trigger]
            run(script@, s) == (if s.len() >= 1 && 0 <= s.last() < 256 {
                Some(s)
            } else {
                None
            }),
{
    let mut script = Script::new();
    script.push_opcode(Opcode::Dup);
    script.push_opcode(Opcode::Push(0));
    script.push_opcode(Opcode::GreaterThanOrEqual);
    script.push_opcode(Opcode::Verify);
    script.push_opcode(Opcode::Dup);
    script.push_opcode(Opcode::Push(256));
    script.push_opcode(Opcode::LessThan);
    script.push_opcode(Opcode::Verify);
    proof {
        assert forall|s: Seq<int>| #[trigger]
            run(script@, s) == (if s.len() >= 1 && 0 <= s.last() < 256 {
                Some(s)
            } else {
                None
            }) by {
            lemma_check_limb_format(s);
        }
    }
    script
}

/// The instructions that double the top cell.
pub open spec fn double_code() -> Seq<Opcode> {
    Seq::<Opcode>::empty().push(Opcode::Dup).push(Opcode::Add)
}

/// The instructions that double the top cell `n` times.
pub open spec fn doublings_code(n: nat) -> Seq<Opcode>
    decreases n,
{
    if n == 0 {
        Seq::<Opcode>::empty()
    } else {
        doublings_code((n - 1) as nat) + double_code()
    }
}

/// Two to the power `n`.
pub open spec fn pow2(n: nat) -> int
    decreases n,
{
    if n == 0 {
        1
    } else {
        2 * pow2((n - 1) as nat)
    }
}

/// Doubling aborts unless the top cell is a number, and otherwise doubles it.
pub proof fn lemma_double(s: Seq<int>)
    ensures
        run(double_code(), s) == (if s.len() >= 1 && -NUM_MAX <= s.last() <= NUM_MAX {
            Some(s.drop_last().push(2 * s.last()))
        } else {
            None
        }),
{
    lemma_run_unfold();
    if s.len() >= 1 && -NUM_MAX <= s.last() <= NUM_MAX {
        assert(run(double_code(), s).unwrap() =~= s.drop_last().push(2 * s.last()));
    }
}

/// The cell that `n` doublings leave, where none of them aborts.
pub open spec fn doubled(s: Seq<int>, n: nat) -> Seq<int> {
    s.drop_last().push(pow2(n) * s.last())
}

/// Whether `n` doublings of the top cell of `s` all find a number to double.
pub open spec fn can_double(s: Seq<int>, n: nat) -> bool {
    s.len() >= 1 && (n >= 1 ==> -NUM_MAX <= pow2((n - 1) as nat) * s.last() <= NUM_MAX)
}

/// `n` doublings multiply the top cell by two to the `n`, and abort exactly
/// when one of them would double a cell that is no number.
pub proof fn lemma_doublings(n: nat, s: Seq<int>)
    ensures
        run(doublings_code(n), s) == (if can_double(s, n) {
            Some(doubled(s, n))
        } else if n == 0 {
            Some(s)
        } else {
            None
        }),
    decreases n,
{
    lemma_run_unfold();
    if n == 0 {
        if s.len() >= 1 {
            assert(doubled(s, 0) =~= s);
        }
    } else {
        let m = (n - 1) as nat;
        lemma_doublings(m, s);
        lemma_run_concat(doublings_code(m), double_code(), s);
        if s.len() >= 1 {
            let x = s.last();
            lemma_pow2_positive(m);
            if m >= 1 {
                lemma_pow2_positive((m - 1) as nat);
                assert(pow2(m) == 2 * pow2((m - 1) as nat));
                assert(pow2(m) * x == 2 * (pow2((m - 1) as nat) * x)) by (nonlinear_arith)
                    requires
                        pow2(m) == 2 * pow2((m - 1) as nat),
                ;
            } else {
                assert(doubled(s, 0) =~= s);
            }
            if can_double(s, m) {
                let t = doubled(s, m);
                lemma_double(t);
                assert(t.drop_last() =~= s.drop_last());
                assert(pow2(n) * x == 2 * (pow2(m) * x)) by (nonlinear_arith)
                    requires
                        pow2(n) == 2 * pow2(m),
                ;
            }
        } else {
            lemma_double(s);
        }
    }
}

/// Powers of two are positive.
pub proof fn lemma_pow2_positive(n: nat)
    ensures
        pow2(n) >= 1,
    decreases n,
{
    if n > 0 {
        lemma_pow2_positive((n - 1) as nat);
    }
}

/// The instructions of the multiplication by 256, in the form chosen by
/// `NATIVE_SHIFT`.
pub open spec fn op_256mul_code() -> Seq<Opcode> {
    if NATIVE_SHIFT {
        Seq::<Opcode>::empty().push(Opcode::ShiftByte)
    } else {
        doublings_code(8)
    }
}

/// The single shift instruction multiplies the top cell by 256.
pub proof fn lemma_native_shift(s: Seq<int>)
    ensures
        run(Seq::<Opcode>::empty().push(Opcode::ShiftByte), s) == (if s.len() >= 1 && -SHIFT_MAX
            <= s.last() <= SHIFT_MAX {
            Some(s.drop_last().push(256 * s.last()))
        } else {
            None
        }),
{
    lemma_run_unfold();
    if s.len() >= 1 && -SHIFT_MAX <= s.last() <= SHIFT_MAX {
        assert(run(Seq::<Opcode>::empty().push(Opcode::ShiftByte), s).unwrap() =~= s.drop_last().push(
            256 * s.last(),
        ));
    }
}

/// Whether the multiplication by 256, in the form chosen by `NATIVE_SHIFT`,
/// goes through on the top cell `x`: the shift instruction takes what leaves
/// the result in a cell, the doublings take what stays a number up to the
/// last of them.
pub open spec fn can_shift(x: int) -> bool {
    if NATIVE_SHIFT {
        -SHIFT_MAX <= x <= SHIFT_MAX
    } else {
        -NUM_MAX <= 128 * x <= NUM_MAX
    }
}

/// The multiplication by 256 multiplies the top cell by 256 where it goes
/// through, and aborts where it does not.
pub proof fn lemma_op_256mul(s: Seq<int>)
    ensures
        run(op_256mul_code(), s) == (if s.len() >= 1 && can_shift(s.last()) {
            Some(s.drop_last().push(256 * s.last()))
        } else {
            None
        }),
{
    lemma_native_shift(s);
    lemma_doublings(8, s);
    assert(pow2(8) == 256 && pow2(7) == 128) by {
        reveal_with_fuel(pow2, 9);
    }
}

/// Both forms of the multiplication by 256 do the same on every stack whose
/// top cell has a magnitude of at most 2^24 - 1: they multiply it by 256.
pub proof fn lemma_shift_forms_agree(s: Seq<int>)
    requires
        s.len() >= 1,
        -SHIFT_OPERAND_MAX <= s.last() <= SHIFT_OPERAND_MAX,
    ensures
        run(Seq::<Opcode>::empty().push(Opcode::ShiftByte), s) == Some(
            s.drop_last().push(256 * s.last()),
        ),
        run(doublings_code(8), s) == Some(s.drop_last().push(256 * s.last())),
        run(op_256mul_code(), s) == Some(s.drop_last().push(256 * s.last())),
{
    lemma_native_shift(s);
    lemma_doublings(8, s);
    assert(pow2(8) == 256 && pow2(7) == 128) by {
        reveal_with_fuel(pow2, 9);
    }
}

/// Emits the multiplication of the top cell by 256. On a cell of magnitude at
/// most 2^24 - 1, one byte in particular, the result is the same whichever
/// form `NATIVE_SHIFT` selects.
#[allow(non_snake_case)]
pub fn OP_256MUL() -> (script: Script)
    ensures
        script@ == op_256mul_code(),
        forall|s: Seq<int>| #[trigger]
            run(script@, s) == (if s.len() >= 1 && can_shift(s.last()) {
                Some(s.drop_last().push(256 * s.last()))
            } else {
                None
            }),
        forall|x: int| -SHIFT_OPERAND_MAX <= x <= SHIFT_OPERAND_MAX ==> #[trigger] can_shift(x),
{
    let mut script = Script::new();
    if NATIVE_SHIFT {
        script.push_opcode(Opcode::ShiftByte);
    } else {
        emit_doublings(&mut script, 8);
        assert(script@ =~= doublings_code(8));
    }
    proof {
        assert forall|s: Seq<int>| #[trigger]
            run(script@, s) == (if s.len() >= 1 && can_shift(s.last()) {
                Some(s.drop_last().push(256 * s.last()))
            } else {
                None
            }) by {
            lemma_op_256mul(s);
        }
    }
    script
}

/// The instructions that bring the oldest hint to the top.
pub open spec fn op_hint_code() -> Seq<Opcode> {
    Seq::<Opcode>::empty().push(Opcode::Depth).push(Opcode::Sub1).push(Opcode::Roll)
}

/// Retrieving a hint moves the bottom cell of the stack to the top, and
/// aborts on the empty stack and on one too deep to be counted.
pub proof fn lemma_op_hint(s: Seq<int>)
    ensures
        run(op_hint_code(), s) == (if 1 <= s.len() <= NUM_MAX {
            Some(s.drop_first().push(s.first()))
        } else {
            None
        }),
{
    lemma_run_unfold();
    if 1 <= s.len() <= NUM_MAX {
        assert(run(op_hint_code(), s).unwrap() =~= s.drop_first().push(s.first()));
    }
}

/// Emits the retrieval of the oldest hint not yet retrieved: the bottom cell
/// of the stack moves to the top.
#[allow(non_snake_case)]
pub fn OP_HINT() -> (script: Script)
    ensures
        script@ == op_hint_code(),
        forall|s: Seq<int>| #[trigger]
            run(script@, s) == (if 1 <= s.len() <= NUM_MAX {
                Some(s.drop_first().push(s.first()))
            } else {
                None
            }),
{
    let mut script = Script::new();
    script.push_opcode(Opcode::Depth);
    script.push_opcode(Opcode::Sub1);
    script.push_opcode(Opcode::Roll);
    proof {
        assert forall|s: Seq<int>| #[trigger]
            run(script@, s) == (if 1 <= s.len() <= NUM_MAX {
                Some(s.drop_first().push(s.first()))
            } else {
                None
            }) by {
            lemma_op_hint(s);
        }
    }
    script
}

/// The instructions that check that the top cell lies in `[lo, hi)`.
pub open spec fn range_check_code(lo: i32, hi: i32) -> Seq<Opcode> {
    Seq::<Opcode>::empty()
        .push(Opcode::Dup)
        .push(Opcode::Push(lo))
        .push(Opcode::GreaterThanOrEqual)
        .push(Opcode::Verify)
        .push(Opcode::Dup)
        .push(Opcode::Push(hi))
        .push(Opcode::LessThan)
        .push(Opcode::Verify)
}

/// The range check leaves the stack as it is when the top cell lies in
/// `[lo, hi)`, and aborts on every other stack.
pub proof fn lemma_range_check(lo: i32, hi: i32, s: Seq<int>)
    requires
        -NUM_MAX <= lo,
        -NUM_MAX <= hi,
    ensures
        run(range_check_code(lo, hi), s) == (if s.len() >= 1 && lo <= s.last() < hi {
            Some(s)
        } else {
            None
        }),
{
    lemma_run_unfold();
    if s.len() >= 1 && lo <= s.last() < hi {
        assert(run(range_check_code(lo, hi), s).unwrap() =~= s);
    }
}

/// Emits the check that the top cell lies in `[lo, hi)`. The cell stays on
/// the stack.
pub fn range_check(lo: i32, hi: i32) -> (script: Script)
    requires
        -NUM_MAX <= lo,
        -NUM_MAX <= hi,
    ensures
        script@ == range_check_code(lo, hi),
        forall|s: Seq<int>| #[trigger]
            run(script@, s) == (if s.len() >= 1 && lo <= s.last() < hi {
                Some(s)
            } else {
                None
            }),
{
    let mut script = Script::new();
    script.push_opcode(Opcode::Dup);
    script.push_opcode(Opcode::Push(lo));
    script.push_opcode(Opcode::GreaterThanOrEqual);
    script.push_opcode(Opcode::Verify);
    script.push_opcode(Opcode::Dup);
    script.push_opcode(Opcode::Push(hi));
    script.push_opcode(Opcode::LessThan);
    script.push_opcode(Opcode::Verify);
    proof {
        assert forall|s: Seq<int>| #[trigger]
            run(script@, s) == (if s.len() >= 1 && lo <= s.last() < hi {
                Some(s)
            } else {
                None
            }) by {
            lemma_range_check(lo, hi, s);
        }
    }
    script
}

/// Emits, at the end of `script`, `n` doublings of the top cell.
/// What the code does on a stack is stated by `lemma_doublings`.
pub fn emit_doublings(script: &mut Script, n: usize)
    ensures
        final(script)@ == old(script)@ + doublings_code(n as nat),
{
    let mut i: usize = 0;
    assert(script@ =~= old(script)@ + doublings_code(0));
    while i < n
        invariant
            i <= n,
            script@ == old(script)@ + doublings_code(i as nat),
        decreases n - i,
    {
        script.push_opcode(Opcode::Dup);
        script.push_opcode(Opcode::Add);
        i += 1;
        assert(script@ =~= old(script)@ + doublings_code(i as nat));
    }
}

} // verus!
