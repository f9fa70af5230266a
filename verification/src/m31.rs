//! The base-field operation: splitting a stored value into its four limbs.

use vstd::prelude::*;
use crate::error::Error;
use crate::gadgets::{
    check_limb_format, check_limb_format_code, lemma_check_limb_format, lemma_op_256mul,
    lemma_op_hint, lemma_shift_forms_agree, op_256mul_code, op_hint_code, OP_256MUL, OP_HINT,
};
use crate::limbs::{all_limbs, is_limb, limbs_value};
use crate::machine::{lemma_run_concat, lemma_run_unfold, run, Opcode, Script, NUM_MAX};

verus! {

/// The instructions that retrieve one hint and check that it is a byte limb.
pub open spec fn hint_limb_code() -> Seq<Opcode> {
    op_hint_code() + check_limb_format_code()
}

/// Retrieving a limb moves the bottom cell to the top if it is a byte limb,
/// and aborts if it is not.
pub proof fn lemma_hint_limb(s: Seq<int>)
    ensures
        run(hint_limb_code(), s) == (if 1 <= s.len() <= NUM_MAX && is_limb(s.first()) {
            Some(s.drop_first().push(s.first()))
        } else {
            None
        }),
{
    lemma_run_concat(op_hint_code(), check_limb_format_code(), s);
    lemma_op_hint(s);
    if 1 <= s.len() <= NUM_MAX {
        lemma_check_limb_format(s.drop_first().push(s.first()));
    }
}

/// The instructions that retrieve four limbs.
pub open spec fn hint_limbs_code() -> Seq<Opcode> {
    hint_limb_code() + hint_limb_code() + hint_limb_code() + hint_limb_code()
}

/// Retrieving four limbs moves the four bottom cells to the top, in their
/// order, if each is a byte limb, and aborts if one is not.
pub proof fn lemma_hint_limbs(s: Seq<int>)
    requires
        4 <= s.len() <= NUM_MAX,
    ensures
        run(hint_limbs_code(), s) == (if all_limbs(s.take(4)) {
            Some(s.skip(4) + s.take(4))
        } else {
            None
        }),
{
    let c = hint_limb_code();
    let s1 = s.drop_first().push(s[0]);
    let s2 = s1.drop_first().push(s[1]);
    let s3 = s2.drop_first().push(s[2]);
    let s4 = s3.drop_first().push(s[3]);
    lemma_run_concat(c, c, s);
    lemma_run_concat(c + c, c, s);
    lemma_run_concat(c + c + c, c, s);
    lemma_hint_limb(s);
    lemma_hint_limb(s1);
    lemma_hint_limb(s2);
    lemma_hint_limb(s3);
    let h = s.take(4);
    assert(h[0] == s[0] && h[1] == s[1] && h[2] == s[2] && h[3] == s[3]);
    if all_limbs(h) {
        assert(is_limb(h[0]) && is_limb(h[1]) && is_limb(h[2]) && is_limb(h[3]));
        assert(s4 =~= s.skip(4) + s.take(4));
    }
}

/// Retrieving four limbs leaves as many cells as there were, where it does
/// not abort, and aborts on the empty stack and on one too deep to be
/// counted.
pub proof fn lemma_hint_limbs_length(s: Seq<int>)
    ensures
        run(hint_limbs_code(), s) is Some ==> run(hint_limbs_code(), s).unwrap().len() == s.len()
            && 1 <= s.len() <= NUM_MAX,
{
    let c = hint_limb_code();
    lemma_run_concat(c, c, s);
    lemma_run_concat(c + c, c, s);
    lemma_run_concat(c + c + c, c, s);
    lemma_hint_limb(s);
    if run(c, s) is Some {
        let s1 = run(c, s).unwrap();
        lemma_hint_limb(s1);
        if run(c, s1) is Some {
            let s2 = run(c, s1).unwrap();
            lemma_hint_limb(s2);
            if run(c, s2) is Some {
                lemma_hint_limb(run(c, s2).unwrap());
            }
        }
    }
}

/// The instructions that shift the running sum by one byte and add the limb
/// that lies `depth` cells below it.
pub open spec fn horner_step_code(depth: i32) -> Seq<Opcode> {
    op_256mul_code() + Seq::<Opcode>::empty().push(Opcode::Push(depth)).push(Opcode::Pick).push(
        Opcode::Add,
    )
}

/// One step of the recomposition replaces the running sum `x` on top of the
/// stack by `256 * x + y`, where `y` lies `depth` cells below it.
pub proof fn lemma_horner_step(depth: i32, s: Seq<int>)
    requires
        1 <= depth < s.len(),
        0 <= s.last() <= 0xff_ffff,
        is_limb(s[s.len() - 1 - depth]),
    ensures
        run(horner_step_code(depth), s) == (if 256 * s.last() <= NUM_MAX {
            Some(s.drop_last().push(256 * s.last() + s[s.len() - 1 - depth]))
        } else {
            None
        }),
{
    let tail = Seq::<Opcode>::empty().push(Opcode::Push(depth)).push(Opcode::Pick).push(Opcode::Add);
    lemma_run_concat(op_256mul_code(), tail, s);
    lemma_shift_forms_agree(s);
    let t = s.drop_last().push(256 * s.last());
    lemma_run_unfold();
    if 256 * s.last() <= NUM_MAX {
        assert(run(tail, t).unwrap() =~= s.drop_last().push(256 * s.last() + s[s.len() - 1 - depth]));
    }
}

/// One step of the recomposition leaves as many cells as there were, where
/// it does not abort.
pub proof fn lemma_horner_step_length(depth: i32, s: Seq<int>)
    ensures
        run(horner_step_code(depth), s) is Some ==> run(horner_step_code(depth), s).unwrap().len()
            == s.len(),
{
    let tail = Seq::<Opcode>::empty().push(Opcode::Push(depth)).push(Opcode::Pick).push(Opcode::Add);
    lemma_run_concat(op_256mul_code(), tail, s);
    lemma_op_256mul(s);
    lemma_run_unfold();
}

/// The instructions that sum the four limbs on top of the stack and compare
/// the sum with the cell below them.
pub open spec fn recompose_code() -> Seq<Opcode> {
    Seq::<Opcode>::empty().push(Opcode::Dup) + horner_step_code(2) + horner_step_code(3)
        + horner_step_code(4) + Seq::<Opcode>::empty().push(Opcode::Push(5)).push(Opcode::Roll).push(
        Opcode::EqualVerify,
    )
}

/// The recomposition removes the cell below the four limbs if it equals their
/// weighted sum, and aborts if it does not or if the sum is no number.
pub proof fn lemma_recompose(s: Seq<int>)
    requires
        s.len() >= 5,
        all_limbs(s.skip(s.len() - 4)),
    ensures
        run(recompose_code(), s) == (if limbs_value(s.skip(s.len() - 4)) == s[s.len() - 5]
            && s[s.len() - 5] <= NUM_MAX {
            Some(s.take(s.len() - 5) + s.skip(s.len() - 4))
        } else {
            None
        }),
{
    let n = s.len() as int;
    let l = s.skip(n - 4);
    assert(is_limb(l[0]) && is_limb(l[1]) && is_limb(l[2]) && is_limb(l[3]));
    assert(l[0] == s[n - 4] && l[1] == s[n - 3] && l[2] == s[n - 2] && l[3] == s[n - 1]);
    let c0 = Seq::<Opcode>::empty().push(Opcode::Dup);
    let c4 = Seq::<Opcode>::empty().push(Opcode::Push(5)).push(Opcode::Roll).push(
        Opcode::EqualVerify,
    );
    let s0 = s.push(l[3]);
    let a1 = 256 * l[3] + l[2];
    let s1 = s.push(a1);
    let a2 = 256 * a1 + l[1];
    let s2 = s.push(a2);
    let a3 = 256 * a2 + l[0];
    let s3 = s.push(a3);
    lemma_run_unfold();
    assert(run(c0, s) == Some(s0));
    lemma_run_concat(c0, horner_step_code(2), s);
    lemma_horner_step(2, s0);
    assert(s0.drop_last() =~= s);
    lemma_run_concat(c0 + horner_step_code(2), horner_step_code(3), s);
    lemma_horner_step(3, s1);
    assert(s1.drop_last() =~= s);
    lemma_run_concat(c0 + horner_step_code(2) + horner_step_code(3), horner_step_code(4), s);
    lemma_horner_step(4, s2);
    assert(s2.drop_last() =~= s);
    lemma_run_concat(
        c0 + horner_step_code(2) + horner_step_code(3) + horner_step_code(4),
        c4,
        s,
    );
    if 256 * a2 <= NUM_MAX {
        if a3 == s[n - 5] {
            assert(run(c4, s3).unwrap() =~= s.take(n - 5) + s.skip(n - 4));
        } else {
            assert(run(c4, s3) is None);
        }
    }
}

/// The recomposition aborts on every stack of fewer than five cells.
pub proof fn lemma_recompose_short(s: Seq<int>)
    requires
        s.len() < 5,
    ensures
        run(recompose_code(), s) is None,
{
    let c0 = Seq::<Opcode>::empty().push(Opcode::Dup);
    let c4 = Seq::<Opcode>::empty().push(Opcode::Push(5)).push(Opcode::Roll).push(
        Opcode::EqualVerify,
    );
    let (h2, h3, h4) = (horner_step_code(2), horner_step_code(3), horner_step_code(4));
    lemma_run_concat(c0, h2, s);
    lemma_run_concat(c0 + h2, h3, s);
    lemma_run_concat(c0 + h2 + h3, h4, s);
    lemma_run_concat(c0 + h2 + h3 + h4, c4, s);
    lemma_run_unfold();
    if run(c0, s) is Some {
        let s0 = run(c0, s).unwrap();
        assert(s0.len() == s.len() + 1);
        lemma_horner_step_length(2, s0);
        if run(h2, s0) is Some {
            let s1 = run(h2, s0).unwrap();
            lemma_horner_step_length(3, s1);
            if run(h3, s1) is Some {
                let s2 = run(h3, s1).unwrap();
                lemma_horner_step_length(4, s2);
                if run(h4, s2) is Some {
                    let s3 = run(h4, s2).unwrap();
                    assert(s3.len() <= 5);
                    assert(run(c4, s3) is None);
                }
            }
        }
    }
}

/// Whether the limb extraction accepts the stack `s`: its four bottom cells
/// are byte limbs that sum to the top cell, and the top cell is a number.
pub open spec fn m31_to_limbs_accepts(s: Seq<int>) -> bool {
    &&& 5 <= s.len() <= NUM_MAX
    &&& all_limbs(s.take(4))
    &&& limbs_value(s.take(4)) == s.last()
    &&& s.last() <= NUM_MAX
}

/// What the limb extraction leaves of a stack that it accepts: the four
/// bottom cells in place of the top cell.
pub open spec fn m31_to_limbs_result(s: Seq<int>) -> Seq<int> {
    s.subrange(4, s.len() - 1) + s.take(4)
}

/// The instructions of the limb extraction.
pub open spec fn m31_to_limbs_code() -> Seq<Opcode> {
    hint_limbs_code() + recompose_code()
}

/// The limb extraction takes the four bottom cells as hints and the top cell
/// as the value. It accepts exactly when the hints are byte limbs whose
/// weighted sum is the value, and then leaves them in place of the value. On
/// a stack of fewer than five cells it aborts.
pub proof fn lemma_m31_to_limbs(s: Seq<int>)
    ensures
        run(m31_to_limbs_code(), s) == (if m31_to_limbs_accepts(s) {
            Some(m31_to_limbs_result(s))
        } else {
            None
        }),
{
    let n = s.len() as int;
    lemma_run_concat(hint_limbs_code(), recompose_code(), s);
    if 5 <= n <= NUM_MAX {
        lemma_hint_limbs(s);
        if all_limbs(s.take(4)) {
            let t = s.skip(4) + s.take(4);
            assert(t.skip(t.len() - 4) =~= s.take(4));
            assert(t[t.len() - 5] == s.last());
            lemma_recompose(t);
            assert(t.take(t.len() - 5) + t.skip(t.len() - 4) =~= s.subrange(4, n - 1) + s.take(4));
        }
    } else {
        lemma_hint_limbs_length(s);
        if run(hint_limbs_code(), s) is Some {
            lemma_recompose_short(run(hint_limbs_code(), s).unwrap());
        }
    }
}

/// Emits the limb extraction for a base-field value. The program takes four
/// hints, checks that each is a byte limb and that their weighted sum is the
/// value on top of the stack, and leaves the limbs in place of the value.
pub fn m31_to_limbs_gadget(_r: &[usize]) -> (res: Result<Script, Error>)
    ensures
        res is Ok,
        res.unwrap()@ == m31_to_limbs_code(),
        forall|s: Seq<int>| #[trigger]
            run(res.unwrap()@, s) == (if m31_to_limbs_accepts(s) {
                Some(m31_to_limbs_result(s))
            } else {
                None
            }),
{
    let hint = OP_HINT();
    let check = check_limb_format();
    let shift = OP_256MUL();
    let mut script = Script::new();
    let mut i: usize = 0;
    while i < 4
        invariant
            i <= 4,
            hint@ == op_hint_code(),
            check@ == check_limb_format_code(),
            i == 0 ==> script@ == Seq::<Opcode>::empty(),
            i == 1 ==> script@ == hint_limb_code(),
            i == 2 ==> script@ == hint_limb_code() + hint_limb_code(),
            i == 3 ==> script@ == hint_limb_code() + hint_limb_code() + hint_limb_code(),
            i == 4 ==> script@ == hint_limbs_code(),
        decreases 4 - i,
    {
        let ghost before = script@;
        script.push_script(&hint);
        script.push_script(&check);
        assert(script@ =~= before + hint_limb_code());
        i += 1;
    }
    let ghost fetched = script@;
    script.push_opcode(Opcode::Dup);
    let mut depth: i32 = 2;
    while depth < 5
        invariant
            2 <= depth <= 5,
            shift@ == op_256mul_code(),
            depth == 2 ==> script@ == fetched + Seq::<Opcode>::empty().push(Opcode::Dup),
            depth == 3 ==> script@ == fetched + (Seq::<Opcode>::empty().push(Opcode::Dup)
                + horner_step_code(2)),
            depth == 4 ==> script@ == fetched + (Seq::<Opcode>::empty().push(Opcode::Dup)
                + horner_step_code(2) + horner_step_code(3)),
            depth == 5 ==> script@ == fetched + (Seq::<Opcode>::empty().push(Opcode::Dup)
                + horner_step_code(2) + horner_step_code(3) + horner_step_code(4)),
        decreases 5 - depth,
    {
        let ghost before = script@;
        script.push_script(&shift);
        script.push_opcode(Opcode::Push(depth));
        script.push_opcode(Opcode::Pick);
        script.push_opcode(Opcode::Add);
        assert(script@ =~= before + horner_step_code(depth));
        depth += 1;
    }
    script.push_opcode(Opcode::Push(5));
    script.push_opcode(Opcode::Roll);
    script.push_opcode(Opcode::EqualVerify);
    proof {
        assert(script@ =~= m31_to_limbs_code());
        assert forall|s: Seq<int>| #[trigger]
            run(script@, s) == (if m31_to_limbs_accepts(s) {
                Some(m31_to_limbs_result(s))
            } else {
                None
            }) by {
            lemma_m31_to_limbs(s);
        }
    }
    Ok(script)
}

} // verus!
