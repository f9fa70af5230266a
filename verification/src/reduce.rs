//! The hinted reduction: a sum of folded products is brought below the prime
//! with a quotient that the witness supplies and the machine checks.
//!
//! With digits `d0..d3` and quotient `q`, the machine evaluates
//! `d0 + q + 256 * (d1 + 256 * (d2 + 256 * (d3 - 128 * q)))`, which is the
//! folded value less `q` times the prime, and accepts when the result is
//! canonical. No other quotient can pass: a remainder is unique.

use vstd::prelude::*;
use crate::columns::{
    convs_fit, convs_ready, convs_view, digit_code, digits_sum, emit_digit, lemma_digit_code,
    lemma_lifted, lift_convs, lifted, limbs_at,
};
use crate::gadgets::{
    doubled, doublings_code, emit_doublings, lemma_doublings, lemma_op_hint, lemma_range_check,
    lemma_shift_forms_agree, op_256mul_code, op_hint_code, pow2, range_check, range_check_code,
    OP_256MUL, OP_HINT,
};
use crate::machine::{
    is_num, lemma_concat_assoc, lemma_run_concat, lemma_run_unfold, run, Opcode, Script, NUM_MAX,
};
use crate::mult::four_limbs;
use crate::table::{cell, has_table, MAX_TABLE_OFFSET, TABLE_SIZE};

verus! {

/// The least running sum that the evaluation shifts: -(2^23 - 1).
pub const SUM_MIN: i32 = -0x7f_ffff;

/// The bound below which a running sum must lie to be shifted: 2^23.
pub const SUM_END: i32 = 0x80_0000;

/// Lifting a stack keeps every digit, read at the lifted depths.
pub proof fn lemma_digits_sum_lifted(
    below: Seq<int>,
    above: Seq<int>,
    k: int,
    m: int,
    convs: Seq<(int, int)>,
    i: int,
    floor: int,
)
    requires
        lifted(below, above, k, m),
        convs_ready(below, convs, floor),
        0 <= floor,
        forall|c: int| 0 <= c < convs.len() ==> (#[trigger] convs[c]).0 < m && convs[c].1 < m,
        forall|c: int|
            0 <= c < convs.len() ==> (#[trigger] convs[c]).0 + k <= MAX_TABLE_OFFSET && convs[c].1
                + k <= MAX_TABLE_OFFSET,
    ensures
        convs_ready(above, lift_convs(convs, k), floor + k),
        digits_sum(above, lift_convs(convs, k), i) == digits_sum(below, convs, i),
    decreases convs.len(),
{
    let lc = lift_convs(convs, k);
    assert forall|c: int| 0 <= c < convs.len() implies limbs_at(above, (#[trigger] lc[c]).0)
        == limbs_at(below, convs[c].0) && limbs_at(above, lc[c].1) == limbs_at(below, convs[c].1) by {
        let d0 = convs[c].0;
        let d1 = convs[c].1;
        assert(cell(above, d0 + k) == cell(below, d0));
        assert(cell(above, (d0 - 1) + k) == cell(below, d0 - 1));
        assert(cell(above, (d0 - 2) + k) == cell(below, d0 - 2));
        assert(cell(above, (d0 - 3) + k) == cell(below, d0 - 3));
        assert(cell(above, d1 + k) == cell(below, d1));
        assert(cell(above, (d1 - 1) + k) == cell(below, d1 - 1));
        assert(cell(above, (d1 - 2) + k) == cell(below, d1 - 2));
        assert(cell(above, (d1 - 3) + k) == cell(below, d1 - 3));
        assert(limbs_at(above, d0 + k) =~= limbs_at(below, d0));
        assert(limbs_at(above, d1 + k) =~= limbs_at(below, d1));
    }
    assert forall|c: int| 0 <= c < lc.len() implies {
        &&& floor + k + 3 <= (#[trigger] lc[c]).0 < above.len()
        &&& floor + k + 3 <= lc[c].1 < above.len()
        &&& lc[c].0 <= MAX_TABLE_OFFSET
        &&& lc[c].1 <= MAX_TABLE_OFFSET
        &&& four_limbs(limbs_at(above, lc[c].0))
        &&& four_limbs(limbs_at(above, lc[c].1))
    } by {
        assert(lc[c].0 == convs[c].0 + k);
        assert(limbs_at(above, lc[c].0) == limbs_at(below, convs[c].0));
    }
    if convs.len() > 0 {
        let rest = convs.drop_last();
        assert forall|c: int| 0 <= c < rest.len() implies {
            &&& floor + 3 <= (#[trigger] rest[c]).0 < below.len()
            &&& floor + 3 <= rest[c].1 < below.len()
            &&& rest[c].0 <= MAX_TABLE_OFFSET
            &&& rest[c].1 <= MAX_TABLE_OFFSET
            &&& four_limbs(limbs_at(below, rest[c].0))
            &&& four_limbs(limbs_at(below, rest[c].1))
            &&& rest[c].0 < m
            &&& rest[c].1 < m
            &&& rest[c].0 + k <= MAX_TABLE_OFFSET
            &&& rest[c].1 + k <= MAX_TABLE_OFFSET
        } by {
            assert(rest[c] == convs[c]);
        }
        lemma_digits_sum_lifted(below, above, k, m, rest, i, floor);
        assert(lift_convs(rest, k) =~= lc.drop_last());
        assert(lc.last() == lc[lc.len() - 1]);
        assert(convs.last() == convs[convs.len() - 1]);
    }
}

/// The folded value with digits `d0..d3`.
pub open spec fn digits_value(d0: int, d1: int, d2: int, d3: int) -> int {
    d0 + 0x100 * d1 + 0x1_0000 * d2 + 0x100_0000 * d3
}

/// The second running sum of the evaluation.
pub open spec fn horner2(q: int, d2: int, d3: int) -> int {
    d2 + 256 * (d3 - 128 * q)
}

/// The third running sum of the evaluation.
pub open spec fn horner1(q: int, d1: int, d2: int, d3: int) -> int {
    d1 + 256 * horner2(q, d2, d3)
}

/// Whether the machine accepts the quotient `q` for the digits `d0..d3`:
/// every check of the evaluation passes.
pub open spec fn reduction_accepts(q: int, d0: int, d1: int, d2: int, d3: int) -> bool {
    &&& 0 <= q < 0x8000
    &&& -0x7f_ffff <= horner2(q, d2, d3) < 0x80_0000
    &&& -0x7f_ffff <= horner1(q, d1, d2, d3) < 0x80_0000
    &&& is_num(d0 + 256 * horner1(q, d1, d2, d3))
    &&& 0 <= q + d0 + 256 * horner1(q, d1, d2, d3) < 0x7fff_ffff
}

/// The machine accepts a quotient exactly when it is the quotient of the
/// folded value by the prime, and then the value it leaves is the remainder.
pub proof fn lemma_reduction_accepts(q: int, d0: int, d1: int, d2: int, d3: int)
    requires
        0 <= d0 <= 1300500,
        0 <= d1 <= 1300500,
        0 <= d2 <= 1300500,
        0 <= d3 <= 1300500,
    ensures
        reduction_accepts(q, d0, d1, d2, d3) <==> q == digits_value(d0, d1, d2, d3) / 0x7fff_ffff,
        reduction_accepts(q, d0, d1, d2, d3) ==> q + d0 + 256 * horner1(q, d1, d2, d3)
            == digits_value(d0, d1, d2, d3) % 0x7fff_ffff,
{
    let v = digits_value(d0, d1, d2, d3);
    let r = q + d0 + 256 * horner1(q, d1, d2, d3);
    assert(r == v - q * 0x7fff_ffff);
    if q == v / 0x7fff_ffff {
        assert(r == v % 0x7fff_ffff);
        assert(0 <= r < 0x7fff_ffff);
    }
}

/// The instructions that push 128 times the negated top cell.
pub open spec fn scaled_hint_code() -> Seq<Opcode> {
    Seq::<Opcode>::empty().push(Opcode::Dup) + doublings_code(7) + Seq::<Opcode>::empty().push(
        Opcode::Push(0),
    ).push(Opcode::Swap).push(Opcode::Sub)
}

/// Scaling a small quotient pushes `-128` times it.
pub proof fn lemma_scaled_hint(s: Seq<int>)
    requires
        s.len() >= 1,
        0 <= s.last() < 0x8000,
    ensures
        run(scaled_hint_code(), s) == Some(s.push(-128 * s.last())),
{
    let q = s.last();
    let c0 = Seq::<Opcode>::empty().push(Opcode::Dup);
    let c2 = Seq::<Opcode>::empty().push(Opcode::Push(0)).push(Opcode::Swap).push(Opcode::Sub);
    lemma_run_concat(c0, doublings_code(7), s);
    lemma_run_concat(c0 + doublings_code(7), c2, s);
    lemma_run_unfold();
    let s0 = s.push(q);
    assert(run(c0, s) == Some(s0));
    lemma_doublings(7, s0);
    assert(pow2(7) == 128 && pow2(6) == 64) by {
        reveal_with_fuel(pow2, 8);
    }
    let s1 = s.push(128 * q);
    assert(doubled(s0, 7) =~= s1);
    assert(run(c2, s1).unwrap() =~= s.push(-128 * q));
}

/// The instructions that add digit `i` to the running sum on top.
pub open spec fn add_digit_code(convs: Seq<(int, int)>, i: int, u: int) -> Seq<Opcode> {
    digit_code(convs, i, u).push(Opcode::Add)
}

/// Adding a digit replaces the running sum by itself plus the digit.
pub proof fn lemma_add_digit(convs: Seq<(int, int)>, i: int, u: int, s: Seq<int>)
    requires
        s.len() >= 1,
        is_num(s.last()),
        convs_ready(s.push(0), convs, 1),
        convs.len() <= 2,
        has_table(s.push(0), u),
        1 <= u,
        u + 2 <= MAX_TABLE_OFFSET,
        0 <= i < 4,
    ensures
        run(add_digit_code(convs, i, u), s) == Some(
            s.drop_last().push(s.last() + digits_sum(s.push(0), convs, i)),
        ),
        0 <= digits_sum(s.push(0), convs, i) <= 1300500,
{
    lemma_digit_code(convs, i, u, s);
    let d = digits_sum(s.push(0), convs, i);
    lemma_run_unfold();
    assert(run(add_digit_code(convs, i, u), s).unwrap() =~= s.drop_last().push(s.last() + d));
}

/// The instructions that shift the running sum by one byte and add digit `i`.
pub open spec fn horner_code(convs: Seq<(int, int)>, i: int, u: int) -> Seq<Opcode> {
    op_256mul_code() + add_digit_code(convs, i, u)
}

/// The instructions of one step of the evaluation, followed by the check that
/// the new running sum can be shifted again.
pub open spec fn checked_horner_code(convs: Seq<(int, int)>, i: int, u: int) -> Seq<Opcode> {
    horner_code(convs, i, u) + range_check_code(SUM_MIN, SUM_END)
}

/// The instructions of the hinted reduction of the products in `convs`. The
/// depths in `convs` and the table offset `u` are those at entry.
#[verifier::opaque]
pub open spec fn reduce_code(convs: Seq<(int, int)>, u: int) -> Seq<Opcode> {
    op_hint_code() + range_check_code(0, 0x8000) + scaled_hint_code() + add_digit_code(
        lift_convs(convs, 3),
        3,
        u + 3,
    ) + checked_horner_code(lift_convs(convs, 3), 2, u + 3) + checked_horner_code(
        lift_convs(convs, 3),
        1,
        u + 3,
    ) + horner_code(lift_convs(convs, 3), 0, u + 3) + Seq::<Opcode>::empty().push(Opcode::Add)
        + range_check_code(0, 0x7fff_ffff)
}

/// The folded value of the products in `convs`, read from `s`.
pub open spec fn folded_sum(s: Seq<int>, convs: Seq<(int, int)>) -> int {
    digits_value(
        digits_sum(s, convs, 0),
        digits_sum(s, convs, 1),
        digits_sum(s, convs, 2),
        digits_sum(s, convs, 3),
    )
}

/// What holds of a stack on which a reduction can run: its bottom cell is the
/// hint, and above it lie the table and the limbs that `convs` names.
pub open spec fn reduce_ready(s: Seq<int>, convs: Seq<(int, int)>, u: int) -> bool {
    &&& 1 <= s.len() <= NUM_MAX
    &&& convs.len() <= 2
    &&& convs_ready(s, convs, 0)
    &&& forall|c: int|
        0 <= c < convs.len() ==> (#[trigger] convs[c]).0 < s.len() - 1 && convs[c].1 < s.len() - 1
            && convs[c].0 + 3 <= MAX_TABLE_OFFSET && convs[c].1 + 3 <= MAX_TABLE_OFFSET
    &&& has_table(s, u)
    &&& u + TABLE_SIZE <= s.len() - 1
    &&& u + 5 <= MAX_TABLE_OFFSET
}

/// The stack on which the digits are computed lies three cells above the
/// stack at entry.
pub proof fn lemma_work_stack(s: Seq<int>, x: int)
    requires
        s.len() >= 1,
    ensures
        lifted(s, s.drop_first().push(s[0]).push(x).push(0), 3, s.len() - 1),
{
    let w = s.drop_first().push(s[0]).push(x).push(0);
    assert forall|d: int| 0 <= d < s.len() - 1 implies #[trigger] cell(w, d + 3) == cell(s, d) by {}
}

/// One step of the evaluation replaces the running sum `x` by `256 * x` plus
/// the digit.
pub proof fn lemma_horner(convs: Seq<(int, int)>, u: int, i: int, s: Seq<int>, x: int)
    requires
        reduce_ready(s, convs, u),
        0 <= i < 4,
        -0x7f_ffff <= x <= 0x7f_ffff,
    ensures
        run(horner_code(lift_convs(convs, 3), i, u + 3), s.drop_first().push(s[0]).push(x)) == Some(
            s.drop_first().push(s[0]).push(256 * x + digits_sum(s, convs, i)),
        ),
        0 <= digits_sum(s, convs, i) <= 1300500,
{
    let cv = lift_convs(convs, 3);
    let t0 = s.drop_first().push(s[0]);
    let st = t0.push(x);
    lemma_run_concat(op_256mul_code(), add_digit_code(cv, i, u + 3), st);
    lemma_shift_forms_agree(st);
    let st1 = t0.push(256 * x);
    assert(st.drop_last().push(256 * x) =~= st1);
    lemma_work_stack(s, 256 * x);
    lemma_lifted(s, st1.push(0), 3, s.len() - 1, u);
    lemma_digits_sum_lifted(s, st1.push(0), 3, s.len() - 1, convs, i, 0);
    lemma_add_digit(cv, i, u + 3, st1);
    assert(st1.drop_last() =~= t0);
}

/// Adding the top digit to the scaled quotient.
pub proof fn lemma_first_digit(convs: Seq<(int, int)>, u: int, s: Seq<int>, x: int)
    requires
        reduce_ready(s, convs, u),
        is_num(x),
    ensures
        run(add_digit_code(lift_convs(convs, 3), 3, u + 3), s.drop_first().push(s[0]).push(x))
            == Some(s.drop_first().push(s[0]).push(x + digits_sum(s, convs, 3))),
        0 <= digits_sum(s, convs, 3) <= 1300500,
{
    let cv = lift_convs(convs, 3);
    let t0 = s.drop_first().push(s[0]);
    let st = t0.push(x);
    lemma_work_stack(s, x);
    lemma_lifted(s, st.push(0), 3, s.len() - 1, u);
    lemma_digits_sum_lifted(s, st.push(0), 3, s.len() - 1, convs, 3, 0);
    lemma_add_digit(cv, 3, u + 3, st);
    assert(st.drop_last() =~= t0);
}

/// The hinted reduction takes the bottom cell as the quotient. It accepts
/// exactly when that cell is the quotient of the folded value by the prime,
/// and then pushes the remainder.
pub proof fn lemma_reduce(convs: Seq<(int, int)>, u: int, s: Seq<int>)
    requires
        reduce_ready(s, convs, u),
    ensures
        run(reduce_code(convs, u), s) == (if s[0] == folded_sum(s, convs) / 0x7fff_ffff {
            Some(s.drop_first().push(folded_sum(s, convs) % 0x7fff_ffff))
        } else {
            None
        }),
        0 <= folded_sum(s, convs) <= 1300500 * 0x101_0101,
{
    reveal(reduce_code);
    let cv = lift_convs(convs, 3);
    let q = s[0];
    let rest = s.drop_first();
    let t0 = rest.push(q);
    let d0 = digits_sum(s, convs, 0);
    let d1 = digits_sum(s, convs, 1);
    let d2 = digits_sum(s, convs, 2);
    let d3 = digits_sum(s, convs, 3);
    let p0 = op_hint_code();
    let p1 = range_check_code(0, 0x8000);
    let p2 = scaled_hint_code();
    let p3 = add_digit_code(cv, 3, u + 3);
    let p4 = checked_horner_code(cv, 2, u + 3);
    let p5 = checked_horner_code(cv, 1, u + 3);
    let p6 = horner_code(cv, 0, u + 3);
    let p7 = Seq::<Opcode>::empty().push(Opcode::Add);
    let p8 = range_check_code(0, 0x7fff_ffff);
    lemma_run_concat(p0, p1, s);
    lemma_run_concat(p0 + p1, p2, s);
    lemma_run_concat(p0 + p1 + p2, p3, s);
    lemma_run_concat(p0 + p1 + p2 + p3, p4, s);
    lemma_run_concat(p0 + p1 + p2 + p3 + p4, p5, s);
    lemma_run_concat(p0 + p1 + p2 + p3 + p4 + p5, p6, s);
    lemma_run_concat(p0 + p1 + p2 + p3 + p4 + p5 + p6, p7, s);
    lemma_run_concat(p0 + p1 + p2 + p3 + p4 + p5 + p6 + p7, p8, s);
    lemma_horner(convs, u, 0, s, 0);
    lemma_horner(convs, u, 1, s, 0);
    lemma_horner(convs, u, 2, s, 0);
    lemma_first_digit(convs, u, s, 0);
    lemma_reduction_accepts(q, d0, d1, d2, d3);
    lemma_op_hint(s);
    assert(rest.push(s.first()) == t0);
    lemma_range_check(0, 0x8000, t0);
    if 0 <= q < 0x8000 {
        lemma_scaled_hint(t0);
        let x3 = -128 * q;
        lemma_first_digit(convs, u, s, x3);
        let a3 = x3 + d3;
        lemma_run_concat(horner_code(cv, 2, u + 3), range_check_code(SUM_MIN, SUM_END), t0.push(a3));
        lemma_horner(convs, u, 2, s, a3);
        let a2 = 256 * a3 + d2;
        assert(a2 == horner2(q, d2, d3));
        lemma_range_check(SUM_MIN, SUM_END, t0.push(a2));
        if -0x7f_ffff <= a2 < 0x80_0000 {
            lemma_run_concat(
                horner_code(cv, 1, u + 3),
                range_check_code(SUM_MIN, SUM_END),
                t0.push(a2),
            );
            lemma_horner(convs, u, 1, s, a2);
            let a1 = 256 * a2 + d1;
            assert(a1 == horner1(q, d1, d2, d3));
            lemma_range_check(SUM_MIN, SUM_END, t0.push(a1));
            if -0x7f_ffff <= a1 < 0x80_0000 {
                lemma_horner(convs, u, 0, s, a1);
                let a0 = 256 * a1 + d0;
                let st = t0.push(a0);
                lemma_run_unfold();
                if is_num(a0) {
                    let r = q + a0;
                    assert(run(p7, st).unwrap() =~= rest.push(r));
                    lemma_range_check(0, 0x7fff_ffff, rest.push(r));
                } else {
                    assert(run(p7, st) is None);
                }
            }
        }
    }
}

/// Emits the instructions that push `-128` times the top cell.
pub fn emit_scaled_hint(script: &mut Script)
    ensures
        final(script)@ == old(script)@ + scaled_hint_code(),
{
    script.push_opcode(Opcode::Dup);
    emit_doublings(script, 7);
    script.push_opcode(Opcode::Push(0));
    script.push_opcode(Opcode::Swap);
    script.push_opcode(Opcode::Sub);
    assert(script@ =~= old(script)@ + scaled_hint_code());
}

/// Emits the instructions that add digit `i` to the running sum.
pub fn emit_add_digit(script: &mut Script, convs: &Vec<(i32, i32)>, i: i32, u: i32)
    requires
        convs_fit(convs@),
        0 <= i < 4,
        0 <= u,
        u + 2 <= MAX_TABLE_OFFSET,
    ensures
        final(script)@ == old(script)@ + add_digit_code(
            lift_convs(convs_view(convs@), 3),
            i as int,
            u as int,
        ),
{
    emit_digit(script, convs, 3, i, u);
    script.push_opcode(Opcode::Add);
    assert(script@ =~= old(script)@ + add_digit_code(
        lift_convs(convs_view(convs@), 3),
        i as int,
        u as int,
    ));
}

/// Emits one step of the evaluation: the shift of the running sum and the
/// addition of digit `i`.
pub fn emit_horner(script: &mut Script, convs: &Vec<(i32, i32)>, i: i32, u: i32)
    requires
        convs_fit(convs@),
        0 <= i < 4,
        0 <= u,
        u + 2 <= MAX_TABLE_OFFSET,
    ensures
        final(script)@ == old(script)@ + horner_code(
            lift_convs(convs_view(convs@), 3),
            i as int,
            u as int,
        ),
{
    let shift = OP_256MUL();
    script.push_script(&shift);
    emit_add_digit(script, convs, i, u);
    assert(script@ =~= old(script)@ + horner_code(
        lift_convs(convs_view(convs@), 3),
        i as int,
        u as int,
    ));
}

/// Emits one step of the evaluation and the check that the new running sum
/// can be shifted again.
pub fn emit_checked_horner(script: &mut Script, convs: &Vec<(i32, i32)>, i: i32, u: i32)
    requires
        convs_fit(convs@),
        0 <= i < 4,
        0 <= u,
        u + 2 <= MAX_TABLE_OFFSET,
    ensures
        final(script)@ == old(script)@ + checked_horner_code(
            lift_convs(convs_view(convs@), 3),
            i as int,
            u as int,
        ),
{
    let sum = range_check(SUM_MIN, SUM_END);
    emit_horner(script, convs, i, u);
    script.push_script(&sum);
    assert(script@ =~= old(script)@ + checked_horner_code(
        lift_convs(convs_view(convs@), 3),
        i as int,
        u as int,
    ));
}

/// Emits the retrieval of the quotient and the check that it is small.
pub fn emit_quotient(script: &mut Script)
    ensures
        final(script)@ == old(script)@ + (op_hint_code() + range_check_code(0, 0x8000)),
{
    let hint = OP_HINT();
    let small = range_check(0, 0x8000);
    script.push_script(&hint);
    script.push_script(&small);
    assert(script@ =~= old(script)@ + (op_hint_code() + range_check_code(0, 0x8000)));
}

/// Emits the last addition, of the quotient, and the check that the result is
/// canonical.
pub fn emit_canonical(script: &mut Script)
    ensures
        final(script)@ == old(script)@ + (Seq::<Opcode>::empty().push(Opcode::Add)
            + range_check_code(0, 0x7fff_ffff)),
{
    let canonical = range_check(0, 0x7fff_ffff);
    script.push_opcode(Opcode::Add);
    script.push_script(&canonical);
    assert(script@ =~= old(script)@ + (Seq::<Opcode>::empty().push(Opcode::Add) + range_check_code(
        0,
        0x7fff_ffff,
    )));
}

/// Emits the hinted reduction of the products that `convs` names. The program
/// takes one hint, the quotient, and pushes the remainder of the folded value
/// by the prime; it aborts on every other quotient.
/// What the code does on a stack is stated by `lemma_reduce`.
pub fn emit_reduce(script: &mut Script, convs: &Vec<(i32, i32)>, u: i32)
    requires
        convs_fit(convs@),
        0 <= u,
        u + 5 <= MAX_TABLE_OFFSET,
    ensures
        final(script)@ == old(script)@ + reduce_code(convs_view(convs@), u as int),
{
    let ghost cv = lift_convs(convs_view(convs@), 3);
    let ghost w = u + 3;
    emit_quotient(script);
    emit_scaled_hint(script);
    emit_add_digit(script, convs, 3, u + 3);
    emit_checked_horner(script, convs, 2, u + 3);
    emit_checked_horner(script, convs, 1, u + 3);
    emit_horner(script, convs, 0, u + 3);
    emit_canonical(script);
    proof {
        reveal(reduce_code);
        let a = old(script)@;
        let p01 = op_hint_code() + range_check_code(0, 0x8000);
        let p2 = scaled_hint_code();
        let p3 = add_digit_code(cv, 3, w);
        let p4 = checked_horner_code(cv, 2, w);
        let p5 = checked_horner_code(cv, 1, w);
        let p6 = horner_code(cv, 0, w);
        let p78 = Seq::<Opcode>::empty().push(Opcode::Add) + range_check_code(0, 0x7fff_ffff);
        assert(script@ == a + p01 + p2 + p3 + p4 + p5 + p6 + p78);
        lemma_concat_assoc(a, p01 + p2 + p3 + p4 + p5 + p6, p78);
        lemma_concat_assoc(a, p01 + p2 + p3 + p4 + p5, p6);
        lemma_concat_assoc(a, p01 + p2 + p3 + p4, p5);
        lemma_concat_assoc(a, p01 + p2 + p3, p4);
        lemma_concat_assoc(a, p01 + p2, p3);
        lemma_concat_assoc(a, p01, p2);
        lemma_concat_assoc(op_hint_code(), range_check_code(0, 0x8000), p2);
        let b = op_hint_code() + range_check_code(0, 0x8000) + p2 + p3 + p4 + p5 + p6;
        lemma_concat_assoc(b, Seq::<Opcode>::empty().push(Opcode::Add), range_check_code(0, 0x7fff_ffff));
    }
}

} // verus!
