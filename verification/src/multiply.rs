//! The generated code of the hinted multiplication in the degree-2 extension.
//!
//! With `a = a_r + a_i * i` and `b = b_r + b_i * i`, the program reduces
//! `a_r * b_r` and `a_i * b_i`, subtracts the second from the first modulo the
//! prime for the real part, and reduces `a_r * b_i + a_i * b_r` for the
//! imaginary part. Each reduction consumes one quotient hint.

use vstd::prelude::*;
use crate::columns::{convs_fit, convs_view, digits_sum, lifted, limbs_at};
use crate::gadgets::{doubled, doublings_code, emit_doublings, lemma_doublings, pow2};
use crate::limbs::{all_limbs, is_limb};
use crate::machine::{
    lemma_concat_assoc, lemma_run_concat, lemma_run_unfold, run, Opcode, Script, NUM_MAX,
};
use crate::mult::{
    folded, four_limbs, hint_q1, hint_q2, hint_q3, imag_limbs, modulus, mult_imag, mult_real,
    real_limbs,
};
use crate::reduce::{emit_reduce, folded_sum, lemma_reduce, reduce_code};
use crate::table::{cell, has_table, MAX_TABLE_OFFSET, TABLE_SIZE};

verus! {

/// The instructions that replace two canonical values `x`, `y` on top of the
/// stack by `x - y` modulo the prime.
pub open spec fn m31_sub_code() -> Seq<Opcode> {
    Seq::<Opcode>::empty().push(Opcode::Sub).push(Opcode::Dup).push(Opcode::Push(0)).push(
        Opcode::LessThan,
    ).push(Opcode::Dup) + doublings_code(30) + Seq::<Opcode>::empty().push(Opcode::Dup).push(
        Opcode::Rot,
    ).push(Opcode::Sub).push(Opcode::Rot).push(Opcode::Add).push(Opcode::Add)
}

/// The subtraction modulo the prime replaces `x`, `y` by the canonical
/// representative of `x - y`: where the difference is negative, the prime is
/// added as twice 2^30 less one.
pub proof fn lemma_m31_sub(s: Seq<int>)
    requires
        s.len() >= 2,
        0 <= cell(s, 1) < 0x7fff_ffff,
        0 <= cell(s, 0) < 0x7fff_ffff,
    ensures
        run(m31_sub_code(), s) == Some(
            s.take(s.len() - 2).push((cell(s, 1) - cell(s, 0)) % 0x7fff_ffff),
        ),
{
    let n = s.len() as int;
    let b = s.take(n - 2);
    let t = cell(s, 1) - cell(s, 0);
    let g: int = if t < 0 { 1 } else { 0 };
    let big = 0x4000_0000 * g;
    let c0 = Seq::<Opcode>::empty().push(Opcode::Sub).push(Opcode::Dup).push(Opcode::Push(0)).push(
        Opcode::LessThan,
    ).push(Opcode::Dup);
    let c2 = Seq::<Opcode>::empty().push(Opcode::Dup).push(Opcode::Rot).push(Opcode::Sub).push(
        Opcode::Rot,
    ).push(Opcode::Add).push(Opcode::Add);
    lemma_run_concat(c0, doublings_code(30), s);
    lemma_run_concat(c0 + doublings_code(30), c2, s);
    lemma_run_unfold();
    let s0 = b.push(t).push(g).push(g);
    assert(run(c0, s).unwrap() =~= s0);
    lemma_doublings(30, s0);
    assert(pow2(30) == 0x4000_0000 && pow2(29) == 0x2000_0000) by {
        reveal_with_fuel(pow2, 31);
    }
    let s1 = b.push(t).push(g).push(big);
    assert(doubled(s0, 30) =~= s1);
    assert(run(c2, s1).unwrap() =~= b.push(2 * big - g + t));
}

/// Emits the subtraction of two canonical values modulo the prime.
/// What the code does on a stack is stated by `lemma_m31_sub`.
pub fn emit_m31_sub(script: &mut Script)
    ensures
        final(script)@ == old(script)@ + m31_sub_code(),
{
    script.push_opcode(Opcode::Sub);
    script.push_opcode(Opcode::Dup);
    script.push_opcode(Opcode::Push(0));
    script.push_opcode(Opcode::LessThan);
    script.push_opcode(Opcode::Dup);
    emit_doublings(script, 30);
    script.push_opcode(Opcode::Dup);
    script.push_opcode(Opcode::Rot);
    script.push_opcode(Opcode::Sub);
    script.push_opcode(Opcode::Rot);
    script.push_opcode(Opcode::Add);
    script.push_opcode(Opcode::Add);
    assert(script@ =~= old(script)@ + m31_sub_code());
}

/// The instructions that remove the cell below the two top cells.
pub open spec fn drop_third_code() -> Seq<Opcode> {
    Seq::<Opcode>::empty().push(Opcode::Push(2)).push(Opcode::Roll).push(Opcode::Drop)
}

/// The instructions that remove the `n` cells below the two top cells.
pub open spec fn drop_below_code(n: nat) -> Seq<Opcode>
    decreases n,
{
    if n == 0 {
        Seq::<Opcode>::empty()
    } else {
        drop_below_code((n - 1) as nat) + drop_third_code()
    }
}

/// Removing `n` cells below the two top cells leaves the rest in place.
pub proof fn lemma_drop_below(n: nat, s: Seq<int>)
    requires
        s.len() >= n + 2,
    ensures
        run(drop_below_code(n), s) == Some(s.take(s.len() - 2 - n) + s.skip(s.len() - 2)),
    decreases n,
{
    lemma_run_unfold();
    if n == 0 {
        assert(s.take(s.len() - 2) + s.skip(s.len() - 2) =~= s);
    } else {
        let m = (n - 1) as nat;
        lemma_drop_below(m, s);
        lemma_run_concat(drop_below_code(m), drop_third_code(), s);
        let t = s.take(s.len() - 2 - m) + s.skip(s.len() - 2);
        lemma_run_unfold();
        assert(run(drop_third_code(), t).unwrap() =~= s.take(s.len() - 2 - n) + s.skip(
            s.len() - 2,
        ));
    }
}

/// Emits the removal of the `n` cells below the two top cells.
/// What the code does on a stack is stated by `lemma_drop_below`.
pub fn emit_drop_below(script: &mut Script, n: usize)
    ensures
        final(script)@ == old(script)@ + drop_below_code(n as nat),
{
    let mut i: usize = 0;
    assert(script@ =~= old(script)@ + drop_below_code(0));
    while i < n
        invariant
            i <= n,
            script@ == old(script)@ + drop_below_code(i as nat),
        decreases n - i,
    {
        script.push_opcode(Opcode::Push(2));
        script.push_opcode(Opcode::Roll);
        script.push_opcode(Opcode::Drop);
        i += 1;
        assert(script@ =~= old(script)@ + drop_below_code(i as nat));
    }
}

/// The products of the first reduction: real part by real part.
pub open spec fn real_convs() -> Seq<(int, int)> {
    Seq::<(int, int)>::empty().push((11, 3))
}

/// The products of the second reduction, one cell deeper: imaginary part by
/// imaginary part.
pub open spec fn imag_convs() -> Seq<(int, int)> {
    Seq::<(int, int)>::empty().push((16, 8))
}

/// The products of the third reduction, one cell deeper: the two cross
/// products.
pub open spec fn cross_convs() -> Seq<(int, int)> {
    Seq::<(int, int)>::empty().push((12, 8)).push((16, 4))
}

/// The instructions that end the multiplication: the real part, computed
/// first, is brought on top of the imaginary part, and the sixteen input
/// limbs below the two are removed.
pub open spec fn finish_code() -> Seq<Opcode> {
    Seq::<Opcode>::empty().push(Opcode::Swap) + drop_below_code(16)
}

/// The end of the multiplication exchanges the two top cells and removes the
/// sixteen cells below them.
pub proof fn lemma_finish(s: Seq<int>)
    requires
        s.len() >= 18,
    ensures
        run(finish_code(), s) == Some(
            s.take(s.len() - 18).push(s[s.len() - 1]).push(s[s.len() - 2]),
        ),
{
    let n = s.len() as int;
    let swap = Seq::<Opcode>::empty().push(Opcode::Swap);
    let t = s.take(n - 2).push(s[n - 1]).push(s[n - 2]);
    lemma_run_concat(swap, drop_below_code(16), s);
    lemma_run_unfold();
    assert(run(swap, s) == Some(t));
    lemma_drop_below(16, t);
    assert(t.take(t.len() - 18) + t.skip(t.len() - 2) =~= s.take(n - 18).push(s[n - 1]).push(
        s[n - 2],
    ));
}

/// The instructions of the hinted multiplication, with `k` cells between the
/// table and the sixteen input limbs.
#[verifier::opaque]
pub open spec fn mult_code(k: int) -> Seq<Opcode> {
    real_part_code(k) + reduce_code(cross_convs(), 17 + k) + finish_code()
}

/// What holds of a stack on which the multiplication can run: three hints at
/// the bottom, the table with `k` cells above it, and on top the limbs of the
/// two factors, each a byte.
pub open spec fn mult_ready(s: Seq<int>, k: int) -> bool {
    &&& 0 <= k <= MAX_TABLE_OFFSET - 32
    &&& 3 + TABLE_SIZE + k + 16 <= s.len() <= NUM_MAX
    &&& all_limbs(s.skip(s.len() - 16))
    &&& has_table(s, 16 + k)
}

/// The folded value of one product is the folded product of its two values.
pub proof fn lemma_folded_sum_one(s: Seq<int>, dx: int, dy: int)
    ensures
        folded_sum(s, Seq::<(int, int)>::empty().push((dx, dy))) == folded(
            limbs_at(s, dx),
            limbs_at(s, dy),
        ),
{
    let c = Seq::<(int, int)>::empty().push((dx, dy));
    assert(c.drop_last() =~= Seq::<(int, int)>::empty());
    assert(c.last() == (dx, dy));
    reveal_with_fuel(digits_sum, 2);
}

/// The folded value of two products is the sum of their folded products.
pub proof fn lemma_folded_sum_two(s: Seq<int>, dx: int, dy: int, ex: int, ey: int)
    ensures
        folded_sum(s, Seq::<(int, int)>::empty().push((dx, dy)).push((ex, ey))) == folded(
            limbs_at(s, dx),
            limbs_at(s, dy),
        ) + folded(limbs_at(s, ex), limbs_at(s, ey)),
{
    let c1 = Seq::<(int, int)>::empty().push((dx, dy));
    let c = c1.push((ex, ey));
    assert(c1.drop_last() =~= Seq::<(int, int)>::empty());
    assert(c.drop_last() =~= c1);
    assert(c.last() == (ex, ey));
    assert(c1.last() == (dx, dy));
    reveal_with_fuel(digits_sum, 3);
}

/// Where the top of a stack holds byte limbs, every run of four of them is a
/// four-limb value.
pub proof fn lemma_limbs_on_top(s: Seq<int>, count: int, shift: int, t: Seq<int>, d: int)
    requires
        0 <= count <= s.len(),
        all_limbs(s.skip(s.len() - count)),
        lifted(s, t, shift, count),
        3 <= d < count,
    ensures
        four_limbs(limbs_at(t, d + shift)),
        limbs_at(t, d + shift) == s.subrange(s.len() - 1 - d, s.len() + 3 - d),
{
    let top = s.skip(s.len() - count);
    let l = limbs_at(t, d + shift);
    assert(cell(t, d + shift) == cell(s, d));
    assert(cell(t, (d - 1) + shift) == cell(s, d - 1));
    assert(cell(t, (d - 2) + shift) == cell(s, d - 2));
    assert(cell(t, (d - 3) + shift) == cell(s, d - 3));
    assert(cell(s, d) == top[count - 1 - d] && is_limb(top[count - 1 - d]));
    assert(cell(s, d - 1) == top[count - d] && is_limb(top[count - d]));
    assert(cell(s, d - 2) == top[count + 1 - d] && is_limb(top[count + 1 - d]));
    assert(cell(s, d - 3) == top[count + 2 - d] && is_limb(top[count + 2 - d]));
    assert(l =~= s.subrange(s.len() - 1 - d, s.len() + 3 - d));
}

/// A stack is itself, lifted by nothing.
pub proof fn lemma_lifted_self(s: Seq<int>, m: int)
    requires
        0 <= m <= s.len(),
    ensures
        lifted(s, s, 0, m),
{
    assert forall|d: int| 0 <= d < m implies #[trigger] cell(s, d + 0) == cell(s, d) by {}
}

/// Dropping cells from the bottom and pushing one on top lifts by one.
pub proof fn lemma_lifted_skip_push(s: Seq<int>, j: int, v: int)
    requires
        0 <= j <= s.len(),
    ensures
        lifted(s, s.skip(j).push(v), 1, s.len() - j),
{
    let t = s.skip(j).push(v);
    assert forall|d: int| 0 <= d < s.len() - j implies #[trigger] cell(t, d + 1) == cell(s, d) by {}
}

/// The first reduction accepts exactly the first hint and pushes the reduced
/// product of the real parts.
pub proof fn lemma_mult_real_parts(k: int, s: Seq<int>)
    requires
        mult_ready(s, k),
    ensures
        ({
            let a = s.subrange(s.len() - 16, s.len() - 8);
            let b = s.skip(s.len() - 8);
            run(reduce_code(real_convs(), 16 + k), s) == (if s[0] == hint_q1(a, b) {
                Some(s.skip(1).push(folded(real_limbs(a), real_limbs(b)) % modulus()))
            } else {
                None
            })
        }),
{
    let n = s.len() as int;
    let a = s.subrange(n - 16, n - 8);
    let b = s.skip(n - 8);
    assert(real_limbs(a) =~= s.subrange(n - 12, n - 8));
    assert(real_limbs(b) =~= s.subrange(n - 4, n));
    lemma_lifted_self(s, 16);
    lemma_limbs_on_top(s, 16, 0, s, 11);
    lemma_limbs_on_top(s, 16, 0, s, 3);
    assert(real_convs()[0] == (11int, 3int));
    lemma_folded_sum_one(s, 11, 3);
    lemma_reduce(real_convs(), 16 + k, s);
    assert(s.drop_first() =~= s.skip(1));
}

/// The second reduction accepts exactly the second hint and pushes the
/// reduced product of the imaginary parts.
pub proof fn lemma_mult_imag_parts(k: int, s: Seq<int>, r1: int)
    requires
        mult_ready(s, k),
    ensures
        ({
            let a = s.subrange(s.len() - 16, s.len() - 8);
            let b = s.skip(s.len() - 8);
            run(reduce_code(imag_convs(), 17 + k), s.skip(1).push(r1)) == (if s[1] == hint_q2(
                a,
                b,
            ) {
                Some(s.skip(2).push(r1).push(folded(imag_limbs(a), imag_limbs(b)) % modulus()))
            } else {
                None
            })
        }),
{
    let n = s.len() as int;
    let a = s.subrange(n - 16, n - 8);
    let b = s.skip(n - 8);
    assert(imag_limbs(a) =~= s.subrange(n - 16, n - 12));
    assert(imag_limbs(b) =~= s.subrange(n - 8, n - 4));
    let s1 = s.skip(1).push(r1);
    lemma_lifted_skip_push(s, 1, r1);
    crate::columns::lemma_lifted(s, s1, 1, n - 1, 16 + k);
    lemma_limbs_on_top(s, 16, 1, s1, 15);
    lemma_limbs_on_top(s, 16, 1, s1, 7);
    assert(imag_convs()[0] == (16int, 8int));
    lemma_folded_sum_one(s1, 16, 8);
    lemma_reduce(imag_convs(), 17 + k, s1);
    assert(s1[0] == s[1]);
    let r2 = folded(imag_limbs(a), imag_limbs(b)) % modulus();
    assert(s1.drop_first().push(r2) =~= s.skip(2).push(r1).push(r2));
}

/// The third reduction accepts exactly the third hint and pushes the reduced
/// sum of the cross products.
pub proof fn lemma_mult_cross_parts(k: int, s: Seq<int>, re: int)
    requires
        mult_ready(s, k),
    ensures
        ({
            let a = s.subrange(s.len() - 16, s.len() - 8);
            let b = s.skip(s.len() - 8);
            run(reduce_code(cross_convs(), 17 + k), s.skip(2).push(re)) == (if s[2] == hint_q3(
                a,
                b,
            ) {
                Some(s.skip(3).push(re).push(mult_imag(a, b)))
            } else {
                None
            })
        }),
{
    let n = s.len() as int;
    let a = s.subrange(n - 16, n - 8);
    let b = s.skip(n - 8);
    assert(real_limbs(a) =~= s.subrange(n - 12, n - 8));
    assert(real_limbs(b) =~= s.subrange(n - 4, n));
    assert(imag_limbs(a) =~= s.subrange(n - 16, n - 12));
    assert(imag_limbs(b) =~= s.subrange(n - 8, n - 4));
    let s3 = s.skip(2).push(re);
    lemma_lifted_skip_push(s, 2, re);
    crate::columns::lemma_lifted(s, s3, 1, n - 2, 16 + k);
    lemma_limbs_on_top(s, 16, 1, s3, 15);
    lemma_limbs_on_top(s, 16, 1, s3, 11);
    lemma_limbs_on_top(s, 16, 1, s3, 7);
    lemma_limbs_on_top(s, 16, 1, s3, 3);
    assert(cross_convs()[0] == (12int, 8int));
    assert(cross_convs()[1] == (16int, 4int));
    lemma_folded_sum_two(s3, 12, 8, 16, 4);
    lemma_reduce(cross_convs(), 17 + k, s3);
    assert(s3[0] == s[2]);
    assert(s3.drop_first().push(mult_imag(a, b)) =~= s.skip(3).push(re).push(mult_imag(a, b)));
}

/// The instructions that compute the real part of the product.
#[verifier::opaque]
pub open spec fn real_part_code(k: int) -> Seq<Opcode> {
    reduce_code(real_convs(), 16 + k) + reduce_code(imag_convs(), 17 + k) + m31_sub_code()
}

/// The first two reductions and the subtraction accept exactly the first two
/// hints and push the real part of the product.
pub proof fn lemma_mult_real_part(k: int, s: Seq<int>)
    requires
        mult_ready(s, k),
    ensures
        ({
            let a = s.subrange(s.len() - 16, s.len() - 8);
            let b = s.skip(s.len() - 8);
            run(real_part_code(k), s) == (if s[0] == hint_q1(a, b) && s[1] == hint_q2(a, b) {
                Some(s.skip(2).push(mult_real(a, b)))
            } else {
                None
            })
        }),
{
    let n = s.len() as int;
    let a = s.subrange(n - 16, n - 8);
    let b = s.skip(n - 8);
    reveal(real_part_code);
    let c1 = reduce_code(real_convs(), 16 + k);
    let c2 = reduce_code(imag_convs(), 17 + k);
    let c3 = m31_sub_code();
    let r1 = folded(real_limbs(a), real_limbs(b)) % modulus();
    let r2 = folded(imag_limbs(a), imag_limbs(b)) % modulus();
    lemma_run_concat(c1, c2, s);
    lemma_run_concat(c1 + c2, c3, s);
    lemma_mult_real_parts(k, s);
    if s[0] == hint_q1(a, b) {
        lemma_mult_imag_parts(k, s, r1);
        if s[1] == hint_q2(a, b) {
            let s2 = s.skip(2).push(r1).push(r2);
            assert(cell(s2, 1) == r1 && cell(s2, 0) == r2);
            lemma_m31_sub(s2);
            assert(s2.take(s2.len() - 2) =~= s.skip(2));
        }
    }
}

/// The hinted multiplication takes the three bottom cells as quotients. It
/// accepts exactly when they are the three quotients that the limbs of the
/// factors determine, and then replaces the factors by their product as it
/// is stored: the imaginary part, and on top of it the real part.
pub proof fn lemma_mult(k: int, s: Seq<int>)
    requires
        mult_ready(s, k),
    ensures
        ({
            let a = s.subrange(s.len() - 16, s.len() - 8);
            let b = s.skip(s.len() - 8);
            run(mult_code(k), s) == (if s[0] == hint_q1(a, b) && s[1] == hint_q2(a, b) && s[2]
                == hint_q3(a, b) {
                Some(s.subrange(3, s.len() - 16).push(mult_imag(a, b)).push(mult_real(a, b)))
            } else {
                None
            })
        }),
{
    let n = s.len() as int;
    let a = s.subrange(n - 16, n - 8);
    let b = s.skip(n - 8);
    let c123 = real_part_code(k);
    let c4 = reduce_code(cross_convs(), 17 + k);
    let c5 = finish_code();
    let re = mult_real(a, b);
    let im = mult_imag(a, b);
    assert(mult_code(k) == c123 + c4 + c5) by {
        reveal(mult_code);
    }
    lemma_run_concat(c123, c4, s);
    lemma_run_concat(c123 + c4, c5, s);
    lemma_mult_real_part(k, s);
    if s[0] == hint_q1(a, b) && s[1] == hint_q2(a, b) {
        lemma_mult_cross_parts(k, s, re);
        if s[2] == hint_q3(a, b) {
            let s4 = s.skip(3).push(re).push(im);
            lemma_finish(s4);
            assert(s4.take(s4.len() - 18) =~= s.subrange(3, n - 16));
        }
    }
}

/// The products of the first reduction, as the generator holds them.
fn real_products() -> (convs: Vec<(i32, i32)>)
    ensures
        convs_view(convs@) == real_convs(),
        convs_fit(convs@),
{
    let mut convs: Vec<(i32, i32)> = Vec::new();
    convs.push((11, 3));
    assert(convs_view(convs@) =~= real_convs());
    convs
}

/// The products of the second reduction, as the generator holds them.
fn imag_products() -> (convs: Vec<(i32, i32)>)
    ensures
        convs_view(convs@) == imag_convs(),
        convs_fit(convs@),
{
    let mut convs: Vec<(i32, i32)> = Vec::new();
    convs.push((16, 8));
    assert(convs_view(convs@) =~= imag_convs());
    convs
}

/// The products of the third reduction, as the generator holds them.
fn cross_products() -> (convs: Vec<(i32, i32)>)
    ensures
        convs_view(convs@) == cross_convs(),
        convs_fit(convs@),
{
    let mut convs: Vec<(i32, i32)> = Vec::new();
    convs.push((12, 8));
    convs.push((16, 4));
    assert(convs_view(convs@) =~= cross_convs());
    convs
}

/// Emits the two reductions and the subtraction that give the real part.
fn emit_real_part(script: &mut Script, u: i32)
    requires
        0 <= u <= MAX_TABLE_OFFSET - 32,
    ensures
        final(script)@ == old(script)@ + real_part_code(u as int),
{
    let first = real_products();
    let second = imag_products();
    reveal(real_part_code);
    let ghost c1 = reduce_code(real_convs(), 16 + u);
    let ghost c2 = reduce_code(imag_convs(), 17 + u);
    emit_reduce(script, &first, u + 16);
    assert(script@ == old(script)@ + c1);
    emit_reduce(script, &second, u + 17);
    assert(script@ == old(script)@ + c1 + c2);
    emit_m31_sub(script);
    assert(script@ == old(script)@ + c1 + c2 + m31_sub_code());
    proof {
        lemma_concat_assoc(old(script)@, c1, c2);
        lemma_concat_assoc(old(script)@, c1 + c2, m31_sub_code());
    }
}

/// Emits the exchange of the two parts and the removal of the input limbs.
fn emit_finish(script: &mut Script)
    ensures
        final(script)@ == old(script)@ + finish_code(),
{
    script.push_opcode(Opcode::Swap);
    emit_drop_below(script, 16);
    proof {
        let swap = Seq::<Opcode>::empty().push(Opcode::Swap);
        assert(old(script)@.push(Opcode::Swap) =~= old(script)@ + swap);
        lemma_concat_assoc(old(script)@, swap, drop_below_code(16));
    }
}

/// Emits the reduction that gives the imaginary part, and the end of the
/// multiplication.
fn emit_imag_part(script: &mut Script, u: i32)
    requires
        0 <= u <= MAX_TABLE_OFFSET - 32,
    ensures
        final(script)@ == old(script)@ + (reduce_code(cross_convs(), 17 + u) + finish_code()),
{
    let third = cross_products();
    let ghost c4 = reduce_code(cross_convs(), 17 + u);
    emit_reduce(script, &third, u + 17);
    assert(script@ == old(script)@ + c4);
    emit_finish(script);
    assert(script@ == old(script)@ + c4 + finish_code());
    proof {
        lemma_concat_assoc(old(script)@, c4, finish_code());
    }
}

/// Emits the hinted multiplication at the end of `script`.
/// What the code does on a stack is stated by `lemma_mult`.
pub fn emit_mult(script: &mut Script, k: usize)
    requires
        k <= MAX_TABLE_OFFSET - 32,
    ensures
        final(script)@ == old(script)@ + mult_code(k as int),
{
    let u: i32 = k as i32;
    emit_real_part(script, u);
    emit_imag_part(script, u);
    proof {
        reveal(mult_code);
        let a = old(script)@;
        let c123 = real_part_code(u as int);
        let c4 = reduce_code(cross_convs(), 17 + u);
        let c5 = finish_code();
        lemma_concat_assoc(a, c123, c4 + c5);
        lemma_concat_assoc(c123, c4, c5);
    }
}

/// The code generator of the hinted multiplication.
pub struct CM31MultGadget;

impl CM31MultGadget {
    /// Emits the hinted multiplication of two degree-2 elements in limb form,
    /// for a table that lies `k` cells below the sixteen input limbs. The
    /// program takes three hints. It leaves the imaginary part of the product
    /// and, on top of it, the real part in place of the limbs, and aborts
    /// unless the hints are the three quotients that the limbs determine.
    pub fn mult(k: usize) -> (script: Script)
        requires
            k <= MAX_TABLE_OFFSET - 32,
        ensures
            script@ == mult_code(k as int),
            forall|s: Seq<int>|
                mult_ready(s, k as int) ==> #[trigger] run(script@, s) == ({
                    let a = s.subrange(s.len() - 16, s.len() - 8);
                    let b = s.skip(s.len() - 8);
                    if s[0] == hint_q1(a, b) && s[1] == hint_q2(a, b) && s[2] == hint_q3(a, b) {
                        Some(
                            s.subrange(3, s.len() - 16).push(mult_imag(a, b)).push(mult_real(a, b)),
                        )
                    } else {
                        None
                    }
                }),
    {
        let mut script = Script::new();
        emit_mult(&mut script, k);
        proof {
            assert(script@ =~= mult_code(k as int));
            assert forall|s: Seq<int>| mult_ready(s, k as int) implies #[trigger] run(script@, s)
                == ({
                let a = s.subrange(s.len() - 16, s.len() - 8);
                let b = s.skip(s.len() - 8);
                if s[0] == hint_q1(a, b) && s[1] == hint_q2(a, b) && s[2] == hint_q3(a, b) {
                    Some(s.subrange(3, s.len() - 16).push(mult_imag(a, b)).push(mult_real(a, b)))
                } else {
                    None
                }
            }) by {
                lemma_mult(k as int, s);
            }
        }
        script
    }
}

} // verus!
