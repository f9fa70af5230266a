//! The columns of a limb product, summed on the machine from table lookups.
//!
//! Code generated here runs with an accumulator on top of the stack and adds
//! byte products to it. A limb is named by its depth: the number of cells
//! between it and the top of the stack. Limb `j` of a four-limb value lies
//! `j` cells above limb 0.

use vstd::prelude::*;
use crate::gadgets::{double_code, lemma_double};
use crate::machine::{lemma_run_concat, lemma_run_unfold, run, Opcode, Script};
use crate::mult::{column, digit, four_limbs, lemma_digit_bound, lemma_term_bound, term};
use crate::table::{
    byte_product_code, cell, emit_byte_product, has_table, lemma_byte_product, lemma_table_pop,
    MAX_TABLE_OFFSET, TABLE_SIZE,
};

verus! {

/// The four limbs of the value whose limb 0 lies `d` cells below the top.
pub open spec fn limbs_at(s: Seq<int>, d: int) -> Seq<int> {
    seq![cell(s, d), cell(s, d - 1), cell(s, d - 2), cell(s, d - 3)]
}

/// Whether the cells of `above` from depth `k` on are the cells of `below`
/// from the top on, for the `m` topmost cells of `below`.
pub open spec fn lifted(below: Seq<int>, above: Seq<int>, k: int, m: int) -> bool {
    &&& 0 <= k
    &&& 0 <= m <= below.len()
    &&& m + k <= above.len()
    &&& forall|d: int| 0 <= d < m ==> #[trigger] cell(above, d + k) == cell(below, d)
}

/// Lifting carries the table and every four-limb value along.
pub proof fn lemma_lifted(below: Seq<int>, above: Seq<int>, k: int, m: int, u: int)
    requires
        lifted(below, above, k, m),
        has_table(below, u),
        u + TABLE_SIZE <= m,
        u + k <= MAX_TABLE_OFFSET,
    ensures
        has_table(above, u + k),
        forall|d: int| 3 <= d < m ==> #[trigger] limbs_at(above, d + k) == limbs_at(below, d),
{
    assert forall|j: int| 0 <= j < TABLE_SIZE implies above[above.len() - 1 - (u + k) - j]
        == #[trigger] crate::table::table_entry(j) by {
        assert(cell(above, (u + j) + k) == cell(below, u + j));
    }
    assert forall|d: int| 3 <= d < m implies #[trigger] limbs_at(above, d + k) == limbs_at(
        below,
        d,
    ) by {
        assert(cell(above, d + k) == cell(below, d));
        assert(cell(above, (d - 1) + k) == cell(below, d - 1));
        assert(cell(above, (d - 2) + k) == cell(below, d - 2));
        assert(cell(above, (d - 3) + k) == cell(below, d - 3));
        assert(limbs_at(above, d + k) =~= limbs_at(below, d));
    }
}

/// Replacing the top cell keeps every cell below it.
pub proof fn lemma_lifted_replace(s: Seq<int>, v: int)
    requires
        s.len() >= 1,
    ensures
        lifted(s.drop_last(), s.drop_last().push(v), 1, s.len() - 1),
        lifted(s.drop_last(), s, 1, s.len() - 1),
{
    let b = s.drop_last();
    let t = b.push(v);
    assert forall|d: int| 0 <= d < s.len() - 1 implies #[trigger] cell(t, d + 1) == cell(b, d) by {}
    assert forall|d: int| 0 <= d < s.len() - 1 implies #[trigger] cell(s, d + 1) == cell(b, d) by {}
}

/// The instructions that add to the accumulator on top of the stack the
/// product of limb `j` of `x` and limb `i - j` of `y`, where there is such a
/// pair; limb 0 of `x` lies `dx` cells below the top, limb 0 of `y` lies `dy`
/// cells below it, and `u` cells lie above the table.
pub open spec fn term_code(dx: int, dy: int, i: int, j: int, u: int) -> Seq<Opcode> {
    if 0 <= j < 4 && 0 <= i - j < 4 {
        byte_product_code(dx - j, dy - (i - j), u).push(Opcode::Add)
    } else {
        Seq::<Opcode>::empty()
    }
}

/// The instructions that add column `i` of the product of `x` and `y` to the
/// accumulator, taking the first `n` limbs of `x`.
pub open spec fn column_code(dx: int, dy: int, i: int, n: int, u: int) -> Seq<Opcode>
    decreases n,
{
    if n <= 0 {
        Seq::<Opcode>::empty()
    } else {
        column_code(dx, dy, i, n - 1, u) + term_code(dx, dy, i, n - 1, u)
    }
}

/// The part of column `i` that the first `n` limbs of `x` contribute.
pub open spec fn partial_column(x: Seq<int>, y: Seq<int>, i: int, n: int) -> int
    decreases n,
{
    if n <= 0 {
        0
    } else {
        partial_column(x, y, i, n - 1) + term(x, y, n - 1, i - (n - 1))
    }
}

/// The part that four limbs contribute is the column.
pub proof fn lemma_partial_column(x: Seq<int>, y: Seq<int>, i: int)
    ensures
        partial_column(x, y, i, 4) == column(x, y, i),
{
    reveal_with_fuel(partial_column, 5);
}

/// What holds of a stack on which a column can be added to the accumulator:
/// both values are four byte limbs below the accumulator, the table is in
/// place, and the accumulator is a small natural number.
pub open spec fn column_ready(s: Seq<int>, dx: int, dy: int, u: int) -> bool {
    &&& 4 <= dx < s.len()
    &&& 4 <= dy < s.len()
    &&& dx <= MAX_TABLE_OFFSET
    &&& dy <= MAX_TABLE_OFFSET
    &&& four_limbs(limbs_at(s, dx))
    &&& four_limbs(limbs_at(s, dy))
    &&& has_table(s, u)
    &&& 1 <= u
    &&& u + 2 <= MAX_TABLE_OFFSET
    &&& 0 <= s.last() <= 0x3fff_ffff
}

/// Adding one term replaces the accumulator by itself plus the term.
pub proof fn lemma_term_code(dx: int, dy: int, i: int, j: int, u: int, s: Seq<int>)
    requires
        column_ready(s, dx, dy, u),
    ensures
        run(term_code(dx, dy, i, j, u), s) == Some(
            s.drop_last().push(s.last() + term(limbs_at(s, dx), limbs_at(s, dy), j, i - j)),
        ),
{
    lemma_run_unfold();
    let x = limbs_at(s, dx);
    let y = limbs_at(s, dy);
    if 0 <= j < 4 && 0 <= i - j < 4 {
        let k = i - j;
        assert(x[j] == cell(s, dx - j));
        assert(y[k] == cell(s, dy - k));
        lemma_byte_product(dx - j, dy - k, u, s);
        lemma_term_bound(x, y, j, k);
        let p = byte_product_code(dx - j, dy - k, u);
        let t = s.push(x[j] * y[k]);
        lemma_run_unfold();
        assert(run(p.push(Opcode::Add), s).unwrap() =~= s.drop_last().push(s.last() + x[j] * y[k]));
    } else {
        assert(s.drop_last().push(s.last() + 0) =~= s);
    }
}

/// Adding the first `n` terms of a column replaces the accumulator by itself
/// plus their sum.
pub proof fn lemma_column_code(dx: int, dy: int, i: int, n: int, u: int, s: Seq<int>)
    requires
        column_ready(s, dx, dy, u),
        0 <= n <= 4,
        s.last() <= 0x3fff_ffff - 4 * 65025,
    ensures
        run(column_code(dx, dy, i, n, u), s) == Some(
            s.drop_last().push(s.last() + partial_column(limbs_at(s, dx), limbs_at(s, dy), i, n)),
        ),
        0 <= partial_column(limbs_at(s, dx), limbs_at(s, dy), i, n) <= n * 65025,
    decreases n,
{
    lemma_run_unfold();
    let x = limbs_at(s, dx);
    let y = limbs_at(s, dy);
    if n <= 0 {
        assert(s.drop_last().push(s.last() + 0) =~= s);
    } else {
        lemma_column_code(dx, dy, i, n - 1, u, s);
        lemma_run_concat(column_code(dx, dy, i, n - 1, u), term_code(dx, dy, i, n - 1, u), s);
        let acc = s.last() + partial_column(x, y, i, n - 1);
        let t = s.drop_last().push(acc);
        lemma_lifted_replace(s, acc);
        lemma_table_pop(s, u);
        lemma_lifted(s.drop_last(), t, 1, s.len() - 1, u - 1);
        lemma_lifted(s.drop_last(), s, 1, s.len() - 1, u - 1);
        assert(limbs_at(t, (dx - 1) + 1) == limbs_at(s.drop_last(), dx - 1));
        assert(limbs_at(s, (dx - 1) + 1) == limbs_at(s.drop_last(), dx - 1));
        assert(limbs_at(t, (dy - 1) + 1) == limbs_at(s.drop_last(), dy - 1));
        assert(limbs_at(s, (dy - 1) + 1) == limbs_at(s.drop_last(), dy - 1));
        lemma_term_bound(x, y, n - 1, i - (n - 1));
        lemma_term_code(dx, dy, i, n - 1, u, t);
        assert(t.drop_last() =~= s.drop_last());
    }
}

/// The instructions that add column `i` of every product in `convs` to the
/// accumulator. A product is named by the depths of limb 0 of its two values.
pub open spec fn columns_code(convs: Seq<(int, int)>, i: int, u: int) -> Seq<Opcode>
    decreases convs.len(),
{
    if convs.len() == 0 {
        Seq::<Opcode>::empty()
    } else {
        columns_code(convs.drop_last(), i, u) + column_code(convs.last().0, convs.last().1, i, 4, u)
    }
}

/// The sum of column `i` over the products in `convs`, read from `s`.
pub open spec fn columns_sum(s: Seq<int>, convs: Seq<(int, int)>, i: int) -> int
    decreases convs.len(),
{
    if convs.len() == 0 {
        0
    } else {
        columns_sum(s, convs.drop_last(), i) + column(
            limbs_at(s, convs.last().0),
            limbs_at(s, convs.last().1),
            i,
        )
    }
}

/// The sum of digit `i` over the products in `convs`, read from `s`.
pub open spec fn digits_sum(s: Seq<int>, convs: Seq<(int, int)>, i: int) -> int
    decreases convs.len(),
{
    if convs.len() == 0 {
        0
    } else {
        digits_sum(s, convs.drop_last(), i) + digit(
            limbs_at(s, convs.last().0),
            limbs_at(s, convs.last().1),
            i,
        )
    }
}

/// Whether every product in `convs` names two values of four byte limbs that
/// lie `floor` cells or more below the top of `s`.
pub open spec fn convs_ready(s: Seq<int>, convs: Seq<(int, int)>, floor: int) -> bool {
    forall|c: int|
        0 <= c < convs.len() ==> {
            &&& floor + 3 <= (#[trigger] convs[c]).0 < s.len()
            &&& floor + 3 <= convs[c].1 < s.len()
            &&& convs[c].0 <= MAX_TABLE_OFFSET
            &&& convs[c].1 <= MAX_TABLE_OFFSET
            &&& four_limbs(limbs_at(s, convs[c].0))
            &&& four_limbs(limbs_at(s, convs[c].1))
        }
}

/// A digit is a column plus twice the column four places up, also in sum.
pub proof fn lemma_digits_sum(s: Seq<int>, convs: Seq<(int, int)>, i: int)
    requires
        convs_ready(s, convs, 0),
        0 <= i < 4,
    ensures
        digits_sum(s, convs, i) == columns_sum(s, convs, i) + 2 * columns_sum(s, convs, i + 4),
        0 <= columns_sum(s, convs, i) <= convs.len() * 260100,
        0 <= columns_sum(s, convs, i + 4) <= convs.len() * 195075,
        0 <= digits_sum(s, convs, i) <= convs.len() * 650250,
    decreases convs.len(),
{
    if convs.len() > 0 {
        let rest = convs.drop_last();
        assert forall|c: int| 0 <= c < rest.len() implies {
            &&& 3 <= (#[trigger] rest[c]).0 < s.len()
            &&& 3 <= rest[c].1 < s.len()
            &&& rest[c].0 <= MAX_TABLE_OFFSET
            &&& rest[c].1 <= MAX_TABLE_OFFSET
            &&& four_limbs(limbs_at(s, rest[c].0))
            &&& four_limbs(limbs_at(s, rest[c].1))
        } by {
            assert(rest[c] == convs[c]);
        }
        lemma_digits_sum(s, rest, i);
        let c = convs.last();
        assert(c == convs[convs.len() - 1]);
        lemma_digit_bound(limbs_at(s, c.0), limbs_at(s, c.1), i);
    }
}

/// Adding column `i` of every product replaces the accumulator by itself plus
/// the sum of the columns.
pub proof fn lemma_columns_code(convs: Seq<(int, int)>, i: int, u: int, s: Seq<int>)
    requires
        s.len() >= 1,
        convs_ready(s, convs, 1),
        convs.len() <= 2,
        has_table(s, u),
        1 <= u,
        u + 2 <= MAX_TABLE_OFFSET,
        0 <= s.last() <= 0x1fff_ffff,
    ensures
        run(columns_code(convs, i, u), s) == Some(
            s.drop_last().push(s.last() + columns_sum(s, convs, i)),
        ),
        0 <= columns_sum(s, convs, i) <= convs.len() * 260100,
    decreases convs.len(),
{
    lemma_run_unfold();
    if convs.len() == 0 {
        assert(s.drop_last().push(s.last() + 0) =~= s);
    } else {
        let rest = convs.drop_last();
        let c = convs.last();
        assert(c == convs[convs.len() - 1]);
        assert forall|k: int| 0 <= k < rest.len() implies {
            &&& 4 <= (#[trigger] rest[k]).0 < s.len()
            &&& 4 <= rest[k].1 < s.len()
            &&& rest[k].0 <= MAX_TABLE_OFFSET
            &&& rest[k].1 <= MAX_TABLE_OFFSET
            &&& four_limbs(limbs_at(s, rest[k].0))
            &&& four_limbs(limbs_at(s, rest[k].1))
        } by {
            assert(rest[k] == convs[k]);
        }
        lemma_columns_code(rest, i, u, s);
        lemma_run_concat(columns_code(rest, i, u), column_code(c.0, c.1, i, 4, u), s);
        let acc = s.last() + columns_sum(s, rest, i);
        let t = s.drop_last().push(acc);
        lemma_lifted_replace(s, acc);
        lemma_table_pop(s, u);
        lemma_lifted(s.drop_last(), t, 1, s.len() - 1, u - 1);
        lemma_lifted(s.drop_last(), s, 1, s.len() - 1, u - 1);
        assert(limbs_at(t, (c.0 - 1) + 1) == limbs_at(s.drop_last(), c.0 - 1));
        assert(limbs_at(s, (c.0 - 1) + 1) == limbs_at(s.drop_last(), c.0 - 1));
        assert(limbs_at(t, (c.1 - 1) + 1) == limbs_at(s.drop_last(), c.1 - 1));
        assert(limbs_at(s, (c.1 - 1) + 1) == limbs_at(s.drop_last(), c.1 - 1));
        lemma_column_code(c.0, c.1, i, 4, u, t);
        lemma_partial_column(limbs_at(s, c.0), limbs_at(s, c.1), i);
        assert(t.drop_last() =~= s.drop_last());
        let x = limbs_at(s, c.0);
        let y = limbs_at(s, c.1);
        lemma_term_bound(x, y, 0, i);
        lemma_term_bound(x, y, 1, i - 1);
        lemma_term_bound(x, y, 2, i - 2);
        lemma_term_bound(x, y, 3, i - 3);
    }
}

/// Replacing the top cell changes no sum of columns read from below it.
pub proof fn lemma_columns_sum_frame(s: Seq<int>, t: Seq<int>, convs: Seq<(int, int)>, i: int)
    requires
        s.len() >= 1,
        t.len() == s.len(),
        t.drop_last() == s.drop_last(),
        convs_ready(s, convs, 1),
    ensures
        convs_ready(t, convs, 1),
        columns_sum(t, convs, i) == columns_sum(s, convs, i),
        digits_sum(t, convs, i) == digits_sum(s, convs, i),
    decreases convs.len(),
{
    assert forall|d: int| 1 <= d < s.len() implies cell(t, d) == cell(s, d) by {
        assert(cell(t, d) == t.drop_last()[t.len() - 1 - d]);
        assert(cell(s, d) == s.drop_last()[s.len() - 1 - d]);
    }
    assert forall|c: int| 0 <= c < convs.len() implies limbs_at(t, (#[trigger] convs[c]).0)
        == limbs_at(s, convs[c].0) && limbs_at(t, convs[c].1) == limbs_at(s, convs[c].1) by {
        assert(limbs_at(t, convs[c].0) =~= limbs_at(s, convs[c].0));
        assert(limbs_at(t, convs[c].1) =~= limbs_at(s, convs[c].1));
    }
    if convs.len() > 0 {
        let rest = convs.drop_last();
        assert forall|k: int| 0 <= k < rest.len() implies {
            &&& 4 <= (#[trigger] rest[k]).0 < s.len()
            &&& 4 <= rest[k].1 < s.len()
            &&& rest[k].0 <= MAX_TABLE_OFFSET
            &&& rest[k].1 <= MAX_TABLE_OFFSET
            &&& four_limbs(limbs_at(s, rest[k].0))
            &&& four_limbs(limbs_at(s, rest[k].1))
        } by {
            assert(rest[k] == convs[k]);
        }
        lemma_columns_sum_frame(s, t, rest, i);
        assert(convs.last() == convs[convs.len() - 1]);
    }
}

/// The instructions that push digit `i`, summed over the products in `convs`.
/// The depths in `convs` and the table offset `u` count the pushed cell.
pub open spec fn digit_code(convs: Seq<(int, int)>, i: int, u: int) -> Seq<Opcode> {
    Seq::<Opcode>::empty().push(Opcode::Push(0)) + columns_code(convs, i + 4, u) + double_code()
        + columns_code(convs, i, u)
}

/// Computing a digit pushes it and changes nothing else.
pub proof fn lemma_digit_code(convs: Seq<(int, int)>, i: int, u: int, s: Seq<int>)
    requires
        convs_ready(s.push(0), convs, 1),
        convs.len() <= 2,
        has_table(s.push(0), u),
        1 <= u,
        u + 2 <= MAX_TABLE_OFFSET,
        0 <= i < 4,
    ensures
        run(digit_code(convs, i, u), s) == Some(s.push(digits_sum(s.push(0), convs, i))),
        0 <= digits_sum(s.push(0), convs, i) <= convs.len() * 650250,
{
    let c0 = Seq::<Opcode>::empty().push(Opcode::Push(0));
    let c1 = columns_code(convs, i + 4, u);
    let c2 = double_code();
    let c3 = columns_code(convs, i, u);
    let s0 = s.push(0);
    lemma_run_unfold();
    assert(run(c0, s) == Some(s0));
    lemma_run_concat(c0, c1, s);
    lemma_run_concat(c0 + c1, c2, s);
    lemma_run_concat(c0 + c1 + c2, c3, s);
    lemma_columns_code(convs, i + 4, u, s0);
    let hi = columns_sum(s0, convs, i + 4);
    let s1 = s.push(hi);
    assert(s0.drop_last().push(0 + hi) =~= s1);
    lemma_double(s1);
    let s2 = s.push(2 * hi);
    assert(s1.drop_last().push(2 * hi) =~= s2);
    assert(s2.drop_last() =~= s0.drop_last());
    lemma_columns_sum_frame(s0, s2, convs, i);
    lemma_columns_sum_frame(s0, s2, convs, i + 4);
    lemma_lifted_replace(s0, 2 * hi);
    lemma_table_pop(s0, u);
    lemma_lifted(s0.drop_last(), s2, 1, s0.len() - 1, u - 1);
    lemma_columns_code(convs, i, u, s2);
    assert(s2.drop_last().push(2 * hi + columns_sum(s0, convs, i)) =~= s.push(
        2 * hi + columns_sum(s0, convs, i),
    ));
    assert(convs_ready(s0, convs, 0));
    lemma_digits_sum(s0, convs, i);
}

/// The products that `v` names, as pairs of mathematical integers.
pub open spec fn convs_view(v: Seq<(i32, i32)>) -> Seq<(int, int)> {
    Seq::new(v.len(), |c: int| (v[c].0 as int, v[c].1 as int))
}

/// The products in `convs`, each depth raised by `k`.
pub open spec fn lift_convs(convs: Seq<(int, int)>, k: int) -> Seq<(int, int)> {
    Seq::new(convs.len(), |c: int| (convs[c].0 + k, convs[c].1 + k))
}

/// Whether code can be emitted for the products that `v` names: every depth
/// leaves room for the four limbs above it and fits an instruction.
pub open spec fn convs_fit(v: Seq<(i32, i32)>) -> bool {
    forall|c: int|
        0 <= c < v.len() ==> 3 <= (#[trigger] v[c]).0 <= MAX_TABLE_OFFSET - 8 && 3 <= v[c].1
            <= MAX_TABLE_OFFSET - 8
}

/// Emits the instructions that add column `i` of the product of two values
/// to the accumulator on top of the stack.
/// What the code does on a stack is stated by `lemma_column_code`.
pub fn emit_column(script: &mut Script, dx: i32, dy: i32, i: i32, u: i32)
    requires
        3 <= dx <= MAX_TABLE_OFFSET,
        3 <= dy <= MAX_TABLE_OFFSET,
        0 <= i < 8,
        0 <= u,
        u + 2 <= MAX_TABLE_OFFSET,
    ensures
        final(script)@ == old(script)@ + column_code(dx as int, dy as int, i as int, 4, u as int),
{
    let mut j: i32 = 0;
    assert(script@ =~= old(script)@ + column_code(dx as int, dy as int, i as int, 0, u as int));
    while j < 4
        invariant
            0 <= j <= 4,
            3 <= dx <= MAX_TABLE_OFFSET,
            3 <= dy <= MAX_TABLE_OFFSET,
            0 <= i < 8,
            0 <= u,
            u + 2 <= MAX_TABLE_OFFSET,
            script@ == old(script)@ + column_code(dx as int, dy as int, i as int, j as int, u as int),
        decreases 4 - j,
    {
        let ghost before = script@;
        if i - j >= 0 && i - j < 4 {
            emit_byte_product(script, dx - j, dy - (i - j), u);
            script.push_opcode(Opcode::Add);
        }
        assert(script@ =~= before + term_code(dx as int, dy as int, i as int, j as int, u as int));
        j += 1;
        assert(script@ =~= old(script)@ + column_code(
            dx as int,
            dy as int,
            i as int,
            j as int,
            u as int,
        ));
    }
}

/// Emits the instructions that add column `i` of every product that `convs`
/// names, each depth raised by `shift`, to the accumulator.
/// What the code does on a stack is stated by `lemma_columns_code`.
pub fn emit_columns(script: &mut Script, convs: &Vec<(i32, i32)>, shift: i32, i: i32, u: i32)
    requires
        convs_fit(convs@),
        0 <= shift <= 8,
        0 <= i < 8,
        0 <= u,
        u + 2 <= MAX_TABLE_OFFSET,
    ensures
        final(script)@ == old(script)@ + columns_code(
            lift_convs(convs_view(convs@), shift as int),
            i as int,
            u as int,
        ),
{
    let ghost all = lift_convs(convs_view(convs@), shift as int);
    let mut c: usize = 0;
    assert(script@ =~= old(script)@ + columns_code(all.take(0), i as int, u as int));
    while c < convs.len()
        invariant
            0 <= c <= convs.len(),
            convs_fit(convs@),
            0 <= shift <= 8,
            0 <= i < 8,
            0 <= u,
            u + 2 <= MAX_TABLE_OFFSET,
            all == lift_convs(convs_view(convs@), shift as int),
            script@ == old(script)@ + columns_code(all.take(c as int), i as int, u as int),
        decreases convs.len() - c,
    {
        let ghost before = script@;
        let pair: (i32, i32) = convs[c];
        emit_column(script, pair.0 + shift, pair.1 + shift, i, u);
        proof {
            let next = all.take(c + 1);
            assert(next.drop_last() =~= all.take(c as int));
            assert(next.last() == all[c as int]);
            assert(all[c as int] == ((pair.0 + shift) as int, (pair.1 + shift) as int));
            assert(script@ =~= old(script)@ + columns_code(next, i as int, u as int));
        }
        c += 1;
    }
    assert(all.take(convs.len() as int) =~= all);
}

/// Emits the instructions that push digit `i`, summed over the products that
/// `convs` names. The depths, raised by `shift`, and the table offset `u`
/// count the pushed cell.
/// What the code does on a stack is stated by `lemma_digit_code`.
pub fn emit_digit(script: &mut Script, convs: &Vec<(i32, i32)>, shift: i32, i: i32, u: i32)
    requires
        convs_fit(convs@),
        0 <= shift <= 8,
        0 <= i < 4,
        0 <= u,
        u + 2 <= MAX_TABLE_OFFSET,
    ensures
        final(script)@ == old(script)@ + digit_code(
            lift_convs(convs_view(convs@), shift as int),
            i as int,
            u as int,
        ),
{
    script.push_opcode(Opcode::Push(0));
    emit_columns(script, convs, shift, i + 4, u);
    script.push_opcode(Opcode::Dup);
    script.push_opcode(Opcode::Add);
    emit_columns(script, convs, shift, i, u);
    assert(script@ =~= old(script)@ + digit_code(
        lift_convs(convs_view(convs@), shift as int),
        i as int,
        u as int,
    ));
}

} // verus!
