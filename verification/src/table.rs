//! The lookup table of quarter squares, and the product of two byte limbs that
//! is read from it.
//!
//! The table is not built here. It is expected on the stack as 512 cells, the
//! cell for index `j` lying `j` cells below the table's top cell and holding
//! `j * j / 4`, rounded down. For two bytes `x` and `y`, the entry for `x + y`
//! less the entry for `|x - y|` is `x * y`.

use vstd::prelude::*;
use crate::limbs::is_limb;
use crate::machine::{lemma_run_concat, lemma_run_unfold, run, Opcode, Script};

verus! {

/// The number of cells of the table.
pub const TABLE_SIZE: usize = 512;

/// The largest number of cells that may lie above the table when generated
/// code reads it.
pub const MAX_TABLE_OFFSET: usize = 0x3fff_ffff;

/// The entry of the table for index `j`.
pub open spec fn table_entry(j: int) -> int {
    (j * j) / 4
}

/// The cell that lies `d` cells below the top of `s`.
pub open spec fn cell(s: Seq<int>, d: int) -> int {
    s[s.len() - 1 - d]
}

/// Whether `s` holds the table with `u` cells above its top cell.
pub open spec fn has_table(s: Seq<int>, u: int) -> bool {
    &&& 0 <= u <= MAX_TABLE_OFFSET
    &&& u + TABLE_SIZE <= s.len()
    &&& forall|j: int| 0 <= j < TABLE_SIZE ==> s[s.len() - 1 - u - j] == #[trigger] table_entry(j)
}

/// The table as it lies on the stack, bottom first: the entry for the
/// largest index at the bottom, the entry for index 0 on top.
pub open spec fn table_cells() -> Seq<int> {
    Seq::new(TABLE_SIZE as nat, |j: int| table_entry(TABLE_SIZE - 1 - j))
}

/// A stack that holds the cells of the table holds the table, with as many
/// cells above it as lie on top of those cells.
pub proof fn lemma_table_cells(below: Seq<int>, above: Seq<int>)
    requires
        above.len() <= MAX_TABLE_OFFSET,
    ensures
        has_table(below + table_cells() + above, above.len() as int),
{
    let s = below + table_cells() + above;
    let u = above.len() as int;
    assert forall|j: int| 0 <= j < TABLE_SIZE implies s[s.len() - 1 - u - j] == #[trigger] table_entry(
        j,
    ) by {
        assert(s[s.len() - 1 - u - j] == table_cells()[TABLE_SIZE - 1 - j]);
    }
}

/// The difference of two quarter squares is a product.
pub proof fn lemma_quarter_squares(x: int, y: int)
    requires
        is_limb(x),
        is_limb(y),
    ensures
        table_entry(x + y) - table_entry(if x < y { y - x } else { x - y }) == x * y,
{
    let p = x + y;
    let m = if x < y { y - x } else { x - y };
    assert(p * p - m * m == 4 * (x * y)) by (nonlinear_arith)
        requires
            p == x + y,
            m == x - y || m == y - x,
    ;
    assert((p * p) % 4 == (m * m) % 4) by {
        assert(p % 2 == m % 2);
        let a = p / 2;
        let b = m / 2;
        let r = p % 2;
        assert(p * p == 4 * (a * a) + 4 * (a * r) + r * r) by (nonlinear_arith)
            requires
                p == 2 * a + r,
        ;
        assert(m * m == 4 * (b * b) + 4 * (b * r) + r * r) by (nonlinear_arith)
            requires
                m == 2 * b + r,
        ;
    }
}

/// A table stays where it is, one cell deeper, when a cell is pushed.
pub proof fn lemma_table_push(s: Seq<int>, u: int, v: int)
    requires
        has_table(s, u),
        u < MAX_TABLE_OFFSET,
    ensures
        has_table(s.push(v), u + 1),
{
    let t = s.push(v);
    assert forall|j: int| 0 <= j < TABLE_SIZE implies t[t.len() - 1 - (u + 1) - j] == #[trigger] table_entry(
        j,
    ) by {
        assert(t[t.len() - 1 - (u + 1) - j] == s[s.len() - 1 - u - j]);
    }
}

/// A table stays where it is, one cell less deep, when the top cell is
/// removed.
pub proof fn lemma_table_pop(s: Seq<int>, u: int)
    requires
        has_table(s, u),
        u >= 1,
    ensures
        has_table(s.drop_last(), u - 1),
{
    let t = s.drop_last();
    assert forall|j: int| 0 <= j < TABLE_SIZE implies t[t.len() - 1 - (u - 1) - j] == #[trigger] table_entry(
        j,
    ) by {
        assert(t[t.len() - 1 - (u - 1) - j] == s[s.len() - 1 - u - j]);
    }
}

/// Every entry of the table that two bytes can reach is below 2^17.
pub proof fn lemma_table_entry_bound(j: int)
    requires
        0 <= j <= 510,
    ensures
        0 <= table_entry(j) <= 65025,
{
    assert(0 <= j * j <= 260100) by (nonlinear_arith)
        requires
            0 <= j <= 510,
    ;
}

/// The instructions that copy the cells `da` and `db` below the top to the
/// top, in this order.
pub open spec fn pick_pair_code(da: int, db: int) -> Seq<Opcode> {
    Seq::<Opcode>::empty().push(Opcode::Push(da as i32)).push(Opcode::Pick).push(
        Opcode::Push((db + 1) as i32),
    ).push(Opcode::Pick)
}

/// Copying a pair pushes the two cells and changes nothing else.
pub proof fn lemma_pick_pair(da: int, db: int, s: Seq<int>)
    requires
        0 <= da < s.len(),
        0 <= db < s.len(),
        da <= MAX_TABLE_OFFSET,
        db <= MAX_TABLE_OFFSET,
    ensures
        run(pick_pair_code(da, db), s) == Some(s.push(cell(s, da)).push(cell(s, db))),
{
    lemma_run_unfold();
    assert(run(pick_pair_code(da, db), s).unwrap() =~= s.push(cell(s, da)).push(cell(s, db)));
}

/// The instructions that push the table's entry for the sum of the two top
/// cells, with `u` cells above the table.
pub open spec fn lookup_sum_code(u: int) -> Seq<Opcode> {
    Seq::<Opcode>::empty()
        .push(Opcode::Push(1))
        .push(Opcode::Pick)
        .push(Opcode::Push(1))
        .push(Opcode::Pick)
        .push(Opcode::Add)
        .push(Opcode::Push(u as i32))
        .push(Opcode::Add)
        .push(Opcode::Pick)
}

/// Looking the sum up pushes the quarter square of the sum of the two top
/// cells.
pub proof fn lemma_lookup_sum(u: int, s: Seq<int>)
    requires
        s.len() >= 2,
        is_limb(cell(s, 0)),
        is_limb(cell(s, 1)),
        has_table(s, u),
    ensures
        run(lookup_sum_code(u), s) == Some(s.push(table_entry(cell(s, 0) + cell(s, 1)))),
{
    let x = cell(s, 1);
    let y = cell(s, 0);
    assert(s[s.len() - 1 - u - (x + y)] == table_entry(x + y));
    lemma_run_unfold();
    assert(run(lookup_sum_code(u), s).unwrap() =~= s.push(table_entry(x + y)));
}

/// The instructions that replace the cells `x`, `y`, `t` on top of the stack
/// by `t` and the distance between `x` and `y`.
pub open spec fn distance_code() -> Seq<Opcode> {
    Seq::<Opcode>::empty().push(Opcode::Rot).push(Opcode::Rot).push(Opcode::Sub).push(Opcode::Abs)
}

/// The distance of two bytes.
pub open spec fn distance(x: int, y: int) -> int {
    if x < y {
        y - x
    } else {
        x - y
    }
}

/// Taking the distance replaces `x`, `y`, `t` by `t` and `|x - y|`.
pub proof fn lemma_distance(s: Seq<int>)
    requires
        s.len() >= 3,
        is_limb(cell(s, 1)),
        is_limb(cell(s, 2)),
    ensures
        run(distance_code(), s) == Some(
            s.take(s.len() - 3).push(cell(s, 0)).push(distance(cell(s, 2), cell(s, 1))),
        ),
{
    lemma_run_unfold();
    assert(run(distance_code(), s).unwrap() =~= s.take(s.len() - 3).push(cell(s, 0)).push(
        distance(cell(s, 2), cell(s, 1)),
    ));
}

/// The instructions that replace the cells `t`, `m` on top of the stack by
/// `t` less the table's entry for `m`, with `u` cells above the table.
pub open spec fn lookup_difference_code(u: int) -> Seq<Opcode> {
    Seq::<Opcode>::empty().push(Opcode::Push((u - 1) as i32)).push(Opcode::Add).push(
        Opcode::Pick,
    ).push(Opcode::Sub)
}

/// Looking the distance up replaces `t`, `m` by `t` less the quarter square
/// of `m`.
pub proof fn lemma_lookup_difference(u: int, s: Seq<int>)
    requires
        s.len() >= 2,
        is_limb(cell(s, 0)),
        0 <= cell(s, 1) <= 65025,
        has_table(s, u),
        u >= 2,
    ensures
        run(lookup_difference_code(u), s) == Some(
            s.take(s.len() - 2).push(cell(s, 1) - table_entry(cell(s, 0))),
        ),
{
    let m = cell(s, 0);
    assert(s[s.len() - 1 - u - m] == table_entry(m));
    lemma_table_entry_bound(m);
    lemma_run_unfold();
    assert(run(lookup_difference_code(u), s).unwrap() =~= s.take(s.len() - 2).push(
        cell(s, 1) - table_entry(m),
    ));
}

/// The instructions that push the product of the byte `da` cells below the
/// top and the byte `db` cells below the top, read from the table with `u`
/// cells above it.
pub open spec fn byte_product_code(da: int, db: int, u: int) -> Seq<Opcode> {
    pick_pair_code(da, db) + lookup_sum_code(u + 2) + distance_code() + lookup_difference_code(
        u + 2,
    )
}

/// Reading a product from the table pushes the product of the two bytes and
/// changes nothing else.
pub proof fn lemma_byte_product(da: int, db: int, u: int, s: Seq<int>)
    requires
        0 <= da < s.len(),
        0 <= db < s.len(),
        da <= MAX_TABLE_OFFSET,
        db <= MAX_TABLE_OFFSET,
        is_limb(cell(s, da)),
        is_limb(cell(s, db)),
        has_table(s, u),
        u + 2 <= MAX_TABLE_OFFSET,
    ensures
        run(byte_product_code(da, db, u), s) == Some(s.push(cell(s, da) * cell(s, db))),
{
    let x = cell(s, da);
    let y = cell(s, db);
    let m = distance(x, y);
    let t = table_entry(x + y);
    lemma_quarter_squares(x, y);
    lemma_table_entry_bound(x + y);
    let c1 = pick_pair_code(da, db);
    let c2 = lookup_sum_code(u + 2);
    let c3 = distance_code();
    let c4 = lookup_difference_code(u + 2);
    let s1 = s.push(x).push(y);
    let s2 = s1.push(t);
    let s3 = s.push(t).push(m);
    lemma_run_concat(c1, c2, s);
    lemma_run_concat(c1 + c2, c3, s);
    lemma_run_concat(c1 + c2 + c3, c4, s);
    lemma_pick_pair(da, db, s);
    lemma_table_push(s, u, x);
    lemma_table_push(s.push(x), u + 1, y);
    lemma_lookup_sum(u + 2, s1);
    lemma_distance(s2);
    assert(s2.take(s2.len() - 3) =~= s);
    lemma_table_push(s, u, t);
    lemma_table_push(s.push(t), u + 1, m);
    lemma_lookup_difference(u + 2, s3);
    assert(s3.take(s3.len() - 2) =~= s);
}

/// Emits, at the end of `script`, the instructions that push the product of
/// the byte `da` cells below the top and the byte `db` cells below the top.
/// The product is read from the table, above which `u` cells lie.
/// What the code does on a stack is stated by `lemma_byte_product`.
pub fn emit_byte_product(script: &mut Script, da: i32, db: i32, u: i32)
    requires
        0 <= da <= MAX_TABLE_OFFSET,
        0 <= db <= MAX_TABLE_OFFSET,
        0 <= u,
        u + 2 <= MAX_TABLE_OFFSET,
    ensures
        final(script)@ == old(script)@ + byte_product_code(da as int, db as int, u as int),
{
    script.push_opcode(Opcode::Push(da));
    script.push_opcode(Opcode::Pick);
    script.push_opcode(Opcode::Push(db + 1));
    script.push_opcode(Opcode::Pick);
    script.push_opcode(Opcode::Push(1));
    script.push_opcode(Opcode::Pick);
    script.push_opcode(Opcode::Push(1));
    script.push_opcode(Opcode::Pick);
    script.push_opcode(Opcode::Add);
    script.push_opcode(Opcode::Push(u + 2));
    script.push_opcode(Opcode::Add);
    script.push_opcode(Opcode::Pick);
    script.push_opcode(Opcode::Rot);
    script.push_opcode(Opcode::Rot);
    script.push_opcode(Opcode::Sub);
    script.push_opcode(Opcode::Abs);
    script.push_opcode(Opcode::Push(u + 1));
    script.push_opcode(Opcode::Add);
    script.push_opcode(Opcode::Pick);
    script.push_opcode(Opcode::Sub);
    assert(script@ =~= old(script)@ + byte_product_code(da as int, db as int, u as int));
}

} // verus!
