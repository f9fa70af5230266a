//! What ties the two phases together: the code that a generator emits accepts
//! the hints and the result of its own witness routine, and nothing else.
//!
//! A call runs on a stack that holds, from the bottom up, the hints of the
//! call, whatever lies between (later hints, the table, other values) and the
//! inputs of the call. It accepts a claimed output when it ends with the
//! hints and the inputs gone and the claimed output on top.

use vstd::prelude::*;
use crate::cm31::{
    cm31_entry, cm31_limbs_equalverify_code, cm31_limbs_equalverify_outcome,
    cm31_limbs_mul_outcome, cm31_to_limbs_accepts, cm31_to_limbs_code, cm31_to_limbs_outcome,
    is_cm31_limbs, lemma_cm31_limbs_equalverify, lemma_cm31_to_limbs, limbs_entry,
};
use crate::dsl::{entry_cells, slot_many_num, EntryValue, OutputValue};
use crate::error::Error;
use crate::field::{lemma_product_is_canonical, CM31, M31};
use crate::limbs::{
    all_limbs, cm31_limbs, cm31_value, is_limb, lemma_cm31_limbs_of_value, lemma_cm31_round_trip,
    lemma_m31_round_trip, limbs_value, m31_limbs,
};
use crate::machine::{lemma_concat_assoc, lemma_run_concat, run, Opcode, NUM_MAX};
use crate::mult::{
    hint_q1, hint_q2, hint_q3, imag_limbs, lemma_mult_is_product, mult_imag, mult_real, real_limbs,
};
use crate::multiply::{lemma_mult, mult_code, mult_ready};
use crate::table::{lemma_table_cells, table_cells, MAX_TABLE_OFFSET, TABLE_SIZE};

verus! {

/// Whether `code` accepts the claimed `outputs` for the given hints and
/// inputs, with `between` lying between them on the stack.
pub open spec fn accepts(
    code: Seq<Opcode>,
    hints: Seq<int>,
    between: Seq<int>,
    inputs: Seq<int>,
    outputs: Seq<int>,
) -> bool {
    run(code, hints + between + inputs) == Some(between + outputs)
}

/// The cells of one entry are the cells of its value.
pub proof fn lemma_entry_cells_one(e: EntryValue)
    ensures
        entry_cells(Seq::<EntryValue>::empty().push(e)) == e.data.cells(),
{
    let l = Seq::<EntryValue>::empty().push(e);
    assert(l.drop_last() =~= Seq::<EntryValue>::empty());
    reveal_with_fuel(entry_cells, 2);
    assert(Seq::<int>::empty() + e.data.cells() =~= e.data.cells());
}

/// The cells of three entries are the cells of their values, in order.
pub proof fn lemma_entry_cells_three(e1: EntryValue, e2: EntryValue, e3: EntryValue)
    ensures
        entry_cells(Seq::<EntryValue>::empty().push(e1).push(e2).push(e3)) == e1.data.cells()
            + e2.data.cells() + e3.data.cells(),
{
    let l1 = Seq::<EntryValue>::empty().push(e1);
    let l2 = l1.push(e2);
    let l3 = l2.push(e3);
    assert(l1.drop_last() =~= Seq::<EntryValue>::empty());
    assert(l2.drop_last() =~= l1);
    assert(l3.drop_last() =~= l2);
    reveal_with_fuel(entry_cells, 4);
    assert(Seq::<int>::empty() + e1.data.cells() =~= e1.data.cells());
}

/// The limb extraction is consistent: where the witness routine succeeds on
/// a slot, the generated code accepts the routine's output for the routine's
/// hints and the slot's value.
pub proof fn lemma_to_limbs_consistent(
    memory: Seq<EntryValue>,
    inputs: Seq<usize>,
    out: OutputValue,
    between: Seq<int>,
)
    requires
        cm31_to_limbs_outcome(memory, inputs) == Ok::<OutputValue, Error>(out),
        between.len() + 10 <= NUM_MAX,
    ensures
        accepts(
            cm31_to_limbs_code(),
            entry_cells(out.new_hints),
            between,
            memory[inputs[0] as int].data.cells(),
            entry_cells(out.new_elements),
        ),
{
    let num = slot_many_num(memory, inputs[0] as int)->Ok_0;
    let limbs = m31_limbs(num[0]) + m31_limbs(num[1]);
    lemma_entry_cells_one(out.new_hints[0]);
    assert(out.new_hints =~= Seq::<EntryValue>::empty().push(out.new_hints[0]));
    assert(out.new_elements =~= Seq::<EntryValue>::empty().push(out.new_hints[0]));
    let element = memory[inputs[0] as int].data.cells();
    assert(element == num);
    let s = limbs + between + element;
    lemma_m31_round_trip(num[0] as u32);
    lemma_m31_round_trip(num[1] as u32);
    assert(s.take(8) =~= limbs);
    assert(s.take(4) =~= m31_limbs(num[0]));
    assert(s.subrange(4, 8) =~= m31_limbs(num[1]));
    assert(s[s.len() - 1] == num[1]);
    assert(s[s.len() - 2] == num[0]);
    assert forall|i: int| 0 <= i < 8 implies is_limb(#[trigger] limbs[i]) by {
        if i < 4 {
            assert(limbs[i] == m31_limbs(num[0])[i]);
        } else {
            assert(limbs[i] == m31_limbs(num[1])[i - 4]);
        }
    }
    assert(cm31_to_limbs_accepts(s));
    lemma_cm31_to_limbs(s);
    assert(s.subrange(8, s.len() - 2) + s.take(8) =~= between + limbs);
}

/// The limb extraction is sound: whatever hints are supplied, the generated
/// code accepts only the limbs of the element on the stack, and only as the
/// hints.
pub proof fn lemma_to_limbs_sound(
    hints: Seq<int>,
    between: Seq<int>,
    re: int,
    im: int,
    outputs: Seq<int>,
)
    requires
        hints.len() == 8,
        between.len() + 10 <= NUM_MAX,
        accepts(
            cm31_to_limbs_code(),
            hints,
            between,
            Seq::<int>::empty().push(im).push(re),
            outputs,
        ),
    ensures
        outputs == hints,
        all_limbs(hints),
        limbs_value(hints.subrange(0, 4)) == im,
        limbs_value(hints.subrange(4, 8)) == re,
{
    let s = hints + between + Seq::<int>::empty().push(im).push(re);
    lemma_cm31_to_limbs(s);
    assert(s.take(8) =~= hints);
    assert(s.take(4) =~= hints.subrange(0, 4));
    assert(s.subrange(4, 8) =~= hints.subrange(4, 8));
    assert(s.subrange(8, s.len() - 2) =~= between);
    let got = between + hints;
    assert(got == between + outputs);
    assert(outputs =~= hints) by {
        assert(got.len() == between.len() + outputs.len());
        assert forall|i: int| 0 <= i < 8 implies outputs[i] == hints[i] by {
            assert(got[between.len() + i] == hints[i]);
            assert((between + outputs)[between.len() + i] == outputs[i]);
        }
    }
}

/// The equality check is consistent and complete: the generated code accepts
/// two sequences of eight cells exactly when they agree cell by cell, which
/// is exactly when the witness routine succeeds on slots that hold them.
pub proof fn lemma_equalverify_consistent(
    memory: Seq<EntryValue>,
    inputs: Seq<usize>,
    between: Seq<int>,
)
    requires
        cm31_limbs_equalverify_outcome(memory, inputs) is Ok || cm31_limbs_equalverify_outcome(
            memory,
            inputs,
        ) == Err::<OutputValue, Error>(Error::EqualverifyFails),
    ensures
        cm31_limbs_equalverify_outcome(memory, inputs) is Ok <==> accepts(
            cm31_limbs_equalverify_code(),
            Seq::<int>::empty(),
            between,
            memory[inputs[0] as int].data.cells() + memory[inputs[1] as int].data.cells(),
            Seq::<int>::empty(),
        ),
        cm31_limbs_equalverify_outcome(memory, inputs) is Err ==> run(
            cm31_limbs_equalverify_code(),
            between + (memory[inputs[0] as int].data.cells() + memory[inputs[1] as int].data.cells()),
        ) is None,
{
    let a = memory[inputs[0] as int].data.cells();
    let b = memory[inputs[1] as int].data.cells();
    lemma_equalverify(between, a, b);
    assert(Seq::<int>::empty() + between + (a + b) =~= between + (a + b));
    assert(between + Seq::<int>::empty() =~= between);
}

/// The generated equality check accepts two sequences of eight cells exactly
/// when they agree cell by cell; it aborts when they differ anywhere, the
/// first pair included.
pub proof fn lemma_equalverify(between: Seq<int>, a: Seq<int>, b: Seq<int>)
    requires
        a.len() == 8,
        b.len() == 8,
    ensures
        run(cm31_limbs_equalverify_code(), between + (a + b)) == (if a == b {
            Some(between)
        } else {
            None
        }),
{
    let s = between + (a + b);
    lemma_cm31_limbs_equalverify(s);
    assert(s.subrange(s.len() - 16, s.len() - 8) =~= a);
    assert(s.skip(s.len() - 8) =~= b);
    assert(s.take(s.len() - 16) =~= between);
}

/// The cells that the multiplication's witness routine claims as output for
/// the factors `a` and `b` in limb form: the product in the field.
pub open spec fn product_cells(a: Seq<int>, b: Seq<int>) -> Seq<int> {
    cm31_entry(cm31_value(a).product(cm31_value(b))).data.cells()
}

/// The three hints of the multiplication's witness routine as cells.
pub open spec fn hint_cells(a: Seq<int>, b: Seq<int>) -> Seq<int> {
    Seq::<int>::empty().push(hint_q1(a, b)).push(hint_q2(a, b)).push(hint_q3(a, b))
}

/// What the generated multiplication computes from two elements in limb form
/// is their product in the field.
pub proof fn lemma_product_cells(a: Seq<int>, b: Seq<int>)
    requires
        is_cm31_limbs(a),
        is_cm31_limbs(b),
    ensures
        product_cells(a, b) == Seq::<int>::empty().push(mult_imag(a, b)).push(mult_real(a, b)),
{
    lemma_mult_is_product(a, b);
    lemma_cm31_limbs_of_value(a);
    lemma_cm31_limbs_of_value(b);
    lemma_product_is_canonical(cm31_value(a), cm31_value(b));
    assert(real_limbs(a) == a.subrange(4, 8));
    assert(imag_limbs(a) == a.subrange(0, 4));
}

/// The multiplication decides: on two factors in limb form, with the table in
/// place, the generated code accepts exactly the three quotients that the
/// factors determine, and then leaves the product in the field.
pub proof fn lemma_mult_decides(k: int, hints: Seq<int>, between: Seq<int>, a: Seq<int>, b: Seq<int>)
    requires
        hints.len() == 3,
        is_cm31_limbs(a),
        is_cm31_limbs(b),
        mult_ready(hints + between + (a + b), k),
    ensures
        run(mult_code(k), hints + between + (a + b)) == (if hints == hint_cells(a, b) {
            Some(between + product_cells(a, b))
        } else {
            None
        }),
{
    let s = hints + between + (a + b);
    let n = s.len();
    lemma_mult(k, s);
    lemma_product_cells(a, b);
    assert(s.subrange(n - 16, n - 8) =~= a);
    assert(s.skip(n - 8) =~= b);
    assert(s.subrange(3, n - 16) =~= between);
    assert(s[0] == hints[0] && s[1] == hints[1] && s[2] == hints[2]);
    assert(between.push(mult_imag(a, b)).push(mult_real(a, b)) =~= between + product_cells(a, b));
    if s[0] == hint_q1(a, b) && s[1] == hint_q2(a, b) && s[2] == hint_q3(a, b) {
        assert(hints =~= hint_cells(a, b));
    }
}

/// The multiplication is consistent: where the witness routine succeeds, the
/// generated code accepts the routine's output for the routine's hints, and
/// that output is the product of the two factors in the field.
pub proof fn lemma_mult_consistent(
    memory: Seq<EntryValue>,
    inputs: Seq<usize>,
    out: OutputValue,
    k: int,
    between: Seq<int>,
)
    requires
        cm31_limbs_mul_outcome(memory, inputs) == Ok::<OutputValue, Error>(out),
        mult_ready(
            entry_cells(out.new_hints) + between + (memory[inputs[1] as int].data.cells()
                + memory[inputs[2] as int].data.cells()),
            k,
        ),
    ensures
        accepts(
            mult_code(k),
            entry_cells(out.new_hints),
            between,
            memory[inputs[1] as int].data.cells() + memory[inputs[2] as int].data.cells(),
            entry_cells(out.new_elements),
        ),
        entry_cells(out.new_elements) == product_cells(
            memory[inputs[1] as int].data.cells(),
            memory[inputs[2] as int].data.cells(),
        ),
{
    let a = memory[inputs[1] as int].data.cells();
    let b = memory[inputs[2] as int].data.cells();
    lemma_entry_cells_one(out.new_elements[0]);
    assert(out.new_elements =~= Seq::<EntryValue>::empty().push(out.new_elements[0]));
    lemma_entry_cells_three(out.new_hints[0], out.new_hints[1], out.new_hints[2]);
    assert(out.new_hints =~= Seq::<EntryValue>::empty().push(out.new_hints[0]).push(
        out.new_hints[1],
    ).push(out.new_hints[2]));
    assert(entry_cells(out.new_hints) =~= hint_cells(a, b));
    lemma_mult_decides(k, hint_cells(a, b), between, a, b);
}

/// The multiplication is sound: whatever hints are supplied, the generated
/// code accepts no claimed output but the product of the factors in the
/// field.
pub proof fn lemma_mult_sound(
    k: int,
    hints: Seq<int>,
    between: Seq<int>,
    a: Seq<int>,
    b: Seq<int>,
    claimed: Seq<int>,
)
    requires
        hints.len() == 3,
        is_cm31_limbs(a),
        is_cm31_limbs(b),
        mult_ready(hints + between + (a + b), k),
        accepts(mult_code(k), hints, between, a + b, claimed),
    ensures
        claimed == product_cells(a, b),
        hints == hint_cells(a, b),
{
    lemma_mult_decides(k, hints, between, a, b);
    let p = product_cells(a, b);
    assert(between + claimed == between + p);
    assert(claimed =~= p) by {
        assert((between + claimed).len() == (between + p).len());
        assert forall|i: int| 0 <= i < p.len() implies claimed[i] == p[i] by {
            assert((between + claimed)[between.len() + i] == claimed[i]);
            assert((between + p)[between.len() + i] == p[i]);
        }
    }
}

/// A claimed product of which one cell was altered is rejected, the hints
/// being those of the witness routine.
pub proof fn lemma_mult_rejects_altered(
    k: int,
    between: Seq<int>,
    a: Seq<int>,
    b: Seq<int>,
    i: int,
    v: int,
)
    requires
        is_cm31_limbs(a),
        is_cm31_limbs(b),
        mult_ready(hint_cells(a, b) + between + (a + b), k),
        0 <= i < 2,
        v != product_cells(a, b)[i],
    ensures
        !accepts(mult_code(k), hint_cells(a, b), between, a + b, product_cells(a, b).update(i, v)),
{
    let claimed = product_cells(a, b).update(i, v);
    if accepts(mult_code(k), hint_cells(a, b), between, a + b, claimed) {
        lemma_mult_sound(k, hint_cells(a, b), between, a, b, claimed);
        assert(claimed[i] == v);
    }
}

/// Calls follow one another: where the first call accepts with the hints of
/// the second lying untouched above its own, and leaves the stack on which
/// the second call accepts, the two programs run one after the other accept.
/// Hints are consumed in the order in which they were placed, each by the
/// call they were produced for.
pub proof fn lemma_calls_in_sequence(
    first: Seq<Opcode>,
    second: Seq<Opcode>,
    first_hints: Seq<int>,
    second_hints: Seq<int>,
    between: Seq<int>,
    first_inputs: Seq<int>,
    first_outputs: Seq<int>,
    second_between: Seq<int>,
    second_inputs: Seq<int>,
    second_outputs: Seq<int>,
)
    requires
        accepts(first, first_hints, second_hints + between, first_inputs, first_outputs),
        between + first_outputs == second_between + second_inputs,
        accepts(second, second_hints, second_between, second_inputs, second_outputs),
    ensures
        run(first + second, first_hints + second_hints + between + first_inputs) == Some(
            second_between + second_outputs,
        ),
{
    let start = first_hints + second_hints + between + first_inputs;
    assert(start =~= first_hints + (second_hints + between) + first_inputs);
    lemma_run_concat(first, second, start);
    let middle = second_hints + between + first_outputs;
    assert(middle =~= second_hints + (between + first_outputs));
    assert(middle =~= second_hints + second_between + second_inputs);
}

/// The witness routine of the limb extraction yields the codec's encoding of
/// the element in the slot, whose first number is the imaginary part and
/// whose second is the real part.
pub proof fn lemma_to_limbs_is_encoding(
    memory: Seq<EntryValue>,
    inputs: Seq<usize>,
    out: OutputValue,
)
    requires
        cm31_to_limbs_outcome(memory, inputs) == Ok::<OutputValue, Error>(out),
    ensures
        ({
            let num = memory[inputs[0] as int].data.cells();
            let element = CM31(M31(num[1] as u32), M31(num[0] as u32));
            &&& out.new_elements.len() == 1
            &&& out.new_elements[0] == limbs_entry(cm31_limbs(element))
            &&& out.new_hints == out.new_elements
        }),
{
}

/// The limbs of a canonical element are a degree-2 element in limb form, and
/// stand for that element.
pub proof fn lemma_limbs_of_canonical(c: CM31)
    requires
        c.is_canonical(),
    ensures
        is_cm31_limbs(cm31_limbs(c)),
        cm31_value(cm31_limbs(c)) == c,
{
    lemma_cm31_round_trip(c);
    let l = cm31_limbs(c);
    assert(l.subrange(0, 4) =~= m31_limbs(c.1.0 as int));
    assert(l.subrange(4, 8) =~= m31_limbs(c.0.0 as int));
    lemma_m31_round_trip(c.0.0);
    lemma_m31_round_trip(c.1.0);
}

/// The stack that is prepared for a multiplication: above the hints lie
/// whatever else the program holds, the table, the cells `filler` and the
/// limbs of the two factors. Such a stack is ready for the code that is
/// generated for as many cells between table and limbs as `filler` has.
pub proof fn lemma_prepared_stack_is_ready(
    hints: Seq<int>,
    later: Seq<int>,
    filler: Seq<int>,
    a: Seq<int>,
    b: Seq<int>,
)
    requires
        hints.len() == 3,
        a.len() == 8,
        b.len() == 8,
        all_limbs(a),
        all_limbs(b),
        filler.len() <= MAX_TABLE_OFFSET - 32,
        later.len() + filler.len() + 3 + TABLE_SIZE + 16 <= NUM_MAX,
    ensures
        mult_ready(hints + (later + table_cells() + filler) + (a + b), filler.len() as int),
{
    let s = hints + (later + table_cells() + filler) + (a + b);
    let n = s.len();
    lemma_table_cells(hints + later, filler + (a + b));
    assert(s =~= (hints + later) + table_cells() + (filler + (a + b)));
    assert(s.skip(n - 16) =~= a + b);
    assert forall|i: int| 0 <= i < 16 implies is_limb(#[trigger] (a + b)[i]) by {
        if i < 8 {
            assert(is_limb(a[i]));
        } else {
            assert(is_limb(b[i - 8]));
        }
    }
}

/// The multiplication accepts its own witness: for all canonical factors,
/// on the stack prepared with the three hints of the witness routine, the
/// table and the limbs of the factors, the generated code does not abort and
/// leaves the product in the field, as it is stored, in place of the limbs.
pub proof fn lemma_mult_accepts_its_witness(a: CM31, b: CM31, later: Seq<int>, filler: Seq<int>)
    requires
        a.is_canonical(),
        b.is_canonical(),
        filler.len() <= MAX_TABLE_OFFSET - 32,
        later.len() + filler.len() + 3 + TABLE_SIZE + 16 <= NUM_MAX,
    ensures
        accepts(
            mult_code(filler.len() as int),
            hint_cells(cm31_limbs(a), cm31_limbs(b)),
            later + table_cells() + filler,
            cm31_limbs(a) + cm31_limbs(b),
            cm31_entry(a.product(b)).data.cells(),
        ),
{
    let la = cm31_limbs(a);
    let lb = cm31_limbs(b);
    lemma_limbs_of_canonical(a);
    lemma_limbs_of_canonical(b);
    lemma_prepared_stack_is_ready(hint_cells(la, lb), later, filler, la, lb);
    lemma_mult_decides(filler.len() as int, hint_cells(la, lb), later + table_cells() + filler, la, lb);
}

/// The instructions of a multiplication whose result is checked against a
/// claimed product in limb form: the multiplication, the limb extraction of
/// its result, and the equality check of those limbs against the claim.
pub open spec fn checked_mult_code(k: int) -> Seq<Opcode> {
    mult_code(k) + cm31_to_limbs_code() + cm31_limbs_equalverify_code()
}

/// Eight cells are accepted as the limbs of a canonical element exactly when
/// they are its encoding.
pub proof fn lemma_only_the_encoding_is_accepted(h: Seq<int>, c: CM31)
    requires
        h.len() == 8,
        c.is_canonical(),
    ensures
        (all_limbs(h) && limbs_value(h.subrange(0, 4)) == c.1.0 && limbs_value(h.subrange(4, 8))
            == c.0.0) <==> h == cm31_limbs(c),
{
    lemma_cm31_round_trip(c);
    let l = cm31_limbs(c);
    assert(l.subrange(0, 4) =~= m31_limbs(c.1.0 as int));
    assert(l.subrange(4, 8) =~= m31_limbs(c.0.0 as int));
    lemma_m31_round_trip(c.0.0);
    lemma_m31_round_trip(c.1.0);
    if all_limbs(h) && limbs_value(h.subrange(0, 4)) == c.1.0 && limbs_value(h.subrange(4, 8))
        == c.0.0 {
        lemma_cm31_limbs_of_value(h);
        assert(cm31_value(h) == c);
    }
}

/// The check of a stored element against a claim in limb form, that is the
/// limb extraction followed by the equality check, accepts exactly when the
/// hints and the claim are both the encoding of the element.
pub proof fn lemma_check_against_claim(
    c: CM31,
    limb_hints: Seq<int>,
    rest: Seq<int>,
    claimed: Seq<int>,
)
    requires
        c.is_canonical(),
        limb_hints.len() == 8,
        claimed.len() == 8,
        rest.len() + 18 <= NUM_MAX,
    ensures
        run(
            cm31_to_limbs_code() + cm31_limbs_equalverify_code(),
            limb_hints + rest + claimed + cm31_entry(c).data.cells(),
        ) == (if limb_hints == cm31_limbs(c) && claimed == cm31_limbs(c) {
            Some(rest)
        } else {
            None
        }),
{
    let s1 = limb_hints + rest + claimed + cm31_entry(c).data.cells();
    lemma_run_concat(cm31_to_limbs_code(), cm31_limbs_equalverify_code(), s1);
    lemma_cm31_to_limbs(s1);
    assert(s1.take(8) =~= limb_hints);
    assert(s1.take(4) =~= limb_hints.subrange(0, 4));
    assert(s1.subrange(4, 8) =~= limb_hints.subrange(4, 8));
    assert(s1[s1.len() - 2] == c.1.0);
    assert(s1[s1.len() - 1] == c.0.0);
    lemma_only_the_encoding_is_accepted(limb_hints, c);
    if limb_hints == cm31_limbs(c) {
        let s2 = rest + claimed + limb_hints;
        assert(s1.subrange(8, s1.len() - 2) + s1.take(8) =~= s2);
        assert(s2 =~= rest + (claimed + limb_hints));
        lemma_equalverify(rest, claimed, limb_hints);
    }
}

/// The multiplication, checked against a claimed product in limb form,
/// accepts exactly the encoding of the product in the field: for all
/// canonical factors, with the three hints of the witness routine, it aborts
/// on every claim that differs from that encoding in a limb, whatever limbs
/// are supplied as hints for the extraction.
pub proof fn lemma_mult_checked_against_claim(
    a: CM31,
    b: CM31,
    limb_hints: Seq<int>,
    later: Seq<int>,
    filler: Seq<int>,
    claimed: Seq<int>,
)
    requires
        a.is_canonical(),
        b.is_canonical(),
        limb_hints.len() == 8,
        claimed.len() == 8,
        filler.len() + 8 <= MAX_TABLE_OFFSET - 32,
        later.len() + filler.len() + 8 + 8 + 3 + TABLE_SIZE + 16 <= NUM_MAX,
    ensures
        run(
            checked_mult_code(filler.len() as int + 8),
            hint_cells(cm31_limbs(a), cm31_limbs(b)) + limb_hints + later + table_cells() + filler
                + claimed + (cm31_limbs(a) + cm31_limbs(b)),
        ) == (if limb_hints == cm31_limbs(a.product(b)) && claimed == cm31_limbs(a.product(b)) {
            Some(later + table_cells() + filler)
        } else {
            None
        }),
{
    let la = cm31_limbs(a);
    let lb = cm31_limbs(b);
    let p = a.product(b);
    let q = hint_cells(la, lb);
    let k = filler.len() as int + 8;
    let rest = later + table_cells() + filler;
    let check = cm31_to_limbs_code() + cm31_limbs_equalverify_code();
    let start = q + limb_hints + later + table_cells() + filler + claimed + (la + lb);
    let between = (limb_hints + later) + table_cells() + (filler + claimed);
    let element = cm31_entry(p).data.cells();
    assert(start =~= q + between + (la + lb));
    lemma_mult_accepts_its_witness(a, b, limb_hints + later, filler + claimed);
    lemma_product_is_canonical(a, b);
    lemma_concat_assoc(mult_code(k), cm31_to_limbs_code(), cm31_limbs_equalverify_code());
    lemma_run_concat(mult_code(k), check, start);
    assert(between + element =~= limb_hints + rest + claimed + element);
    lemma_check_against_claim(p, limb_hints, rest, claimed);
}

/// A claimed product in limb form of which one limb was altered is rejected:
/// the multiplication, checked against it, aborts.
pub proof fn lemma_mult_rejects_altered_limb(
    a: CM31,
    b: CM31,
    limb_hints: Seq<int>,
    later: Seq<int>,
    filler: Seq<int>,
    i: int,
    v: int,
)
    requires
        a.is_canonical(),
        b.is_canonical(),
        limb_hints.len() == 8,
        filler.len() + 8 <= MAX_TABLE_OFFSET - 32,
        later.len() + filler.len() + 8 + 8 + 3 + TABLE_SIZE + 16 <= NUM_MAX,
        0 <= i < 8,
        v != cm31_limbs(a.product(b))[i],
    ensures
        run(
            checked_mult_code(filler.len() as int + 8),
            hint_cells(cm31_limbs(a), cm31_limbs(b)) + limb_hints + later + table_cells() + filler
                + cm31_limbs(a.product(b)).update(i, v) + (cm31_limbs(a) + cm31_limbs(b)),
        ) is None,
{
    let claimed = cm31_limbs(a.product(b)).update(i, v);
    lemma_cm31_round_trip(a.product(b));
    assert(claimed[i] == v);
    lemma_mult_checked_against_claim(a, b, limb_hints, later, filler, claimed);
}

} // verus!
