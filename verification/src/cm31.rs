//! The operations on the degree-2 extension: limb extraction, limb equality
//! and hinted multiplication, each as a witness routine and a code generator.

use vstd::prelude::*;
use crate::dsl::{
    copy_numbers, outcome, same_numbers, slot_many_num, Element, ElementValue, EntryValue,
    FunctionMetadata, FunctionOutput, MemoryEntry, MetadataValue, Operation, OutputValue,
    RegistrationValue, DSL,
};
use crate::error::Error;
use crate::field::{field_product, lemma_product_is_canonical, CM31, M31_MODULUS};
use crate::limbs::{
    all_limbs, cm31_value, convert_cm31_from_limbs, convert_cm31_to_limbs, ints, is_limb,
    lemma_cm31_limbs_of_value, limbs_value, m31_limbs,
};
use crate::m31::{
    lemma_m31_to_limbs, m31_to_limbs_accepts, m31_to_limbs_code, m31_to_limbs_gadget,
    m31_to_limbs_result,
};
use crate::machine::{
    lemma_run_concat, lemma_run_push, lemma_run_unfold, run, Opcode, Script, NUM_MAX,
};
use crate::mult::{
    four_limbs, hint_q1, hint_q2, hint_q3, imag_limbs, mult_imag, mult_real, real_limbs, CM31Mult,
    CM31MultHint,
};
use crate::multiply::{mult_code, mult_ready, CM31MultGadget};
use crate::table::{MAX_TABLE_OFFSET, TABLE_SIZE};

verus! {

/// The instructions of the limb extraction for a degree-2 element. The
/// element lies on the stack as it is stored, imaginary part below real part,
/// and its limbs come imaginary part first: so the two parts are exchanged
/// before the first base-field extraction.
pub open spec fn cm31_to_limbs_code() -> Seq<Opcode> {
    Seq::<Opcode>::empty().push(Opcode::Swap) + m31_to_limbs_code() + Seq::<Opcode>::empty().push(
        Opcode::Push(4),
    ).push(Opcode::Roll) + m31_to_limbs_code()
}

/// The stack `s` with its two top cells exchanged.
pub open spec fn exchanged(s: Seq<int>) -> Seq<int> {
    s.take(s.len() - 2).push(s[s.len() - 1]).push(s[s.len() - 2])
}

/// The stack after the first half of the limb extraction, with the cell that
/// lies below the four limbs on top moved to the top.
pub open spec fn second_half_stack(s: Seq<int>) -> Seq<int> {
    let t = m31_to_limbs_result(s);
    t.remove(t.len() - 5).push(t[t.len() - 5])
}

/// What the limb extraction does to the stack `s`: the exchange of the two
/// top cells, the base-field extraction on the top cell, and then on the cell
/// that lay below it.
pub open spec fn cm31_to_limbs_effect(s: Seq<int>) -> Option<Seq<int>> {
    if s.len() >= 6 && m31_to_limbs_accepts(exchanged(s)) && m31_to_limbs_accepts(
        second_half_stack(exchanged(s)),
    ) {
        Some(m31_to_limbs_result(second_half_stack(exchanged(s))))
    } else {
        None
    }
}

/// Whether the limb extraction accepts the stack `s` of ten cells or more:
/// its eight bottom cells are byte limbs, the first four sum to the cell
/// below the top (the imaginary part), the next four to the top cell (the
/// real part), and both parts are numbers.
pub open spec fn cm31_to_limbs_accepts(s: Seq<int>) -> bool {
    &&& all_limbs(s.take(8))
    &&& limbs_value(s.take(4)) == s[s.len() - 2]
    &&& limbs_value(s.subrange(4, 8)) == s[s.len() - 1]
    &&& s[s.len() - 1] <= NUM_MAX
    &&& s[s.len() - 2] <= NUM_MAX
}

/// The limb extraction is the exchange, the base-field extraction, the move
/// of the next cell to the top, and the base-field extraction once more, on
/// every stack.
pub proof fn lemma_cm31_to_limbs_halves(s: Seq<int>)
    ensures
        run(cm31_to_limbs_code(), s) == cm31_to_limbs_effect(s),
{
    let swap = Seq::<Opcode>::empty().push(Opcode::Swap);
    let roll = Seq::<Opcode>::empty().push(Opcode::Push(4)).push(Opcode::Roll);
    lemma_run_concat(swap, m31_to_limbs_code(), s);
    lemma_run_concat(swap + m31_to_limbs_code(), roll, s);
    lemma_run_concat(swap + m31_to_limbs_code() + roll, m31_to_limbs_code(), s);
    lemma_run_unfold();
    if s.len() >= 2 {
        let e = exchanged(s);
        assert(run(swap, s) == Some(e));
        lemma_m31_to_limbs(e);
        if m31_to_limbs_accepts(e) {
            let t = m31_to_limbs_result(e);
            if s.len() >= 6 {
                assert(run(roll, t).unwrap() =~= second_half_stack(e));
                lemma_m31_to_limbs(second_half_stack(e));
            } else {
                assert(run(roll, t) is None);
            }
        }
    } else {
        assert(run(swap, s) is None);
    }
}

/// On a stack of ten cells or more, where the hints and the element do not
/// overlap, the limb extraction takes the eight bottom cells as hints and the
/// two top cells as the element, imaginary part below real part. It accepts
/// exactly the stacks that `cm31_to_limbs_accepts` describes, and then leaves
/// the limbs in place of the element.
pub proof fn lemma_cm31_to_limbs(s: Seq<int>)
    requires
        10 <= s.len() <= NUM_MAX,
    ensures
        run(cm31_to_limbs_code(), s) == (if cm31_to_limbs_accepts(s) {
            Some(s.subrange(8, s.len() - 2) + s.take(8))
        } else {
            None
        }),
        cm31_to_limbs_effect(s) == (if cm31_to_limbs_accepts(s) {
            Some(s.subrange(8, s.len() - 2) + s.take(8))
        } else {
            None
        }),
{
    let n = s.len() as int;
    lemma_cm31_to_limbs_halves(s);
    let e = exchanged(s);
    let h = s.take(8);
    assert(e.take(4) =~= s.take(4));
    assert(e.last() == s[n - 2]);
    assert forall|i: int| 0 <= i < 4 implies s.take(4)[i] == h[i] by {}
    assert forall|i: int| 0 <= i < 4 implies s.subrange(4, 8)[i] == h[i + 4] by {}
    if m31_to_limbs_accepts(e) {
        let s2 = s.subrange(4, n - 2) + s.take(4).push(s[n - 1]);
        assert(second_half_stack(e) =~= s2);
        assert(s2.take(4) =~= s.subrange(4, 8));
        assert(s2.last() == s[n - 1]);
        assert(m31_to_limbs_result(s2) =~= s.subrange(8, n - 2) + s.take(8));
        if all_limbs(s.subrange(4, 8)) {
            assert forall|i: int| 0 <= i < 8 implies is_limb(#[trigger] h[i]) by {
                if i < 4 {
                    assert(is_limb(s.take(4)[i]));
                } else {
                    assert(is_limb(s.subrange(4, 8)[i - 4]));
                }
            }
        } else {
            if all_limbs(h) {
                assert forall|i: int| 0 <= i < 4 implies is_limb(
                    #[trigger] s.subrange(4, 8)[i],
                ) by {
                    assert(is_limb(h[i + 4]));
                }
            }
        }
    } else {
        if all_limbs(h) {
            assert forall|i: int| 0 <= i < 4 implies is_limb(#[trigger] s.take(4)[i]) by {
                assert(is_limb(h[i]));
            }
        }
    }
}

/// Emits the limb extraction for a degree-2 element, which lies on the stack
/// imaginary part below real part: the exchange of the two parts, the
/// base-field extraction on the imaginary part, and then on the real part.
/// The program takes eight hints and leaves them as the element's limbs,
/// imaginary part first.
pub fn cm31_to_limbs_gadget(_r: &[usize]) -> (res: Result<Script, Error>)
    ensures
        res is Ok,
        res.unwrap()@ == cm31_to_limbs_code(),
        forall|s: Seq<int>| #[trigger] run(res.unwrap()@, s) == cm31_to_limbs_effect(s),
        forall|s: Seq<int>|
            10 <= s.len() <= NUM_MAX ==> #[trigger] cm31_to_limbs_effect(s) == (
            if cm31_to_limbs_accepts(s) {
                Some(s.subrange(8, s.len() - 2) + s.take(8))
            } else {
                None
            }),
{
    let half = m31_to_limbs_gadget(&[])?;
    let mut script = Script::new();
    script.push_opcode(Opcode::Swap);
    script.push_script(&half);
    script.push_opcode(Opcode::Push(4));
    script.push_opcode(Opcode::Roll);
    script.push_script(&half);
    proof {
        assert(script@ =~= cm31_to_limbs_code());
        assert forall|s: Seq<int>| #[trigger] run(script@, s) == cm31_to_limbs_effect(s) by {
            lemma_cm31_to_limbs_halves(s);
        }
        assert forall|s: Seq<int>| 10 <= s.len() <= NUM_MAX implies #[trigger] cm31_to_limbs_effect(
            s,
        ) == (if cm31_to_limbs_accepts(s) {
            Some(s.subrange(8, s.len() - 2) + s.take(8))
        } else {
            None
        }) by {
            lemma_cm31_to_limbs(s);
        }
    }
    Ok(script)
}

/// The instructions that move the cell `d` below the top to the top.
pub open spec fn roll_code(d: int) -> Seq<Opcode> {
    Seq::<Opcode>::empty().push(Opcode::Push(d as i32)).push(Opcode::Roll)
}

/// Moving a cell to the top takes it out of its place and changes nothing
/// else.
pub proof fn lemma_roll(d: int, s: Seq<int>)
    requires
        0 <= d < s.len(),
        d <= 2000,
    ensures
        run(roll_code(d), s) == Some(s.remove(s.len() - 1 - d).push(s[s.len() - 1 - d])),
{
    lemma_run_unfold();
    assert(run(roll_code(d), s).unwrap() =~= s.remove(s.len() - 1 - d).push(s[s.len() - 1 - d]));
}

/// The instructions that compare the first cell of a sequence of `m` cells
/// with the first cell of the sequence of `m` cells that lies on top of it,
/// and remove both.
pub open spec fn equal_first_pair_code(m: int) -> Seq<Opcode> {
    (roll_code(2 * m - 1) + roll_code(m)).push(Opcode::EqualVerify)
}

/// The instructions that compare two sequences of `hi` cells each, pair by
/// pair from the first pair on, until `lo` cells of each are left.
pub open spec fn equal_pairs_code(hi: int, lo: int) -> Seq<Opcode>
    decreases hi - lo,
{
    if lo >= hi {
        Seq::<Opcode>::empty()
    } else {
        equal_pairs_code(hi, lo + 1) + equal_first_pair_code(lo + 1)
    }
}

/// Comparing the first pair removes the cells `x` and `y` if they are equal
/// and aborts if they differ; `x` is followed by the cells `ra`, `y` by the
/// cells `rb`, as many as `ra`.
pub proof fn lemma_equal_first_pair(below: Seq<int>, x: int, ra: Seq<int>, y: int, rb: Seq<int>)
    requires
        ra.len() == rb.len(),
        ra.len() < 1000,
    ensures
        run(
            equal_first_pair_code(ra.len() as int + 1),
            below.push(x) + ra + (Seq::<int>::empty().push(y) + rb),
        ) == (if x == y {
            Some(below + ra + rb)
        } else {
            None
        }),
{
    let m = ra.len() as int + 1;
    let s = below.push(x) + ra + (Seq::<int>::empty().push(y) + rb);
    let s2 = below + ra + (Seq::<int>::empty().push(y) + rb).push(x);
    let s4 = (below + ra + rb).push(x).push(y);
    lemma_roll(2 * m - 1, s);
    assert(s[s.len() - 2 * m] == x);
    assert(s.remove(s.len() - 2 * m).push(x) =~= s2);
    lemma_roll(m, s2);
    assert(s2[s2.len() - 1 - m] == y);
    assert(s2.remove(s2.len() - 1 - m).push(y) =~= s4);
    lemma_run_concat(roll_code(2 * m - 1), roll_code(m), s);
    lemma_run_push(roll_code(2 * m - 1) + roll_code(m), Opcode::EqualVerify, s);
    if x == y {
        assert(s4.take(s4.len() - 2) =~= below + ra + rb);
    }
}

/// Comparing two sequences `a` and `b` of `hi` cells from the first pair on,
/// until `lo` cells of each are left, leaves those cells if the compared
/// cells agree pair by pair, and aborts if one pair differs.
pub proof fn lemma_equal_pairs(hi: int, lo: int, below: Seq<int>, a: Seq<int>, b: Seq<int>)
    requires
        0 <= lo <= hi <= 1000,
        a.len() == hi,
        b.len() == hi,
    ensures
        run(equal_pairs_code(hi, lo), below + a + b) == (if a.take(hi - lo) == b.take(hi - lo) {
            Some(below + a.skip(hi - lo) + b.skip(hi - lo))
        } else {
            None
        }),
    decreases hi - lo,
{
    lemma_run_unfold();
    if lo >= hi {
        assert(a.take(0) =~= b.take(0));
        assert(a.skip(0) =~= a);
        assert(b.skip(0) =~= b);
    } else {
        let d = hi - lo - 1;
        lemma_equal_pairs(hi, lo + 1, below, a, b);
        lemma_run_concat(equal_pairs_code(hi, lo + 1), equal_first_pair_code(lo + 1), below + a + b);
        assert(a.take(d + 1) =~= a.take(d).push(a[d]));
        assert(b.take(d + 1) =~= b.take(d).push(b[d]));
        if a.take(d) == b.take(d) {
            let ra = a.skip(d + 1);
            let rb = b.skip(d + 1);
            let t = below + a.skip(d) + b.skip(d);
            assert(t =~= below.push(a[d]) + ra + (Seq::<int>::empty().push(b[d]) + rb));
            lemma_equal_first_pair(below, a[d], ra, b[d], rb);
            if a[d] != b[d] {
                assert(a.take(d + 1)[d] != b.take(d + 1)[d]);
            }
        } else {
            if a.take(d + 1) == b.take(d + 1) {
                assert(a.take(d) =~= a.take(d + 1).take(d));
                assert(b.take(d) =~= b.take(d + 1).take(d));
            }
        }
    }
}

/// The instructions of the limb equality check: the first seven pairs are
/// brought to the top and compared, from the first pair on; the last pair
/// then lies on top as it is.
pub open spec fn cm31_limbs_equalverify_code() -> Seq<Opcode> {
    equal_pairs_code(8, 1).push(Opcode::EqualVerify)
}

/// Comparing one pair removes two cells where it does not abort.
pub proof fn lemma_equal_first_pair_length(m: int, s: Seq<int>)
    requires
        0 <= m <= 1000,
    ensures
        run(equal_first_pair_code(m), s) is Some ==> run(equal_first_pair_code(m), s).unwrap().len()
            + 2 == s.len(),
{
    lemma_run_concat(roll_code(2 * m - 1), roll_code(m), s);
    lemma_run_unfold();
}

/// Comparing pairs until `lo` of `hi` are left removes two cells for each
/// pair where it does not abort.
pub proof fn lemma_equal_pairs_length(hi: int, lo: int, s: Seq<int>)
    requires
        0 <= lo <= hi <= 1000,
    ensures
        run(equal_pairs_code(hi, lo), s) is Some ==> run(equal_pairs_code(hi, lo), s).unwrap().len()
            + 2 * (hi - lo) == s.len(),
    decreases hi - lo,
{
    lemma_run_unfold();
    if lo < hi {
        lemma_equal_pairs_length(hi, lo + 1, s);
        lemma_run_concat(equal_pairs_code(hi, lo + 1), equal_first_pair_code(lo + 1), s);
        if run(equal_pairs_code(hi, lo + 1), s) is Some {
            lemma_equal_first_pair_length(lo + 1, run(equal_pairs_code(hi, lo + 1), s).unwrap());
        }
    }
}

/// The limb equality check removes the two sequences of eight cells on top of
/// the stack if they agree cell by cell. It aborts if they differ anywhere,
/// and on every stack of fewer than sixteen cells.
pub proof fn lemma_cm31_limbs_equalverify(s: Seq<int>)
    ensures
        run(cm31_limbs_equalverify_code(), s) == (if s.len() >= 16 && s.subrange(
            s.len() - 16,
            s.len() - 8,
        ) == s.skip(s.len() - 8) {
            Some(s.take(s.len() - 16))
        } else {
            None
        }),
{
    let n = s.len() as int;
    lemma_run_unfold();
    if n >= 16 {
        let below = s.take(n - 16);
        let a = s.subrange(n - 16, n - 8);
        let b = s.skip(n - 8);
        assert(s =~= below + a + b);
        lemma_equal_pairs(8, 1, below, a, b);
        if a.take(7) == b.take(7) {
            let t = below + a.skip(7) + b.skip(7);
            assert(t =~= below.push(a[7]).push(b[7]));
            if a[7] == b[7] {
                assert(a =~= b) by {
                    assert forall|j: int| 0 <= j < 8 implies a[j] == b[j] by {
                        if j < 7 {
                            assert(a[j] == a.take(7)[j]);
                            assert(b[j] == b.take(7)[j]);
                        }
                    }
                }
                assert(run(cm31_limbs_equalverify_code(), s).unwrap() =~= below);
            }
        } else {
            if a == b {
                assert(a.take(7) =~= b.take(7));
            }
        }
    } else {
        lemma_equal_pairs_length(8, 1, s);
    }
}

/// Where two sequences of eight cells differ, the limb equality check aborts
/// at the first pair that differs: the comparisons of the pairs before it go
/// through, and the comparison of that pair does not.
pub proof fn lemma_equalverify_aborts_at_first_difference(
    below: Seq<int>,
    a: Seq<int>,
    b: Seq<int>,
    j: int,
)
    requires
        a.len() == 8,
        b.len() == 8,
        0 <= j < 8,
        a.take(j) == b.take(j),
        a[j] != b[j],
    ensures
        run(equal_pairs_code(8, 8 - j), below + a + b) == Some(below + a.skip(j) + b.skip(j)),
        j < 7 ==> run(equal_pairs_code(8, 7 - j), below + a + b) is None,
        j == 7 ==> run(
            Seq::<Opcode>::empty().push(Opcode::EqualVerify),
            below + a.skip(j) + b.skip(j),
        ) is None,
{
    lemma_equal_pairs(8, 8 - j, below, a, b);
    if j < 7 {
        lemma_equal_pairs(8, 7 - j, below, a, b);
        assert(a.take(j + 1)[j] != b.take(j + 1)[j]);
    } else {
        lemma_run_unfold();
        let t = below + a.skip(j) + b.skip(j);
        assert(t =~= below.push(a[7]).push(b[7]));
    }
}

/// Emits the limb equality check: two sequences of eight limbs on top of the
/// stack are compared pair by pair, from the first pair, the least
/// significant, to the last, and the program aborts at the first pair that
/// differs.
pub fn cm31_limbs_equalverify_gadget(_r: &[usize]) -> (res: Result<Script, Error>)
    ensures
        res is Ok,
        res.unwrap()@ == cm31_limbs_equalverify_code(),
        forall|s: Seq<int>| #[trigger]
            run(res.unwrap()@, s) == (if s.len() >= 16 && s.subrange(s.len() - 16, s.len() - 8)
                == s.skip(s.len() - 8) {
                Some(s.take(s.len() - 16))
            } else {
                None
            }),
{
    let mut script = Script::new();
    let mut m: i32 = 8;
    while m >= 2
        invariant
            1 <= m <= 8,
            script@ == equal_pairs_code(8, m as int),
        decreases m,
    {
        let ghost before = script@;
        script.push_opcode(Opcode::Push(2 * m - 1));
        script.push_opcode(Opcode::Roll);
        script.push_opcode(Opcode::Push(m));
        script.push_opcode(Opcode::Roll);
        script.push_opcode(Opcode::EqualVerify);
        assert(script@ =~= before + equal_first_pair_code(m as int));
        m -= 1;
    }
    script.push_opcode(Opcode::EqualVerify);
    proof {
        assert forall|s: Seq<int>| #[trigger]
            run(script@, s) == (if s.len() >= 16 && s.subrange(s.len() - 16, s.len() - 8)
                == s.skip(s.len() - 8) {
                Some(s.take(s.len() - 16))
            } else {
                None
            }) by {
            lemma_cm31_limbs_equalverify(s);
        }
    }
    Ok(script)
}

/// Whether `v` is the canonical representative of a base-field element.
pub open spec fn is_canonical(v: int) -> bool {
    0 <= v < M31_MODULUS
}

/// An entry of the kind `cm31_limbs`.
pub open spec fn limbs_entry(limbs: Seq<int>) -> EntryValue {
    EntryValue { data_type: "cm31_limbs"@, data: ElementValue::ManyNum(limbs) }
}

/// An entry of the kind `cm31`: the imaginary part, then the real part.
pub open spec fn cm31_entry(c: CM31) -> EntryValue {
    EntryValue {
        data_type: "cm31"@,
        data: ElementValue::ManyNum(
            Seq::<int>::empty().push(c.1.0 as int).push(c.0.0 as int),
        ),
    }
}

/// An entry of the kind `m31`.
pub open spec fn m31_entry(v: int) -> EntryValue {
    EntryValue { data_type: "m31"@, data: ElementValue::Num(v) }
}

/// What the witness routine of the limb extraction returns: the eight limbs
/// of the element in the slot `inputs[0]`, as the new value and as the hint.
/// The slot holds the imaginary part, then the real part, and the limbs come
/// in the same order.
pub open spec fn cm31_to_limbs_outcome(memory: Seq<EntryValue>, inputs: Seq<usize>) -> Result<
    OutputValue,
    Error,
> {
    if inputs.len() < 1 {
        Err(Error::MissingInput)
    } else {
        match slot_many_num(memory, inputs[0] as int) {
            Err(e) => Err(e),
            Ok(num) => if num.len() == 2 && is_canonical(num[0]) && is_canonical(num[1]) {
                let entry = limbs_entry(m31_limbs(num[0]) + m31_limbs(num[1]));
                Ok(
                    OutputValue {
                        new_elements: Seq::<EntryValue>::empty().push(entry),
                        new_hints: Seq::<EntryValue>::empty().push(entry),
                    },
                )
            } else {
                Err(Error::WrongShape)
            },
        }
    }
}

/// The witness routine of the limb extraction. The slot `inputs[0]` holds a
/// degree-2 element as its imaginary and its real part, both canonical. The
/// routine returns the element's eight limbs as the value of a fresh slot and,
/// once more, as the hint that the generated code will retrieve.
pub fn cm31_to_limbs(dsl: &mut DSL, inputs: &[usize]) -> (res: Result<FunctionOutput, Error>)
    ensures
        *final(dsl) == *old(dsl),
        outcome(res) == cm31_to_limbs_outcome(old(dsl)@.memory, inputs@),
{
    if inputs.len() < 1 {
        return Err(Error::MissingInput);
    }
    let limbs: [i32; 8] = match dsl.get_many_num(inputs[0]) {
        Err(e) => {
            return Err(e);
        },
        Ok(num) => {
            if num.len() != 2 || num[0] < 0 || num[0] >= 0x7fff_ffff || num[1] < 0 || num[1]
                >= 0x7fff_ffff {
                return Err(Error::WrongShape);
            }
            convert_cm31_to_limbs(CM31::from_u32_unchecked(num[1] as u32, num[0] as u32))
        },
    };
    let new_entry = MemoryEntry::new("cm31_limbs", Element::ManyNum(copy_numbers(limbs.as_slice())));
    let mut new_elements: Vec<MemoryEntry> = Vec::new();
    new_elements.push(new_entry.duplicate());
    let mut new_hints: Vec<MemoryEntry> = Vec::new();
    new_hints.push(new_entry);
    let out = FunctionOutput { new_elements, new_hints };
    proof {
        let entry = out.new_hints[0]@;
        assert(out@.new_elements =~= Seq::<EntryValue>::empty().push(entry));
        assert(out@.new_hints =~= Seq::<EntryValue>::empty().push(entry));
    }
    Ok(out)
}

/// What the witness routine of the limb equality returns: nothing, where the
/// slots `inputs[0]` and `inputs[1]` hold the same eight numbers.
pub open spec fn cm31_limbs_equalverify_outcome(
    memory: Seq<EntryValue>,
    inputs: Seq<usize>,
) -> Result<OutputValue, Error> {
    if inputs.len() < 2 {
        Err(Error::MissingInput)
    } else {
        match slot_many_num(memory, inputs[0] as int) {
            Err(e) => Err(e),
            Ok(a) => match slot_many_num(memory, inputs[1] as int) {
                Err(e) => Err(e),
                Ok(b) => if a.len() != 8 || b.len() != 8 {
                    Err(Error::WrongShape)
                } else if a != b {
                    Err(Error::EqualverifyFails)
                } else {
                    Ok(
                        OutputValue {
                            new_elements: Seq::<EntryValue>::empty(),
                            new_hints: Seq::<EntryValue>::empty(),
                        },
                    )
                },
            },
        }
    }
}

/// The witness routine of the limb equality. It compares the eight numbers
/// in the slot `inputs[0]` with those in the slot `inputs[1]` and fails if
/// they differ anywhere. It produces no value and no hint.
pub fn cm31_limbs_equalverify(dsl: &mut DSL, inputs: &[usize]) -> (res: Result<
    FunctionOutput,
    Error,
>)
    ensures
        *final(dsl) == *old(dsl),
        outcome(res) == cm31_limbs_equalverify_outcome(old(dsl)@.memory, inputs@),
{
    if inputs.len() < 2 {
        return Err(Error::MissingInput);
    }
    let a: &Vec<i32> = match dsl.get_many_num(inputs[0]) {
        Err(e) => {
            return Err(e);
        },
        Ok(a) => a,
    };
    let b: &Vec<i32> = match dsl.get_many_num(inputs[1]) {
        Err(e) => {
            return Err(e);
        },
        Ok(b) => b,
    };
    if a.len() != 8 || b.len() != 8 {
        return Err(Error::WrongShape);
    }
    let same: bool = same_numbers(a, b);
    proof {
        if ints(a@) == ints(b@) {
            assert forall|i: int| 0 <= i < 8 implies a@[i] == b@[i] by {
                assert(ints(a@)[i] == ints(b@)[i]);
            }
            assert(a@ =~= b@);
        }
    }
    if !same {
        return Err(Error::EqualverifyFails);
    }
    let out = FunctionOutput { new_elements: Vec::new(), new_hints: Vec::new() };
    proof {
        assert(out@.new_elements =~= Seq::<EntryValue>::empty());
        assert(out@.new_hints =~= Seq::<EntryValue>::empty());
    }
    Ok(out)
}

/// Whether `l` is a degree-2 element in limb form: eight byte limbs whose two
/// halves are canonical.
pub open spec fn is_cm31_limbs(l: Seq<int>) -> bool {
    &&& l.len() == 8
    &&& all_limbs(l)
    &&& limbs_value(l.subrange(0, 4)) < M31_MODULUS
    &&& limbs_value(l.subrange(4, 8)) < M31_MODULUS
}

/// What the witness routine of the multiplication returns for the factors in
/// the slots `inputs[1]` and `inputs[2]`: their product in the field as the new
/// value, and the three quotients as hints.
pub open spec fn cm31_limbs_mul_outcome(memory: Seq<EntryValue>, inputs: Seq<usize>) -> Result<
    OutputValue,
    Error,
> {
    if inputs.len() < 3 {
        Err(Error::MissingInput)
    } else {
        match slot_many_num(memory, inputs[1] as int) {
            Err(e) => Err(e),
            Ok(a) => match slot_many_num(memory, inputs[2] as int) {
                Err(e) => Err(e),
                Ok(b) => if is_cm31_limbs(a) && is_cm31_limbs(b) {
                    Ok(
                        OutputValue {
                            new_elements: Seq::<EntryValue>::empty().push(
                                cm31_entry(cm31_value(a).product(cm31_value(b))),
                            ),
                            new_hints: Seq::<EntryValue>::empty().push(
                                m31_entry(hint_q1(a, b)),
                            ).push(m31_entry(hint_q2(a, b))).push(m31_entry(hint_q3(a, b))),
                        },
                    )
                } else {
                    Err(Error::WrongShape)
                },
            },
        }
    }
}

/// Whether `v` is a degree-2 element in limb form.
pub fn check_cm31_limbs(v: &Vec<i32>) -> (r: bool)
    ensures
        r == is_cm31_limbs(ints(v@)),
{
    if v.len() != 8 {
        return false;
    }
    let mut i: usize = 0;
    while i < 8
        invariant
            i <= 8,
            v.len() == 8,
            forall|j: int| 0 <= j < i ==> is_limb(#[trigger] ints(v@)[j]),
        decreases 8 - i,
    {
        if v[i] < 0 || v[i] >= 256 {
            assert(!is_limb(ints(v@)[i as int]));
            return false;
        }
        i += 1;
    }
    proof {
        let l = ints(v@);
        assert(ints(v@.subrange(0, 4)) =~= l.subrange(0, 4));
        assert(ints(v@.subrange(4, 8)) =~= l.subrange(4, 8));
        lemma_cm31_limbs_of_value(l);
    }
    let c: CM31 = convert_cm31_from_limbs(v.as_slice());
    c.0.0 < M31_MODULUS && c.1.0 < M31_MODULUS
}

/// The witness routine of the multiplication. The slots `inputs[1]` and
/// `inputs[2]` hold the factors in limb form; the slot `inputs[0]`, the
/// table, is not read. The routine returns the product, computed by the field
/// library, as the value of a fresh slot, and the three quotients that the
/// generated code needs as hints.
pub fn cm31_limbs_mul(dsl: &mut DSL, inputs: &[usize]) -> (res: Result<FunctionOutput, Error>)
    ensures
        *final(dsl) == *old(dsl),
        outcome(res) == cm31_limbs_mul_outcome(old(dsl)@.memory, inputs@),
{
    if inputs.len() < 3 {
        return Err(Error::MissingInput);
    }
    let a: &Vec<i32> = match dsl.get_many_num(inputs[1]) {
        Err(e) => {
            return Err(e);
        },
        Ok(a) => a,
    };
    let b: &Vec<i32> = match dsl.get_many_num(inputs[2]) {
        Err(e) => {
            return Err(e);
        },
        Ok(b) => b,
    };
    if !(check_cm31_limbs(a) && check_cm31_limbs(b)) {
        return Err(Error::WrongShape);
    }
    let ghost la = ints(a@);
    let ghost lb = ints(b@);
    proof {
        assert(ints(a@.subrange(0, 4)) =~= imag_limbs(la));
        assert(ints(a@.subrange(4, 8)) =~= real_limbs(la));
        assert(ints(b@.subrange(0, 4)) =~= imag_limbs(lb));
        assert(ints(b@.subrange(4, 8)) =~= real_limbs(lb));
        lemma_halves_are_limbs(la);
        lemma_halves_are_limbs(lb);
        lemma_cm31_limbs_of_value(la);
        lemma_cm31_limbs_of_value(lb);
    }
    let hint: CM31MultHint = match CM31Mult::compute_hint_from_limbs(
        &a[4..8],
        &a[0..4],
        &b[4..8],
        &b[0..4],
    ) {
        Err(e) => {
            return Err(e);
        },
        Ok(hint) => hint,
    };
    let a_cm31: CM31 = convert_cm31_from_limbs(a.as_slice());
    let b_cm31: CM31 = convert_cm31_from_limbs(b.as_slice());
    let expected: CM31 = field_product(a_cm31, b_cm31);
    proof {
        lemma_product_is_canonical(a_cm31, b_cm31);
    }
    let mut new_elements: Vec<MemoryEntry> = Vec::new();
    new_elements.push(
        MemoryEntry::new("cm31", Element::ManyNum(reformat_cm31_to_dsl_element(expected))),
    );
    let mut new_hints: Vec<MemoryEntry> = Vec::new();
    new_hints.push(MemoryEntry::new("m31", Element::Num(hint.q1)));
    new_hints.push(MemoryEntry::new("m31", Element::Num(hint.q2)));
    new_hints.push(MemoryEntry::new("m31", Element::Num(hint.q3)));
    let out = FunctionOutput { new_elements, new_hints };
    proof {
        assert(out@.new_elements[0].data == cm31_entry(expected).data) by {
            assert(ints(out.new_elements[0].data->ManyNum_0@) =~= Seq::<int>::empty().push(
                expected.1.0 as int,
            ).push(expected.0.0 as int));
        }
        assert(out@.new_elements =~= Seq::<EntryValue>::empty().push(cm31_entry(expected)));
        assert(out@.new_hints =~= Seq::<EntryValue>::empty().push(m31_entry(hint_q1(la, lb))).push(
            m31_entry(hint_q2(la, lb)),
        ).push(m31_entry(hint_q3(la, lb))));
    }
    Ok(out)
}

/// Both halves of eight byte limbs are four byte limbs.
pub proof fn lemma_halves_are_limbs(l: Seq<int>)
    requires
        l.len() == 8,
        all_limbs(l),
    ensures
        four_limbs(real_limbs(l)),
        four_limbs(imag_limbs(l)),
{
    assert(is_limb(l[0]) && is_limb(l[1]) && is_limb(l[2]) && is_limb(l[3]));
    assert(is_limb(l[4]) && is_limb(l[5]) && is_limb(l[6]) && is_limb(l[7]));
}

/// The numbers of a slot of the kind `cm31`: the imaginary part, then the
/// real part.
pub fn reformat_cm31_to_dsl_element(v: CM31) -> (r: Vec<i32>)
    requires
        v.0.0 <= i32::MAX,
        v.1.0 <= i32::MAX,
    ensures
        ints(r@) == Seq::<int>::empty().push(v.1.0 as int).push(v.0.0 as int),
{
    let mut r: Vec<i32> = Vec::new();
    r.push(v.1.0 as i32);
    r.push(v.0.0 as i32);
    assert(ints(r@) =~= Seq::<int>::empty().push(v.1.0 as int).push(v.0.0 as int));
    r
}

/// Emits the hinted multiplication. The parameter `r[0]` is the distance from
/// the cell below the sixteen input limbs down to the far end of the table, so
/// that `r[0] - 512` cells lie between the table and the limbs.
pub fn cm31_limbs_mul_gadget(r: &[usize]) -> (res: Result<Script, Error>)
    ensures
        r@.len() == 0 ==> res == Err::<Script, Error>(Error::MissingInput),
        r@.len() > 0 && !(TABLE_SIZE <= r@[0] <= MAX_TABLE_OFFSET - 32 + TABLE_SIZE) ==> res
            == Err::<Script, Error>(Error::BadParameter),
        r@.len() > 0 && TABLE_SIZE <= r@[0] <= MAX_TABLE_OFFSET - 32 + TABLE_SIZE ==> res is Ok
            && res.unwrap()@ == mult_code(r@[0] - TABLE_SIZE) && forall|s: Seq<int>|
            mult_ready(s, r@[0] - TABLE_SIZE) ==> #[trigger] run(res.unwrap()@, s) == ({
                let a = s.subrange(s.len() - 16, s.len() - 8);
                let b = s.skip(s.len() - 8);
                if s[0] == hint_q1(a, b) && s[1] == hint_q2(a, b) && s[2] == hint_q3(a, b) {
                    Some(s.subrange(3, s.len() - 16).push(mult_imag(a, b)).push(mult_real(a, b)))
                } else {
                    None
                }
            }),
{
    if r.len() == 0 {
        return Err(Error::MissingInput);
    }
    if r[0] < TABLE_SIZE || r[0] - TABLE_SIZE > MAX_TABLE_OFFSET - 32 {
        return Err(Error::BadParameter);
    }
    Ok(CM31MultGadget::mult(r[0] - TABLE_SIZE))
}

/// The registration of the limb extraction.
pub open spec fn to_limbs_registration() -> RegistrationValue {
    RegistrationValue {
        name: "cm31_to_limbs"@,
        metadata: MetadataValue {
            operation: Operation::Cm31ToLimbs,
            input: Seq::<Seq<char>>::empty().push("cm31"@),
            output: Seq::<Seq<char>>::empty().push("cm31_limbs"@),
        },
    }
}

/// The registration of the limb equality.
pub open spec fn equalverify_registration() -> RegistrationValue {
    RegistrationValue {
        name: "cm31_limbs_equalverify"@,
        metadata: MetadataValue {
            operation: Operation::Cm31LimbsEqualverify,
            input: Seq::<Seq<char>>::empty().push("cm31_limbs"@).push("cm31_limbs"@),
            output: Seq::<Seq<char>>::empty(),
        },
    }
}

/// The registration of the hinted multiplication.
pub open spec fn mul_registration() -> RegistrationValue {
    RegistrationValue {
        name: "cm31_limbs_mul"@,
        metadata: MetadataValue {
            operation: Operation::Cm31LimbsMul,
            input: Seq::<Seq<char>>::empty().push("table"@).push("cm31_limbs"@).push(
                "cm31_limbs"@,
            ),
            output: Seq::<Seq<char>>::empty().push("cm31"@),
        },
    }
}

/// Registers the three operations on degree-2 elements, each under its name
/// and with the kinds of its inputs and outputs. Nothing else of the program
/// changes.
pub fn load_functions(dsl: &mut DSL)
    ensures
        final(dsl)@.functions == old(dsl)@.functions.push(to_limbs_registration()).push(
            equalverify_registration(),
        ).push(mul_registration()),
        final(dsl)@.memory == old(dsl)@.memory,
        final(dsl)@.inputs == old(dsl)@.inputs,
        final(dsl)@.hints == old(dsl)@.hints,
        final(dsl)@.calls == old(dsl)@.calls,
{
    let mut input: Vec<&'static str> = Vec::new();
    input.push("cm31");
    let mut output: Vec<&'static str> = Vec::new();
    output.push("cm31_limbs");
    let metadata = FunctionMetadata { operation: Operation::Cm31ToLimbs, input, output };
    proof {
        assert(metadata@.input =~= to_limbs_registration().metadata.input);
        assert(metadata@.output =~= to_limbs_registration().metadata.output);
    }
    dsl.add_function("cm31_to_limbs", metadata);
    let mut input: Vec<&'static str> = Vec::new();
    input.push("cm31_limbs");
    input.push("cm31_limbs");
    let metadata = FunctionMetadata {
        operation: Operation::Cm31LimbsEqualverify,
        input,
        output: Vec::new(),
    };
    proof {
        assert(metadata@.input =~= equalverify_registration().metadata.input);
        assert(metadata@.output =~= equalverify_registration().metadata.output);
    }
    dsl.add_function("cm31_limbs_equalverify", metadata);
    let mut input: Vec<&'static str> = Vec::new();
    input.push("table");
    input.push("cm31_limbs");
    input.push("cm31_limbs");
    let mut output: Vec<&'static str> = Vec::new();
    output.push("cm31");
    let metadata = FunctionMetadata { operation: Operation::Cm31LimbsMul, input, output };
    proof {
        assert(metadata@.input =~= mul_registration().metadata.input);
        assert(metadata@.output =~= mul_registration().metadata.output);
    }
    dsl.add_function("cm31_limbs_mul", metadata);
}

} // verus!
