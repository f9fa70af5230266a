use m31_limbs::cm31::{
    cm31_limbs_equalverify, cm31_limbs_equalverify_gadget, cm31_limbs_mul, cm31_limbs_mul_gadget,
    cm31_to_limbs, cm31_to_limbs_gadget, load_functions, reformat_cm31_to_dsl_element,
};
use m31_limbs::dsl::{Element, MemoryEntry, DSL};
use m31_limbs::error::Error;
use m31_limbs::field::CM31;
use m31_limbs::limbs::convert_cm31_to_limbs;
use m31_limbs::m31::m31_to_limbs_gadget;
use m31_limbs::machine::{execute, Opcode, Script};
use m31_limbs::mult::{CM31Mult, CM31MultHint};
use m31_limbs::multiply::CM31MultGadget;
use rand::{Rng, SeedableRng};
use rand_chacha::ChaCha20Rng;

const P: u32 = (1 << 31) - 1;

/// The table as it lies on the stack: the entry for index 0 on top.
fn table_cells() -> Vec<i32> {
    (0..512).rev().map(|j: i32| j * j / 4).collect()
}

fn cells_of(entries: &[MemoryEntry]) -> Vec<i64> {
    let mut cells = Vec::new();
    for entry in entries {
        match &entry.data {
            Element::Num(v) => cells.push(*v as i64),
            Element::ManyNum(v) => cells.extend(v.iter().map(|x| *x as i64)),
        }
    }
    cells
}

fn wide(v: &[i32]) -> Vec<i64> {
    v.iter().map(|x| *x as i64).collect()
}

/// The stack on which a multiplication runs, with `k` cells between the
/// table and the limbs.
fn mult_stack(hints: &[i64], k: usize, a: &[i32], b: &[i32]) -> Vec<i64> {
    let mut stack = hints.to_vec();
    stack.extend(wide(&table_cells()));
    stack.extend(std::iter::repeat(-77).take(k));
    stack.extend(wide(a));
    stack.extend(wide(b));
    stack
}

fn mult_rest(k: usize) -> Vec<i64> {
    let mut rest = wide(&table_cells());
    rest.extend(std::iter::repeat(-77).take(k));
    rest
}

fn field_product(a: (u32, u32), b: (u32, u32)) -> (u32, u32) {
    let x = stwo::core::fields::cm31::CM31::from_u32_unchecked(a.0, a.1);
    let y = stwo::core::fields::cm31::CM31::from_u32_unchecked(b.0, b.1);
    let p = x * y;
    (p.0 .0, p.1 .0)
}

fn honest_hints(a: &[i32], b: &[i32]) -> Vec<i64> {
    let hint = CM31Mult::compute_hint_from_limbs(&a[4..8], &a[0..4], &b[4..8], &b[0..4]).unwrap();
    vec![hint.q1 as i64, hint.q2 as i64, hint.q3 as i64]
}

#[test]
fn test_cm31_to_limbs() {
    let mut prng = ChaCha20Rng::seed_from_u64(0);

    let a_real = prng.gen_range(0u32..((1 << 31) - 1));
    let a_imag = prng.gen_range(0u32..((1 << 31) - 1));

    let mut dsl = DSL::new();

    load_functions(&mut dsl);

    let a = dsl.alloc_constant("cm31", Element::ManyNum(vec![a_imag as i32, a_real as i32]));
    let res = dsl.execute("cm31_to_limbs", &[a]).unwrap();

    assert_eq!(res.len(), 1);
    assert_eq!(
        dsl.get_many_num(res[0]).unwrap()[..],
        convert_cm31_to_limbs(CM31::from_u32_unchecked(a_real, a_imag))
    );

    let expected = dsl.alloc_constant(
        "cm31_limbs",
        Element::ManyNum(convert_cm31_to_limbs(CM31::from_u32_unchecked(a_real, a_imag)).to_vec()),
    );
    let _ = dsl.execute("cm31_limbs_equalverify", &[res[0], expected]).unwrap();

    // The program runs with the hints at the base. Above them lie the
    // constant to compare with and the element.
    let mut stack = cells_of(&dsl.hints);
    stack.extend(wide(dsl.get_many_num(expected).unwrap()));
    stack.push(a_imag as i64);
    stack.push(a_real as i64);
    let program = dsl.program(&vec![vec![], vec![]]).unwrap();
    assert_eq!(execute(&program, stack), Some(vec![]));
}

#[test]
fn test_cm31_limbs_mul() {
    let mut prng = ChaCha20Rng::seed_from_u64(0);

    let a_real = prng.gen_range(0u32..((1 << 31) - 1));
    let a_imag = prng.gen_range(0u32..((1 << 31) - 1));
    let b_real = prng.gen_range(0u32..((1 << 31) - 1));
    let b_imag = prng.gen_range(0u32..((1 << 31) - 1));

    let a_cm31 = stwo::core::fields::cm31::CM31::from_u32_unchecked(a_real, a_imag);
    let b_cm31 = stwo::core::fields::cm31::CM31::from_u32_unchecked(b_real, b_imag);

    let expected = a_cm31 * b_cm31;

    let a_limbs = convert_cm31_to_limbs(CM31::from_u32_unchecked(a_real, a_imag));
    let b_limbs = convert_cm31_to_limbs(CM31::from_u32_unchecked(b_real, b_imag));

    let mut dsl = DSL::new();

    load_functions(&mut dsl);

    let a = dsl.alloc_input("cm31_limbs", Element::ManyNum(a_limbs.to_vec()));
    let b = dsl.alloc_input("cm31_limbs", Element::ManyNum(b_limbs.to_vec()));

    let table = dsl.alloc_constant("table", Element::ManyNum(table_cells()));
    let res = dsl.execute("cm31_limbs_mul", &[table, a, b]).unwrap();

    assert_eq!(res.len(), 1);
    assert_eq!(
        dsl.get_many_num(res[0]).unwrap()[..],
        [expected.1 .0 as i32, expected.0 .0 as i32]
    );

    // The program: the hints at the base, then the table, then the factors.
    let stack = mult_stack(&cells_of(&dsl.hints), 0, &a_limbs, &b_limbs);
    let program = dsl.program(&vec![vec![512]]).unwrap();
    let mut left = mult_rest(0);
    left.extend(wide(dsl.get_many_num(res[0]).unwrap()));
    assert_eq!(execute(&program, stack), Some(left));
}

#[test]
fn multiplication_example_is_accepted() {
    // (5 + 7i)(3 + 11i) = (15 - 77) + (55 + 21)i
    let a = convert_cm31_to_limbs(CM31::from_u32_unchecked(5, 7));
    let b = convert_cm31_to_limbs(CM31::from_u32_unchecked(3, 11));
    let script = CM31MultGadget::mult(0);
    let result = execute(&script, mult_stack(&honest_hints(&a, &b), 0, &a, &b)).unwrap();
    let claimed = [76, (P - 62) as i64];
    assert_eq!(result[512..], claimed);
    assert_eq!(field_product((5, 7), (3, 11)), (P - 62, 76));
}

#[test]
fn multiplication_example_rejects_a_real_part_off_by_one() {
    let a = convert_cm31_to_limbs(CM31::from_u32_unchecked(5, 7));
    let b = convert_cm31_to_limbs(CM31::from_u32_unchecked(3, 11));
    let script = CM31MultGadget::mult(0);
    let accepts = |claimed: [i64; 2]| {
        let mut wanted = mult_rest(0);
        wanted.extend(claimed);
        execute(&script, mult_stack(&honest_hints(&a, &b), 0, &a, &b)) == Some(wanted)
    };
    assert!(accepts([76, (P - 62) as i64]));
    assert!(!accepts([76, (P - 61) as i64]));
    assert!(!accepts([76, (P - 63) as i64]));
    assert!(!accepts([77, (P - 62) as i64]));
    assert!(!accepts([(P - 62) as i64, 76]));
}

#[test]
fn multiplication_rejects_every_other_hint() {
    let a = convert_cm31_to_limbs(CM31::from_u32_unchecked(123456789, 987654321));
    let b = convert_cm31_to_limbs(CM31::from_u32_unchecked(P - 1, 2));
    let script = CM31MultGadget::mult(0);
    let honest = honest_hints(&a, &b);
    assert!(execute(&script, mult_stack(&honest, 0, &a, &b)).is_some());
    for i in 0..3 {
        for delta in [-1i64, 1, 2, 1000, -1000, 1 << 20, 1 << 40] {
            let mut hints = honest.clone();
            hints[i] += delta;
            assert_eq!(execute(&script, mult_stack(&hints, 0, &a, &b)), None);
        }
    }
}

#[test]
fn multiplication_agrees_with_the_field_library() {
    let mut prng = ChaCha20Rng::seed_from_u64(7);
    let mut cases = vec![
        ((0, 0), (0, 0)),
        ((1, 0), (1, 0)),
        ((0, 1), (0, 1)),
        ((P - 1, P - 1), (P - 1, P - 1)),
        ((P - 1, 0), (0, P - 1)),
        ((1 << 30, 1 << 30), (1 << 30, 1 << 30)),
    ];
    for _ in 0..20 {
        cases.push((
            (prng.gen_range(0..P), prng.gen_range(0..P)),
            (prng.gen_range(0..P), prng.gen_range(0..P)),
        ));
    }
    let script = CM31MultGadget::mult(3);
    for (x, y) in cases {
        let a = convert_cm31_to_limbs(CM31::from_u32_unchecked(x.0, x.1));
        let b = convert_cm31_to_limbs(CM31::from_u32_unchecked(y.0, y.1));
        let result = execute(&script, mult_stack(&honest_hints(&a, &b), 3, &a, &b)).unwrap();
        let product = field_product(x, y);
        let mut wanted = mult_rest(3);
        wanted.push(product.1 as i64);
        wanted.push(product.0 as i64);
        assert_eq!(result, wanted);
    }
}

#[test]
fn multiplication_leaves_later_hints_alone() {
    let a = convert_cm31_to_limbs(CM31::from_u32_unchecked(5, 7));
    let b = convert_cm31_to_limbs(CM31::from_u32_unchecked(3, 11));
    let mut hints = honest_hints(&a, &b);
    hints.push(4242);
    let result = execute(&CM31MultGadget::mult(0), mult_stack(&hints, 0, &a, &b)).unwrap();
    assert_eq!(result[0], 4242);
    assert_eq!(result.len(), 1 + 512 + 2);
}

#[test]
fn hints_are_the_quotients_of_the_folded_products() {
    // 1 * 1: the folded product is 1, below the prime.
    let one = [1, 0, 0, 0];
    let zero = [0, 0, 0, 0];
    assert_eq!(
        CM31Mult::compute_hint_from_limbs(&one, &zero, &one, &zero),
        Ok(CM31MultHint { q1: 0, q2: 0, q3: 0 })
    );
    // 2^24 * 2^24 = 2^48: the top column folds to 2 * 2^16, so the folded
    // product is 2^17, below the prime.
    let top = [0, 0, 0, 1];
    assert_eq!(
        CM31Mult::compute_hint_from_limbs(&top, &zero, &top, &zero),
        Ok(CM31MultHint { q1: 0, q2: 0, q3: 0 })
    );
    // 255 * 2^24 squared: column 6 is 255^2 and folds to digit 2, which
    // gives 2 * 65025 * 2^16 = 8522956800 = 3 * P + 2080505859.
    let big = [0, 0, 0, 255];
    assert_eq!(
        CM31Mult::compute_hint_from_limbs(&big, &big, &big, &big),
        Ok(CM31MultHint { q1: 3, q2: 3, q3: 7 })
    );
}

#[test]
fn hints_need_four_byte_limbs() {
    let ok = [1, 2, 3, 4];
    assert_eq!(
        CM31Mult::compute_hint_from_limbs(&ok, &ok, &ok, &[1, 2, 3]),
        Err(Error::WrongShape)
    );
    assert_eq!(
        CM31Mult::compute_hint_from_limbs(&[1, 2, 3, 256], &ok, &ok, &ok),
        Err(Error::WrongShape)
    );
    assert_eq!(
        CM31Mult::compute_hint_from_limbs(&ok, &[-1, 2, 3, 4], &ok, &ok),
        Err(Error::WrongShape)
    );
    assert_eq!(
        CM31Mult::compute_hint_from_limbs(&ok, &ok, &[1, 2, 3, 4, 5], &ok),
        Err(Error::WrongShape)
    );
}

#[test]
fn multiplication_code_depends_on_the_table_offset_alone() {
    assert_eq!(CM31MultGadget::mult(5).ops, CM31MultGadget::mult(5).ops);
    assert_ne!(CM31MultGadget::mult(5).ops, CM31MultGadget::mult(6).ops);
    assert_eq!(cm31_limbs_mul_gadget(&[517]).unwrap().ops, CM31MultGadget::mult(5).ops);
}

#[test]
fn multiplication_generator_checks_its_parameter() {
    assert_eq!(cm31_limbs_mul_gadget(&[]).err(), Some(Error::MissingInput));
    assert_eq!(cm31_limbs_mul_gadget(&[511]).err(), Some(Error::BadParameter));
    assert_eq!(cm31_limbs_mul_gadget(&[0]).err(), Some(Error::BadParameter));
    assert_eq!(cm31_limbs_mul_gadget(&[0x3fff_ffff + 512]).err(), Some(Error::BadParameter));
    assert!(cm31_limbs_mul_gadget(&[512]).is_ok());
}

#[test]
fn limb_extraction_of_a_base_field_value() {
    let script = m31_to_limbs_gadget(&[]).unwrap();
    assert_eq!(execute(&script, vec![4, 3, 2, 1, 0x01020304]), Some(vec![4, 3, 2, 1]));
    // Something between the hints and the value stays.
    assert_eq!(
        execute(&script, vec![4, 3, 2, 1, 55, 66, 0x01020304]),
        Some(vec![55, 66, 4, 3, 2, 1])
    );
    // Limbs of another value.
    assert_eq!(execute(&script, vec![5, 3, 2, 1, 0x01020304]), None);
    // The right sum from a limb that is no byte.
    assert_eq!(execute(&script, vec![4 + 256, 2, 2, 1, 0x01020304]), None);
    assert_eq!(execute(&script, vec![4, 3, 2 + 256, 0, 0x01020304]), None);
    assert_eq!(execute(&script, vec![-252, 4, 2, 1, 0x01020304]), None);
    // The largest value that is a number.
    assert_eq!(
        execute(&script, vec![255, 255, 255, 127, 0x7fff_ffff]),
        Some(vec![255, 255, 255, 127])
    );
    // A value that is no number any more.
    assert_eq!(execute(&script, vec![0, 0, 0, 128, 0x8000_0000]), None);
    // Fewer cells than four hints and a value.
    assert_eq!(execute(&script, vec![]), None);
    assert_eq!(execute(&script, vec![0]), None);
    assert_eq!(execute(&script, vec![0, 0, 0, 0]), None);
}

#[test]
fn limb_extraction_of_a_degree_two_element() {
    let script = cm31_to_limbs_gadget(&[]).unwrap();
    let limbs = convert_cm31_to_limbs(CM31::from_u32_unchecked(0x01020304, 0x0a0b0c0d));
    // The element lies imaginary part below real part.
    let mut stack = wide(&limbs);
    stack.push(0x0a0b0c0d);
    stack.push(0x01020304);
    assert_eq!(execute(&script, stack), Some(wide(&limbs)));
    // The two parts exchanged.
    let mut stack = wide(&limbs);
    stack.push(0x01020304);
    stack.push(0x0a0b0c0d);
    assert_eq!(execute(&script, stack), None);
    // One limb altered.
    for i in 0..8 {
        let mut stack = wide(&limbs);
        stack[i] += 1;
        stack.push(0x0a0b0c0d);
        stack.push(0x01020304);
        assert_eq!(execute(&script, stack), None);
    }
    // Too few cells for the first half, and for the move to the second.
    assert_eq!(execute(&script, vec![1, 0, 0, 0]), None);
    assert_eq!(execute(&script, vec![1, 0, 0, 0, 1]), None);
}

#[test]
fn limb_extraction_on_a_stack_that_is_all_hints() {
    // With six cells the four hints serve both halves: the top cell and the
    // cell below it are both checked against them.
    let script = cm31_to_limbs_gadget(&[]).unwrap();
    assert_eq!(execute(&script, vec![7, 0, 0, 0, 7, 7]), Some(vec![7, 0, 0, 0]));
    assert_eq!(execute(&script, vec![7, 0, 0, 0, 8, 7]), None);
}

#[test]
fn limb_extraction_is_an_exchange_and_two_base_field_extractions() {
    let half = m31_to_limbs_gadget(&[]).unwrap().ops;
    let mut wanted = vec![Opcode::Swap];
    wanted.extend(half.clone());
    wanted.push(Opcode::Push(4));
    wanted.push(Opcode::Roll);
    wanted.extend(half);
    assert_eq!(cm31_to_limbs_gadget(&[]).unwrap().ops, wanted);
}

#[test]
fn equality_check_emits_its_comparisons_from_the_first_pair_up() {
    let mut wanted = Vec::new();
    for m in (2..=8).rev() {
        wanted.push(Opcode::Push(2 * m - 1));
        wanted.push(Opcode::Roll);
        wanted.push(Opcode::Push(m));
        wanted.push(Opcode::Roll);
        wanted.push(Opcode::EqualVerify);
    }
    wanted.push(Opcode::EqualVerify);
    assert_eq!(cm31_limbs_equalverify_gadget(&[]).unwrap().ops, wanted);
}

#[test]
fn equality_check_aborts_at_the_first_pair_that_differs() {
    let code = cm31_limbs_equalverify_gadget(&[]).unwrap().ops;
    // The instructions that compare the first `pairs` pairs.
    let upto = |pairs: usize| {
        let mut script = Script::new();
        for op in &code[..5 * pairs] {
            script.push_opcode(*op);
        }
        script
    };
    let a: Vec<i64> = vec![1, 2, 3, 4, 5, 6, 7, 8];
    let stack_with = |b: &[i64]| {
        let mut stack = a.clone();
        stack.extend(b);
        stack
    };
    // Different at both ends: the comparison of the first pair aborts.
    let both_ends = [9, 2, 3, 4, 5, 6, 7, 9];
    assert_eq!(execute(&upto(1), stack_with(&both_ends)), None);
    // Different at the last pair only: the first seven comparisons go
    // through, and leave the last pair.
    let last_only = [1, 2, 3, 4, 5, 6, 7, 9];
    assert_eq!(execute(&upto(1), stack_with(&last_only)), Some(vec![2, 3, 4, 5, 6, 7, 8, 2, 3, 4, 5, 6, 7, 9]));
    assert_eq!(execute(&upto(7), stack_with(&last_only)), Some(vec![8, 9]));
    // Different at the fourth pair: three comparisons go through, the
    // fourth aborts.
    let fourth = [1, 2, 3, 0, 5, 6, 7, 8];
    assert_eq!(execute(&upto(3), stack_with(&fourth)), Some(vec![4, 5, 6, 7, 8, 0, 5, 6, 7, 8]));
    assert_eq!(execute(&upto(4), stack_with(&fourth)), None);
}

#[test]
fn equality_check_accepts_equal_sequences_only() {
    let script = cm31_limbs_equalverify_gadget(&[]).unwrap();
    let a: Vec<i64> = vec![1, 2, 3, 4, 5, 6, 7, 8];
    let mut stack = vec![99];
    stack.extend(&a);
    stack.extend(&a);
    assert_eq!(execute(&script, stack), Some(vec![99]));
    // A difference at any one pair is caught, the first pair included.
    for i in 0..8 {
        let mut b = a.clone();
        b[i] += 1;
        let mut stack = a.clone();
        stack.extend(&b);
        assert_eq!(execute(&script, stack), None);
        let mut stack = b.clone();
        stack.extend(&a);
        assert_eq!(execute(&script, stack), None);
    }
    // Too few cells.
    assert_eq!(execute(&script, vec![1; 15]), None);
}

#[test]
fn witness_of_limb_extraction() {
    let mut dsl = DSL::new();
    // The slot holds the imaginary part, then the real part.
    let a = dsl.alloc_constant("cm31", Element::ManyNum(vec![0x0a0b0c0d, 0x01020304]));
    let out = cm31_to_limbs(&mut dsl, &[a]).unwrap();
    let limbs = vec![0x0d, 0x0c, 0x0b, 0x0a, 4, 3, 2, 1];
    assert_eq!(limbs, convert_cm31_to_limbs(CM31::from_u32_unchecked(0x01020304, 0x0a0b0c0d)));
    assert_eq!(out.new_elements, vec![MemoryEntry::new("cm31_limbs", Element::ManyNum(limbs.clone()))]);
    assert_eq!(out.new_hints, vec![MemoryEntry::new("cm31_limbs", Element::ManyNum(limbs))]);
    // The routine changes nothing.
    assert_eq!(dsl.memory.len(), 1);
    assert!(dsl.hints.is_empty());
}

#[test]
fn witness_of_limb_extraction_fails_on_a_wrong_slot() {
    let mut dsl = DSL::new();
    let num = dsl.alloc_constant("m31", Element::Num(5));
    let short = dsl.alloc_constant("cm31", Element::ManyNum(vec![1]));
    let long = dsl.alloc_constant("cm31", Element::ManyNum(vec![1, 2, 3]));
    let negative = dsl.alloc_constant("cm31", Element::ManyNum(vec![-1, 2]));
    let modulus = dsl.alloc_constant("cm31", Element::ManyNum(vec![1, i32::MAX]));
    assert_eq!(cm31_to_limbs(&mut dsl, &[]).err(), Some(Error::MissingInput));
    assert_eq!(cm31_to_limbs(&mut dsl, &[99]).err(), Some(Error::UnknownSlot));
    assert_eq!(cm31_to_limbs(&mut dsl, &[num]).err(), Some(Error::WrongShape));
    assert_eq!(cm31_to_limbs(&mut dsl, &[short]).err(), Some(Error::WrongShape));
    assert_eq!(cm31_to_limbs(&mut dsl, &[long]).err(), Some(Error::WrongShape));
    assert_eq!(cm31_to_limbs(&mut dsl, &[negative]).err(), Some(Error::WrongShape));
    assert_eq!(cm31_to_limbs(&mut dsl, &[modulus]).err(), Some(Error::WrongShape));
}

#[test]
fn witness_of_equality() {
    let mut dsl = DSL::new();
    let a = dsl.alloc_constant("cm31_limbs", Element::ManyNum(vec![1, 2, 3, 4, 5, 6, 7, 8]));
    let b = dsl.alloc_constant("cm31_limbs", Element::ManyNum(vec![1, 2, 3, 4, 5, 6, 7, 8]));
    let c = dsl.alloc_constant("cm31_limbs", Element::ManyNum(vec![9, 2, 3, 4, 5, 6, 7, 8]));
    let d = dsl.alloc_constant("cm31_limbs", Element::ManyNum(vec![1, 2, 3, 4, 5, 6, 7, 9]));
    let out = cm31_limbs_equalverify(&mut dsl, &[a, b]).unwrap();
    assert!(out.new_elements.is_empty());
    assert!(out.new_hints.is_empty());
    assert_eq!(cm31_limbs_equalverify(&mut dsl, &[a, c]).err(), Some(Error::EqualverifyFails));
    assert_eq!(cm31_limbs_equalverify(&mut dsl, &[a, d]).err(), Some(Error::EqualverifyFails));
    assert_eq!(Error::EqualverifyFails.message(), "Equalverify fails");
}

#[test]
fn witness_of_equality_fails_on_a_wrong_slot() {
    let mut dsl = DSL::new();
    let a = dsl.alloc_constant("cm31_limbs", Element::ManyNum(vec![1, 2, 3, 4, 5, 6, 7, 8]));
    let short = dsl.alloc_constant("cm31_limbs", Element::ManyNum(vec![1, 2, 3]));
    let num = dsl.alloc_constant("m31", Element::Num(1));
    assert_eq!(cm31_limbs_equalverify(&mut dsl, &[a]).err(), Some(Error::MissingInput));
    assert_eq!(cm31_limbs_equalverify(&mut dsl, &[a, 77]).err(), Some(Error::UnknownSlot));
    assert_eq!(cm31_limbs_equalverify(&mut dsl, &[77, a]).err(), Some(Error::UnknownSlot));
    assert_eq!(cm31_limbs_equalverify(&mut dsl, &[a, num]).err(), Some(Error::WrongShape));
    assert_eq!(cm31_limbs_equalverify(&mut dsl, &[short, short]).err(), Some(Error::WrongShape));
}

#[test]
fn witness_of_multiplication() {
    let mut dsl = DSL::new();
    let table = dsl.alloc_constant("table", Element::ManyNum(table_cells()));
    let a = dsl.alloc_input(
        "cm31_limbs",
        Element::ManyNum(convert_cm31_to_limbs(CM31::from_u32_unchecked(5, 7)).to_vec()),
    );
    let b = dsl.alloc_input(
        "cm31_limbs",
        Element::ManyNum(convert_cm31_to_limbs(CM31::from_u32_unchecked(3, 11)).to_vec()),
    );
    let out = cm31_limbs_mul(&mut dsl, &[table, a, b]).unwrap();
    assert_eq!(
        out.new_elements,
        vec![MemoryEntry::new("cm31", Element::ManyNum(vec![76, (P - 62) as i32]))]
    );
    assert_eq!(
        out.new_hints,
        vec![
            MemoryEntry::new("m31", Element::Num(0)),
            MemoryEntry::new("m31", Element::Num(0)),
            MemoryEntry::new("m31", Element::Num(0)),
        ]
    );
}

#[test]
fn witness_of_multiplication_fails_on_a_wrong_slot() {
    let mut dsl = DSL::new();
    let table = dsl.alloc_constant("table", Element::ManyNum(table_cells()));
    let good = dsl.alloc_input("cm31_limbs", Element::ManyNum(vec![1, 0, 0, 0, 2, 0, 0, 0]));
    let wide_limb = dsl.alloc_input("cm31_limbs", Element::ManyNum(vec![256, 0, 0, 0, 2, 0, 0, 0]));
    let not_canonical =
        dsl.alloc_input("cm31_limbs", Element::ManyNum(vec![255, 255, 255, 127, 2, 0, 0, 0]));
    let short = dsl.alloc_input("cm31_limbs", Element::ManyNum(vec![1, 0, 0, 0]));
    let num = dsl.alloc_input("m31", Element::Num(3));
    assert_eq!(cm31_limbs_mul(&mut dsl, &[table, good]).err(), Some(Error::MissingInput));
    assert_eq!(cm31_limbs_mul(&mut dsl, &[table, good, 99]).err(), Some(Error::UnknownSlot));
    assert_eq!(cm31_limbs_mul(&mut dsl, &[table, wide_limb, good]).err(), Some(Error::WrongShape));
    assert_eq!(cm31_limbs_mul(&mut dsl, &[table, good, not_canonical]).err(), Some(Error::WrongShape));
    assert_eq!(cm31_limbs_mul(&mut dsl, &[table, short, good]).err(), Some(Error::WrongShape));
    assert_eq!(cm31_limbs_mul(&mut dsl, &[table, good, num]).err(), Some(Error::WrongShape));
    assert!(cm31_limbs_mul(&mut dsl, &[table, good, good]).is_ok());
}

#[test]
fn degree_two_element_is_stored_imaginary_part_first() {
    assert_eq!(reformat_cm31_to_dsl_element(CM31::from_u32_unchecked(5, 7)), vec![7, 5]);
}

#[test]
fn witness_of_limb_extraction_reads_the_imaginary_part_first() {
    let mut dsl = DSL::new();
    let a = dsl.alloc_constant("cm31", Element::ManyNum(vec![0x08070605, 0x04030201]));
    let out = cm31_to_limbs(&mut dsl, &[a]).unwrap();
    assert_eq!(out.new_elements[0].data, Element::ManyNum(vec![5, 6, 7, 8, 1, 2, 3, 4]));
}

fn product_of(a: (u32, u32), b: (u32, u32)) -> Vec<i32> {
    let mut dsl = DSL::new();
    let table = dsl.alloc_constant("table", Element::ManyNum(table_cells()));
    let x = dsl.alloc_input(
        "cm31_limbs",
        Element::ManyNum(convert_cm31_to_limbs(CM31::from_u32_unchecked(a.0, a.1)).to_vec()),
    );
    let y = dsl.alloc_input(
        "cm31_limbs",
        Element::ManyNum(convert_cm31_to_limbs(CM31::from_u32_unchecked(b.0, b.1)).to_vec()),
    );
    let out = cm31_limbs_mul(&mut dsl, &[table, x, y]).unwrap();
    assert_eq!(out.new_elements.len(), 1);
    assert_eq!(out.new_elements[0].data_type, "cm31");
    match &out.new_elements[0].data {
        Element::ManyNum(v) => v.clone(),
        Element::Num(_) => panic!("a degree-2 element is two numbers"),
    }
}

#[test]
fn witness_of_multiplication_stores_the_imaginary_part_first() {
    assert_eq!(product_of((5, 7), (3, 11)), vec![76, 2147483585]);
    // Multiplying by one gives the factor back.
    assert_eq!(product_of((5, 7), (1, 0)), vec![7, 5]);
    // The square of the imaginary unit is minus one.
    assert_eq!(product_of((0, 1), (0, 1)), vec![0, 2147483646]);
}

#[test]
fn limb_extraction_and_equality_agree_with_the_codec() {
    // The limbs that the extraction leaves are the codec's encoding, so the
    // equality check against that encoding accepts.
    let (re, im) = (1u32, 2u32);
    let encoding = wide(&convert_cm31_to_limbs(CM31::from_u32_unchecked(re, im)));
    let mut stack = encoding.clone();
    stack.extend(&encoding);
    stack.push(im as i64);
    stack.push(re as i64);
    let stack = execute(&cm31_to_limbs_gadget(&[]).unwrap(), stack).unwrap();
    assert_eq!(execute(&cm31_limbs_equalverify_gadget(&[]).unwrap(), stack), Some(vec![]));
}

/// The multiplication followed by the check of its result against a claimed
/// product in limb form, run on the stack that holds the three quotients,
/// the limb hints, the table, the claim and the factors.
fn checked_multiplication(a: (u32, u32), b: (u32, u32), limb_hints: &[i32], claimed: &[i32]) -> Option<Vec<i64>> {
    let la = convert_cm31_to_limbs(CM31::from_u32_unchecked(a.0, a.1));
    let lb = convert_cm31_to_limbs(CM31::from_u32_unchecked(b.0, b.1));
    let mut script = CM31MultGadget::mult(8);
    script.push_script(&cm31_to_limbs_gadget(&[]).unwrap());
    script.push_script(&cm31_limbs_equalverify_gadget(&[]).unwrap());
    let mut stack = honest_hints(&la, &lb);
    stack.extend(wide(limb_hints));
    stack.extend(wide(&table_cells()));
    stack.extend(wide(claimed));
    stack.extend(wide(&la));
    stack.extend(wide(&lb));
    execute(&script, stack)
}

#[test]
fn checked_multiplication_accepts_the_encoding_of_the_product() {
    let product = field_product((5, 7), (3, 11));
    let encoding = convert_cm31_to_limbs(CM31::from_u32_unchecked(product.0, product.1));
    assert_eq!(
        checked_multiplication((5, 7), (3, 11), &encoding, &encoding),
        Some(wide(&table_cells()))
    );
}

#[test]
fn checked_multiplication_rejects_a_claim_with_one_limb_altered() {
    let mut prng = ChaCha20Rng::seed_from_u64(11);
    let a = (prng.gen_range(0..P), prng.gen_range(0..P));
    let b = (prng.gen_range(0..P), prng.gen_range(0..P));
    let product = field_product(a, b);
    let encoding = convert_cm31_to_limbs(CM31::from_u32_unchecked(product.0, product.1));
    assert!(checked_multiplication(a, b, &encoding, &encoding).is_some());
    for i in 0..8 {
        for other in [0, 1, 127, 128, 255] {
            if other == encoding[i] {
                continue;
            }
            let mut claimed = encoding;
            claimed[i] = other;
            // With the honest limb hints, and with limb hints that follow
            // the altered claim.
            assert_eq!(checked_multiplication(a, b, &encoding, &claimed), None);
            assert_eq!(checked_multiplication(a, b, &claimed, &claimed), None);
        }
    }
}
