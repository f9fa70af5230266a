use m31_limbs::gadgets::{check_limb_format, range_check, OP_256MUL, OP_HINT, NATIVE_SHIFT};
use m31_limbs::machine::{execute, execute_opcode, Opcode, Script};

fn script_of(ops: &[Opcode]) -> Script {
    let mut script = Script::new();
    for op in ops {
        script.push_opcode(*op);
    }
    script
}

fn run_ops(ops: &[Opcode], stack: &[i64]) -> Option<Vec<i64>> {
    execute(&script_of(ops), stack.to_vec())
}

#[test]
fn empty_program_leaves_the_stack() {
    assert_eq!(run_ops(&[], &[1, 2, 3]), Some(vec![1, 2, 3]));
}

#[test]
fn push_dup_drop() {
    assert_eq!(run_ops(&[Opcode::Push(7)], &[]), Some(vec![7]));
    assert_eq!(run_ops(&[Opcode::Dup], &[1, 2]), Some(vec![1, 2, 2]));
    assert_eq!(run_ops(&[Opcode::Drop], &[1, 2]), Some(vec![1]));
    assert_eq!(run_ops(&[Opcode::Dup], &[]), None);
    assert_eq!(run_ops(&[Opcode::Drop], &[]), None);
}

#[test]
fn swap_and_rot() {
    assert_eq!(run_ops(&[Opcode::Swap], &[1, 2, 3]), Some(vec![1, 3, 2]));
    assert_eq!(run_ops(&[Opcode::Rot], &[0, 1, 2, 3]), Some(vec![0, 2, 3, 1]));
    assert_eq!(run_ops(&[Opcode::Swap], &[1]), None);
    assert_eq!(run_ops(&[Opcode::Rot], &[1, 2]), None);
}

#[test]
fn pick_copies_and_roll_moves() {
    assert_eq!(run_ops(&[Opcode::Pick], &[10, 20, 30, 2]), Some(vec![10, 20, 30, 10]));
    assert_eq!(run_ops(&[Opcode::Pick], &[10, 20, 30, 0]), Some(vec![10, 20, 30, 30]));
    assert_eq!(run_ops(&[Opcode::Roll], &[10, 20, 30, 2]), Some(vec![20, 30, 10]));
    assert_eq!(run_ops(&[Opcode::Roll], &[10, 20, 30, 0]), Some(vec![10, 20, 30]));
    assert_eq!(run_ops(&[Opcode::Pick], &[10, 20, 30, 3]), None);
    assert_eq!(run_ops(&[Opcode::Roll], &[10, 20, 30, -1]), None);
    assert_eq!(run_ops(&[Opcode::Pick], &[]), None);
}

#[test]
fn depth_counts_the_cells() {
    assert_eq!(run_ops(&[Opcode::Depth], &[]), Some(vec![0]));
    assert_eq!(run_ops(&[Opcode::Depth], &[5, 5, 5]), Some(vec![5, 5, 5, 3]));
}

#[test]
fn arithmetic_takes_numbers_of_four_bytes() {
    let max: i64 = 0x7fff_ffff;
    assert_eq!(run_ops(&[Opcode::Add], &[3, 4]), Some(vec![7]));
    assert_eq!(run_ops(&[Opcode::Sub], &[3, 4]), Some(vec![-1]));
    assert_eq!(run_ops(&[Opcode::Sub1], &[0]), Some(vec![-1]));
    assert_eq!(run_ops(&[Opcode::Abs], &[-9]), Some(vec![9]));
    assert_eq!(run_ops(&[Opcode::Abs], &[9]), Some(vec![9]));
    // The sum of two numbers may be wider than a number ...
    assert_eq!(run_ops(&[Opcode::Add], &[max, max]), Some(vec![2 * max]));
    // ... and is then no operand any more.
    assert_eq!(run_ops(&[Opcode::Add, Opcode::Push(0), Opcode::Add], &[max, 1]), None);
    assert_eq!(run_ops(&[Opcode::Add], &[max + 1, 0]), None);
    assert_eq!(run_ops(&[Opcode::Sub], &[0, -max - 1]), None);
    assert_eq!(run_ops(&[Opcode::Add], &[1]), None);
}

#[test]
fn comparisons_push_a_flag() {
    assert_eq!(run_ops(&[Opcode::LessThan], &[1, 2]), Some(vec![1]));
    assert_eq!(run_ops(&[Opcode::LessThan], &[2, 2]), Some(vec![0]));
    assert_eq!(run_ops(&[Opcode::GreaterThanOrEqual], &[2, 2]), Some(vec![1]));
    assert_eq!(run_ops(&[Opcode::GreaterThanOrEqual], &[1, 2]), Some(vec![0]));
    assert_eq!(run_ops(&[Opcode::LessThan], &[1 << 31, 2]), None);
}

#[test]
fn verify_aborts_on_zero() {
    assert_eq!(run_ops(&[Opcode::Verify], &[8, 1]), Some(vec![8]));
    assert_eq!(run_ops(&[Opcode::Verify], &[8, -3]), Some(vec![8]));
    assert_eq!(run_ops(&[Opcode::Verify], &[8, 0]), None);
    assert_eq!(run_ops(&[Opcode::Verify], &[]), None);
}

#[test]
fn equalverify_aborts_on_a_difference() {
    assert_eq!(run_ops(&[Opcode::EqualVerify], &[8, 4, 4]), Some(vec![8]));
    assert_eq!(run_ops(&[Opcode::EqualVerify], &[8, 4, 5]), None);
    assert_eq!(run_ops(&[Opcode::EqualVerify], &[4]), None);
}

#[test]
fn shift_byte_multiplies_by_256() {
    assert_eq!(run_ops(&[Opcode::ShiftByte], &[3]), Some(vec![768]));
    assert_eq!(run_ops(&[Opcode::ShiftByte], &[-3]), Some(vec![-768]));
    assert_eq!(run_ops(&[Opcode::ShiftByte], &[(1 << 55) - 1]), Some(vec![((1i64 << 55) - 1) * 256]));
    assert_eq!(run_ops(&[Opcode::ShiftByte], &[1 << 55]), None);
    assert_eq!(run_ops(&[Opcode::ShiftByte], &[]), None);
}

#[test]
fn an_abort_is_final() {
    assert_eq!(run_ops(&[Opcode::Drop, Opcode::Push(1)], &[]), None);
}

#[test]
fn execute_opcode_reports_the_abort() {
    let mut stack: Vec<i64> = vec![1, 2];
    assert!(execute_opcode(Opcode::Add, &mut stack));
    assert_eq!(stack, vec![3]);
    assert!(!execute_opcode(Opcode::Add, &mut stack));
}

#[test]
fn push_script_appends() {
    let mut script = script_of(&[Opcode::Dup]);
    script.push_script(&script_of(&[Opcode::Add, Opcode::Drop]));
    assert_eq!(script.ops, vec![Opcode::Dup, Opcode::Add, Opcode::Drop]);
    assert_eq!(script.len(), 3);
}

#[test]
fn limb_format_check_emits_its_eight_instructions() {
    assert_eq!(
        check_limb_format().ops,
        vec![
            Opcode::Dup,
            Opcode::Push(0),
            Opcode::GreaterThanOrEqual,
            Opcode::Verify,
            Opcode::Dup,
            Opcode::Push(256),
            Opcode::LessThan,
            Opcode::Verify,
        ]
    );
}

#[test]
fn limb_format_check_accepts_bytes_only() {
    let check = check_limb_format();
    for v in [0i64, 1, 128, 255] {
        assert_eq!(execute(&check, vec![9, v]), Some(vec![9, v]));
    }
    for v in [-1i64, 256, 257, 1 << 20, -(1 << 20), 1 << 40] {
        assert_eq!(execute(&check, vec![9, v]), None);
    }
    assert_eq!(execute(&check, vec![]), None);
}

#[test]
fn limb_format_check_on_a_sequence() {
    // Checking every limb of a sequence accepts iff all of them are bytes.
    let check = check_limb_format();
    let accepts = |limbs: &[i64]| {
        limbs.iter().all(|l| execute(&check, vec![*l]).is_some())
    };
    assert!(accepts(&[4, 3, 2, 1]));
    assert!(accepts(&[0, 255, 0, 255]));
    assert!(!accepts(&[4, 3, 256, 1]));
    assert!(!accepts(&[-1, 3, 2, 1]));
}

#[test]
fn range_check_is_half_open() {
    let check = range_check(-5, 5);
    assert_eq!(execute(&check, vec![-5]), Some(vec![-5]));
    assert_eq!(execute(&check, vec![4]), Some(vec![4]));
    assert_eq!(execute(&check, vec![5]), None);
    assert_eq!(execute(&check, vec![-6]), None);
}

#[test]
fn multiplication_by_256_on_bytes() {
    let mul = OP_256MUL();
    for v in [0i64, 1, 2, 127, 128, 255] {
        assert_eq!(execute(&mul, vec![7, v]), Some(vec![7, 256 * v]));
    }
}

#[test]
fn multiplication_by_256_on_three_bytes() {
    let mul = OP_256MUL();
    assert_eq!(execute(&mul, vec![0xff_ffff]), Some(vec![0xff_ffff * 256]));
    assert_eq!(execute(&mul, vec![-0xff_ffff]), Some(vec![-0xff_ffff * 256]));
}

#[test]
fn both_forms_of_the_multiplication_by_256_agree() {
    let doubling = {
        let mut ops = Vec::new();
        for _ in 0..8 {
            ops.push(Opcode::Dup);
            ops.push(Opcode::Add);
        }
        script_of(&ops)
    };
    let native = script_of(&[Opcode::ShiftByte]);
    for v in [0i64, 1, 77, 255, 256, 65535, 0xff_ffff, -1, -255, -0xff_ffff] {
        assert_eq!(execute(&doubling, vec![v]), execute(&native, vec![v]));
        assert_eq!(execute(&doubling, vec![v]), Some(vec![256 * v]));
    }
    let emitted = OP_256MUL();
    if NATIVE_SHIFT {
        assert_eq!(emitted.ops, native.ops);
    } else {
        assert_eq!(emitted.ops, doubling.ops);
    }
}

#[test]
fn hint_retrieval_emits_its_three_instructions() {
    assert_eq!(OP_HINT().ops, vec![Opcode::Depth, Opcode::Sub1, Opcode::Roll]);
}

#[test]
fn hint_retrieval_moves_the_bottom_cell_to_the_top() {
    let hint = OP_HINT();
    assert_eq!(execute(&hint, vec![1, 2, 3]), Some(vec![2, 3, 1]));
    assert_eq!(execute(&hint, vec![1]), Some(vec![1]));
    assert_eq!(execute(&hint, vec![]), None);
}

#[test]
fn hints_come_in_the_order_in_which_they_were_placed() {
    let hint = OP_HINT();
    let mut script = Script::new();
    script.push_script(&hint);
    script.push_script(&hint);
    script.push_script(&hint);
    assert_eq!(execute(&script, vec![10, 20, 30, 99]), Some(vec![99, 10, 20, 30]));
}
