use m31_limbs::cm31::load_functions;
use m31_limbs::dsl::{Element, FunctionMetadata, MemoryEntry, Operation, DSL};
use m31_limbs::error::Error;

fn limbs(first: i32) -> Element {
    Element::ManyNum(vec![first, 2, 3, 4, 5, 6, 7, 8])
}

#[test]
fn a_new_program_is_empty() {
    let dsl = DSL::new();
    assert!(dsl.memory.is_empty());
    assert!(dsl.inputs.is_empty());
    assert!(dsl.hints.is_empty());
    assert!(dsl.functions.is_empty());
}

#[test]
fn slots_are_written_in_order() {
    let mut dsl = DSL::new();
    assert_eq!(dsl.alloc_constant("m31", Element::Num(5)), 0);
    assert_eq!(dsl.alloc_input("cm31", Element::ManyNum(vec![1, 2])), 1);
    assert_eq!(dsl.alloc_constant("m31", Element::Num(6)), 2);
    assert_eq!(dsl.memory[1], MemoryEntry::new("cm31", Element::ManyNum(vec![1, 2])));
    assert_eq!(dsl.inputs, vec![1]);
    assert_eq!(dsl.get_num(0), Ok(5));
    assert_eq!(dsl.get_num(2), Ok(6));
    assert_eq!(dsl.get_many_num(1), Ok(&vec![1, 2]));
}

#[test]
fn reading_a_slot_can_fail() {
    let mut dsl = DSL::new();
    dsl.alloc_constant("m31", Element::Num(5));
    dsl.alloc_constant("cm31", Element::ManyNum(vec![1, 2]));
    assert_eq!(dsl.get_num(2), Err(Error::UnknownSlot));
    assert_eq!(dsl.get_many_num(2), Err(Error::UnknownSlot));
    assert_eq!(dsl.get_num(1), Err(Error::WrongShape));
    assert_eq!(dsl.get_many_num(0), Err(Error::WrongShape));
}

#[test]
fn load_functions_registers_three_operations() {
    let mut dsl = DSL::new();
    load_functions(&mut dsl);
    assert_eq!(dsl.functions.len(), 3);
    assert_eq!(dsl.functions[0].name, "cm31_to_limbs");
    assert_eq!(
        dsl.functions[0].metadata,
        FunctionMetadata {
            operation: Operation::Cm31ToLimbs,
            input: vec!["cm31"],
            output: vec!["cm31_limbs"],
        }
    );
    assert_eq!(dsl.functions[1].name, "cm31_limbs_equalverify");
    assert_eq!(
        dsl.functions[1].metadata,
        FunctionMetadata {
            operation: Operation::Cm31LimbsEqualverify,
            input: vec!["cm31_limbs", "cm31_limbs"],
            output: vec![],
        }
    );
    assert_eq!(dsl.functions[2].name, "cm31_limbs_mul");
    assert_eq!(
        dsl.functions[2].metadata,
        FunctionMetadata {
            operation: Operation::Cm31LimbsMul,
            input: vec!["table", "cm31_limbs", "cm31_limbs"],
            output: vec!["cm31"],
        }
    );
    assert_eq!(dsl.find_function("cm31_to_limbs"), Some(0));
    assert_eq!(dsl.find_function("cm31_limbs_equalverify"), Some(1));
    assert_eq!(dsl.find_function("cm31_limbs_mul"), Some(2));
    assert_eq!(dsl.find_function("cm31_limbs_add"), None);
}

#[test]
fn a_later_registration_takes_the_place_of_an_earlier_one() {
    let mut dsl = DSL::new();
    load_functions(&mut dsl);
    dsl.add_function(
        "cm31_to_limbs",
        FunctionMetadata {
            operation: Operation::Cm31LimbsEqualverify,
            input: vec!["cm31_limbs", "cm31_limbs"],
            output: vec![],
        },
    );
    assert_eq!(dsl.find_function("cm31_to_limbs"), Some(3));
}

#[test]
fn a_call_writes_fresh_slots_and_appends_hints() {
    let mut dsl = DSL::new();
    load_functions(&mut dsl);
    let a = dsl.alloc_constant("cm31", Element::ManyNum(vec![1, 2]));
    let b = dsl.alloc_constant("cm31", Element::ManyNum(vec![3, 4]));
    assert_eq!(dsl.execute("cm31_to_limbs", &[a]), Ok(vec![2]));
    assert_eq!(dsl.execute("cm31_to_limbs", &[b]), Ok(vec![3]));
    assert_eq!(dsl.memory.len(), 4);
    assert_eq!(dsl.get_many_num(2), Ok(&vec![1, 0, 0, 0, 2, 0, 0, 0]));
    assert_eq!(dsl.get_many_num(3), Ok(&vec![3, 0, 0, 0, 4, 0, 0, 0]));
    assert_eq!(dsl.memory[2].data_type, "cm31_limbs");
    // The hints are in the order of the calls.
    assert_eq!(
        dsl.hints,
        vec![
            MemoryEntry::new("cm31_limbs", Element::ManyNum(vec![1, 0, 0, 0, 2, 0, 0, 0])),
            MemoryEntry::new("cm31_limbs", Element::ManyNum(vec![3, 0, 0, 0, 4, 0, 0, 0])),
        ]
    );
    // Slots that were written stay as they are.
    assert_eq!(dsl.get_many_num(a), Ok(&vec![1, 2]));
}

#[test]
fn a_call_that_produces_nothing() {
    let mut dsl = DSL::new();
    load_functions(&mut dsl);
    let a = dsl.alloc_constant("cm31_limbs", limbs(1));
    let b = dsl.alloc_constant("cm31_limbs", limbs(1));
    assert_eq!(dsl.execute("cm31_limbs_equalverify", &[a, b]), Ok(vec![]));
    assert_eq!(dsl.memory.len(), 2);
    assert!(dsl.hints.is_empty());
}

#[test]
fn a_failed_call_leaves_the_program_as_it_was() {
    let mut dsl = DSL::new();
    load_functions(&mut dsl);
    let a = dsl.alloc_constant("cm31_limbs", limbs(1));
    let b = dsl.alloc_constant("cm31_limbs", limbs(9));
    let c = dsl.alloc_constant("cm31", Element::ManyNum(vec![1, 2]));
    assert_eq!(dsl.execute("cm31_limbs_equalverify", &[a, b]), Err(Error::EqualverifyFails));
    assert_eq!(dsl.execute("no_such_function", &[a, b]), Err(Error::UnknownFunction));
    assert_eq!(dsl.execute("cm31_limbs_equalverify", &[a]), Err(Error::WrongArity));
    assert_eq!(dsl.execute("cm31_limbs_equalverify", &[a, b, c]), Err(Error::WrongArity));
    assert_eq!(dsl.execute("cm31_limbs_equalverify", &[a, 50]), Err(Error::UnknownSlot));
    assert_eq!(dsl.execute("cm31_limbs_equalverify", &[a, c]), Err(Error::WrongKind));
    assert_eq!(dsl.execute("cm31_to_limbs", &[a]), Err(Error::WrongKind));
    assert_eq!(dsl.memory.len(), 3);
    assert!(dsl.hints.is_empty());
}

#[test]
fn a_call_checks_what_the_operation_produces() {
    let mut dsl = DSL::new();
    dsl.add_function(
        "mislabelled",
        FunctionMetadata { operation: Operation::Cm31ToLimbs, input: vec!["cm31"], output: vec!["cm31"] },
    );
    dsl.add_function(
        "miscounted",
        FunctionMetadata { operation: Operation::Cm31ToLimbs, input: vec!["cm31"], output: vec![] },
    );
    let a = dsl.alloc_constant("cm31", Element::ManyNum(vec![1, 2]));
    assert_eq!(dsl.execute("mislabelled", &[a]), Err(Error::WrongKind));
    assert_eq!(dsl.execute("miscounted", &[a]), Err(Error::WrongKind));
    assert_eq!(dsl.memory.len(), 1);
    assert!(dsl.hints.is_empty());
}

#[test]
fn code_is_looked_up_by_name() {
    let mut dsl = DSL::new();
    load_functions(&mut dsl);
    assert_eq!(
        dsl.script("cm31_to_limbs", &[]).unwrap().ops,
        Operation::Cm31ToLimbs.script_generator(&[]).unwrap().ops
    );
    assert_eq!(
        dsl.script("cm31_limbs_mul", &[600]).unwrap().ops,
        Operation::Cm31LimbsMul.script_generator(&[600]).unwrap().ops
    );
    assert_eq!(dsl.script("cm31_limbs_mul", &[]).err(), Some(Error::MissingInput));
    assert_eq!(dsl.script("cm31_limbs_mul", &[3]).err(), Some(Error::BadParameter));
    assert_eq!(dsl.script("nothing", &[]).err(), Some(Error::UnknownFunction));
}

#[test]
fn calls_are_recorded_in_order() {
    let mut dsl = DSL::new();
    load_functions(&mut dsl);
    assert!(dsl.calls.is_empty());
    let a = dsl.alloc_constant("cm31", Element::ManyNum(vec![1, 2]));
    let b = dsl.alloc_constant("cm31_limbs", Element::ManyNum(vec![1, 0, 0, 0, 2, 0, 0, 0]));
    let res = dsl.execute("cm31_to_limbs", &[a]).unwrap();
    dsl.execute("cm31_limbs_equalverify", &[res[0], b]).unwrap();
    assert_eq!(dsl.execute("cm31_limbs_equalverify", &[res[0], a]), Err(Error::WrongKind));
    assert_eq!(dsl.calls, vec![0, 1]);
}

#[test]
fn a_program_is_the_code_of_its_calls_in_order() {
    let mut dsl = DSL::new();
    load_functions(&mut dsl);
    let a = dsl.alloc_constant("cm31", Element::ManyNum(vec![1, 2]));
    let b = dsl.alloc_constant("cm31_limbs", Element::ManyNum(vec![1, 0, 0, 0, 2, 0, 0, 0]));
    let res = dsl.execute("cm31_to_limbs", &[a]).unwrap();
    dsl.execute("cm31_limbs_equalverify", &[res[0], b]).unwrap();
    let mut wanted = dsl.script("cm31_to_limbs", &[]).unwrap().ops;
    wanted.extend(dsl.script("cm31_limbs_equalverify", &[]).unwrap().ops);
    assert_eq!(dsl.program(&vec![vec![], vec![]]).unwrap().ops, wanted);
    assert_eq!(dsl.program(&vec![vec![]]).err(), Some(Error::WrongArity));
    assert_eq!(dsl.program(&vec![vec![], vec![], vec![]]).err(), Some(Error::WrongArity));
    assert!(DSL::new().program(&vec![]).unwrap().ops.is_empty());
}

#[test]
fn a_program_fails_where_a_generator_fails() {
    let mut dsl = DSL::new();
    load_functions(&mut dsl);
    let table = dsl.alloc_constant("table", Element::ManyNum(vec![0; 512]));
    let a = dsl.alloc_input("cm31_limbs", Element::ManyNum(vec![1, 0, 0, 0, 2, 0, 0, 0]));
    dsl.execute("cm31_limbs_mul", &[table, a, a]).unwrap();
    assert_eq!(dsl.program(&vec![vec![]]).err(), Some(Error::MissingInput));
    assert_eq!(dsl.program(&vec![vec![100]]).err(), Some(Error::BadParameter));
    assert!(dsl.program(&vec![vec![512]]).is_ok());
    dsl.calls.push(17);
    assert_eq!(dsl.program(&vec![vec![512], vec![]]).err(), Some(Error::UnknownFunction));
}

#[test]
fn code_does_not_depend_on_values() {
    let mut one = DSL::new();
    load_functions(&mut one);
    let mut other = DSL::new();
    load_functions(&mut other);
    other.alloc_constant("cm31", Element::ManyNum(vec![1, 2]));
    other.execute("cm31_to_limbs", &[0]).unwrap();
    assert_eq!(
        one.script("cm31_to_limbs", &[]).unwrap().ops,
        other.script("cm31_to_limbs", &[]).unwrap().ops
    );
}

#[test]
fn every_error_has_a_message() {
    let all = [
        Error::MissingInput,
        Error::WrongArity,
        Error::UnknownSlot,
        Error::WrongShape,
        Error::WrongKind,
        Error::EqualverifyFails,
        Error::BadParameter,
        Error::UnknownFunction,
    ];
    for e in all {
        assert!(!e.message().is_empty());
    }
}

#[test]
fn copies_are_equal() {
    let entry = MemoryEntry::new("cm31_limbs", limbs(1));
    assert_eq!(entry.duplicate(), entry);
    assert_eq!(Element::Num(3).duplicate(), Element::Num(3));
}
