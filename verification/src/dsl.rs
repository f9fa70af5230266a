//! The program under construction: its memory slots, its hint list and the
//! operations registered with it.
//!
//! A slot, once written, is never changed. The hint list grows in the order
//! in which the calls that produce hints are made, and the generated code of
//! those calls retrieves the hints in the same order.

use vstd::prelude::*;
use crate::cm31::{
    cm31_limbs_equalverify, cm31_limbs_equalverify_code, cm31_limbs_equalverify_gadget,
    cm31_limbs_equalverify_outcome, cm31_limbs_mul, cm31_limbs_mul_gadget, cm31_limbs_mul_outcome,
    cm31_to_limbs, cm31_to_limbs_code, cm31_to_limbs_gadget, cm31_to_limbs_outcome,
};
use crate::error::Error;
use crate::limbs::ints;
use crate::machine::{Opcode, Script};
use crate::multiply::mult_code;
use crate::table::{MAX_TABLE_OFFSET, TABLE_SIZE};

verus! {

/// The value of a slot: one number or an ordered sequence of numbers.
#[derive(Debug, PartialEq, Eq)]
pub enum Element {
    Num(i32),
    ManyNum(Vec<i32>),
}

/// The value of a slot as mathematics sees it.
pub enum ElementValue {
    Num(int),
    ManyNum(Seq<int>),
}

impl View for Element {
    type V = ElementValue;

    open spec fn view(&self) -> ElementValue {
        match self {
            Element::Num(v) => ElementValue::Num(*v as int),
            Element::ManyNum(v) => ElementValue::ManyNum(ints(v@)),
        }
    }
}

impl ElementValue {
    /// The cells that the value occupies on the stack, bottom first.
    pub open spec fn cells(self) -> Seq<int> {
        match self {
            ElementValue::Num(v) => Seq::<int>::empty().push(v),
            ElementValue::ManyNum(v) => v,
        }
    }
}

/// A typed value: what a slot holds, and what a hint is.
#[derive(Debug, PartialEq, Eq)]
pub struct MemoryEntry {
    pub data_type: String,
    pub data: Element,
}

/// A typed value as mathematics sees it.
pub struct EntryValue {
    pub data_type: Seq<char>,
    pub data: ElementValue,
}

impl View for MemoryEntry {
    type V = EntryValue;

    open spec fn view(&self) -> EntryValue {
        EntryValue { data_type: self.data_type@, data: self.data@ }
    }
}

/// The views of a sequence of entries.
pub open spec fn entry_values(entries: Seq<MemoryEntry>) -> Seq<EntryValue> {
    Seq::new(entries.len(), |i: int| entries[i]@)
}

/// The cells that a sequence of entries occupies on the stack, bottom first.
pub open spec fn entry_cells(entries: Seq<EntryValue>) -> Seq<int>
    decreases entries.len(),
{
    if entries.len() == 0 {
        Seq::<int>::empty()
    } else {
        entry_cells(entries.drop_last()) + entries.last().data.cells()
    }
}

/// Copies a sequence of numbers.
pub fn copy_numbers(v: &[i32]) -> (r: Vec<i32>)
    ensures
        r@ == v@,
{
    let mut r: Vec<i32> = Vec::new();
    let mut i: usize = 0;
    while i < v.len()
        invariant
            i <= v.len(),
            r@ == v@.take(i as int),
        decreases v.len() - i,
    {
        r.push(v[i]);
        i += 1;
        assert(r@ =~= v@.take(i as int));
    }
    assert(v@.take(v.len() as int) =~= v@);
    r
}

/// Whether two sequences of numbers agree entry by entry.
pub fn same_numbers(a: &Vec<i32>, b: &Vec<i32>) -> (r: bool)
    ensures
        r == (a@ == b@),
{
    if a.len() != b.len() {
        return false;
    }
    let mut i: usize = 0;
    while i < a.len()
        invariant
            i <= a.len(),
            a.len() == b.len(),
            a@.take(i as int) == b@.take(i as int),
        decreases a.len() - i,
    {
        if a[i] != b[i] {
            return false;
        }
        i += 1;
        assert(a@.take(i as int) =~= a@.take(i - 1).push(a[i - 1]));
        assert(b@.take(i as int) =~= b@.take(i - 1).push(b[i - 1]));
    }
    assert(a@.take(a.len() as int) =~= a@);
    assert(b@.take(b.len() as int) =~= b@);
    true
}

impl Element {
    /// A copy of the value.
    pub fn duplicate(&self) -> (r: Element)
        ensures
            r@ == self@,
    {
        match self {
            Element::Num(v) => Element::Num(*v),
            Element::ManyNum(v) => Element::ManyNum(copy_numbers(v.as_slice())),
        }
    }
}

impl MemoryEntry {
    /// A value of the kind `data_type`.
    pub fn new(data_type: &str, data: Element) -> (r: MemoryEntry)
        ensures
            r@ == (EntryValue { data_type: data_type@, data: data@ }),
    {
        MemoryEntry { data_type: data_type.to_owned(), data }
    }

    /// A copy of the entry.
    pub fn duplicate(&self) -> (r: MemoryEntry)
        ensures
            r@ == self@,
    {
        MemoryEntry { data_type: self.data_type.clone(), data: self.data.duplicate() }
    }
}

/// What a witness routine produces: the values for fresh slots and the hints
/// to append to the hint list, each in order.
#[derive(Debug, PartialEq, Eq)]
pub struct FunctionOutput {
    pub new_elements: Vec<MemoryEntry>,
    pub new_hints: Vec<MemoryEntry>,
}

/// The output of a witness routine as mathematics sees it.
pub struct OutputValue {
    pub new_elements: Seq<EntryValue>,
    pub new_hints: Seq<EntryValue>,
}

impl View for FunctionOutput {
    type V = OutputValue;

    open spec fn view(&self) -> OutputValue {
        OutputValue {
            new_elements: entry_values(self.new_elements@),
            new_hints: entry_values(self.new_hints@),
        }
    }
}

/// The outcome of a witness routine as mathematics sees it.
pub open spec fn outcome(res: Result<FunctionOutput, Error>) -> Result<OutputValue, Error> {
    match res {
        Ok(out) => Ok(out@),
        Err(e) => Err(e),
    }
}

/// The operations that can be registered. Each stands for one witness
/// routine and the code generator that belongs to it.
#[derive(Clone, Copy, Debug, PartialEq, Eq, Structural)]
pub enum Operation {
    /// Limb extraction of a degree-2 element.
    Cm31ToLimbs,
    /// Equality of two degree-2 elements in limb form.
    Cm31LimbsEqualverify,
    /// Hinted multiplication of two degree-2 elements in limb form.
    Cm31LimbsMul,
}

/// What is registered under a name: the operation and the kinds of the values
/// it takes and produces, in order.
#[derive(Debug, PartialEq, Eq)]
pub struct FunctionMetadata {
    pub operation: Operation,
    pub input: Vec<&'static str>,
    pub output: Vec<&'static str>,
}

/// The names of kinds as sequences of characters.
pub open spec fn kind_names(kinds: Seq<&'static str>) -> Seq<Seq<char>> {
    Seq::new(kinds.len(), |i: int| kinds[i]@)
}

/// A registration as mathematics sees it.
pub struct MetadataValue {
    pub operation: Operation,
    pub input: Seq<Seq<char>>,
    pub output: Seq<Seq<char>>,
}

impl View for FunctionMetadata {
    type V = MetadataValue;

    open spec fn view(&self) -> MetadataValue {
        MetadataValue {
            operation: self.operation,
            input: kind_names(self.input@),
            output: kind_names(self.output@),
        }
    }
}

/// One entry of the registry.
#[derive(Debug, PartialEq, Eq)]
pub struct Registration {
    pub name: String,
    pub metadata: FunctionMetadata,
}

/// One entry of the registry as mathematics sees it.
pub struct RegistrationValue {
    pub name: Seq<char>,
    pub metadata: MetadataValue,
}

impl View for Registration {
    type V = RegistrationValue;

    open spec fn view(&self) -> RegistrationValue {
        RegistrationValue { name: self.name@, metadata: self.metadata@ }
    }
}

/// The views of a sequence of registrations.
pub open spec fn registration_values(entries: Seq<Registration>) -> Seq<RegistrationValue> {
    Seq::new(entries.len(), |i: int| entries[i]@)
}

/// The index of the registration that a name resolves to: the last one made
/// under that name.
pub open spec fn resolve(functions: Seq<RegistrationValue>, name: Seq<char>) -> Option<int>
    decreases functions.len(),
{
    if functions.len() == 0 {
        None
    } else if functions.last().name == name {
        Some(functions.len() - 1)
    } else {
        resolve(functions.drop_last(), name)
    }
}

/// A name resolves to a registration made under it, and to none after it.
pub proof fn lemma_resolve(functions: Seq<RegistrationValue>, name: Seq<char>)
    ensures
        match resolve(functions, name) {
            Some(i) => 0 <= i < functions.len() && functions[i].name == name && forall|j: int|
                i < j < functions.len() ==> (#[trigger] functions[j]).name != name,
            None => forall|j: int|
                0 <= j < functions.len() ==> (#[trigger] functions[j]).name != name,
        },
    decreases functions.len(),
{
    if functions.len() > 0 && functions.last().name != name {
        let rest = functions.drop_last();
        lemma_resolve(rest, name);
        match resolve(rest, name) {
            Some(i) => {
                assert(functions[i] == rest[i]);
                assert forall|j: int| i < j < functions.len() implies (#[trigger] functions[j]).name
                    != name by {
                    if j < rest.len() {
                        assert(functions[j] == rest[j]);
                    }
                }
            },
            None => {
                assert forall|j: int| 0 <= j < functions.len() implies (#[trigger] functions[j]).name
                    != name by {
                    if j < rest.len() {
                        assert(functions[j] == rest[j]);
                    }
                }
            },
        }
    }
}

/// The program under construction.
pub struct DSL {
    /// The slots, in the order in which they were written.
    pub memory: Vec<MemoryEntry>,
    /// The slots that were supplied as inputs, in order.
    pub inputs: Vec<usize>,
    /// The hints, in the order in which they were produced.
    pub hints: Vec<MemoryEntry>,
    /// The registry of operations.
    pub functions: Vec<Registration>,
    /// The calls that were made, in order: each the index of the registration
    /// that was called.
    pub calls: Vec<usize>,
}

/// The program under construction as mathematics sees it.
pub struct DslValue {
    pub memory: Seq<EntryValue>,
    pub inputs: Seq<usize>,
    pub hints: Seq<EntryValue>,
    pub functions: Seq<RegistrationValue>,
    pub calls: Seq<usize>,
}

impl View for DSL {
    type V = DslValue;

    open spec fn view(&self) -> DslValue {
        DslValue {
            memory: entry_values(self.memory@),
            inputs: self.inputs@,
            hints: entry_values(self.hints@),
            functions: registration_values(self.functions@),
            calls: self.calls@,
        }
    }
}

/// The number that slot `idx` holds, or why there is none.
pub open spec fn slot_num(memory: Seq<EntryValue>, idx: int) -> Result<int, Error> {
    if !(0 <= idx < memory.len()) {
        Err(Error::UnknownSlot)
    } else {
        match memory[idx].data {
            ElementValue::Num(v) => Ok(v),
            ElementValue::ManyNum(_) => Err(Error::WrongShape),
        }
    }
}

/// The numbers that slot `idx` holds, or why there are none.
pub open spec fn slot_many_num(memory: Seq<EntryValue>, idx: int) -> Result<Seq<int>, Error> {
    if !(0 <= idx < memory.len()) {
        Err(Error::UnknownSlot)
    } else {
        match memory[idx].data {
            ElementValue::Num(_) => Err(Error::WrongShape),
            ElementValue::ManyNum(v) => Ok(v),
        }
    }
}

impl DSL {
    /// A program with no slots, no hints and no operations.
    pub fn new() -> (r: DSL)
        ensures
            r@.memory.len() == 0,
            r@.inputs.len() == 0,
            r@.hints.len() == 0,
            r@.functions.len() == 0,
            r@.calls.len() == 0,
    {
        DSL {
            memory: Vec::new(),
            inputs: Vec::new(),
            hints: Vec::new(),
            functions: Vec::new(),
            calls: Vec::new(),
        }
    }

    /// Writes a constant to a fresh slot and returns the slot's index.
    pub fn alloc_constant(&mut self, data_type: &str, data: Element) -> (idx: usize)
        ensures
            idx == old(self)@.memory.len(),
            final(self)@.memory == old(self)@.memory.push(
                EntryValue { data_type: data_type@, data: data@ },
            ),
            final(self)@.inputs == old(self)@.inputs,
            final(self)@.hints == old(self)@.hints,
            final(self)@.functions == old(self)@.functions,
            final(self)@.calls == old(self)@.calls,
    {
        let idx: usize = self.memory.len();
        self.memory.push(MemoryEntry::new(data_type, data));
        assert(self@.memory =~= old(self)@.memory.push(
            EntryValue { data_type: data_type@, data: data@ },
        ));
        idx
    }

    /// Writes an input of the program to a fresh slot, records the slot as an
    /// input and returns its index.
    pub fn alloc_input(&mut self, data_type: &str, data: Element) -> (idx: usize)
        ensures
            idx == old(self)@.memory.len(),
            final(self)@.memory == old(self)@.memory.push(
                EntryValue { data_type: data_type@, data: data@ },
            ),
            final(self)@.inputs == old(self)@.inputs.push(idx),
            final(self)@.hints == old(self)@.hints,
            final(self)@.functions == old(self)@.functions,
            final(self)@.calls == old(self)@.calls,
    {
        let idx: usize = self.memory.len();
        self.memory.push(MemoryEntry::new(data_type, data));
        self.inputs.push(idx);
        assert(self@.memory =~= old(self)@.memory.push(
            EntryValue { data_type: data_type@, data: data@ },
        ));
        idx
    }

    /// The number in slot `idx`.
    pub fn get_num(&self, idx: usize) -> (r: Result<i32, Error>)
        ensures
            match r {
                Ok(v) => slot_num(self@.memory, idx as int) == Ok::<int, Error>(v as int),
                Err(e) => slot_num(self@.memory, idx as int) == Err::<int, Error>(e),
            },
    {
        if idx >= self.memory.len() {
            return Err(Error::UnknownSlot);
        }
        assert(self@.memory[idx as int] == self.memory[idx as int]@);
        match &self.memory[idx].data {
            Element::Num(v) => Ok(*v),
            Element::ManyNum(_) => Err(Error::WrongShape),
        }
    }

    /// The numbers in slot `idx`.
    pub fn get_many_num(&self, idx: usize) -> (r: Result<&Vec<i32>, Error>)
        ensures
            match r {
                Ok(v) => slot_many_num(self@.memory, idx as int) == Ok::<Seq<int>, Error>(ints(v@)),
                Err(e) => slot_many_num(self@.memory, idx as int) == Err::<Seq<int>, Error>(e),
            },
    {
        if idx >= self.memory.len() {
            return Err(Error::UnknownSlot);
        }
        assert(self@.memory[idx as int] == self.memory[idx as int]@);
        match &self.memory[idx].data {
            Element::Num(_) => Err(Error::WrongShape),
            Element::ManyNum(v) => Ok(v),
        }
    }

    /// Registers an operation under a name. A later registration under the
    /// same name takes the earlier one's place.
    pub fn add_function(&mut self, name: &str, metadata: FunctionMetadata)
        ensures
            final(self)@.functions == old(self)@.functions.push(
                RegistrationValue { name: name@, metadata: metadata@ },
            ),
            final(self)@.memory == old(self)@.memory,
            final(self)@.inputs == old(self)@.inputs,
            final(self)@.hints == old(self)@.hints,
            final(self)@.calls == old(self)@.calls,
            resolve(final(self)@.functions, name@) == Some(old(self)@.functions.len() as int),
    {
        self.functions.push(Registration { name: name.to_owned(), metadata });
        assert(self@.functions =~= old(self)@.functions.push(
            RegistrationValue { name: name@, metadata: metadata@ },
        ));
    }

    /// The index of the registration that `name` resolves to.
    pub fn find_function(&self, name: &str) -> (r: Option<usize>)
        ensures
            match r {
                Some(i) => i < self@.functions.len() && resolve(self@.functions, name@) == Some(
                    i as int,
                ),
                None => resolve(self@.functions, name@) is None,
            },
    {
        let wanted: String = name.to_owned();
        let mut i: usize = self.functions.len();
        assert(self@.functions.take(i as int) =~= self@.functions);
        while i > 0
            invariant
                i <= self.functions.len(),
                wanted@ == name@,
                resolve(self@.functions, name@) == resolve(self@.functions.take(i as int), name@),
            decreases i,
        {
            let ghost prefix = self@.functions.take(i as int);
            i -= 1;
            assert(prefix.last() == self.functions[i as int]@);
            assert(prefix.drop_last() =~= self@.functions.take(i as int));
            if self.functions[i].name == wanted {
                return Some(i);
            }
        }
        None
    }
}

/// What the witness routine of `operation` returns on the given memory.
pub open spec fn operation_outcome(
    operation: Operation,
    memory: Seq<EntryValue>,
    inputs: Seq<usize>,
) -> Result<OutputValue, Error> {
    match operation {
        Operation::Cm31ToLimbs => cm31_to_limbs_outcome(memory, inputs),
        Operation::Cm31LimbsEqualverify => cm31_limbs_equalverify_outcome(memory, inputs),
        Operation::Cm31LimbsMul => cm31_limbs_mul_outcome(memory, inputs),
    }
}

/// The instructions that the code generator of `operation` emits for the
/// parameters `r`, or why it emits none.
pub open spec fn operation_code(operation: Operation, r: Seq<usize>) -> Result<Seq<Opcode>, Error> {
    match operation {
        Operation::Cm31ToLimbs => Ok(cm31_to_limbs_code()),
        Operation::Cm31LimbsEqualverify => Ok(cm31_limbs_equalverify_code()),
        Operation::Cm31LimbsMul => if r.len() == 0 {
            Err(Error::MissingInput)
        } else if TABLE_SIZE <= r[0] <= MAX_TABLE_OFFSET - 32 + TABLE_SIZE {
            Ok(mult_code(r[0] - TABLE_SIZE))
        } else {
            Err(Error::BadParameter)
        },
    }
}

impl Operation {
    /// Runs the witness routine of the operation.
    pub fn trace_generator(&self, dsl: &mut DSL, inputs: &[usize]) -> (res: Result<
        FunctionOutput,
        Error,
    >)
        ensures
            *final(dsl) == *old(dsl),
            outcome(res) == operation_outcome(*self, old(dsl)@.memory, inputs@),
    {
        match self {
            Operation::Cm31ToLimbs => cm31_to_limbs(dsl, inputs),
            Operation::Cm31LimbsEqualverify => cm31_limbs_equalverify(dsl, inputs),
            Operation::Cm31LimbsMul => cm31_limbs_mul(dsl, inputs),
        }
    }

    /// Runs the code generator of the operation. What it emits depends on the
    /// parameters alone, never on a value in memory.
    pub fn script_generator(&self, r: &[usize]) -> (res: Result<Script, Error>)
        ensures
            match res {
                Ok(script) => operation_code(*self, r@) == Ok::<Seq<Opcode>, Error>(script@),
                Err(e) => operation_code(*self, r@) == Err::<Seq<Opcode>, Error>(e),
            },
    {
        match self {
            Operation::Cm31ToLimbs => cm31_to_limbs_gadget(r),
            Operation::Cm31LimbsEqualverify => cm31_limbs_equalverify_gadget(r),
            Operation::Cm31LimbsMul => cm31_limbs_mul_gadget(r),
        }
    }
}

/// Why the slots `inputs[from..]` do not fit the kinds `kinds[from..]`, if
/// they do not: the first slot that does not exist or holds another kind
/// decides.
pub open spec fn check_kinds(
    memory: Seq<EntryValue>,
    inputs: Seq<usize>,
    kinds: Seq<Seq<char>>,
    from: int,
) -> Option<Error>
    decreases inputs.len() - from,
{
    if from < 0 || from >= inputs.len() || from >= kinds.len() {
        None
    } else if inputs[from] >= memory.len() {
        Some(Error::UnknownSlot)
    } else if memory[inputs[from] as int].data_type != kinds[from] {
        Some(Error::WrongKind)
    } else {
        check_kinds(memory, inputs, kinds, from + 1)
    }
}

/// Why the values `entries[from..]` are not of the kinds `kinds[from..]`, if
/// they are not.
pub open spec fn kinds_differ(entries: Seq<EntryValue>, kinds: Seq<Seq<char>>, from: int) -> bool
    decreases entries.len() - from,
{
    if from < 0 || from >= entries.len() || from >= kinds.len() {
        false
    } else if entries[from].data_type != kinds[from] {
        true
    } else {
        kinds_differ(entries, kinds, from + 1)
    }
}

/// What a call of the operation registered under `name` produces on the
/// slots `inputs`, or why the call fails.
pub open spec fn call_outcome(dsl: DslValue, name: Seq<char>, inputs: Seq<usize>) -> Result<
    OutputValue,
    Error,
> {
    match resolve(dsl.functions, name) {
        None => Err(Error::UnknownFunction),
        Some(f) => {
            let metadata = dsl.functions[f].metadata;
            if inputs.len() != metadata.input.len() {
                Err(Error::WrongArity)
            } else {
                match check_kinds(dsl.memory, inputs, metadata.input, 0) {
                    Some(e) => Err(e),
                    None => match operation_outcome(metadata.operation, dsl.memory, inputs) {
                        Err(e) => Err(e),
                        Ok(out) => if out.new_elements.len() != metadata.output.len()
                            || kinds_differ(out.new_elements, metadata.output, 0) {
                            Err(Error::WrongKind)
                        } else {
                            Ok(out)
                        },
                    },
                }
            }
        },
    }
}

impl DSL {
    /// Whether the slots `inputs` exist and hold the kinds `kinds`, one for
    /// one.
    fn inputs_fit(&self, inputs: &[usize], kinds: &Vec<&'static str>) -> (r: Option<Error>)
        requires
            inputs@.len() == kinds@.len(),
        ensures
            r == check_kinds(self@.memory, inputs@, kind_names(kinds@), 0),
    {
        let mut i: usize = 0;
        while i < inputs.len()
            invariant
                i <= inputs@.len(),
                inputs@.len() == kinds@.len(),
                check_kinds(self@.memory, inputs@, kind_names(kinds@), 0) == check_kinds(
                    self@.memory,
                    inputs@,
                    kind_names(kinds@),
                    i as int,
                ),
            decreases inputs@.len() - i,
        {
            if inputs[i] >= self.memory.len() {
                return Some(Error::UnknownSlot);
            }
            assert(self@.memory[inputs[i as int] as int] == self.memory[inputs[i as int] as int]@);
            let kind: String = kinds[i].to_owned();
            if !(self.memory[inputs[i]].data_type == kind) {
                return Some(Error::WrongKind);
            }
            i += 1;
        }
        None
    }

    /// Calls the operation registered under `name` on the slots `inputs`: the
    /// witness routine runs on the current memory, its new values are written
    /// to fresh slots and its hints are appended to the hint list. Returns the
    /// indices of the fresh slots. On a failure the program is left as it
    /// was.
    pub fn execute(&mut self, name: &str, inputs: &[usize]) -> (res: Result<Vec<usize>, Error>)
        ensures
            final(self)@.functions == old(self)@.functions,
            final(self)@.inputs == old(self)@.inputs,
            match call_outcome(old(self)@, name@, inputs@) {
                Err(e) => res == Err::<Vec<usize>, Error>(e) && final(self)@ == old(self)@,
                Ok(out) => {
                    &&& res is Ok
                    &&& final(self)@.memory == old(self)@.memory + out.new_elements
                    &&& final(self)@.hints == old(self)@.hints + out.new_hints
                    &&& resolve(old(self)@.functions, name@) is Some
                    &&& final(self)@.calls == old(self)@.calls.push(
                        resolve(old(self)@.functions, name@).unwrap() as usize,
                    )
                    &&& res.unwrap()@.len() == out.new_elements.len()
                    &&& forall|i: int|
                        0 <= i < out.new_elements.len() ==> (#[trigger] res.unwrap()@[i])
                            == old(self)@.memory.len() + i
                },
            },
    {
        let f: usize = match self.find_function(name) {
            None => {
                return Err(Error::UnknownFunction);
            },
            Some(f) => f,
        };
        assert(self@.functions[f as int] == self.functions[f as int]@);
        if inputs.len() != self.functions[f].metadata.input.len() {
            return Err(Error::WrongArity);
        }
        match self.inputs_fit(inputs, &self.functions[f].metadata.input) {
            Some(e) => {
                return Err(e);
            },
            None => {},
        }
        let operation: Operation = self.functions[f].metadata.operation;
        let mut out: FunctionOutput = match operation.trace_generator(self, inputs) {
            Err(e) => {
                return Err(e);
            },
            Ok(out) => out,
        };
        let ghost produced = out@;
        if !outputs_fit(&out.new_elements, &self.functions[f].metadata.output) {
            return Err(Error::WrongKind);
        }
        let first: usize = self.memory.len();
        let count: usize = out.new_elements.len();
        let ghost old_memory = self.memory@;
        let ghost old_hints = self.hints@;
        let ghost new_elements = out.new_elements@;
        let ghost new_hints = out.new_hints@;
        self.memory.append(&mut out.new_elements);
        self.hints.append(&mut out.new_hints);
        self.calls.push(f);
        assert(self@.memory =~= old(self)@.memory + produced.new_elements) by {
            assert(self.memory@ == old_memory + new_elements);
        }
        assert(self@.hints =~= old(self)@.hints + produced.new_hints) by {
            assert(self.hints@ == old_hints + new_hints);
        }
        let mut indices: Vec<usize> = Vec::new();
        let mut i: usize = 0;
        while i < count
            invariant
                i <= count,
                first + count == self.memory.len(),
                indices@.len() == i,
                forall|j: int| 0 <= j < i ==> (#[trigger] indices@[j]) == first + j,
            decreases count - i,
        {
            indices.push(first + i);
            i += 1;
        }
        Ok(indices)
    }

    /// Emits the code of the operation registered under `name` for the
    /// parameters `r`.
    pub fn script(&self, name: &str, r: &[usize]) -> (res: Result<Script, Error>)
        ensures
            match resolve(self@.functions, name@) {
                None => res == Err::<Script, Error>(Error::UnknownFunction),
                Some(f) => match res {
                    Ok(script) => operation_code(self@.functions[f].metadata.operation, r@) == Ok::<
                        Seq<Opcode>,
                        Error,
                    >(script@),
                    Err(e) => operation_code(self@.functions[f].metadata.operation, r@) == Err::<
                        Seq<Opcode>,
                        Error,
                    >(e),
                },
            },
    {
        match self.find_function(name) {
            None => Err(Error::UnknownFunction),
            Some(f) => {
                assert(self@.functions[f as int] == self.functions[f as int]@);
                self.functions[f].metadata.operation.script_generator(r)
            },
        }
    }
}

/// Whether the values `entries` are of the kinds `kinds`, one for one.
fn outputs_fit(entries: &Vec<MemoryEntry>, kinds: &Vec<&'static str>) -> (r: bool)
    ensures
        r == (entries@.len() == kinds@.len() && !kinds_differ(
            entry_values(entries@),
            kind_names(kinds@),
            0,
        )),
{
    if entries.len() != kinds.len() {
        return false;
    }
    let mut i: usize = 0;
    while i < entries.len()
        invariant
            i <= entries@.len(),
            entries@.len() == kinds@.len(),
            kinds_differ(entry_values(entries@), kind_names(kinds@), 0) == kinds_differ(
                entry_values(entries@),
                kind_names(kinds@),
                i as int,
            ),
        decreases entries@.len() - i,
    {
        let kind: String = kinds[i].to_owned();
        if !(entries[i].data_type == kind) {
            return false;
        }
        i += 1;
    }
    true
}

/// The parameter lists as sequences.
pub open spec fn parameter_lists(parameters: Seq<Vec<usize>>) -> Seq<Seq<usize>> {
    Seq::new(parameters.len(), |i: int| parameters[i]@)
}

/// The code of the first `upto` calls, each generated from its own parameter
/// list, one after the other; or the first failure of a generator.
pub open spec fn program_code(
    functions: Seq<RegistrationValue>,
    calls: Seq<usize>,
    parameters: Seq<Seq<usize>>,
    upto: int,
) -> Result<Seq<Opcode>, Error>
    decreases upto,
{
    if upto <= 0 {
        Ok(Seq::<Opcode>::empty())
    } else {
        match program_code(functions, calls, parameters, upto - 1) {
            Err(e) => Err(e),
            Ok(code) => if calls[upto - 1] >= functions.len() {
                Err(Error::UnknownFunction)
            } else {
                match operation_code(
                    functions[calls[upto - 1] as int].metadata.operation,
                    parameters[upto - 1],
                ) {
                    Err(e) => Err(e),
                    Ok(next) => Ok(code + next),
                }
            },
        }
    }
}

impl DSL {
    /// Emits the verification program: the code of every call that was made,
    /// in the order of the calls, each generated from its own parameter list.
    /// The hints that the program retrieves are `self.hints`, in order.
    pub fn program(&self, parameters: &Vec<Vec<usize>>) -> (res: Result<Script, Error>)
        ensures
            parameters@.len() != self@.calls.len() ==> res == Err::<Script, Error>(
                Error::WrongArity,
            ),
            parameters@.len() == self@.calls.len() ==> match res {
                Ok(script) => program_code(
                    self@.functions,
                    self@.calls,
                    parameter_lists(parameters@),
                    self@.calls.len() as int,
                ) == Ok::<Seq<Opcode>, Error>(script@),
                Err(e) => program_code(
                    self@.functions,
                    self@.calls,
                    parameter_lists(parameters@),
                    self@.calls.len() as int,
                ) == Err::<Seq<Opcode>, Error>(e),
            },
    {
        if parameters.len() != self.calls.len() {
            return Err(Error::WrongArity);
        }
        let mut script = Script::new();
        let mut i: usize = 0;
        while i < self.calls.len()
            invariant
                i <= self@.calls.len(),
                parameters@.len() == self@.calls.len(),
                program_code(self@.functions, self@.calls, parameter_lists(parameters@), i as int)
                    == Ok::<Seq<Opcode>, Error>(script@),
            decreases self@.calls.len() - i,
        {
            let f: usize = self.calls[i];
            proof {
                lemma_program_code_fails(
                    self@.functions,
                    self@.calls,
                    parameter_lists(parameters@),
                    i + 1,
                    self@.calls.len() as int,
                );
            }
            if f >= self.functions.len() {
                return Err(Error::UnknownFunction);
            }
            assert(self@.functions[f as int] == self.functions[f as int]@);
            match self.functions[f].metadata.operation.script_generator(parameters[i].as_slice()) {
                Err(e) => {
                    return Err(e);
                },
                Ok(next) => {
                    script.push_script(&next);
                },
            }
            i += 1;
        }
        Ok(script)
    }
}

/// Once the code of a prefix of the calls has failed, the program has failed
/// in the same way.
pub proof fn lemma_program_code_fails(
    functions: Seq<RegistrationValue>,
    calls: Seq<usize>,
    parameters: Seq<Seq<usize>>,
    upto: int,
    all: int,
)
    requires
        0 <= upto <= all,
    ensures
        program_code(functions, calls, parameters, upto) is Err ==> program_code(
            functions,
            calls,
            parameters,
            all,
        ) == program_code(functions, calls, parameters, upto),
    decreases all - upto,
{
    if upto < all {
        lemma_program_code_fails(functions, calls, parameters, upto, all - 1);
    }
}

} // verus!
