//! The failures that building a program can report.

use vstd::prelude::*;

verus! {

/// Why a witness routine, a code generator or the program builder gave up.
#[derive(Clone, Copy, Debug, PartialEq, Eq, Structural)]
pub enum Error {
    /// A call names fewer inputs or parameters than the operation takes.
    MissingInput,
    /// A call names another number of inputs than the operation declares, or
    /// a program is given another number of parameter lists than it has calls.
    WrongArity,
    /// A slot index points past the last slot.
    UnknownSlot,
    /// A slot holds a value of another shape than the operation takes.
    WrongShape,
    /// A value is of another kind than the operation declares.
    WrongKind,
    /// Two values that were claimed equal differ.
    EqualverifyFails,
    /// A code generator was given a parameter it cannot work with.
    BadParameter,
    /// No operation is registered under the name.
    UnknownFunction,
}

impl Error {
    /// The description of each failure.
    pub open spec fn text(self) -> Seq<char> {
        match self {
            Error::MissingInput => "Input is missing"@,
            Error::WrongArity => "Number of inputs is wrong"@,
            Error::UnknownSlot => "Slot does not exist"@,
            Error::WrongShape => "Slot holds a value of the wrong shape"@,
            Error::WrongKind => "Value is of the wrong kind"@,
            Error::EqualverifyFails => "Equalverify fails"@,
            Error::BadParameter => "Parameter is out of range"@,
            Error::UnknownFunction => "Function is not registered"@,
        }
    }

    /// A short description of the failure.
    pub fn message(&self) -> (r: &'static str)
        ensures
            r@ == self.text(),
    {
        match self {
            Error::MissingInput => "Input is missing",
            Error::WrongArity => "Number of inputs is wrong",
            Error::UnknownSlot => "Slot does not exist",
            Error::WrongShape => "Slot holds a value of the wrong shape",
            Error::WrongKind => "Value is of the wrong kind",
            Error::EqualverifyFails => "Equalverify fails",
            Error::BadParameter => "Parameter is out of range",
            Error::UnknownFunction => "Function is not registered",
        }
    }
}

} // verus!
