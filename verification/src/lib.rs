//! Limb arithmetic over the Mersenne-31 field and its extensions, compiled for
//! a stack machine whose cells hold four-byte signed numbers.
//!
//! Every operation comes as a pair: a witness routine that computes the true
//! result together with the advice the machine will need, and a code generator
//! that emits the instructions which check that advice.

pub mod error;
pub mod field;
pub mod limbs;
pub mod machine;
pub mod gadgets;
pub mod table;
pub mod mult;
pub mod columns;
pub mod reduce;
pub mod multiply;
pub mod dsl;
pub mod m31;
pub mod cm31;
pub mod consistency;
