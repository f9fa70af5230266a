//! The base field of integers modulo 2^31 - 1 and its extensions of degree two
//! and four, as plain values.

use vstd::prelude::*;

verus! {

/// The prime modulus of the base field, 2^31 - 1.
pub const M31_MODULUS: u32 = 0x7fff_ffff;

/// An element of the base field, held as one unsigned integer.
#[derive(Clone, Copy, Debug, PartialEq, Eq, Structural)]
pub struct M31(pub u32);

/// An element `a + b*i` of the degree-2 extension: `CM31(a, b)`.
#[derive(Clone, Copy, Debug, PartialEq, Eq, Structural)]
pub struct CM31(pub M31, pub M31);

/// An element of the degree-4 extension: a pair of degree-2 elements.
#[derive(Clone, Copy, Debug, PartialEq, Eq, Structural)]
pub struct QM31(pub CM31, pub CM31);

/// The real part of the product `(a_real + a_imag*i) * (b_real + b_imag*i)`,
/// reduced to its canonical representative.
pub open spec fn product_real(a_real: int, a_imag: int, b_real: int, b_imag: int) -> int {
    (a_real * b_real - a_imag * b_imag) % (M31_MODULUS as int)
}

/// The imaginary part of the product `(a_real + a_imag*i) * (b_real + b_imag*i)`,
/// reduced to its canonical representative.
pub open spec fn product_imag(a_real: int, a_imag: int, b_real: int, b_imag: int) -> int {
    (a_real * b_imag + a_imag * b_real) % (M31_MODULUS as int)
}

impl M31 {
    /// Whether the value is the canonical representative of its class.
    pub open spec fn is_canonical(self) -> bool {
        self.0 < M31_MODULUS
    }

    /// Wraps `v` without reducing it.
    pub fn from_u32_unchecked(v: u32) -> (r: M31)
        ensures
            r == M31(v),
    {
        M31(v)
    }
}

impl CM31 {
    /// Whether both parts are canonical.
    pub open spec fn is_canonical(self) -> bool {
        self.0.is_canonical() && self.1.is_canonical()
    }

    /// The product of two elements in the extension field.
    pub open spec fn product(self, rhs: CM31) -> CM31 {
        CM31(
            M31(product_real(self.0.0 as int, self.1.0 as int, rhs.0.0 as int, rhs.1.0 as int) as u32),
            M31(product_imag(self.0.0 as int, self.1.0 as int, rhs.0.0 as int, rhs.1.0 as int) as u32),
        )
    }

    /// Builds `a + b*i` without reducing either part.
    pub fn from_u32_unchecked(a: u32, b: u32) -> (r: CM31)
        ensures
            r == CM31(M31(a), M31(b)),
    {
        CM31(M31(a), M31(b))
    }
}

/// The canonical product of two canonical elements is canonical.
pub proof fn lemma_product_is_canonical(a: CM31, b: CM31)
    ensures
        a.product(b).is_canonical(),
        a.product(b).0.0 as int == product_real(a.0.0 as int, a.1.0 as int, b.0.0 as int, b.1.0 as int),
        a.product(b).1.0 as int == product_imag(a.0.0 as int, a.1.0 as int, b.0.0 as int, b.1.0 as int),
{
}

/// Multiplies two canonical elements with `stwo`'s `Mul` for
/// `stwo::core::fields::cm31::CM31`. For canonical operands that
/// implementation reduces each base-field product and then adds or subtracts
/// modulo the prime, so both parts of the result are the canonical
/// representatives of `a.0*b.0 - a.1*b.1` and `a.0*b.1 + a.1*b.0`.
#[verifier::external_body]
pub(crate) fn field_product(a: CM31, b: CM31) -> (r: CM31)
    requires
        a.is_canonical(),
        b.is_canonical(),
    ensures
        r == a.product(b),
{
    let x = stwo::core::fields::cm31::CM31::from_u32_unchecked(a.0.0, a.1.0);
    let y = stwo::core::fields::cm31::CM31::from_u32_unchecked(b.0.0, b.1.0);
    let p = x * y;
    CM31(M31(p.0.0), M31(p.1.0))
}

} // verus!
