//! Hinted multiplication in the degree-2 extension: the arithmetic that the
//! witness routine and the generated code share.
//!
//! A product of two four-limb values has seven columns. Since 2^32 is 2 modulo
//! the prime, the three upper columns fold onto the three lowest, doubled. The
//! folded value is congruent to the product and small enough that its quotient
//! by the prime fits a cell with room to spare. That quotient is the hint.

use vstd::prelude::*;
use crate::field::{product_imag, product_real, M31_MODULUS};
use crate::error::Error;
use crate::limbs::{ints, is_limb, limbs_value};

verus! {

/// The prime modulus as a mathematical integer.
pub open spec fn modulus() -> int {
    M31_MODULUS as int
}

/// The product of limb `j` of `x` and limb `k` of `y`; zero outside the limbs.
pub open spec fn term(x: Seq<int>, y: Seq<int>, j: int, k: int) -> int {
    if 0 <= j < 4 && 0 <= k < 4 {
        x[j] * y[k]
    } else {
        0
    }
}

/// Column `i` of the product of `x` and `y`: the sum of the limb products
/// whose indices add up to `i`.
pub open spec fn column(x: Seq<int>, y: Seq<int>, i: int) -> int {
    term(x, y, 0, i) + term(x, y, 1, i - 1) + term(x, y, 2, i - 2) + term(x, y, 3, i - 3)
}

/// Digit `i` of the folded product: column `i` plus twice column `i + 4`.
pub open spec fn digit(x: Seq<int>, y: Seq<int>, i: int) -> int {
    column(x, y, i) + 2 * column(x, y, i + 4)
}

/// The folded product of `x` and `y`.
pub open spec fn folded(x: Seq<int>, y: Seq<int>) -> int {
    digit(x, y, 0) + 0x100 * digit(x, y, 1) + 0x1_0000 * digit(x, y, 2) + 0x100_0000 * digit(
        x,
        y,
        3,
    )
}

/// The part of the product that folding moves: the three upper columns.
pub open spec fn upper(x: Seq<int>, y: Seq<int>) -> int {
    column(x, y, 4) + 0x100 * column(x, y, 5) + 0x1_0000 * column(x, y, 6)
}

/// Whether `x` is four byte limbs.
pub open spec fn four_limbs(x: Seq<int>) -> bool {
    x.len() == 4 && is_limb(x[0]) && is_limb(x[1]) && is_limb(x[2]) && is_limb(x[3])
}

/// The product of a byte with a byte is below 2^16.
pub proof fn lemma_term_bound(x: Seq<int>, y: Seq<int>, j: int, k: int)
    requires
        four_limbs(x),
        four_limbs(y),
    ensures
        0 <= term(x, y, j, k) <= 65025,
{
    if 0 <= j < 4 && 0 <= k < 4 {
        let a = x[j];
        let b = y[k];
        assert(0 <= a * b <= 65025) by (nonlinear_arith)
            requires
                0 <= a <= 255,
                0 <= b <= 255,
        ;
    }
}

/// Every digit of a folded product lies between 0 and 10 * 255^2.
pub proof fn lemma_digit_bound(x: Seq<int>, y: Seq<int>, i: int)
    requires
        four_limbs(x),
        four_limbs(y),
        0 <= i < 4,
    ensures
        0 <= column(x, y, i) <= 260100,
        0 <= column(x, y, i + 4) <= 195075,
        0 <= digit(x, y, i) <= 650250,
{
    lemma_term_bound(x, y, 0, i);
    lemma_term_bound(x, y, 1, i - 1);
    lemma_term_bound(x, y, 2, i - 2);
    lemma_term_bound(x, y, 3, i - 3);
    lemma_term_bound(x, y, 0, i + 4);
    lemma_term_bound(x, y, 1, i + 3);
    lemma_term_bound(x, y, 2, i + 2);
    lemma_term_bound(x, y, 3, i + 1);
}

/// The folded product differs from the product by a multiple of the prime.
pub proof fn lemma_folded_is_product(x: Seq<int>, y: Seq<int>)
    requires
        x.len() == 4,
        y.len() == 4,
    ensures
        folded(x, y) == limbs_value(x) * limbs_value(y) - 0xffff_fffe * upper(x, y),
{
    let (x0, x1, x2, x3) = (x[0], x[1], x[2], x[3]);
    let (y0, y1, y2, y3) = (y[0], y[1], y[2], y[3]);
    let yv = limbs_value(y);
    assert(limbs_value(x) * yv == x0 * yv + 0x100 * (x1 * yv) + 0x1_0000 * (x2 * yv) + 0x100_0000
        * (x3 * yv)) by (nonlinear_arith)
        requires
            limbs_value(x) == x0 + 0x100 * x1 + 0x1_0000 * x2 + 0x100_0000 * x3,
    ;
    assert(x0 * yv == x0 * y0 + 0x100 * (x0 * y1) + 0x1_0000 * (x0 * y2) + 0x100_0000 * (x0 * y3))
        by (nonlinear_arith)
        requires
            yv == y0 + 0x100 * y1 + 0x1_0000 * y2 + 0x100_0000 * y3,
    ;
    assert(x1 * yv == x1 * y0 + 0x100 * (x1 * y1) + 0x1_0000 * (x1 * y2) + 0x100_0000 * (x1 * y3))
        by (nonlinear_arith)
        requires
            yv == y0 + 0x100 * y1 + 0x1_0000 * y2 + 0x100_0000 * y3,
    ;
    assert(x2 * yv == x2 * y0 + 0x100 * (x2 * y1) + 0x1_0000 * (x2 * y2) + 0x100_0000 * (x2 * y3))
        by (nonlinear_arith)
        requires
            yv == y0 + 0x100 * y1 + 0x1_0000 * y2 + 0x100_0000 * y3,
    ;
    assert(x3 * yv == x3 * y0 + 0x100 * (x3 * y1) + 0x1_0000 * (x3 * y2) + 0x100_0000 * (x3 * y3))
        by (nonlinear_arith)
        requires
            yv == y0 + 0x100 * y1 + 0x1_0000 * y2 + 0x100_0000 * y3,
    ;
    assert(column(x, y, 0) == x0 * y0);
    assert(column(x, y, 1) == x0 * y1 + x1 * y0);
    assert(column(x, y, 2) == x0 * y2 + x1 * y1 + x2 * y0);
    assert(column(x, y, 3) == x0 * y3 + x1 * y2 + x2 * y1 + x3 * y0);
    assert(column(x, y, 4) == x1 * y3 + x2 * y2 + x3 * y1);
    assert(column(x, y, 5) == x2 * y3 + x3 * y2);
    assert(column(x, y, 6) == x3 * y3);
    assert(column(x, y, 7) == 0);
}

/// The limbs of the real part of a degree-2 element in limb form.
pub open spec fn real_limbs(a: Seq<int>) -> Seq<int> {
    a.subrange(4, 8)
}

/// The limbs of the imaginary part of a degree-2 element in limb form.
pub open spec fn imag_limbs(a: Seq<int>) -> Seq<int> {
    a.subrange(0, 4)
}

/// The first hint: the quotient that reduces the product of the real parts.
pub open spec fn hint_q1(a: Seq<int>, b: Seq<int>) -> int {
    folded(real_limbs(a), real_limbs(b)) / modulus()
}

/// The second hint: the quotient that reduces the product of the imaginary
/// parts.
pub open spec fn hint_q2(a: Seq<int>, b: Seq<int>) -> int {
    folded(imag_limbs(a), imag_limbs(b)) / modulus()
}

/// The third hint: the quotient that reduces the sum of the two cross
/// products.
pub open spec fn hint_q3(a: Seq<int>, b: Seq<int>) -> int {
    (folded(real_limbs(a), imag_limbs(b)) + folded(imag_limbs(a), real_limbs(b))) / modulus()
}

/// The real part that the generated code computes from the limbs of `a` and
/// `b`.
pub open spec fn mult_real(a: Seq<int>, b: Seq<int>) -> int {
    (folded(real_limbs(a), real_limbs(b)) % modulus() - folded(imag_limbs(a), imag_limbs(b))
        % modulus()) % modulus()
}

/// The imaginary part that the generated code computes from the limbs of `a`
/// and `b`.
pub open spec fn mult_imag(a: Seq<int>, b: Seq<int>) -> int {
    (folded(real_limbs(a), imag_limbs(b)) + folded(imag_limbs(a), real_limbs(b))) % modulus()
}

/// What the generated code computes is the product in the extension field:
/// folding changes a product by a multiple of the prime only.
pub proof fn lemma_mult_is_product(a: Seq<int>, b: Seq<int>)
    requires
        a.len() == 8,
        b.len() == 8,
    ensures
        mult_real(a, b) == product_real(
            limbs_value(real_limbs(a)),
            limbs_value(imag_limbs(a)),
            limbs_value(real_limbs(b)),
            limbs_value(imag_limbs(b)),
        ),
        mult_imag(a, b) == product_imag(
            limbs_value(real_limbs(a)),
            limbs_value(imag_limbs(a)),
            limbs_value(real_limbs(b)),
            limbs_value(imag_limbs(b)),
        ),
{
    let (ar, ai, br, bi) = (real_limbs(a), imag_limbs(a), real_limbs(b), imag_limbs(b));
    lemma_folded_is_product(ar, br);
    lemma_folded_is_product(ai, bi);
    lemma_folded_is_product(ar, bi);
    lemma_folded_is_product(ai, br);
    let (vr, vi, wr, wi) = (limbs_value(ar), limbs_value(ai), limbs_value(br), limbs_value(bi));
    let (h1, h2, h3, h4) = (upper(ar, br), upper(ai, bi), upper(ar, bi), upper(ai, br));
    let (f1, f2, f3, f4) = (folded(ar, br), folded(ai, bi), folded(ar, bi), folded(ai, br));
    let (x1, x2, x3, x4) = (vr * wr, vi * wi, vr * wi, vi * wr);
    assert(f1 == x1 - 0xffff_fffe * h1);
    assert(f2 == x2 - 0xffff_fffe * h2);
    assert(f3 == x3 - 0xffff_fffe * h3);
    assert(f4 == x4 - 0xffff_fffe * h4);
    lemma_residue_of_difference(f1, f2, x1 - x2, 2 * h2 - 2 * h1);
    lemma_residue_of_sum(f3 + f4, x3 + x4, 0 - 2 * h3 - 2 * h4);
}

/// The residue of a difference of residues is the residue of any value that
/// differs from the difference by a multiple of the prime.
pub proof fn lemma_residue_of_difference(f1: int, f2: int, x: int, k: int)
    requires
        f1 - f2 == x + k * 0x7fff_ffff,
    ensures
        (f1 % 0x7fff_ffff - f2 % 0x7fff_ffff) % 0x7fff_ffff == x % 0x7fff_ffff,
{
    let p: int = 0x7fff_ffff;
    let d = f1 % p - f2 % p;
    let j = f1 / p - f2 / p;
    assert(d == x + (k - j) * p) by (nonlinear_arith)
        requires
            f1 - f2 == x + k * p,
            d == (f1 - p * (f1 / p)) - (f2 - p * (f2 / p)),
            j == f1 / p - f2 / p,
    ;
    lemma_residue_of_sum(d, x, k - j);
}

/// Two values that differ by a multiple of the prime have the same residue.
pub proof fn lemma_residue_of_sum(f: int, x: int, k: int)
    requires
        f == x + k * 0x7fff_ffff,
    ensures
        f % 0x7fff_ffff == x % 0x7fff_ffff,
{
    vstd::arithmetic::div_mod::lemma_mod_multiples_vanish(k, x, 0x7fff_ffff);
    assert(k * 0x7fff_ffff == 0x7fff_ffff * k) by (nonlinear_arith);
}

/// The three quotients that the multiplication's generated code consumes, in
/// the order in which it retrieves them.
#[derive(Clone, Copy, Debug, PartialEq, Eq, Structural)]
pub struct CM31MultHint {
    pub q1: i32,
    pub q2: i32,
    pub q3: i32,
}

/// The witness side of the hinted multiplication.
pub struct CM31Mult;

/// The product of two bytes.
fn byte_mul(x: u64, y: u64) -> (r: u64)
    requires
        x < 256,
        y < 256,
    ensures
        r == x * y,
        r <= 65025,
{
    assert(x * y <= 65025) by (nonlinear_arith)
        requires
            x <= 255,
            y <= 255,
    ;
    x * y
}

/// Whether `x` is four byte limbs.
pub fn is_four_limbs(x: &[i32]) -> (r: bool)
    ensures
        r == four_limbs(ints(x@)),
{
    x.len() == 4 && 0 <= x[0] && x[0] < 256 && 0 <= x[1] && x[1] < 256 && 0 <= x[2] && x[2] < 256
        && 0 <= x[3] && x[3] < 256
}

/// The folded product of two four-limb values.
pub fn folded_product(x: &[i32], y: &[i32]) -> (r: u64)
    requires
        four_limbs(ints(x@)),
        four_limbs(ints(y@)),
    ensures
        r == folded(ints(x@), ints(y@)),
        r <= 650250 * 0x101_0101,
{
    let ghost xs = ints(x@);
    let ghost ys = ints(y@);
    let x0: u64 = x[0] as u64;
    let x1: u64 = x[1] as u64;
    let x2: u64 = x[2] as u64;
    let x3: u64 = x[3] as u64;
    let y0: u64 = y[0] as u64;
    let y1: u64 = y[1] as u64;
    let y2: u64 = y[2] as u64;
    let y3: u64 = y[3] as u64;
    let c0: u64 = byte_mul(x0, y0);
    let c1: u64 = byte_mul(x0, y1) + byte_mul(x1, y0);
    let c2: u64 = byte_mul(x0, y2) + byte_mul(x1, y1) + byte_mul(x2, y0);
    let c3: u64 = byte_mul(x0, y3) + byte_mul(x1, y2) + byte_mul(x2, y1) + byte_mul(x3, y0);
    let c4: u64 = byte_mul(x1, y3) + byte_mul(x2, y2) + byte_mul(x3, y1);
    let c5: u64 = byte_mul(x2, y3) + byte_mul(x3, y2);
    let c6: u64 = byte_mul(x3, y3);
    proof {
        assert(column(xs, ys, 0) == c0);
        assert(column(xs, ys, 1) == c1);
        assert(column(xs, ys, 2) == c2);
        assert(column(xs, ys, 3) == c3);
        assert(column(xs, ys, 4) == c4);
        assert(column(xs, ys, 5) == c5);
        assert(column(xs, ys, 6) == c6);
        assert(column(xs, ys, 7) == 0);
    }
    let d0: u64 = c0 + 2 * c4;
    let d1: u64 = c1 + 2 * c5;
    let d2: u64 = c2 + 2 * c6;
    let d3: u64 = c3;
    d0 + 0x100 * d1 + 0x1_0000 * d2 + 0x100_0000 * d3
}

impl CM31Mult {
    /// Computes the three quotient hints for the product of `a` and `b`, each
    /// given as the four limbs of its real part and of its imaginary part.
    /// Fails when a part is not four byte limbs.
    pub fn compute_hint_from_limbs(
        a_real: &[i32],
        a_imag: &[i32],
        b_real: &[i32],
        b_imag: &[i32],
    ) -> (r: Result<CM31MultHint, Error>)
        ensures
            r is Ok <==> four_limbs(ints(a_real@)) && four_limbs(ints(a_imag@)) && four_limbs(
                ints(b_real@),
            ) && four_limbs(ints(b_imag@)),
            r is Err ==> r == Err::<CM31MultHint, Error>(Error::WrongShape),
            r is Ok ==> {
                &&& r.unwrap().q1 == folded(ints(a_real@), ints(b_real@)) / modulus()
                &&& r.unwrap().q2 == folded(ints(a_imag@), ints(b_imag@)) / modulus()
                &&& r.unwrap().q3 == (folded(ints(a_real@), ints(b_imag@)) + folded(
                    ints(a_imag@),
                    ints(b_real@),
                )) / modulus()
            },
    {
        if !(is_four_limbs(a_real) && is_four_limbs(a_imag) && is_four_limbs(b_real)
            && is_four_limbs(b_imag)) {
            return Err(Error::WrongShape);
        }
        let p: u64 = 0x7fff_ffff;
        let q1: u64 = folded_product(a_real, b_real) / p;
        let q2: u64 = folded_product(a_imag, b_imag) / p;
        let q3: u64 = (folded_product(a_real, b_imag) + folded_product(a_imag, b_real)) / p;
        Ok(CM31MultHint { q1: q1 as i32, q2: q2 as i32, q3: q3 as i32 })
    }
}

} // verus!
