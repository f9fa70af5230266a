//! The limb codec: field elements to little-endian byte limbs and back.
//!
//! A base-field element is four limbs. An element of the degree-2 extension is
//! eight: the limbs of its imaginary part, then those of its real part. An
//! element of the degree-4 extension is the sixteen limbs of its two halves.

use vstd::prelude::*;
use crate::field::{M31, CM31, QM31};

verus! {

/// Whether `x` is a byte limb.
pub open spec fn is_limb(x: int) -> bool {
    0 <= x < 256
}

/// Whether every entry of `l` is a byte limb.
pub open spec fn all_limbs(l: Seq<int>) -> bool {
    forall|i: int| 0 <= i < l.len() ==> is_limb(#[trigger] l[i])
}

/// The entries of `s` as mathematical integers.
pub open spec fn ints(s: Seq<i32>) -> Seq<int> {
    Seq::new(s.len(), |i: int| s[i] as int)
}

/// The four limbs of `v`, least significant first.
pub open spec fn m31_limbs(v: int) -> Seq<int> {
    seq![v % 256, (v / 0x100) % 256, (v / 0x1_0000) % 256, (v / 0x100_0000) % 256]
}

/// The weighted sum of the first four entries of `l`.
pub open spec fn limbs_value(l: Seq<int>) -> int {
    l[0] + 0x100 * l[1] + 0x1_0000 * l[2] + 0x100_0000 * l[3]
}

/// The eight limbs of `c`: imaginary part first.
pub open spec fn cm31_limbs(c: CM31) -> Seq<int> {
    m31_limbs(c.1.0 as int) + m31_limbs(c.0.0 as int)
}

/// The sixteen limbs of `q`: first half, then second half.
pub open spec fn qm31_limbs(q: QM31) -> Seq<int> {
    cm31_limbs(q.0) + cm31_limbs(q.1)
}

/// Whether the first four entries of `l` sum, weighted, to a `u32`.
pub open spec fn decodes_m31(l: Seq<int>) -> bool {
    l.len() >= 4 && 0 <= limbs_value(l) <= u32::MAX
}

/// Whether both halves of the first eight entries of `l` decode.
pub open spec fn decodes_cm31(l: Seq<int>) -> bool {
    l.len() >= 8 && decodes_m31(l.subrange(0, 4)) && decodes_m31(l.subrange(4, 8))
}

/// Whether both halves of the first sixteen entries of `l` decode.
pub open spec fn decodes_qm31(l: Seq<int>) -> bool {
    l.len() >= 16 && decodes_cm31(l.subrange(0, 8)) && decodes_cm31(l.subrange(8, 16))
}

/// The degree-2 element that the first eight entries of `l` stand for.
pub open spec fn cm31_value(l: Seq<int>) -> CM31 {
    CM31(M31(limbs_value(l.subrange(4, 8)) as u32), M31(limbs_value(l.subrange(0, 4)) as u32))
}

/// The degree-4 element that the first sixteen entries of `l` stand for.
pub open spec fn qm31_value(l: Seq<int>) -> QM31 {
    QM31(cm31_value(l.subrange(0, 8)), cm31_value(l.subrange(8, 16)))
}

/// Splits a base-field value into four byte limbs, least significant first.
pub fn convert_m31_to_limbs(v: u32) -> (r: [i32; 4])
    ensures
        ints(r@) == m31_limbs(v as int),
        all_limbs(ints(r@)),
{
    let l0: u32 = v & 255;
    let l1: u32 = (v >> 8) & 255;
    let l2: u32 = (v >> 16) & 255;
    let l3: u32 = (v >> 24) & 255;
    assert(v & 255 == v % 256) by (bit_vector);
    assert((v >> 8) & 255 == (v / 0x100) % 256) by (bit_vector);
    assert((v >> 16) & 255 == (v / 0x1_0000) % 256) by (bit_vector);
    assert((v >> 24) & 255 == (v / 0x100_0000) % 256) by (bit_vector);
    let r: [i32; 4] = [l0 as i32, l1 as i32, l2 as i32, l3 as i32];
    assert(ints(r@) =~= m31_limbs(v as int));
    r
}

/// Sums the first four limbs of `v` with weights 1, 2^8, 2^16 and 2^24.
/// The limbs are not checked to be bytes.
pub fn convert_m31_from_limbs(v: &[i32]) -> (r: u32)
    requires
        decodes_m31(ints(v@)),
    ensures
        r as int == limbs_value(ints(v@)),
{
    let l0: i64 = v[0] as i64;
    let l1: i64 = v[1] as i64;
    let l2: i64 = v[2] as i64;
    let l3: i64 = v[3] as i64;
    let sum: i64 = l0 + 0x100 * l1 + 0x1_0000 * l2 + 0x100_0000 * l3;
    sum as u32
}

/// Encodes a degree-2 element: the limbs of the imaginary part, then those of
/// the real part.
pub fn convert_cm31_to_limbs(cm31: CM31) -> (r: [i32; 8])
    ensures
        ints(r@) == cm31_limbs(cm31),
        all_limbs(ints(r@)),
{
    let real_limbs: [i32; 4] = convert_m31_to_limbs(cm31.0.0);
    let imag_limbs: [i32; 4] = convert_m31_to_limbs(cm31.1.0);
    let r: [i32; 8] = [
        imag_limbs[0],
        imag_limbs[1],
        imag_limbs[2],
        imag_limbs[3],
        real_limbs[0],
        real_limbs[1],
        real_limbs[2],
        real_limbs[3],
    ];
    proof {
        let im = ints(imag_limbs@);
        let re = ints(real_limbs@);
        assert forall|i: int| 0 <= i < 8 implies #[trigger] ints(r@)[i] == (im + re)[i] by {
            if i < 4 {
                assert(ints(r@)[i] == im[i]);
            } else {
                assert(ints(r@)[i] == re[i - 4]);
            }
        }
        assert(ints(r@) =~= im + re);
        assert forall|i: int| 0 <= i < 8 implies is_limb(#[trigger] ints(r@)[i]) by {
            if i < 4 {
                assert(is_limb(im[i]));
            } else {
                assert(is_limb(re[i - 4]));
            }
        }
    }
    r
}

/// Decodes a degree-2 element from eight limbs: the first four are the
/// imaginary part, the next four the real part.
pub fn convert_cm31_from_limbs(v: &[i32]) -> (r: CM31)
    requires
        decodes_cm31(ints(v@)),
    ensures
        r == cm31_value(ints(v@)),
{
    proof {
        assert(ints(v@.subrange(0, 4)) =~= ints(v@).subrange(0, 4));
        assert(ints(v@.subrange(4, 8)) =~= ints(v@).subrange(4, 8));
    }
    let imag_part: u32 = convert_m31_from_limbs(&v[0..4]);
    let real_part: u32 = convert_m31_from_limbs(&v[4..8]);
    CM31::from_u32_unchecked(real_part, imag_part)
}

/// Encodes a degree-4 element: its first half, then its second half.
pub fn convert_qm31_to_limbs(qm31: QM31) -> (r: [i32; 16])
    ensures
        ints(r@) == qm31_limbs(qm31),
        all_limbs(ints(r@)),
{
    let first_limbs: [i32; 8] = convert_cm31_to_limbs(qm31.0);
    let second_limbs: [i32; 8] = convert_cm31_to_limbs(qm31.1);
    let r: [i32; 16] = [
        first_limbs[0],
        first_limbs[1],
        first_limbs[2],
        first_limbs[3],
        first_limbs[4],
        first_limbs[5],
        first_limbs[6],
        first_limbs[7],
        second_limbs[0],
        second_limbs[1],
        second_limbs[2],
        second_limbs[3],
        second_limbs[4],
        second_limbs[5],
        second_limbs[6],
        second_limbs[7],
    ];
    proof {
        let fi = ints(first_limbs@);
        let se = ints(second_limbs@);
        assert forall|i: int| 0 <= i < 16 implies #[trigger] ints(r@)[i] == (fi + se)[i] by {
            if i < 8 {
                assert(ints(r@)[i] == fi[i]);
            } else {
                assert(ints(r@)[i] == se[i - 8]);
            }
        }
        assert(ints(r@) =~= fi + se);
        assert forall|i: int| 0 <= i < 16 implies is_limb(#[trigger] ints(r@)[i]) by {
            if i < 8 {
                assert(is_limb(fi[i]));
            } else {
                assert(is_limb(se[i - 8]));
            }
        }
    }
    r
}

/// Decodes a degree-4 element from sixteen limbs.
pub fn convert_qm31_from_limbs(v: &[i32]) -> (r: QM31)
    requires
        decodes_qm31(ints(v@)),
    ensures
        r == qm31_value(ints(v@)),
{
    proof {
        assert(ints(v@.subrange(0, 8)) =~= ints(v@).subrange(0, 8));
        assert(ints(v@.subrange(8, 16)) =~= ints(v@).subrange(8, 16));
    }
    let first: CM31 = convert_cm31_from_limbs(&v[0..8]);
    let second: CM31 = convert_cm31_from_limbs(&v[8..16]);
    QM31(first, second)
}

/// Every limb that encoding a base-field value produces is a byte, and
/// decoding the limbs gives the value back.
pub proof fn lemma_m31_round_trip(v: u32)
    ensures
        m31_limbs(v as int).len() == 4,
        all_limbs(m31_limbs(v as int)),
        decodes_m31(m31_limbs(v as int)),
        limbs_value(m31_limbs(v as int)) == v,
{
}

/// Four byte limbs are the encoding of their own weighted sum.
pub proof fn lemma_m31_limbs_of_value(l: Seq<int>)
    requires
        l.len() == 4,
        all_limbs(l),
    ensures
        0 <= limbs_value(l) <= u32::MAX,
        m31_limbs(limbs_value(l)) == l,
{
    assert(is_limb(l[0]) && is_limb(l[1]) && is_limb(l[2]) && is_limb(l[3]));
    assert(m31_limbs(limbs_value(l)) =~= l);
}

/// Every limb that encoding a degree-2 element produces is a byte, and
/// decoding the limbs gives the element back.
pub proof fn lemma_cm31_round_trip(c: CM31)
    ensures
        cm31_limbs(c).len() == 8,
        all_limbs(cm31_limbs(c)),
        decodes_cm31(cm31_limbs(c)),
        cm31_value(cm31_limbs(c)) == c,
{
    let l = cm31_limbs(c);
    lemma_m31_round_trip(c.0.0);
    lemma_m31_round_trip(c.1.0);
    assert(l.subrange(0, 4) =~= m31_limbs(c.1.0 as int));
    assert(l.subrange(4, 8) =~= m31_limbs(c.0.0 as int));
}

/// Eight byte limbs are the encoding of the element they decode to.
pub proof fn lemma_cm31_limbs_of_value(l: Seq<int>)
    requires
        l.len() == 8,
        all_limbs(l),
    ensures
        decodes_cm31(l),
        cm31_limbs(cm31_value(l)) == l,
{
    let lo = l.subrange(0, 4);
    let hi = l.subrange(4, 8);
    assert forall|i: int| 0 <= i < 4 implies is_limb(#[trigger] lo[i]) by {
        assert(is_limb(l[i]));
    }
    assert forall|i: int| 0 <= i < 4 implies is_limb(#[trigger] hi[i]) by {
        assert(is_limb(l[i + 4]));
    }
    lemma_m31_limbs_of_value(lo);
    lemma_m31_limbs_of_value(hi);
    assert(cm31_limbs(cm31_value(l)) =~= l);
}

/// Every limb that encoding a degree-4 element produces is a byte, and
/// decoding the limbs gives the element back.
pub proof fn lemma_qm31_round_trip(q: QM31)
    ensures
        qm31_limbs(q).len() == 16,
        all_limbs(qm31_limbs(q)),
        decodes_qm31(qm31_limbs(q)),
        qm31_value(qm31_limbs(q)) == q,
{
    let l = qm31_limbs(q);
    lemma_cm31_round_trip(q.0);
    lemma_cm31_round_trip(q.1);
    assert(l.subrange(0, 8) =~= cm31_limbs(q.0));
    assert(l.subrange(8, 16) =~= cm31_limbs(q.1));
}

/// Sixteen byte limbs are the encoding of the element they decode to.
pub proof fn lemma_qm31_limbs_of_value(l: Seq<int>)
    requires
        l.len() == 16,
        all_limbs(l),
    ensures
        decodes_qm31(l),
        qm31_limbs(qm31_value(l)) == l,
{
    let lo = l.subrange(0, 8);
    let hi = l.subrange(8, 16);
    assert forall|i: int| 0 <= i < 8 implies is_limb(#[trigger] lo[i]) by {
        assert(is_limb(l[i]));
    }
    assert forall|i: int| 0 <= i < 8 implies is_limb(#[trigger] hi[i]) by {
        assert(is_limb(l[i + 8]));
    }
    lemma_cm31_limbs_of_value(lo);
    lemma_cm31_limbs_of_value(hi);
    assert(qm31_limbs(qm31_value(l)) =~= l);
}

} // verus!
