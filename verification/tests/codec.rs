use m31_limbs::field::{CM31, M31, QM31};
use m31_limbs::limbs::{
    convert_cm31_from_limbs, convert_cm31_to_limbs, convert_m31_from_limbs, convert_m31_to_limbs,
    convert_qm31_from_limbs, convert_qm31_to_limbs,
};

const P: u32 = (1 << 31) - 1;

#[test]
fn base_field_example_encodes_least_significant_first() {
    assert_eq!(convert_m31_to_limbs(0x01020304), [4, 3, 2, 1]);
}

#[test]
fn base_field_example_decodes() {
    assert_eq!(convert_m31_from_limbs(&[4, 3, 2, 1]), 0x01020304);
}

#[test]
fn base_field_round_trip_on_edge_values() {
    for v in [0u32, 1, 255, 256, 65535, 65536, 0x00ff_ffff, 0x0100_0000, P - 1, P, u32::MAX] {
        let limbs = convert_m31_to_limbs(v);
        assert_eq!(convert_m31_from_limbs(&limbs), v);
    }
}

#[test]
fn base_field_limbs_are_bytes() {
    for v in [0u32, 0x1234_5678, P - 1, u32::MAX] {
        for limb in convert_m31_to_limbs(v) {
            assert!((0..256).contains(&limb));
        }
    }
}

#[test]
fn base_field_largest_canonical_value() {
    assert_eq!(convert_m31_to_limbs(P - 1), [254, 255, 255, 127]);
    assert_eq!(convert_m31_from_limbs(&[254, 255, 255, 127]), P - 1);
}

#[test]
fn decode_applies_the_four_weights() {
    assert_eq!(convert_m31_from_limbs(&[1, 0, 0, 0]), 1);
    assert_eq!(convert_m31_from_limbs(&[0, 1, 0, 0]), 256);
    assert_eq!(convert_m31_from_limbs(&[0, 0, 1, 0]), 65536);
    assert_eq!(convert_m31_from_limbs(&[0, 0, 0, 1]), 16777216);
}

#[test]
fn decode_does_not_validate_limbs() {
    // 300 is no byte, yet the weighted sum is what comes back.
    assert_eq!(convert_m31_from_limbs(&[300, 1, 0, 0]), 300 + 256);
    // A negative limb is taken with its sign.
    assert_eq!(convert_m31_from_limbs(&[-1, 1, 0, 0]), 255);
}

#[test]
fn decode_reads_the_first_four_limbs_only() {
    assert_eq!(convert_m31_from_limbs(&[4, 3, 2, 1, 9, 9]), 0x01020304);
}

#[test]
fn degree_two_limbs_put_the_imaginary_part_first() {
    let c = CM31::from_u32_unchecked(0x01020304, 0x0a0b0c0d);
    assert_eq!(convert_cm31_to_limbs(c), [0x0d, 0x0c, 0x0b, 0x0a, 4, 3, 2, 1]);
}

#[test]
fn degree_two_decode_reads_the_imaginary_part_first() {
    let c = convert_cm31_from_limbs(&[0x0d, 0x0c, 0x0b, 0x0a, 4, 3, 2, 1]);
    assert_eq!(c, CM31(M31(0x01020304), M31(0x0a0b0c0d)));
}

#[test]
fn degree_two_round_trip() {
    for (re, im) in [(0u32, 0u32), (5, 7), (P - 1, 0), (0, P - 1), (P - 1, P - 1), (123456789, 987654321)] {
        let c = CM31::from_u32_unchecked(re, im);
        assert_eq!(convert_cm31_from_limbs(&convert_cm31_to_limbs(c)), c);
    }
}

#[test]
fn degree_four_limbs_are_the_two_halves_in_order() {
    let first = CM31::from_u32_unchecked(1, 2);
    let second = CM31::from_u32_unchecked(3, 4);
    let limbs = convert_qm31_to_limbs(QM31(first, second));
    assert_eq!(limbs[..8], convert_cm31_to_limbs(first));
    assert_eq!(limbs[8..], convert_cm31_to_limbs(second));
    assert_eq!(limbs, [2, 0, 0, 0, 1, 0, 0, 0, 4, 0, 0, 0, 3, 0, 0, 0]);
}

#[test]
fn degree_four_round_trip() {
    let q = QM31(
        CM31::from_u32_unchecked(P - 1, 0x01020304),
        CM31::from_u32_unchecked(0x7654_3210, 42),
    );
    let limbs = convert_qm31_to_limbs(q);
    for limb in limbs {
        assert!((0..256).contains(&limb));
    }
    assert_eq!(convert_qm31_from_limbs(&limbs), q);
}

#[test]
fn unchecked_constructors_keep_their_arguments() {
    assert_eq!(M31::from_u32_unchecked(u32::MAX), M31(u32::MAX));
    assert_eq!(CM31::from_u32_unchecked(P, P + 5), CM31(M31(P), M31(P + 5)));
}
