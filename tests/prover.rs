use lambdaworks_math::cyclic_group::IsGroup;
use lambdaworks_math::elliptic_curve::short_weierstrass::curves::bls12_381::curve::BLS12381Curve;
use lambdaworks_math::elliptic_curve::short_weierstrass::curves::bls12_381::default_types::FrField;
use lambdaworks_math::elliptic_curve::short_weierstrass::point::ShortWeierstrassProjectivePoint;
use lambdaworks_math::elliptic_curve::traits::IsEllipticCurve;
use lambdaworks_math::field::element::FieldElement;
use lambdaworks_math::field::traits::IsFFTField;
use lambdaworks_math::traits::ByteConversion;
use lambdaworks_math::unsigned_integer::element::UnsignedInteger;
use minimal_viable_prover::commit::{Prover, hadamard_product};
use minimal_viable_prover::error::ProverError;
use minimal_viable_prover::field::Scalar;
use minimal_viable_prover::group::{Point, msm};
use minimal_viable_prover::lagrange::{fft_over_ec, monomial_to_lagrange, monomial_to_lagrange_pre_computation};
use minimal_viable_prover::persist::{decode_srs, encode_srs};
use minimal_viable_prover::roots::roots_of_unity;
use minimal_viable_prover::srs::{StructuredReferenceString, alpha_powers, generate_srs, random_poly, srs_from_secret};

type Curve = ShortWeierstrassProjectivePoint<BLS12381Curve>;
type Fr = FieldElement<FrField>;

fn times(a: &Scalar, b: &Scalar) -> Scalar {
    a.times(b)
}

fn plus(a: &Scalar, b: &Scalar) -> Scalar {
    a.plus(b)
}

fn generator() -> Point {
    Point::generator()
}

fn point_add(a: &Point, b: &Point) -> Point {
    a.combine(b)
}

fn point_mul(p: &Point, k: &Scalar) -> Point {
    p.scale(k)
}

fn s(n: u64) -> Scalar {
    Scalar::from_u64(n)
}

fn to_fr(k: &Scalar) -> Fr {
    Fr::new(UnsignedInteger { limbs: k.limbs })
}

fn to_curve(p: &Point) -> Curve {
    Curve::new_unchecked([
        FieldElement::new(UnsignedInteger { limbs: p.x }),
        FieldElement::new(UnsignedInteger { limbs: p.y }),
        FieldElement::new(UnsignedInteger { limbs: p.z }),
    ])
}

fn small_srs(degree: usize, ones: bool) -> StructuredReferenceString {
    let g = point_mul(&generator(), &s(7));
    let points = srs_from_secret(11, g, degree).unwrap();
    let random_poly = if ones { vec![s(1); degree] } else { (1..=degree as u64).map(|k| s(k + 2)).collect() };
    StructuredReferenceString { srs_lagrange: points, random_poly }
}

#[test]
fn field_operations_match_integers() {
    assert_eq!(times(&s(3), &s(5)), s(15));
    assert_eq!(s(3).plus(&s(5)), s(8));
    assert_eq!(s(2).power(10), s(1024));
    assert_eq!(s(2).inverse_or_zero().times(&s(2)), s(1));
    let minus_one = s(0).minus(&s(1));
    assert_eq!(minus_one.limbs, [0x73eda753299d7d48, 0x3339d80809a1d805, 0x53bda402fffe5bfe, 0xffffffff00000000]);
    assert_eq!(minus_one.plus(&s(1)), s(0));
    assert_eq!(s(0).inverse_or_zero(), s(0));
}

#[test]
fn roots_of_unity_are_distinct_powers() {
    let roots = roots_of_unity(8).unwrap();
    assert_eq!(roots.len(), 8);
    assert_eq!(roots[0], s(1));
    for i in 0..8 {
        assert_eq!(roots[i], roots[1].power(i as u64));
        for j in 0..i {
            assert_ne!(roots[i], roots[j]);
        }
    }
    let expected = FrField::get_primitive_root_of_unity(32).unwrap();
    assert_eq!(to_fr(&roots[1]), expected);
    assert!(roots_of_unity(0).unwrap().is_empty());
}

#[test]
fn roots_of_unity_too_large() {
    assert_eq!(roots_of_unity((1usize << 32) + 1), Err(ProverError::UnsupportedSize));
}

#[test]
fn msm_of_nothing_is_neutral() {
    let r = msm(&vec![], &vec![]).unwrap();
    assert_eq!(r, Point::neutral());
    assert!(r.is_neutral());
}

#[test]
fn msm_of_one_times_point_is_point() {
    let g = generator();
    assert_eq!(msm(&vec![s(1)], &vec![g]).unwrap(), g);
}

#[test]
fn msm_of_two_pairs_is_sum_of_products() {
    let g = generator();
    let p1 = point_mul(&g, &s(3));
    let p2 = point_mul(&g, &s(5));
    let r = msm(&vec![s(2), s(4)], &vec![p1, p2]).unwrap();
    assert_eq!(r, point_add(&point_mul(&p1, &s(2)), &point_mul(&p2, &s(4))));
    assert_eq!(to_curve(&r), BLS12381Curve::generator().operate_with_self(26u64));
}

#[test]
fn msm_length_mismatch() {
    let g = generator();
    assert_eq!(msm(&vec![s(1), s(2)], &vec![g]), Err(ProverError::LengthMismatch));
}

#[test]
fn point_operations_follow_the_group() {
    let g = generator();
    let two_g = point_add(&g, &g);
    assert_ne!(two_g, g);
    assert_eq!(to_curve(&two_g), BLS12381Curve::generator().operate_with_self(2u64));
    assert_eq!(to_curve(&point_mul(&g, &s(2))), to_curve(&two_g));
    assert_eq!(point_add(&g, &Point::neutral()), g);
    assert_eq!(point_mul(&g, &s(0)), Point::neutral());
}

#[test]
fn group_fft_matches_direct_evaluation() {
    let alpha = s(5);
    let a = alpha_powers(&alpha, 4);
    assert_eq!(a[3], s(125));
    let g = generator();
    let lagrange = fft_over_ec(&a, g).unwrap();
    let w = FrField::get_primitive_root_of_unity(2).unwrap();
    let base = BLS12381Curve::generator();
    for i in 0..4u64 {
        let mut acc = Curve::neutral_element();
        for (k, p) in lagrange.iter().enumerate() {
            let e = w.pow(i * k as u64);
            acc = acc.operate_with(&to_curve(p).operate_with_self(e.representative()));
        }
        assert_eq!(acc, base.operate_with_self(to_fr(&a[i as usize]).representative()));
    }
}

#[test]
fn group_fft_rejects_bad_length() {
    assert_eq!(fft_over_ec(&vec![s(1), s(2), s(3)], generator()), Err(ProverError::UnsupportedSize));
    assert_eq!(fft_over_ec(&vec![], generator()), Err(ProverError::UnsupportedSize));
}

#[test]
fn group_fft_keeps_one_point_per_value() {
    let g = generator();
    let out = fft_over_ec(&vec![s(1); 4], g).unwrap();
    assert_eq!(out, vec![g, Point::neutral(), Point::neutral(), Point::neutral()]);
    assert_eq!(srs_from_secret(1, g, 4).unwrap().len(), 4);
}

#[test]
fn lagrange_conversions_agree() {
    let g = generator();
    let a: Vec<Point> = (1..=4u64).map(|k| point_mul(&g, &s(k))).collect();
    let pre = monomial_to_lagrange_pre_computation(&a, 4).unwrap();
    let direct = monomial_to_lagrange(&a, 4).unwrap();
    assert_eq!(pre.len(), 4);
    assert_eq!(pre, direct);
}

#[test]
fn lagrange_conversion_single_point_is_itself() {
    let g = generator();
    assert_eq!(monomial_to_lagrange(&vec![g], 1).unwrap(), vec![g]);
    assert_eq!(monomial_to_lagrange_pre_computation(&vec![g], 1).unwrap(), vec![g]);
}

#[test]
fn lagrange_conversion_of_constant_is_constant() {
    let g = generator();
    let o = Point::neutral();
    let a = vec![g, o, o, o];
    assert_eq!(monomial_to_lagrange(&a, 4).unwrap(), vec![g; 4]);
    assert_eq!(monomial_to_lagrange_pre_computation(&a, 4).unwrap(), vec![g; 4]);
}

#[test]
fn lagrange_conversion_of_linear_gives_roots() {
    let g = generator();
    let o = Point::neutral();
    let out = monomial_to_lagrange_pre_computation(&vec![o, g, o, o], 4).unwrap();
    let roots = roots_of_unity(4).unwrap();
    for i in 0..4 {
        assert_eq!(to_curve(&out[i]), BLS12381Curve::generator().operate_with_self(to_fr(&roots[i]).representative()));
        for j in 0..i {
            assert_ne!(to_curve(&out[i]), to_curve(&out[j]));
        }
    }
}

#[test]
fn lagrange_conversion_matches_direct_evaluation() {
    let g = generator();
    let sc = s(6);
    let powers = alpha_powers(&sc, 4);
    let a: Vec<Point> = powers.iter().map(|k| point_mul(&g, k)).collect();
    let out = monomial_to_lagrange(&a, 4).unwrap();
    let roots = roots_of_unity(4).unwrap();
    for i in 0..4 {
        let mut value = Fr::zero();
        for j in 0..4u64 {
            value = value + to_fr(&powers[j as usize]) * to_fr(&roots[i]).pow(j);
        }
        assert_eq!(to_curve(&out[i]), to_curve(&g).operate_with_self(value.representative()));
    }
}

#[test]
fn lagrange_conversion_errors() {
    let g = generator();
    assert_eq!(monomial_to_lagrange(&vec![g, g], 4), Err(ProverError::DimensionMismatch));
    assert_eq!(monomial_to_lagrange_pre_computation(&vec![g], 3), Err(ProverError::DimensionMismatch));
    assert_eq!(monomial_to_lagrange(&vec![g], (1u64 << 32) + 1), Err(ProverError::UnsupportedSize));
}

#[test]
fn persisted_srs_round_trips() {
    let points = generate_srs(4).unwrap();
    let bytes = encode_srs(&points);
    assert_eq!(bytes.len(), points.len() * 144);
    assert_eq!(decode_srs(&bytes, points.len()).unwrap(), points);
}

#[test]
fn persisted_coordinates_are_little_endian() {
    let g = generator();
    let bytes = encode_srs(&vec![g]);
    let x = to_curve(&g).x().clone();
    assert_eq!(&bytes[0..48], x.to_bytes_le().as_slice());
}

#[test]
fn truncated_srs_is_rejected() {
    let points = small_srs(4, false).srs_lagrange;
    let bytes = encode_srs(&points);
    let short = bytes[..bytes.len() - 1].to_vec();
    assert_eq!(decode_srs(&short, points.len()), Err(ProverError::Deserialization));
    assert_eq!(decode_srs(&bytes, points.len() + 1), Err(ProverError::Deserialization));
}

#[test]
fn unreduced_coordinate_is_rejected() {
    let mut bytes = encode_srs(&vec![generator()]);
    for b in bytes[96..144].iter_mut() {
        *b = 0xff;
    }
    assert_eq!(decode_srs(&bytes, 1), Err(ProverError::Deserialization));
}

#[test]
fn srs_new_generates_then_loads() {
    let (srs, out) = StructuredReferenceString::new(4, None).unwrap();
    assert_eq!(srs.random_poly.len(), 4);
    let bytes = out.unwrap();
    assert_eq!(bytes, encode_srs(&srs.srs_lagrange));
    assert_eq!(srs.srs_lagrange.len(), 4);
    let (loaded, none) = StructuredReferenceString::new(4, Some(bytes)).unwrap();
    assert!(none.is_none());
    assert_eq!(loaded.srs_lagrange, srs.srs_lagrange);
    assert!(matches!(StructuredReferenceString::new(4, Some(vec![0u8; 10])), Err(ProverError::Deserialization)));
    assert!(matches!(StructuredReferenceString::new(3, None), Err(ProverError::UnsupportedSize)));
}

#[test]
fn random_poly_has_requested_length() {
    assert_eq!(random_poly(5).len(), 5);
    assert!(random_poly(0).is_empty());
}

#[test]
fn hadamard_product_of_common_prefix() {
    assert_eq!(hadamard_product(&vec![s(2), s(3)], &vec![s(5), s(7), s(9)]), vec![s(10), s(21)]);
    assert!(hadamard_product(&vec![], &vec![s(1)]).is_empty());
}

#[test]
fn prover_drops_trailing_zeros() {
    let p = Prover::with_witness(small_srs(4, true), vec![s(1), s(2), s(0), s(0)]);
    assert_eq!(p.witness, vec![s(1), s(2)]);
    let q = Prover::new(small_srs(4, true), 3);
    assert!(q.witness.len() <= 3);
}

#[test]
fn commitment_is_deterministic() {
    let srs = small_srs(4, false);
    let w = vec![s(3), s(1), s(4)];
    let c1 = Prover::with_witness(small_srs(4, false), w.clone()).compute_commitment().unwrap();
    let c2 = Prover::with_witness(srs, w).compute_commitment().unwrap();
    assert_eq!(c1, c2);
}

#[test]
fn commitment_is_linear_without_blinding() {
    let w1 = vec![s(3), s(1), s(4)];
    let w2 = vec![s(5), s(9), s(2)];
    let sum: Vec<Scalar> = w1.iter().zip(w2.iter()).map(|(a, b)| plus(a, b)).collect();
    let c1 = Prover::with_witness(small_srs(4, true), w1).compute_commitment().unwrap();
    let c2 = Prover::with_witness(small_srs(4, true), w2).compute_commitment().unwrap();
    let c = Prover::with_witness(small_srs(4, true), sum).compute_commitment().unwrap();
    assert_eq!(to_curve(&c), to_curve(&point_add(&c1, &c2)));
}

#[test]
fn commitment_blinding_changes_result() {
    let w = vec![s(3), s(1), s(4)];
    let plain = Prover::with_witness(small_srs(4, true), w.clone()).compute_commitment().unwrap();
    let blinded = Prover::with_witness(small_srs(4, false), w).compute_commitment().unwrap();
    assert_ne!(to_curve(&plain), to_curve(&blinded));
}

#[test]
fn commitment_dimension_mismatch() {
    let p = Prover::with_witness(small_srs(4, false), vec![s(3)]);
    assert_eq!(p.compute_commitment(), Err(ProverError::DimensionMismatch));
    let mut srs = small_srs(4, false);
    srs.random_poly.pop();
    let q = Prover::with_witness(srs, vec![s(3), s(1), s(4)]);
    assert_eq!(q.compute_commitment(), Err(ProverError::DimensionMismatch));
    let mut longer = small_srs(4, false);
    longer.random_poly.push(s(1));
    let q = Prover::with_witness(longer, vec![s(3), s(1), s(4)]);
    assert_eq!(q.compute_commitment(), Err(ProverError::DimensionMismatch));
    let wide = Prover::with_witness(small_srs(4, false), vec![s(3), s(1), s(4), s(1)]);
    assert_eq!(wide.compute_commitment(), Err(ProverError::DimensionMismatch));
}

#[test]
fn commitment_to_constant_is_scaled_point() {
    let g = generator();
    let srs = StructuredReferenceString { srs_lagrange: vec![g], random_poly: vec![s(1)] };
    assert_eq!(Prover::with_witness(srs, vec![s(1)]).compute_commitment(), Ok(g));
    let srs = StructuredReferenceString { srs_lagrange: vec![g], random_poly: vec![s(2)] };
    let c = Prover::with_witness(srs, vec![s(5)]).compute_commitment().unwrap();
    assert_eq!(to_curve(&c), BLS12381Curve::generator().operate_with_self(10u64));
}

#[test]
fn off_curve_record_is_rejected() {
    let one = [0, 0, 0, 0, 0, 1];
    let off = Point { x: one, y: one, z: one };
    assert_eq!(decode_srs(&encode_srs(&vec![off]), 1), Err(ProverError::Deserialization));
    let stray_infinity = Point { x: one, y: one, z: [0; 6] };
    assert_eq!(decode_srs(&encode_srs(&vec![stray_infinity]), 1), Err(ProverError::Deserialization));
}

#[test]
fn infinity_record_with_any_y_is_accepted() {
    let inf = Point { x: [0; 6], y: [0, 0, 0, 0, 0, 5], z: [0; 6] };
    assert_eq!(decode_srs(&encode_srs(&vec![inf]), 1), Ok(vec![inf]));
}

#[test]
fn generator_has_standard_coordinates() {
    let g = Point::generator();
    assert_eq!(g.x, [0x17f1d3a73197d794, 0x2695638c4fa9ac0f, 0xc3688c4f9774b905, 0xa14e3a3f171bac58, 0x6c55e83ff97a1aef, 0xfb3af00adb22c6bb]);
    assert_eq!(g.z, [0, 0, 0, 0, 0, 1]);
    assert_eq!(to_curve(&g), BLS12381Curve::generator());
}

#[test]
fn commitment_of_linear_witness_folds_both_evaluations() {
    let g = generator();
    let p1 = point_mul(&g, &s(3));
    let p2 = point_mul(&g, &s(5));
    let srs = StructuredReferenceString { srs_lagrange: vec![p1, p2], random_poly: vec![s(2), s(7)] };
    let c = Prover::with_witness(srs, vec![s(9), s(4)]).compute_commitment().unwrap();
    // 2·(9 + 4)·3 + 7·(9 - 4)·5 = 78 + 175
    assert_eq!(to_curve(&c), BLS12381Curve::generator().operate_with_self(253u64));
}
