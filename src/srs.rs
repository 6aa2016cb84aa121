//! The structured reference string: Lagrange-basis points and the blinding
//! polynomial held beside them, generated from a transient secret or loaded
//! from persisted bytes.
use crate::error::ProverError;
use crate::field::{Scalar, fr_pow, modulus, resized, values};
use crate::group::{Point, all_wf, generator_point, term};
use crate::lagrange::{fft_over_ec, interpolation_of, is_power_of_two};
use crate::persist::{decode_points, decode_srs, encode_points, encode_srs, lemma_persist_round_trip};
use crate::roots::MAX_ROOT_ORDER;
use rand::RngCore;
use vstd::arithmetic::power::pow;
use vstd::prelude::*;

verus! {

/// `degree` Lagrange-basis points with a blinding polynomial of the same
/// length.
pub struct StructuredReferenceString {
    pub srs_lagrange: Vec<Point>,
    pub random_poly: Vec<Scalar>,
}

impl StructuredReferenceString {
    pub open spec fn wf(&self) -> bool {
        &&& all_wf(self.srs_lagrange@)
        &&& forall|k: int| 0 <= k < self.random_poly@.len() ==> (#[trigger] self.random_poly@[k]).wf()
    }
}

/// `1, a, a^2, ..., a^(n-1)` in the scalar field.
pub open spec fn powers_of(a: int, n: nat) -> Seq<int> {
    Seq::new(n, |i: int| pow(a, i as nat) % modulus())
}

/// The reference string that the secret `alpha` and the base point `g` give
/// for `degree`: `g` scaled by each of the `degree` coefficients of the
/// interpolation of the powers of `alpha`.
pub open spec fn lagrange_srs(alpha: int, g: Point, degree: nat) -> Seq<Point> {
    let c = resized(interpolation_of(powers_of(alpha, degree)), degree);
    Seq::new(degree, |k: int| term(g, c[k]))
}

/// Relies on rand's `thread_rng().next_u64()`: some 64-bit value.
#[verifier::external_body]
fn random_u64() -> (r: u64) {
    rand::thread_rng().next_u64()
}

/// `degree` coefficients drawn at random, each below `2^64`.
pub fn random_poly(degree: usize) -> (r: Vec<Scalar>)
    ensures
        r@.len() == degree,
        forall|k: int| 0 <= k < r@.len() ==> (#[trigger] r@[k]).wf() && r@[k].value() < 0x1_0000_0000_0000_0000int,
{
    let mut r: Vec<Scalar> = Vec::new();
    let mut k: usize = 0;
    while k < degree
        invariant
            k <= degree,
            r@.len() == k,
            forall|t: int| 0 <= t < r@.len() ==> (#[trigger] r@[t]).wf() && r@[t].value() < 0x1_0000_0000_0000_0000int,
        decreases degree - k,
    {
        r.push(Scalar::from_u64(random_u64()));
        k = k + 1;
    }
    r
}

/// `1, alpha, ..., alpha^(degree-1)`.
pub fn alpha_powers(alpha: &Scalar, degree: usize) -> (r: Vec<Scalar>)
    requires
        alpha.wf(),
    ensures
        r@.len() == degree,
        values(r@) == powers_of(alpha.value(), degree as nat),
        forall|k: int| 0 <= k < r@.len() ==> (#[trigger] r@[k]).wf(),
{
    let mut r: Vec<Scalar> = Vec::new();
    let mut k: usize = 0;
    while k < degree
        invariant
            k <= degree,
            alpha.wf(),
            r@.len() == k,
            forall|t: int| 0 <= t < r@.len() ==> (#[trigger] r@[t]).wf(),
            forall|t: int| 0 <= t < r@.len() ==> (#[trigger] r@[t]).value() == pow(alpha.value(), t as nat) % modulus(),
        decreases degree - k,
    {
        r.push(fr_pow(alpha, k as u64));
        k = k + 1;
    }
    assert(values(r@) =~= powers_of(alpha.value(), degree as nat));
    r
}

/// The Lagrange-basis reference string for the secret `alpha` and base point
/// `g`. `UnsupportedSize` unless `degree` is a power of two no larger than
/// `2^32`.
pub fn srs_from_secret(alpha: u64, g: Point, degree: usize) -> (r: Result<Vec<Point>, ProverError>)
    requires
        g.wf(),
    ensures
        r is Ok <==> (is_power_of_two(degree as nat) && degree <= MAX_ROOT_ORDER),
        r matches Err(e) ==> e == ProverError::UnsupportedSize,
        r matches Ok(v) ==> v@.len() == degree && v@ == lagrange_srs(alpha as int, g, degree as nat) && all_wf(v@),
{
    let a = Scalar::from_u64(alpha);
    let powers = alpha_powers(&a, degree);
    let r = fft_over_ec(&powers, g);
    match r {
        Ok(v) => {
            assert(v@ =~= lagrange_srs(alpha as int, g, degree as nat));
            Ok(v)
        },
        Err(e) => Err(e),
    }
}

/// A fresh reference string: a secret `alpha` and a scaling of the
/// standard generator are drawn, used, and dropped on return.
pub fn generate_srs(degree: usize) -> (r: Result<Vec<Point>, ProverError>)
    ensures
        r is Ok <==> (is_power_of_two(degree as nat) && degree <= MAX_ROOT_ORDER),
        r matches Err(e) ==> e == ProverError::UnsupportedSize,
        r matches Ok(v) ==> v@.len() == degree && all_wf(v@) && exists|alpha: u64, scale: u64|
            v@ == #[trigger] lagrange_srs(alpha as int, term(generator_point(), scale as int), degree as nat),
{
    let alpha = random_u64();
    let scale = random_u64();
    let g = Point::generator().scale(&Scalar::from_u64(scale));
    srs_from_secret(alpha, g, degree)
}

impl StructuredReferenceString {
    /// Loads the reference string from `persisted` when it is given, else
    /// generates a fresh one and hands back its bytes for the caller to
    /// store; either way a fresh blinding polynomial of `degree`
    /// coefficients is drawn.
    pub fn new(degree: usize, persisted: Option<Vec<u8>>) -> (r: Result<(StructuredReferenceString, Option<Vec<u8>>), ProverError>)
        ensures
            match persisted {
                Some(b) => match r {
                    Ok((s, out)) => out is None && decode_points(b@, degree as nat) == Ok::<Seq<Point>, ProverError>(s.srs_lagrange@),
                    Err(e) => decode_points(b@, degree as nat) == Err::<Seq<Point>, ProverError>(e),
                },
                None => {
                    &&& (r is Ok <==> (is_power_of_two(degree as nat) && degree <= MAX_ROOT_ORDER))
                    &&& r matches Err(e) ==> e == ProverError::UnsupportedSize
                    &&& r matches Ok((s, out)) ==> (out matches Some(o) && o@ == encode_points(s.srs_lagrange@)
                        && decode_points(o@, degree as nat) == Ok::<Seq<Point>, ProverError>(s.srs_lagrange@))
                    &&& r matches Ok((s, out)) ==> exists|alpha: u64, scale: u64|
                        s.srs_lagrange@ == #[trigger] lagrange_srs(alpha as int, term(generator_point(), scale as int), degree as nat)
                },
            },
            r matches Ok((s, out)) ==> s.wf() && s.srs_lagrange@.len() == degree && s.random_poly@.len() == degree,
            r matches Ok((s, out)) ==> forall|k: int| 0 <= k < degree ==> (#[trigger] s.random_poly@[k]).value() < 0x1_0000_0000_0000_0000int,
    {
        let (points, out) = match persisted {
            Some(b) => match decode_srs(&b, degree) {
                Ok(v) => (v, None),
                Err(e) => return Err(e),
            },
            None => match generate_srs(degree) {
                Ok(v) => {
                    let bytes = encode_srs(&v);
                    proof {
                        lemma_persist_round_trip(v@);
                    }
                    (v, Some(bytes))
                },
                Err(e) => return Err(e),
            },
        };
        let random_poly = random_poly(degree);
        Ok((StructuredReferenceString { srs_lagrange: points, random_poly }, out))
    }
}

} // verus!
