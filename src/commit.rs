//! The commitment engine: evaluate the witness over the roots of unity, blind
//! the evaluations elementwise, and fold them against the reference string.
use crate::error::ProverError;
use crate::field::{Scalar, fr_mul, modulus, resized, values};
use crate::group::{Point, combined, msm, msm_small_cases, msm_spec, term};
use crate::roots::MAX_ROOT_ORDER;
use crate::srs::{StructuredReferenceString, random_poly};
use lambdaworks_math::elliptic_curve::short_weierstrass::curves::bls12_381::default_types::FrField;
use lambdaworks_math::field::element::FieldElement;
use lambdaworks_math::polynomial::Polynomial;
use lambdaworks_math::unsigned_integer::element::UnsignedInteger;
use vstd::prelude::*;

verus! {

/// The coefficients with trailing zeros removed.
pub open spec fn trimmed(s: Seq<int>) -> Seq<int>
    decreases s.len(),
{
    if s.len() > 0 && s.last() == 0 {
        trimmed(s.drop_last())
    } else {
        s
    }
}

/// The degree of a coefficient sequence without trailing zeros (zero when
/// empty).
pub open spec fn poly_degree(s: Seq<int>) -> nat {
    if s.len() == 0 {
        0
    } else {
        (s.len() - 1) as nat
    }
}

/// The smallest power of two, at least `p`, reached from `p` by doubling
/// that is no smaller than `n`.
pub open spec fn next_pow2_from(p: nat, n: nat) -> nat
    decreases (if p >= n { 0 } else { n - p }),
{
    if p == 0 || p >= n {
        if p == 0 { 1 } else { p }
    } else {
        next_pow2_from(p + p, n)
    }
}

/// The smallest power of two no smaller than `n` (one for zero).
pub open spec fn next_pow2(n: nat) -> nat {
    next_pow2_from(1, n)
}

/// The elementwise product of the common prefix of `a` and `b`.
pub open spec fn hadamard(a: Seq<int>, b: Seq<int>) -> Seq<int> {
    let n = if a.len() < b.len() { a.len() } else { b.len() };
    Seq::new(n, |k: int| (a[k] * b[k]) % modulus())
}

/// The length the witness is padded to: twice its degree, and never less
/// than its own length.
pub open spec fn padded_len(w: Seq<int>) -> nat {
    if w.len() > 2 * poly_degree(w) {
        w.len()
    } else {
        2 * poly_degree(w)
    }
}

/// The witness padded with zeros, the coefficients that are evaluated.
pub open spec fn padded_witness(w: Seq<int>) -> Seq<int> {
    resized(w, padded_len(w))
}

/// The evaluations of the polynomial with coefficients `coeffs` at the
/// successive powers of a primitive root of order `next_pow2(coeffs.len())`.
pub uninterp spec fn evaluations_of(coeffs: Seq<int>) -> Seq<int>;

/// The evaluations of the padded witness; on a domain of one point, its one
/// coefficient (zero for an empty witness); on two points, its values at one
/// and at minus one.
pub open spec fn witness_evaluations(w: Seq<int>) -> Seq<int> {
    let p = padded_witness(w);
    if padded_len(w) <= 1 {
        resized(w, 1)
    } else if padded_len(w) == 2 {
        seq![(p[0] + p[1]) % modulus(), (p[0] - p[1]) % modulus()]
    } else {
        evaluations_of(padded_witness(w))
    }
}

/// The blinded evaluations that the commitment folds.
pub open spec fn commitment_scalars(w: Seq<int>, blinding: Seq<int>) -> Seq<int> {
    hadamard(blinding, witness_evaluations(w))
}

/// What committing to `w` with blinding `blinding` against `srs` gives.
pub open spec fn commitment_result(w: Seq<int>, blinding: Seq<int>, srs: Seq<Point>) -> Result<Point, ProverError> {
    if padded_len(w) > MAX_ROOT_ORDER || padded_len(w) > usize::MAX {
        Err(ProverError::UnsupportedSize)
    } else if blinding.len() != srs.len() || next_pow2(padded_len(w)) != srs.len() {
        Err(ProverError::DimensionMismatch)
    } else {
        Ok(msm_spec(commitment_scalars(w, blinding), srs))
    }
}

/// Relies on lambdaworks' `Polynomial::evaluate_fft` with blowup one and no
/// domain size: the coefficients are zero-padded to the next power of two and
/// evaluated there; it fails only above the field's two-adicity. On a domain
/// of one point the FFT leaves its single input as it is; on two points its
/// one butterfly, with twiddle one, gives `[c0 + c1, c0 - c1]`.
#[verifier::external_body]
fn evaluate(coeffs: &Vec<Scalar>) -> (r: Vec<Scalar>)
    requires
        coeffs@.len() <= MAX_ROOT_ORDER,
        forall|k: int| 0 <= k < coeffs@.len() ==> (#[trigger] coeffs@[k]).wf(),
    ensures
        values(r@) == evaluations_of(values(coeffs@)),
        r@.len() == next_pow2(coeffs@.len()),
        coeffs@.len() <= 1 ==> values(r@) == resized(values(coeffs@), 1),
        coeffs@.len() == 2 ==> values(r@) == seq![
            (coeffs@[0].value() + coeffs@[1].value()) % modulus(),
            (coeffs@[0].value() - coeffs@[1].value()) % modulus(),
        ],
        forall|k: int| 0 <= k < r@.len() ==> (#[trigger] r@[k]).wf(),
{
    let cs = coeffs.iter().map(|k| FieldElement::<FrField>::new(UnsignedInteger { limbs: k.limbs })).collect();
    let evals = Polynomial::evaluate_fft::<FrField>(&Polynomial { coefficients: cs }, 1, None).unwrap();
    evals.iter().map(|e| Scalar { limbs: e.representative().limbs }).collect()
}

/// The elementwise product of `a` and `b` over their common prefix.
pub fn hadamard_product(a: &Vec<Scalar>, b: &Vec<Scalar>) -> (r: Vec<Scalar>)
    requires
        forall|k: int| 0 <= k < a@.len() ==> (#[trigger] a@[k]).wf(),
        forall|k: int| 0 <= k < b@.len() ==> (#[trigger] b@[k]).wf(),
    ensures
        values(r@) == hadamard(values(a@), values(b@)),
        forall|k: int| 0 <= k < r@.len() ==> (#[trigger] r@[k]).wf(),
{
    let n = if a.len() < b.len() { a.len() } else { b.len() };
    let mut r: Vec<Scalar> = Vec::new();
    let mut k: usize = 0;
    while k < n
        invariant
            k <= n,
            n <= a@.len(),
            n <= b@.len(),
            n == (if a@.len() < b@.len() { a@.len() } else { b@.len() }),
            forall|t: int| 0 <= t < a@.len() ==> (#[trigger] a@[t]).wf(),
            forall|t: int| 0 <= t < b@.len() ==> (#[trigger] b@[t]).wf(),
            r@.len() == k,
            forall|t: int| 0 <= t < k ==> (#[trigger] r@[t]).wf(),
            forall|t: int| 0 <= t < k ==> (#[trigger] r@[t]).value() == (a@[t].value() * b@[t].value()) % modulus(),
        decreases n - k,
    {
        r.push(fr_mul(&a[k], &b[k]));
        k = k + 1;
    }
    assert(values(r@) =~= hadamard(values(a@), values(b@)));
    r
}

/// A prover holding a reference string and a witness without trailing zero
/// coefficients.
pub struct Prover {
    pub srs: StructuredReferenceString,
    pub witness: Vec<Scalar>,
}

impl Prover {
    pub open spec fn wf(&self) -> bool {
        &&& self.srs.wf()
        &&& forall|k: int| 0 <= k < self.witness@.len() ==> (#[trigger] self.witness@[k]).wf()
    }

    /// A prover for a witness of `degree` random coefficients.
    pub fn new(srs: StructuredReferenceString, degree: usize) -> (p: Prover)
        requires
            srs.wf(),
        ensures
            p.wf(),
            p.srs == srs,
            exists|drawn: Seq<Scalar>|
                {
                    &&& drawn.len() == degree
                    &&& forall|k: int| 0 <= k < degree ==> (#[trigger] drawn[k]).value() < 0x1_0000_0000_0000_0000int
                    &&& values(p.witness@) == trimmed(#[trigger] values(drawn))
                },
    {
        let w = random_poly(degree);
        Prover::with_witness(srs, w)
    }

    /// Takes `witness` as the coefficients to commit to, lowest degree first,
    /// dropping trailing zeros.
    pub fn with_witness(srs: StructuredReferenceString, witness: Vec<Scalar>) -> (p: Prover)
        requires
            srs.wf(),
            forall|k: int| 0 <= k < witness@.len() ==> (#[trigger] witness@[k]).wf(),
        ensures
            p.wf(),
            p.srs == srs,
            values(p.witness@) == trimmed(values(witness@)),
            p.witness@.len() <= witness@.len(),
    {
        let mut w = witness;
        while w.len() > 0 && w[w.len() - 1].is_zero()
            invariant
                forall|k: int| 0 <= k < w@.len() ==> (#[trigger] w@[k]).wf(),
                trimmed(values(w@)) == trimmed(values(witness@)),
                w@.len() <= witness@.len(),
            decreases w@.len(),
        {
            proof {
                assert(values(w@).drop_last() =~= values(w@.drop_last()));
            }
            w.pop();
        }
        Prover { srs, witness: w }
    }

    /// The commitment to the witness: pad it to twice its degree, evaluate
    /// it over the roots of unity, multiply elementwise by the blinding
    /// polynomial, and fold against the Lagrange points by multi-scalar
    /// multiplication. `UnsupportedSize` when the padded length exceeds
    /// `2^32` or the address space; `DimensionMismatch` unless the blinding polynomial, the
    /// points and the evaluations are equal in number.
    pub fn compute_commitment(&self) -> (r: Result<Point, ProverError>)
        requires
            self.wf(),
        ensures
            r == commitment_result(values(self.witness@), values(self.srs.random_poly@), self.srs.srs_lagrange@),
            r matches Ok(p) ==> p.wf(),
    {
        let ghost w = values(self.witness@);
        let len = self.witness.len();
        let degree: usize = if len == 0 { 0 } else { len - 1 };
        if degree > 0x8000_0000 || len as u64 > MAX_ROOT_ORDER || degree > usize::MAX / 2 {
            return Err(ProverError::UnsupportedSize);
        }
        let target = if len > 2 * degree { len } else { 2 * degree };
        let mut padded: Vec<Scalar> = Vec::new();
        let mut k: usize = 0;
        while k < target
            invariant
                k <= target,
                target == padded_len(w),
                len == self.witness@.len(),
                w == values(self.witness@),
                forall|t: int| 0 <= t < self.witness@.len() ==> (#[trigger] self.witness@[t]).wf(),
                padded@.len() == k,
                forall|t: int| 0 <= t < k ==> (#[trigger] padded@[t]).wf(),
                forall|t: int| 0 <= t < k ==> (#[trigger] padded@[t]).value() == resized(w, target as nat)[t],
            decreases target - k,
        {
            if k < len {
                padded.push(self.witness[k]);
            } else {
                padded.push(Scalar::zero());
            }
            k = k + 1;
        }
        assert(values(padded@) =~= padded_witness(w));
        proof {
            if padded_len(w) <= 1 {
                assert(resized(padded_witness(w), 1) =~= resized(w, 1));
            } else if padded_len(w) == 2 {
                assert(values(padded@)[0] == padded@[0].value());
                assert(values(padded@)[1] == padded@[1].value());
            }
        }
        let evals = evaluate(&padded);
        if self.srs.random_poly.len() != self.srs.srs_lagrange.len() || evals.len() != self.srs.srs_lagrange.len() {
            return Err(ProverError::DimensionMismatch);
        }
        let c = hadamard_product(&self.srs.random_poly, &evals);
        msm(&c, &self.srs.srs_lagrange)
    }
}

/// The commitment to a linear witness `[c0, c1]`, blinded by `[b0, b1]`,
/// against two points is `b0·(c0 + c1)·P1 + b1·(c0 - c1)·P2`: the witness
/// evaluated at the two square roots of one, blinded, and folded.
pub proof fn commitment_of_linear_witness(c0: int, c1: int, b0: int, b1: int, p1: Point, p2: Point)
    requires
        c1 != 0,
    ensures
        commitment_result(seq![c0, c1], seq![b0, b1], seq![p1, p2]) == Ok::<Point, ProverError>(
            combined(
                term(p1, (b0 * ((c0 + c1) % modulus())) % modulus()),
                term(p2, (b1 * ((c0 - c1) % modulus())) % modulus()),
            ),
        ),
{
    let w = seq![c0, c1];
    assert(poly_degree(w) == 1);
    assert(padded_len(w) == 2);
    assert(padded_witness(w) =~= w);
    assert(next_pow2_from(2, 2) == 2);
    assert(next_pow2(2) == 2);
    let ks = commitment_scalars(w, seq![b0, b1]);
    assert(ks =~= seq![(b0 * ((c0 + c1) % modulus())) % modulus(), (b1 * ((c0 - c1) % modulus())) % modulus()]);
    msm_small_cases(ks[0], ks[1], p1, p2);
}

/// Committing is a function of the witness, the blinding polynomial and the
/// points: two commitments to the same inputs are the same point.
pub proof fn commitment_is_deterministic(
    w: Seq<int>,
    blinding: Seq<int>,
    srs: Seq<Point>,
    r1: Result<Point, ProverError>,
    r2: Result<Point, ProverError>,
)
    requires
        r1 == commitment_result(w, blinding, srs),
        r2 == commitment_result(w, blinding, srs),
    ensures
        r1 == r2,
{
}

} // verus!
