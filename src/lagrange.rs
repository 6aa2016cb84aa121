//! Conversion of a reference string from monomial to Lagrange basis, carried
//! out on group elements so that the secret behind them is never rebuilt.
use crate::error::ProverError;
use crate::field::{Scalar, fr_mul, fr_pow, modulus, resized, values};
use vstd::arithmetic::power::pow;
use crate::group::{Point, all_wf, combined, neutral, term};
use crate::roots::{MAX_ROOT_ORDER, powers_of_root, roots_of_unity, roots_shape};
use lambdaworks_math::elliptic_curve::short_weierstrass::curves::bls12_381::default_types::FrField;
use lambdaworks_math::field::element::FieldElement;
use lambdaworks_math::polynomial::Polynomial;
use lambdaworks_math::unsigned_integer::element::UnsignedInteger;
use vstd::prelude::*;

verus! {

/// `Σ_{j < n} x^j · a[j]`: the first `n` points taken as the coefficients of a
/// polynomial and evaluated in the exponent at `x`, accumulated from the
/// neutral element in index order.
pub open spec fn eval_in_exponent(a: Seq<Point>, x: int, n: int) -> Point
    decreases n,
{
    if n <= 0 {
        neutral()
    } else {
        combined(eval_in_exponent(a, x, n - 1), term(a[n - 1], pow(x, (n - 1) as nat) % modulus()))
    }
}

/// The Lagrange-basis points: the monomial-basis points `a` evaluated in the
/// exponent at each root of `r`.
pub open spec fn lagrange_basis(a: Seq<Point>, r: Seq<int>) -> Seq<Point> {
    Seq::new(r.len(), |i: int| eval_in_exponent(a, r[i], a.len() as int))
}

proof fn lemma_next_power(x: int, j: nat)
    requires
        0 <= x < modulus(),
    ensures
        ((pow(x, j) % modulus()) * x) % modulus() == pow(x, j + 1) % modulus(),
{
    reveal(pow);
    vstd::arithmetic::div_mod::lemma_mul_mod_noop_left(pow(x, j), x, modulus());
    assert(pow(x, j + 1) == x * pow(x, j));
}

/// Output `i`, each power of the root formed from the one before.
fn evaluate_with_running_power(a: &Vec<Point>, x: &Scalar) -> (p: Point)
    requires
        all_wf(a@),
        x.wf(),
    ensures
        p.wf(),
        p == eval_in_exponent(a@, x.value(), a@.len() as int),
{
    let mut acc = Point::neutral();
    let mut power = Scalar::one();
    let mut j: usize = 0;
    proof {
        reveal(pow);
    }
    while j < a.len()
        invariant
            j <= a@.len(),
            all_wf(a@),
            x.wf(),
            power.wf(),
            power.value() == pow(x.value(), j as nat) % modulus(),
            acc.wf(),
            acc == eval_in_exponent(a@, x.value(), j as int),
        decreases a@.len() - j,
    {
        let t = a[j].scale(&power);
        acc = acc.combine(&t);
        proof {
            lemma_next_power(x.value(), j as nat);
        }
        power = fr_mul(&power, x);
        j = j + 1;
    }
    acc
}

/// Output `i`, each power of the root raised on the spot.
fn evaluate_with_direct_power(a: &Vec<Point>, x: &Scalar) -> (p: Point)
    requires
        all_wf(a@),
        x.wf(),
    ensures
        p.wf(),
        p == eval_in_exponent(a@, x.value(), a@.len() as int),
{
    let mut acc = Point::neutral();
    let mut j: usize = 0;
    while j < a.len()
        invariant
            j <= a@.len(),
            all_wf(a@),
            x.wf(),
            acc.wf(),
            acc == eval_in_exponent(a@, x.value(), j as int),
        decreases a@.len() - j,
    {
        let w = fr_pow(x, j as u64);
        let t = a[j].scale(&w);
        acc = acc.combine(&t);
        j = j + 1;
    }
    acc
}

/// Converts `degree` monomial-basis points to Lagrange basis: output `i` is
/// the input evaluated in the exponent at the `i`-th power of the primitive
/// root. Each output accumulates its powers of the root as it goes, one
/// multiplication per term.
pub fn monomial_to_lagrange_pre_computation(a: &Vec<Point>, degree: u64) -> (r: Result<Vec<Point>, ProverError>)
    requires
        all_wf(a@),
    ensures
        r matches Err(e) ==> (e == ProverError::UnsupportedSize <==> degree > MAX_ROOT_ORDER),
        r matches Err(e) ==> (e == ProverError::DimensionMismatch <==> (degree <= MAX_ROOT_ORDER && a@.len() != degree)),
        r is Ok <==> (degree <= MAX_ROOT_ORDER && a@.len() == degree),
        r matches Ok(v) ==> {
            &&& v@.len() == degree
            &&& v@ == lagrange_basis(a@, powers_of_root(degree as nat))
            &&& roots_shape(powers_of_root(degree as nat), degree as nat)
            &&& all_wf(v@)
        },
{
    if degree > MAX_ROOT_ORDER {
        return Err(ProverError::UnsupportedSize);
    }
    if a.len() as u64 != degree {
        return Err(ProverError::DimensionMismatch);
    }
    let n = a.len();
    let roots = match roots_of_unity(n) {
        Ok(v) => v,
        Err(e) => return Err(e),
    };
    let ghost rv = values(roots@);
    let mut out: Vec<Point> = Vec::new();
    let mut i: usize = 0;
    while i < n
        invariant
            i <= n,
            n == roots@.len(),
            n == a@.len(),
            rv == values(roots@),
            all_wf(a@),
            forall|k: int| 0 <= k < roots@.len() ==> (#[trigger] roots@[k]).wf(),
            out@.len() == i,
            all_wf(out@),
            forall|k: int| 0 <= k < i ==> #[trigger] out@[k] == eval_in_exponent(a@, rv[k], n as int),
        decreases n - i,
    {
        let p = evaluate_with_running_power(a, &roots[i]);
        out.push(p);
        i = i + 1;
    }
    assert(out@ =~= lagrange_basis(a@, powers_of_root(degree as nat)));
    Ok(out)
}

/// Converts `degree` monomial-basis points to Lagrange basis, as
/// `monomial_to_lagrange_pre_computation` does, raising the root to each
/// power directly.
pub fn monomial_to_lagrange(a: &Vec<Point>, degree: u64) -> (r: Result<Vec<Point>, ProverError>)
    requires
        all_wf(a@),
    ensures
        r matches Err(e) ==> (e == ProverError::UnsupportedSize <==> degree > MAX_ROOT_ORDER),
        r matches Err(e) ==> (e == ProverError::DimensionMismatch <==> (degree <= MAX_ROOT_ORDER && a@.len() != degree)),
        r is Ok <==> (degree <= MAX_ROOT_ORDER && a@.len() == degree),
        r matches Ok(v) ==> {
            &&& v@.len() == degree
            &&& v@ == lagrange_basis(a@, powers_of_root(degree as nat))
            &&& roots_shape(powers_of_root(degree as nat), degree as nat)
            &&& all_wf(v@)
        },
{
    if degree > MAX_ROOT_ORDER {
        return Err(ProverError::UnsupportedSize);
    }
    if a.len() as u64 != degree {
        return Err(ProverError::DimensionMismatch);
    }
    let n = a.len();
    let roots = match roots_of_unity(n) {
        Ok(v) => v,
        Err(e) => return Err(e),
    };
    let ghost rv = values(roots@);
    let mut out: Vec<Point> = Vec::new();
    let mut i: usize = 0;
    while i < n
        invariant
            i <= n,
            n == roots@.len(),
            n == a@.len(),
            rv == values(roots@),
            all_wf(a@),
            forall|k: int| 0 <= k < roots@.len() ==> (#[trigger] roots@[k]).wf(),
            out@.len() == i,
            all_wf(out@),
            forall|k: int| 0 <= k < i ==> #[trigger] out@[k] == eval_in_exponent(a@, rv[k], n as int),
        decreases n - i,
    {
        let p = evaluate_with_direct_power(a, &roots[i]);
        out.push(p);
        i = i + 1;
    }
    assert(out@ =~= lagrange_basis(a@, powers_of_root(degree as nat)));
    Ok(out)
}

/// `n` is a power of two.
pub open spec fn is_power_of_two(n: nat) -> bool
    decreases n,
{
    if n == 1 {
        true
    } else if n == 0 || n % 2 == 1 {
        false
    } else {
        is_power_of_two(n / 2)
    }
}

fn check_power_of_two(n: usize) -> (b: bool)
    ensures
        b == is_power_of_two(n as nat),
{
    let mut m = n;
    while m != 1 && m != 0 && m % 2 == 0
        invariant
            is_power_of_two(m as nat) == is_power_of_two(n as nat),
        decreases m,
    {
        m = m / 2;
    }
    m == 1
}

/// The coefficients of the polynomial that takes value `evals[i]` at `w^i`,
/// `w` a primitive root of order `evals.len()`, trailing zeros removed.
pub uninterp spec fn interpolation_of(evals: Seq<int>) -> Seq<int>;

/// Relies on lambdaworks' `Polynomial::interpolate_fft`, which succeeds on a
/// power-of-two length up to the field's two-adicity and strips trailing zero
/// coefficients.
#[verifier::external_body]
fn interpolate(evals: &Vec<Scalar>) -> (r: Vec<Scalar>)
    requires
        is_power_of_two(evals@.len()),
        evals@.len() <= MAX_ROOT_ORDER,
        forall|k: int| 0 <= k < evals@.len() ==> (#[trigger] evals@[k]).wf(),
    ensures
        values(r@) == interpolation_of(values(evals@)),
        r@.len() <= evals@.len(),
        forall|k: int| 0 <= k < r@.len() ==> (#[trigger] r@[k]).wf(),
{
    let fs: Vec<FieldElement<FrField>> = evals.iter().map(|k| FieldElement::new(UnsignedInteger { limbs: k.limbs })).collect();
    let poly = Polynomial::interpolate_fft::<FrField>(&fs).unwrap();
    poly.coefficients.iter().map(|c| Scalar { limbs: c.representative().limbs }).collect()
}

/// Interpolates `a` (values at successive powers of a primitive root of
/// order `a.len()`) into `a.len()` coefficients, zeros past the last nonzero
/// one, and scales `generator` by each of them.
/// `UnsupportedSize` unless the length is a power of two no larger than `2^32`.
pub fn fft_over_ec(a: &Vec<Scalar>, generator: Point) -> (r: Result<Vec<Point>, ProverError>)
    requires
        forall|k: int| 0 <= k < a@.len() ==> (#[trigger] a@[k]).wf(),
        generator.wf(),
    ensures
        r is Ok <==> (is_power_of_two(a@.len()) && a@.len() <= MAX_ROOT_ORDER),
        r matches Err(e) ==> e == ProverError::UnsupportedSize,
        r matches Ok(v) ==> {
            let c = resized(interpolation_of(values(a@)), a@.len());
            &&& v@.len() == a@.len()
            &&& all_wf(v@)
            &&& forall|k: int| 0 <= k < a@.len() ==> #[trigger] v@[k] == term(generator, c[k])
        },
{
    if !check_power_of_two(a.len()) || a.len() as u64 > MAX_ROOT_ORDER {
        return Err(ProverError::UnsupportedSize);
    }
    let coeffs = interpolate(a);
    let ghost c = resized(values(coeffs@), a@.len());
    let zero = Scalar::zero();
    let mut out: Vec<Point> = Vec::new();
    let mut k: usize = 0;
    while k < a.len()
        invariant
            k <= a@.len(),
            coeffs@.len() <= a@.len(),
            c == resized(values(coeffs@), a@.len()),
            generator.wf(),
            zero.wf(),
            zero.value() == 0,
            forall|t: int| 0 <= t < coeffs@.len() ==> (#[trigger] coeffs@[t]).wf(),
            out@.len() == k,
            all_wf(out@),
            forall|t: int| 0 <= t < k ==> #[trigger] out@[t] == term(generator, c[t]),
        decreases a@.len() - k,
    {
        let coefficient = if k < coeffs.len() { &coeffs[k] } else { &zero };
        let p = generator.scale(coefficient);
        out.push(p);
        k = k + 1;
    }
    Ok(out)
}

} // verus!
