//! The scalar field of BLS12-381, held as its canonical representative.
use lambdaworks_math::elliptic_curve::short_weierstrass::curves::bls12_381::default_types::FrField;
use lambdaworks_math::field::element::FieldElement;
use lambdaworks_math::unsigned_integer::element::UnsignedInteger;
use vstd::arithmetic::power::pow;
use vstd::prelude::*;

verus! {

/// The order of the scalar field (and of the curve's prime subgroup).
pub open spec fn modulus() -> int {
    52435875175126190479447740508185965837690552500527637822603658699938581184513int
}

/// The multiplicative inverse of `a` in the scalar field, by Fermat's little
/// theorem; zero has none and maps to zero.
pub open spec fn field_inv(a: int) -> int {
    pow(a, (modulus() - 2) as nat) % modulus()
}

/// An element of the scalar field: four 64-bit limbs of its canonical
/// representative, most significant limb first.
#[derive(Clone, Copy, Debug, PartialEq, Eq)]
pub struct Scalar {
    pub limbs: [u64; 4],
}

/// The integer that four limbs (most significant first) stand for.
pub open spec fn limbs4_value(l: [u64; 4]) -> int {
    l[3] as int + l[2] as int * 0x1_0000_0000_0000_0000int + l[1] as int
        * 0x1_0000_0000_0000_0000_0000_0000_0000_0000int + l[0] as int
        * 0x1_0000_0000_0000_0000_0000_0000_0000_0000_0000_0000_0000_0000int
}

impl Scalar {
    pub open spec fn value(self) -> int {
        limbs4_value(self.limbs)
    }

    /// The representative is reduced.
    pub open spec fn wf(self) -> bool {
        self.value() < modulus()
    }

    /// The field element `n`.
    pub fn from_u64(n: u64) -> (r: Scalar)
        ensures
            r.wf(),
            r.value() == n as int,
    {
        Scalar { limbs: [0, 0, 0, n] }
    }

    pub fn zero() -> (r: Scalar)
        ensures
            r.wf(),
            r.value() == 0,
    {
        Scalar::from_u64(0)
    }

    pub fn one() -> (r: Scalar)
        ensures
            r.wf(),
            r.value() == 1,
    {
        Scalar::from_u64(1)
    }

    /// The multiplicative inverse, or zero for zero.
    pub fn inverse_or_zero(&self) -> (r: Scalar)
        requires
            self.wf(),
        ensures
            r.wf(),
            r.value() == field_inv(self.value()),
    {
        if self.is_zero() {
            proof {
                vstd::arithmetic::power::lemma0_pow((modulus() - 2) as nat);
            }
            Scalar::zero()
        } else {
            fr_inv(self)
        }
    }

    /// `self + o` in the field.
    pub fn plus(&self, o: &Scalar) -> (r: Scalar)
        requires
            self.wf(),
            o.wf(),
        ensures
            r.wf(),
            r.value() == (self.value() + o.value()) % modulus(),
    {
        fr_add(self, o)
    }

    /// `self - o` in the field.
    pub fn minus(&self, o: &Scalar) -> (r: Scalar)
        requires
            self.wf(),
            o.wf(),
        ensures
            r.wf(),
            r.value() == (self.value() - o.value()) % modulus(),
    {
        fr_sub(self, o)
    }

    /// `self · o` in the field.
    pub fn times(&self, o: &Scalar) -> (r: Scalar)
        requires
            self.wf(),
            o.wf(),
        ensures
            r.wf(),
            r.value() == (self.value() * o.value()) % modulus(),
    {
        fr_mul(self, o)
    }

    /// `self^e` in the field.
    pub fn power(&self, e: u64) -> (r: Scalar)
        requires
            self.wf(),
        ensures
            r.wf(),
            r.value() == pow(self.value(), e as nat) % modulus(),
    {
        fr_pow(self, e)
    }

    pub fn is_one(&self) -> (r: bool)
        ensures
            r == (self.value() == 1),
    {
        self.limbs[0] == 0 && self.limbs[1] == 0 && self.limbs[2] == 0 && self.limbs[3] == 1
    }

    pub fn is_zero(&self) -> (r: bool)
        ensures
            r == (self.value() == 0),
    {
        self.limbs[0] == 0 && self.limbs[1] == 0 && self.limbs[2] == 0 && self.limbs[3] == 0
    }
}

/// The integers that a sequence of scalars stands for.
pub open spec fn values(s: Seq<Scalar>) -> Seq<int> {
    s.map_values(|k: Scalar| k.value())
}

/// `s` cut or extended with zeros to length `n`.
pub open spec fn resized(s: Seq<int>, n: nat) -> Seq<int> {
    Seq::new(n, |k: int| if k < s.len() { s[k] } else { 0 })
}

/// Relies on lambdaworks' `FieldElement<FrField>` addition.
#[verifier::external_body]
pub(crate) fn fr_add(a: &Scalar, b: &Scalar) -> (r: Scalar)
    requires
        a.wf(),
        b.wf(),
    ensures
        r.wf(),
        r.value() == (a.value() + b.value()) % modulus(),
{
    let x = FieldElement::<FrField>::new(UnsignedInteger { limbs: a.limbs });
    let y = FieldElement::<FrField>::new(UnsignedInteger { limbs: b.limbs });
    Scalar { limbs: (&x + &y).representative().limbs }
}

/// Relies on lambdaworks' `FieldElement<FrField>` subtraction.
#[verifier::external_body]
pub(crate) fn fr_sub(a: &Scalar, b: &Scalar) -> (r: Scalar)
    requires
        a.wf(),
        b.wf(),
    ensures
        r.wf(),
        r.value() == (a.value() - b.value()) % modulus(),
{
    let x = FieldElement::<FrField>::new(UnsignedInteger { limbs: a.limbs });
    let y = FieldElement::<FrField>::new(UnsignedInteger { limbs: b.limbs });
    Scalar { limbs: (&x - &y).representative().limbs }
}

/// Relies on lambdaworks' `FieldElement<FrField>` multiplication.
#[verifier::external_body]
pub(crate) fn fr_mul(a: &Scalar, b: &Scalar) -> (r: Scalar)
    requires
        a.wf(),
        b.wf(),
    ensures
        r.wf(),
        r.value() == (a.value() * b.value()) % modulus(),
{
    let x = FieldElement::<FrField>::new(UnsignedInteger { limbs: a.limbs });
    let y = FieldElement::<FrField>::new(UnsignedInteger { limbs: b.limbs });
    Scalar { limbs: (&x * &y).representative().limbs }
}

/// Relies on lambdaworks' `FieldElement::inv`, which fails on zero alone; in
/// a prime field the inverse is unique and equals `a^(r-2)`.
#[verifier::external_body]
pub(crate) fn fr_inv(a: &Scalar) -> (r: Scalar)
    requires
        a.wf(),
        a.value() != 0,
    ensures
        r.wf(),
        (r.value() * a.value()) % modulus() == 1,
        r.value() == field_inv(a.value()),
{
    let x = FieldElement::<FrField>::new(UnsignedInteger { limbs: a.limbs });
    Scalar { limbs: x.inv().unwrap().representative().limbs }
}

/// Relies on lambdaworks' `FieldElement::pow` with a `u64` exponent.
#[verifier::external_body]
pub(crate) fn fr_pow(a: &Scalar, e: u64) -> (r: Scalar)
    requires
        a.wf(),
    ensures
        r.wf(),
        r.value() == pow(a.value(), e as nat) % modulus(),
{
    let x = FieldElement::<FrField>::new(UnsignedInteger { limbs: a.limbs });
    Scalar { limbs: x.pow(e).representative().limbs }
}

} // verus!
