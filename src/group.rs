//! Points of the BLS12-381 curve in homogeneous projective coordinates, and
//! multi-scalar multiplication over them.
use crate::error::ProverError;
use crate::field::{Scalar, values};
use lambdaworks_math::cyclic_group::IsGroup;
use lambdaworks_math::elliptic_curve::short_weierstrass::curves::bls12_381::curve::BLS12381Curve;
use lambdaworks_math::elliptic_curve::short_weierstrass::curves::bls12_381::field_extension::BLS12381PrimeField;
use lambdaworks_math::elliptic_curve::short_weierstrass::point::ShortWeierstrassProjectivePoint;
use lambdaworks_math::elliptic_curve::traits::IsEllipticCurve;
use lambdaworks_math::field::element::FieldElement;
use lambdaworks_math::msm::naive::msm as naive_msm;
use lambdaworks_math::unsigned_integer::element::UnsignedInteger;
use vstd::prelude::*;

verus! {

type Curve = ShortWeierstrassProjectivePoint<BLS12381Curve>;

type Fq = FieldElement<BLS12381PrimeField>;

/// The order of the base field, in which the coordinates live.
pub open spec fn base_modulus() -> int {
    4002409555221667393417789825735904156556882819939007885332058136124031650490837864442687629129015664037894272559787int
}

/// The integer that six limbs (most significant first) stand for.
pub open spec fn limbs6_value(l: [u64; 6]) -> int {
    l[5] as int + l[4] as int * 0x1_0000_0000_0000_0000int + l[3] as int
        * 0x1_0000_0000_0000_0000_0000_0000_0000_0000int + l[2] as int
        * 0x1_0000_0000_0000_0000_0000_0000_0000_0000_0000_0000_0000_0000int + l[1] as int
        * 0x1_0000_0000_0000_0000_0000_0000_0000_0000_0000_0000_0000_0000_0000_0000_0000_0000int
        + l[0] as int
        * 0x1_0000_0000_0000_0000_0000_0000_0000_0000_0000_0000_0000_0000_0000_0000_0000_0000_0000_0000_0000_0000int
}

/// A curve point `[x : y : z]`; each coordinate is the canonical
/// representative of a base-field element, six limbs, most significant first.
#[derive(Clone, Copy, Debug, PartialEq, Eq)]
pub struct Point {
    pub x: [u64; 6],
    pub y: [u64; 6],
    pub z: [u64; 6],
}

impl Point {
    /// Every coordinate is reduced.
    pub open spec fn reduced(self) -> bool {
        &&& limbs6_value(self.x) < base_modulus()
        &&& limbs6_value(self.y) < base_modulus()
        &&& limbs6_value(self.z) < base_modulus()
    }

    /// The coordinates are those of a curve point: a finite point satisfying
    /// `y^2·z = x^3 + 4·z^3`, or a point at infinity `[0 : y : 0]`.
    pub open spec fn on_curve(self) -> bool {
        let (x, y, z) = (limbs6_value(self.x), limbs6_value(self.y), limbs6_value(self.z));
        ||| z != 0 && (y * y * z - x * x * x - 4 * z * z * z) % base_modulus() == 0
        ||| x == 0 && z == 0
    }

    /// Reduced coordinates of a curve point.
    pub open spec fn wf(self) -> bool {
        self.reduced() && self.on_curve()
    }

    /// The point lies at infinity (`z == 0`).
    pub open spec fn at_infinity(self) -> bool {
        limbs6_value(self.z) == 0
    }

    pub fn is_neutral(&self) -> (r: bool)
        ensures
            r == self.at_infinity(),
    {
        self.z[0] == 0 && self.z[1] == 0 && self.z[2] == 0 && self.z[3] == 0 && self.z[4] == 0
            && self.z[5] == 0
    }

    /// The group operation; a point at infinity on either side gives back
    /// the other operand.
    pub fn combine(&self, o: &Point) -> (r: Point)
        requires
            self.wf(),
            o.wf(),
        ensures
            r == combined(*self, *o),
            r.wf(),
    {
        if o.is_neutral() {
            *self
        } else if self.is_neutral() {
            *o
        } else {
            point_add(self, o)
        }
    }

    /// `k` times this point: the neutral element for a point at infinity or
    /// for zero, the point itself for one.
    pub fn scale(&self, k: &Scalar) -> (r: Point)
        requires
            self.wf(),
            k.wf(),
        ensures
            r == term(*self, k.value()),
            r.wf(),
    {
        if self.is_neutral() || k.is_zero() {
            Point::neutral()
        } else if k.is_one() {
            *self
        } else {
            point_mul(self, k)
        }
    }

    /// The standard generator of the prime-order subgroup.
    pub fn generator() -> (r: Point)
        ensures
            r == generator_point(),
            r.wf(),
            !r.at_infinity(),
    {
        generator()
    }

    /// The neutral element `[0 : 1 : 0]`.
    pub fn neutral() -> (r: Point)
        ensures
            r == neutral(),
            r.wf(),
            r.at_infinity(),
    {
        Point { x: [0, 0, 0, 0, 0, 0], y: [0, 0, 0, 0, 0, 1], z: [0, 0, 0, 0, 0, 0] }
    }
}

/// The standard generator of the prime-order subgroup, in affine form.
pub open spec fn generator_point() -> Point {
    Point {
        x: [0x17f1d3a73197d794, 0x2695638c4fa9ac0f, 0xc3688c4f9774b905, 0xa14e3a3f171bac58, 0x6c55e83ff97a1aef, 0xfb3af00adb22c6bb],
        y: [0x08b3f481e3aaa0f1, 0xa09e30ed741d8ae4, 0xfcf5e095d5d00af6, 0x00db18cb2c04b3ed, 0xd03cc744a2888ae4, 0x0caa232946c5e7e1],
        z: [0, 0, 0, 0, 0, 1],
    }
}

/// The neutral element `[0 : 1 : 0]`.
pub open spec fn neutral() -> Point {
    Point { x: [0, 0, 0, 0, 0, 0], y: [0, 0, 0, 0, 0, 1], z: [0, 0, 0, 0, 0, 0] }
}

/// What the curve's group operation gives on two points, in its coordinates.
pub uninterp spec fn point_sum(a: Point, b: Point) -> Point;

/// What scalar multiplication of `p` by the integer `k` gives, in its
/// coordinates.
pub uninterp spec fn point_scaled(p: Point, k: int) -> Point;

/// `k·p`, with the cases that need no curve arithmetic written out: a point
/// at infinity or a zero factor gives the neutral element, a factor of one
/// the point itself.
pub open spec fn term(p: Point, k: int) -> Point {
    if p.at_infinity() || k == 0 {
        neutral()
    } else if k == 1 {
        p
    } else {
        point_scaled(p, k)
    }
}

/// `a + b`, where a point at infinity on either side gives the other operand.
pub open spec fn combined(a: Point, b: Point) -> Point {
    if b.at_infinity() {
        a
    } else if a.at_infinity() {
        b
    } else {
        point_sum(a, b)
    }
}

/// The sum `k_0·p_0 + k_1·p_1 + ...`, folded from the left starting at the
/// first term; the empty sum is the neutral element.
pub open spec fn msm_spec(ks: Seq<int>, ps: Seq<Point>) -> Point
    decreases ks.len(),
{
    if ks.len() == 0 || ps.len() == 0 {
        neutral()
    } else if ks.len() == 1 || ps.len() == 1 {
        term(ps[0], ks[0])
    } else {
        combined(msm_spec(ks.drop_last(), ps.drop_last()), term(ps.last(), ks.last()))
    }
}

pub open spec fn all_wf(ps: Seq<Point>) -> bool {
    forall|i: int| 0 <= i < ps.len() ==> (#[trigger] ps[i]).wf()
}

/// Relies on lambdaworks' `IsGroup::operate_with` for projective points: a
/// point at infinity on either side hands back the other operand. On curve
/// points its debug assertion holds; the sum of two finite points is finite
/// or `[0 : 1 : 0]`, and a doubling that reaches infinity has `x == 0`, so the
/// result is again a curve point.
#[verifier::external_body]
pub(crate) fn point_add(a: &Point, b: &Point) -> (r: Point)
    requires
        a.wf(),
        b.wf(),
    ensures
        r == point_sum(*a, *b),
        r.wf(),
        b.at_infinity() ==> r == *a,
        !b.at_infinity() && a.at_infinity() ==> r == *b,
{
    let to = |p: &Point| Curve::new_unchecked([Fq::new(UnsignedInteger { limbs: p.x }), Fq::new(UnsignedInteger { limbs: p.y }), Fq::new(UnsignedInteger { limbs: p.z })]);
    let q = to(a).operate_with(&to(b));
    Point { x: q.x().representative().limbs, y: q.y().representative().limbs, z: q.z().representative().limbs }
}

/// Relies on lambdaworks' `IsGroup::operate_with_self` (double and add from
/// the neutral element): by zero it gives the neutral element, by one the
/// neutral element operated with `p`. Every step is `operate_with` on curve
/// points, so the result is a curve point.
#[verifier::external_body]
pub(crate) fn point_mul(p: &Point, k: &Scalar) -> (r: Point)
    requires
        p.wf(),
    ensures
        r == point_scaled(*p, k.value()),
        r.wf(),
        k.value() == 0 ==> r == neutral(),
        k.value() == 1 ==> r == point_sum(neutral(), *p),
{
    let to = |p: &Point| Curve::new_unchecked([Fq::new(UnsignedInteger { limbs: p.x }), Fq::new(UnsignedInteger { limbs: p.y }), Fq::new(UnsignedInteger { limbs: p.z })]);
    let q = to(p).operate_with_self(UnsignedInteger { limbs: k.limbs });
    Point { x: q.x().representative().limbs, y: q.y().representative().limbs, z: q.z().representative().limbs }
}

/// Relies on `BLS12381Curve::generator`, the standard generator of the
/// prime-order subgroup, a finite curve point given by its affine
/// coordinates.
#[verifier::external_body]
pub(crate) fn generator() -> (r: Point)
    ensures
        r == generator_point(),
        r.wf(),
        !r.at_infinity(),
{
    let q = BLS12381Curve::generator();
    Point { x: q.x().representative().limbs, y: q.y().representative().limbs, z: q.z().representative().limbs }
}

/// Relies on lambdaworks' `ShortWeierstrassProjectivePoint::new`, which
/// accepts a finite point satisfying `y^2·z = x^3 + 4·z^3` or a point
/// `[0 : y : 0]`, and refuses every other with `InvalidPoint`.
#[verifier::external_body]
pub(crate) fn is_curve_point(p: &Point) -> (r: bool)
    requires
        p.reduced(),
    ensures
        r == p.on_curve(),
{
    Curve::new([Fq::new(UnsignedInteger { limbs: p.x }), Fq::new(UnsignedInteger { limbs: p.y }), Fq::new(UnsignedInteger { limbs: p.z })]).is_ok()
}

/// Relies on lambdaworks' `msm::naive::msm`: each point times its scalar,
/// reduced left to right with the group operation, the neutral element when
/// empty. It fails only on a length mismatch, which is excluded here.
/// `operate_with_self` gives `[0 : 1 : 0]` for a factor of zero or a point at
/// infinity and the point itself for a factor of one; `operate_with` gives
/// back one operand when the other is at infinity.
#[verifier::external_body]
fn naive_msm_call(ks: &Vec<Scalar>, ps: &Vec<Point>) -> (r: Point)
    requires
        ks@.len() == ps@.len(),
        all_wf(ps@),
    ensures
        r == msm_spec(values(ks@), ps@),
        r.wf(),
{
    let cs: Vec<UnsignedInteger<4>> = ks.iter().map(|k| UnsignedInteger { limbs: k.limbs }).collect();
    let to = |p: &Point| Curve::new_unchecked([Fq::new(UnsignedInteger { limbs: p.x }), Fq::new(UnsignedInteger { limbs: p.y }), Fq::new(UnsignedInteger { limbs: p.z })]);
    let qs: Vec<Curve> = ps.iter().map(to).collect();
    let q = naive_msm(&cs, &qs).unwrap();
    Point { x: q.x().representative().limbs, y: q.y().representative().limbs, z: q.z().representative().limbs }
}

/// Multi-scalar multiplication `Σ ks[i]·ps[i]`; the neutral element when both
/// are empty, `LengthMismatch` when their lengths differ.
pub fn msm(ks: &Vec<Scalar>, ps: &Vec<Point>) -> (r: Result<Point, ProverError>)
    requires
        all_wf(ps@),
    ensures
        ks@.len() != ps@.len() <==> r is Err,
        r matches Err(e) ==> e == ProverError::LengthMismatch,
        r matches Ok(p) ==> p == msm_spec(values(ks@), ps@) && p.wf(),
{
    if ks.len() != ps.len() {
        return Err(ProverError::LengthMismatch);
    }
    Ok(naive_msm_call(ks, ps))
}

/// Multi-scalar multiplication of no pairs is the neutral element; of one
/// pair it is that one product, and for the factor one and a finite point the
/// point itself; of two pairs it is the group sum of the two products.
pub proof fn msm_small_cases(k1: int, k2: int, p1: Point, p2: Point)
    ensures
        msm_spec(Seq::empty(), Seq::empty()) == neutral(),
        msm_spec(seq![k1], seq![p1]) == term(p1, k1),
        !p1.at_infinity() ==> msm_spec(seq![1int], seq![p1]) == p1,
        msm_spec(seq![k1, k2], seq![p1, p2]) == combined(term(p1, k1), term(p2, k2)),
{
    assert(seq![k1, k2].drop_last() =~= seq![k1]);
    assert(seq![p1, p2].drop_last() =~= seq![p1]);
    assert(seq![k1, k2].last() == k2);
    assert(seq![p1, p2].last() == p2);
    assert(msm_spec(seq![k1], seq![p1]) == term(p1, k1));
}

} // verus!
