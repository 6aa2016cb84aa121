//! Roots of unity of the scalar field.
use crate::error::ProverError;
use crate::field::{Scalar, modulus, values};
use lambdaworks_math::elliptic_curve::short_weierstrass::curves::bls12_381::default_types::FrField;
use lambdaworks_math::fft::cpu::roots_of_unity::get_powers_of_primitive_root;
use lambdaworks_math::field::element::FieldElement;
use lambdaworks_math::field::traits::RootsConfig;
use vstd::arithmetic::power::pow;
use vstd::prelude::*;

verus! {

/// The largest supported root order, `2^32` (the field's two-adicity).
pub const MAX_ROOT_ORDER: u64 = 0x1_0000_0000;

/// The field's primitive `2^32`-th root of unity.
pub open spec fn two_adic_root() -> int {
    19308169471636986651809176587083481209878283935056752155349355475164273359799int
}

/// The first `count` powers of the field's primitive `2^32`-th root of unity,
/// in natural order.
pub open spec fn powers_of_root(count: nat) -> Seq<int> {
    Seq::new(count, |i: int| pow(two_adic_root(), i as nat) % modulus())
}

/// The facts about the roots that callers rely on: `count` of them, the first
/// is one, each is the second raised to its index, the second has order
/// exactly `2^32`, and no two are equal.
pub open spec fn roots_shape(r: Seq<int>, count: nat) -> bool {
    &&& r.len() == count
    &&& count > 0 ==> r[0] == 1
    &&& forall|i: int| 0 <= i < count ==> 0 <= #[trigger] r[i] < modulus()
    &&& count > 1 ==> forall|i: int| 0 <= i < count ==> #[trigger] r[i] == pow(r[1], i as nat) % modulus()
    &&& count > 1 ==> pow(r[1], 0x1_0000_0000nat) % modulus() == 1
    &&& count > 1 ==> pow(r[1], 0x8000_0000nat) % modulus() != 1
    &&& forall|i: int, j: int| 0 <= i < j < count ==> r[i] != r[j]
}

/// Relies on lambdaworks' `get_powers_of_primitive_root(32, count, Natural)`:
/// successive powers of the primitive root of order `2^32` (the field's
/// constant `TWO_ADIC_PRIMITVE_ROOT_OF_UNITY`, squared zero times), starting
/// at one, distinct because the root is
/// primitive. It fails only for an order above
/// the field's two-adicity, and 32 is not.
#[verifier::external_body]
fn primitive_root_powers(count: usize) -> (r: Vec<Scalar>)
    requires
        count <= MAX_ROOT_ORDER,
    ensures
        values(r@) == powers_of_root(count as nat),
        roots_shape(values(r@), count as nat),
        forall|i: int| 0 <= i < r@.len() ==> (#[trigger] r@[i]).wf(),
{
    let rs: Vec<FieldElement<FrField>> = get_powers_of_primitive_root(32, count, RootsConfig::Natural).unwrap();
    rs.iter().map(|x| Scalar { limbs: x.representative().limbs }).collect()
}

/// The `degree` consecutive powers of the primitive `2^32`-th root of unity,
/// in natural order; `UnsupportedSize` when `degree` exceeds `2^32`.
pub fn roots_of_unity(degree: usize) -> (r: Result<Vec<Scalar>, ProverError>)
    ensures
        r is Ok <==> degree <= MAX_ROOT_ORDER,
        r matches Err(e) ==> e == ProverError::UnsupportedSize,
        r matches Ok(v) ==> {
            &&& values(v@) == powers_of_root(degree as nat)
            &&& roots_shape(values(v@), degree as nat)
            &&& forall|i: int| 0 <= i < v@.len() ==> (#[trigger] v@[i]).wf()
        },
{
    if degree as u64 > MAX_ROOT_ORDER {
        return Err(ProverError::UnsupportedSize);
    }
    Ok(primitive_root_powers(degree))
}

} // verus!
