//! Polynomial commitments over BLS12-381: a structured reference string in
//! Lagrange basis, and a blinded commitment folded by multi-scalar
//! multiplication.

pub mod commit;
pub mod error;
pub mod field;
pub mod group;
pub mod lagrange;
pub mod persist;
pub mod roots;
pub mod srs;
