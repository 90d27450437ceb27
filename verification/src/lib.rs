//! Arbitrary-precision non-negative integers stored as a sequence of
//! base-2^64 limbs in canonical form, together with a small generic
//! optional-value wrapper and a minimum-finding helper over vectors.

pub mod bigint;
pub mod maybe;
