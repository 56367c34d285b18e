//! The interface a short-Weierstrass curve plug-in supplies: its parameters
//! and the field arithmetic the codec delegates to.

use vstd::prelude::*;
use vstd::arithmetic::power::pow;
use crate::big_endian::{be_bytes, be_val};

verus! {

/// The mathematical value of an affine point: the identity, or a pair of
/// field-element values.
pub enum PointVal {
    Identity,
    Finite { x: nat, y: nat },
}

/// The right-hand side x^3 + a*x + b of the curve equation, reduced mod p.
pub open spec fn curve_rhs(x: nat, a: nat, b: nat, p: nat) -> nat {
    (x * x * x + a * x + b) % p
}

/// Whether (x, y) satisfies y^2 = x^3 + a*x + b over the field of size p.
pub open spec fn on_curve(x: nat, y: nat, a: nat, b: nat, p: nat) -> bool {
    (y * y) % p == curve_rhs(x, a, b, p)
}

/// Whether y is a square root of v modulo p.
pub open spec fn is_root_of(y: nat, v: nat, p: nat) -> bool {
    y < p && (y * y) % p == v
}

/// Whether y is a square root of v modulo p whose parity matches `odd`.
pub open spec fn is_parity_root(y: nat, v: nat, p: nat, odd: bool) -> bool {
    is_root_of(y, v, p) && (y % 2 == 1) == odd
}

/// A short-Weierstrass curve over a prime field: the curve parameters
/// together with the field arithmetic the codec needs. Implementations
/// prove the stated contracts, so everything built on top of this trait
/// is verified for every conforming curve.
pub trait Curve: Sized {
    /// A field element, known to be reduced modulo the prime whenever
    /// `fe_wf` holds of it.
    type Fe;

    /// The field prime p.
    spec fn prime() -> nat;

    /// Coefficient a of y^2 = x^3 + a*x + b, reduced mod p.
    spec fn coeff_a() -> nat;

    /// Coefficient b of y^2 = x^3 + a*x + b, reduced mod p.
    spec fn coeff_b() -> nat;

    /// N: the byte length of one serialized field element.
    spec fn field_bytes() -> nat;

    /// Whether points are compressed when no preference is given.
    spec fn compress_default() -> bool;

    /// The integer value a field element stands for.
    spec fn fe_val(e: &Self::Fe) -> nat;

    /// Whether a field element is canonical (reduced mod p).
    spec fn fe_wf(e: &Self::Fe) -> bool;

    /// Basic facts about the curve parameters: the prime is odd and
    /// at least 3, the coefficients are reduced, and every field element
    /// fits in N bytes. The bound on N keeps encoded lengths within
    /// machine range.
    proof fn lemma_params()
        ensures
            Self::prime() % 2 == 1,
            2 < Self::prime(),
            Self::coeff_a() < Self::prime(),
            Self::coeff_b() < Self::prime(),
            0 < Self::field_bytes(),
            Self::field_bytes() < 0x10000000,
            Self::prime() <= pow(256, Self::field_bytes()),
    ;

    /// A canonical field element is reduced.
    proof fn lemma_fe_canon(e: &Self::Fe)
        requires
            Self::fe_wf(e),
        ensures
            Self::fe_val(e) < Self::prime(),
    ;

    /// A square has at most two roots mod p, paired as y and p - y.
    /// This is the number-theoretic consequence of p being prime that
    /// decompression rests on; each curve plug-in proves it for its p.
    proof fn lemma_root_pair(y1: nat, y2: nat)
        requires
            y1 < Self::prime(),
            y2 < Self::prime(),
            (y1 * y1) % Self::prime() == (y2 * y2) % Self::prime(),
        ensures
            y1 == y2 || y1 + y2 == Self::prime(),
    ;

    /// Runtime value of N.
    fn byte_len() -> (n: usize)
        ensures
            n == Self::field_bytes(),
    ;

    /// Runtime compression preference.
    fn compressed_by_default() -> (c: bool)
        ensures
            c == Self::compress_default(),
    ;

    /// Parse a big-endian field element, rejecting values at or above p.
    fn fe_from_bytes(bytes: &[u8]) -> (r: Option<Self::Fe>)
        requires
            bytes@.len() == Self::field_bytes(),
        ensures
            match r {
                Some(e) => Self::fe_wf(&e) && Self::fe_val(&e) == be_val(bytes@),
                None => be_val(bytes@) >= Self::prime(),
            },
    ;

    /// Serialize a field element as its canonical N big-endian bytes.
    fn fe_to_bytes(e: &Self::Fe) -> (r: Vec<u8>)
        requires
            Self::fe_wf(e),
        ensures
            r@ == be_bytes(Self::fe_val(e), Self::field_bytes()),
    ;

    /// Duplicate a field element.
    fn fe_clone(e: &Self::Fe) -> (r: Self::Fe)
        requires
            Self::fe_wf(e),
        ensures
            Self::fe_wf(&r),
            Self::fe_val(&r) == Self::fe_val(e),
    ;

    /// Compare two canonical field elements.
    fn fe_eq(e1: &Self::Fe, e2: &Self::Fe) -> (r: bool)
        requires
            Self::fe_wf(e1),
            Self::fe_wf(e2),
        ensures
            r == (Self::fe_val(e1) == Self::fe_val(e2)),
    ;

    /// The least significant bit of a field element's integer value.
    fn fe_is_odd(e: &Self::Fe) -> (r: bool)
        requires
            Self::fe_wf(e),
        ensures
            r == (Self::fe_val(e) % 2 == 1),
    ;

    /// The additive inverse -e mod p.
    fn fe_neg(e: &Self::Fe) -> (r: Self::Fe)
        requires
            Self::fe_wf(e),
        ensures
            Self::fe_wf(&r),
            Self::fe_val(&r) == (Self::prime() - Self::fe_val(e)) % (Self::prime() as int),
    ;

    /// e^2 mod p.
    fn fe_square(e: &Self::Fe) -> (r: Self::Fe)
        requires
            Self::fe_wf(e),
        ensures
            Self::fe_wf(&r),
            Self::fe_val(&r) == (Self::fe_val(e) * Self::fe_val(e)) % Self::prime(),
    ;

    /// x^3 + a*x + b mod p, the curve equation's right-hand side.
    fn fe_curve_rhs(x: &Self::Fe) -> (r: Self::Fe)
        requires
            Self::fe_wf(x),
        ensures
            Self::fe_wf(&r),
            Self::fe_val(&r) == curve_rhs(
                Self::fe_val(x),
                Self::coeff_a(),
                Self::coeff_b(),
                Self::prime(),
            ),
    ;

    /// A modular square root of e, if one exists.
    fn fe_sqrt(e: &Self::Fe) -> (r: Option<Self::Fe>)
        requires
            Self::fe_wf(e),
        ensures
            match r {
                Some(y) => Self::fe_wf(&y) && is_root_of(
                    Self::fe_val(&y),
                    Self::fe_val(e),
                    Self::prime(),
                ),
                None => forall|y: nat| !is_root_of(y, Self::fe_val(e), Self::prime()),
            },
    ;

    /// The field's zero.
    fn fe_zero() -> (r: Self::Fe)
        ensures
            Self::fe_wf(&r),
            Self::fe_val(&r) == 0,
    ;

    /// The field's one.
    fn fe_one() -> (r: Self::Fe)
        ensures
            Self::fe_wf(&r),
            Self::fe_val(&r) == 1,
    ;
}

} // verus!
