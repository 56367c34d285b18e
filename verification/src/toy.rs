//! A tiny demonstration curve, y^2 = x^3 + x over the 23-element field.
//!
//! The field is small enough that every trait obligation, including the
//! square-root search and the two-roots-only property of the prime
//! modulus, is proved outright. It exists so that the codec can be
//! exercised end to end; real deployments plug in their own curve.

use vstd::prelude::*;
use vstd::arithmetic::div_mod::lemma_small_mod;
use vstd::arithmetic::power::lemma_pow1;
use crate::big_endian::{be_bytes, be_val};
use crate::curve::{curve_rhs, is_root_of, Curve};

verus! {

/// The curve y^2 = x^3 + x over the field of 23 elements, with 1-byte
/// field elements.
pub struct ToyCurve;

/// Two roots of the same square mod 23 coincide or are negatives of one
/// another. Checked exhaustively: 23 is prime.
proof fn lemma_root_pair_mod23(u: u8, v: u8)
    by (bit_vector)
    requires
        u < 23,
        v < 23,
        (u * u) % 23 == (v * v) % 23,
    ensures
        u == v || u + v == 23,
{
}

impl Curve for ToyCurve {
    type Fe = u8;

    open spec fn prime() -> nat {
        23
    }

    open spec fn coeff_a() -> nat {
        1
    }

    open spec fn coeff_b() -> nat {
        0
    }

    open spec fn field_bytes() -> nat {
        1
    }

    open spec fn compress_default() -> bool {
        true
    }

    open spec fn fe_val(e: &u8) -> nat {
        *e as nat
    }

    open spec fn fe_wf(e: &u8) -> bool {
        *e < 23
    }

    proof fn lemma_params() {
        lemma_pow1(256);
    }

    proof fn lemma_fe_canon(e: &u8) {
    }

    proof fn lemma_root_pair(y1: nat, y2: nat) {
        let u = y1 as u8;
        let v = y2 as u8;
        lemma_root_pair_mod23(u, v);
    }

    fn byte_len() -> (n: usize) {
        1
    }

    fn compressed_by_default() -> (c: bool) {
        true
    }

    fn fe_from_bytes(bytes: &[u8]) -> (r: Option<u8>) {
        let b = bytes[0];
        proof {
            reveal_with_fuel(be_val, 2);
            assert(bytes@.drop_last() =~= Seq::<u8>::empty());
            assert(be_val(bytes@) == b);
        }
        if b < 23 {
            Some(b)
        } else {
            None
        }
    }

    fn fe_to_bytes(e: &u8) -> (r: Vec<u8>) {
        let mut out: Vec<u8> = Vec::new();
        out.push(*e);
        proof {
            reveal_with_fuel(be_bytes, 2);
            let v = *e as nat;
            lemma_small_mod(v, 256);
            assert(v / 256 == 0) by (nonlinear_arith)
                requires
                    v < 256,
            ;
            assert(be_bytes(v, 1) =~= out@);
        }
        out
    }

    fn fe_clone(e: &u8) -> (r: u8) {
        *e
    }

    fn fe_eq(e1: &u8, e2: &u8) -> (r: bool) {
        *e1 == *e2
    }

    fn fe_is_odd(e: &u8) -> (r: bool) {
        *e % 2 == 1
    }

    fn fe_neg(e: &u8) -> (r: u8) {
        let r: u8 = if *e == 0 {
            0
        } else {
            23 - *e
        };
        proof {
            if *e > 0 {
                lemma_small_mod((23 - *e) as nat, 23);
            }
        }
        r
    }

    fn fe_square(e: &u8) -> (r: u8) {
        let v = *e as u32;
        proof {
            assert(v * v <= 484) by (nonlinear_arith)
                requires
                    v <= 22,
            ;
        }
        ((v * v) % 23) as u8
    }

    fn fe_curve_rhs(x: &u8) -> (r: u8) {
        let v = *x as u32;
        proof {
            assert(v * v * v <= 10648 && v * v <= 484) by (nonlinear_arith)
                requires
                    v <= 22,
            ;
        }
        let out = ((v * v * v + v) % 23) as u8;
        proof {
            let xv = *x as nat;
            assert(xv * xv * xv + 1 * xv + 0 == v * v * v + v);
        }
        out
    }

    fn fe_sqrt(e: &u8) -> (r: Option<u8>) {
        let t = *e;
        let mut y: u8 = 0;
        while y < 23
            invariant
                t == *e,
                t < 23,
                y <= 23,
                forall|j: nat| j < y ==> !is_root_of(j, t as nat, 23),
            decreases 23 - y,
        {
            let yw = y as u32;
            proof {
                assert(yw * yw <= 484) by (nonlinear_arith)
                    requires
                        yw <= 22,
                ;
            }
            if (yw * yw) % 23 == t as u32 {
                proof {
                    assert(is_root_of(y as nat, t as nat, 23));
                }
                return Some(y);
            }
            y = y + 1;
        }
        proof {
            assert forall|j: nat| !is_root_of(j, t as nat, 23) by {
                if j < 23 {
                    assert(!is_root_of(j, t as nat, 23));
                }
            }
        }
        None
    }

    fn fe_zero() -> (r: u8) {
        0
    }

    fn fe_one() -> (r: u8) {
        1
    }
}

} // verus!
