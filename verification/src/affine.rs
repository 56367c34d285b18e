//! Affine points: semantic validation of encodings and square-root
//! decompression, orchestrating the curve plug-in's field arithmetic.

use vstd::prelude::*;
use vstd::arithmetic::div_mod::{
    lemma_add_mod_noop, lemma_mod_multiples_vanish, lemma_mod_self_0, lemma_small_mod,
};
use vstd::slice::{slice_index_get, slice_subrange};
use crate::big_endian::{be_bytes, be_val, lemma_be_bytes_len, lemma_be_val_of_be_bytes};
use crate::curve::{curve_rhs, is_parity_root, is_root_of, on_curve, Curve, PointVal};
use crate::encoded::{valid_shape, DecodeError, EncodedPoint};

verus! {

/// A point of the curve: the identity, or an (x, y) pair whose validity
/// the curve equation states.
pub enum AffinePoint<C: Curve> {
    Identity,
    Finite { x: C::Fe, y: C::Fe },
}

impl<C: Curve> View for AffinePoint<C> {
    type V = PointVal;

    open spec fn view(&self) -> PointVal {
        match self {
            AffinePoint::Identity => PointVal::Identity,
            AffinePoint::Finite { x, y } => PointVal::Finite {
                x: C::fe_val(x),
                y: C::fe_val(y),
            },
        }
    }
}

/// The values a valid point may take: the identity, or reduced
/// coordinates that satisfy the curve equation.
pub open spec fn valid_point<C: Curve>(pt: PointVal) -> bool {
    match pt {
        PointVal::Identity => true,
        PointVal::Finite { x, y } => x < C::prime() && y < C::prime() && on_curve(
            x,
            y,
            C::coeff_a(),
            C::coeff_b(),
            C::prime(),
        ),
    }
}

/// The bytes that encode a point value: the 1-byte identity form, or a
/// parity tag with x, or the 0x04 tag with x and y.
pub open spec fn spec_encode<C: Curve>(pt: PointVal, compress: bool) -> Seq<u8> {
    match pt {
        PointVal::Identity => seq![0u8],
        PointVal::Finite { x, y } => if compress {
            seq![if y % 2 == 1 { 3u8 } else { 2u8 }] + be_bytes(x, C::field_bytes())
        } else {
            seq![4u8] + be_bytes(x, C::field_bytes()) + be_bytes(y, C::field_bytes())
        },
    }
}

/// The point value a byte string denotes, if any: the semantic meaning
/// of a SEC1 encoding, with every validation rule built in.
pub open spec fn spec_decode<C: Curve>(s: Seq<u8>) -> Option<PointVal> {
    let p = C::prime();
    let n = C::field_bytes();
    if s.len() == 1 && s[0] == 0u8 {
        Some(PointVal::Identity)
    } else if s.len() == 1 + n && (s[0] == 2u8 || s[0] == 3u8) {
        let x = be_val(s.subrange(1, s.len() as int));
        let odd = s[0] == 3u8;
        let v = curve_rhs(x, C::coeff_a(), C::coeff_b(), p);
        if x < p && (exists|y: nat| is_parity_root(y, v, p, odd)) {
            Some(PointVal::Finite { x, y: choose|y: nat| is_parity_root(y, v, p, odd) })
        } else {
            None
        }
    } else if s.len() == 1 + 2 * n && s[0] == 4u8 {
        let x = be_val(s.subrange(1, 1 + n as int));
        let y = be_val(s.subrange(1 + n as int, s.len() as int));
        if x < p && y < p && on_curve(x, y, C::coeff_a(), C::coeff_b(), p) {
            Some(PointVal::Finite { x, y })
        } else {
            None
        }
    } else {
        None
    }
}

/// Whether a well-shaped encoding names a coordinate at or above the
/// field prime.
pub open spec fn out_of_range<C: Curve>(s: Seq<u8>) -> bool {
    let p = C::prime();
    let n = C::field_bytes();
    valid_shape::<C>(s) && s[0] != 0u8 && (if s[0] == 4u8 {
        be_val(s.subrange(1, 1 + n as int)) >= p || be_val(
            s.subrange(1 + n as int, s.len() as int),
        ) >= p
    } else {
        be_val(s.subrange(1, s.len() as int)) >= p
    })
}

/// Whether a well-shaped, in-range encoding names no point of the curve:
/// the equation fails, or no square root has the requested parity.
pub open spec fn not_on_curve<C: Curve>(s: Seq<u8>) -> bool {
    valid_shape::<C>(s) && s[0] != 0u8 && !out_of_range::<C>(s) && spec_decode::<C>(s) is None
}

impl<C: Curve> AffinePoint<C> {
    /// Structural well-formedness: canonical field elements that make a
    /// valid point value.
    pub open spec fn wf(self) -> bool {
        &&& match self {
            AffinePoint::Identity => true,
            AffinePoint::Finite { x, y } => C::fe_wf(&x) && C::fe_wf(&y),
        }
        &&& valid_point::<C>(self@)
    }

    /// Whether this is the identity point.
    pub fn is_identity(&self) -> (r: bool)
        ensures
            r == (self@ is Identity),
    {
        match self {
            AffinePoint::Identity => true,
            AffinePoint::Finite { .. } => false,
        }
    }

    /// Duplicate the point, coordinate by coordinate.
    pub fn clone_point(&self) -> (r: Self)
        requires
            self.wf(),
        ensures
            r.wf(),
            r@ == self@,
    {
        match self {
            AffinePoint::Identity => AffinePoint::Identity,
            AffinePoint::Finite { x, y } => AffinePoint::Finite {
                x: C::fe_clone(x),
                y: C::fe_clone(y),
            },
        }
    }

    /// Equality over canonical coordinates: the identity compares equal
    /// only to the identity.
    pub fn eq_point(&self, other: &Self) -> (r: bool)
        requires
            self.wf(),
            other.wf(),
        ensures
            r == (self@ == other@),
    {
        match (self, other) {
            (AffinePoint::Identity, AffinePoint::Identity) => true,
            (AffinePoint::Finite { x: x1, y: y1 }, AffinePoint::Finite { x: x2, y: y2 }) => {
                C::fe_eq(x1, x2) && C::fe_eq(y1, y2)
            },
            _ => false,
        }
    }

    /// Reconstruct the point an encoding denotes, reporting the cause of
    /// any rejection. Succeeds exactly on the encodings that denote a
    /// point.
    pub fn try_from_encoded(ep: &EncodedPoint<C>) -> (r: Result<Self, DecodeError>)
        requires
            ep.wf(),
        ensures
            match r {
                Ok(pt) => pt.wf() && spec_decode::<C>(ep@) == Some(pt@),
                Err(DecodeError::CoordinateOutOfRange) => out_of_range::<C>(ep@),
                Err(DecodeError::PointNotOnCurve) => not_on_curve::<C>(ep@),
                Err(_) => false,
            },
    {
        proof {
            C::lemma_params();
        }
        let bytes = ep.as_bytes();
        let tag = *slice_index_get(bytes, 0);
        let n = C::byte_len();
        if tag == 0 {
            proof {
                assert(spec_decode::<C>(ep@) is Some);
            }
            return Ok(AffinePoint::Identity);
        }
        if tag == 4 {
            let xb = slice_subrange(bytes, 1, 1 + n);
            let yb = slice_subrange(bytes, 1 + n, 1 + 2 * n);
            let x = match C::fe_from_bytes(xb) {
                Some(x) => x,
                None => {
                    return Err(DecodeError::CoordinateOutOfRange);
                },
            };
            let y = match C::fe_from_bytes(yb) {
                Some(y) => y,
                None => {
                    return Err(DecodeError::CoordinateOutOfRange);
                },
            };
            proof {
                C::lemma_fe_canon(&x);
                C::lemma_fe_canon(&y);
            }
            let lhs = C::fe_square(&y);
            let rhs = C::fe_curve_rhs(&x);
            if C::fe_eq(&lhs, &rhs) {
                proof {
                    assert(spec_decode::<C>(ep@) is Some);
                }
                Ok(AffinePoint::Finite { x, y })
            } else {
                Err(DecodeError::PointNotOnCurve)
            }
        } else {
            let xb = slice_subrange(bytes, 1, 1 + n);
            let x = match C::fe_from_bytes(xb) {
                Some(x) => x,
                None => {
                    return Err(DecodeError::CoordinateOutOfRange);
                },
            };
            proof {
                C::lemma_fe_canon(&x);
            }
            let want_odd = tag == 3;
            let v = C::fe_curve_rhs(&x);
            match C::fe_sqrt(&v) {
                None => {
                    proof {
                        let p = C::prime();
                        let vv = C::fe_val(&v);
                        assert forall|z: nat| !is_parity_root(z, vv, p, want_odd) by {
                            assert(!is_root_of(z, vv, p));
                        }
                    }
                    Err(DecodeError::PointNotOnCurve)
                },
                Some(root) => {
                    proof {
                        C::lemma_fe_canon(&root);
                    }
                    let root_odd = C::fe_is_odd(&root);
                    if root_odd == want_odd {
                        proof {
                            lemma_choice_is_unique::<C>(
                                C::fe_val(&root),
                                C::fe_val(&v),
                                want_odd,
                            );
                            assert(spec_decode::<C>(ep@) is Some);
                        }
                        Ok(AffinePoint::Finite { x, y: root })
                    } else {
                        let other = C::fe_neg(&root);
                        proof {
                            lemma_neg_is_root::<C>(C::fe_val(&root), C::fe_val(&v));
                            C::lemma_fe_canon(&other);
                        }
                        if C::fe_is_odd(&other) == want_odd {
                            proof {
                                lemma_choice_is_unique::<C>(
                                    C::fe_val(&other),
                                    C::fe_val(&v),
                                    want_odd,
                                );
                                assert(spec_decode::<C>(ep@) is Some);
                            }
                            Ok(AffinePoint::Finite { x, y: other })
                        } else {
                            proof {
                                let p = C::prime();
                                let vv = C::fe_val(&v);
                                let rv = C::fe_val(&root);
                                let ov = C::fe_val(&other);
                                assert forall|z: nat| !is_parity_root(z, vv, p, want_odd) by {
                                    if is_parity_root(z, vv, p, want_odd) {
                                        C::lemma_root_pair(z, rv);
                                        if z + rv == p && rv > 0 {
                                            lemma_small_mod((p - rv) as nat, p);
                                            assert(z == ov);
                                        }
                                    }
                                }
                            }
                            Err(DecodeError::PointNotOnCurve)
                        }
                    }
                },
            }
        }
    }

    /// Reconstruct a point, collapsing the cause of rejection.
    pub fn from_encoded(ep: &EncodedPoint<C>) -> (r: Option<Self>)
        requires
            ep.wf(),
        ensures
            match r {
                Some(pt) => pt.wf() && spec_decode::<C>(ep@) == Some(pt@),
                None => spec_decode::<C>(ep@) is None,
            },
    {
        match Self::try_from_encoded(ep) {
            Ok(pt) => Some(pt),
            Err(_) => None,
        }
    }

    /// Project the point onto its SEC1 byte form. The identity encodes
    /// as the single byte 0x00 whatever `compress` says.
    pub fn to_encoded(&self, compress: bool) -> (r: EncodedPoint<C>)
        requires
            self.wf(),
        ensures
            r.wf(),
            r@ == spec_encode::<C>(self@, compress),
    {
        proof {
            C::lemma_params();
        }
        match self {
            AffinePoint::Identity => {
                let mut out: Vec<u8> = Vec::new();
                out.push(0u8);
                proof {
                    assert(out@ =~= seq![0u8]);
                }
                EncodedPoint::from_vec(out)
            },
            AffinePoint::Finite { x, y } => {
                proof {
                    lemma_be_bytes_len(C::fe_val(x), C::field_bytes());
                    lemma_be_bytes_len(C::fe_val(y), C::field_bytes());
                }
                if compress {
                    let tag: u8 = if C::fe_is_odd(y) {
                        3
                    } else {
                        2
                    };
                    let mut out: Vec<u8> = Vec::new();
                    out.push(tag);
                    let mut xb = C::fe_to_bytes(x);
                    out.append(&mut xb);
                    proof {
                        assert(out@ =~= seq![tag] + be_bytes(C::fe_val(x), C::field_bytes()));
                    }
                    EncodedPoint::from_vec(out)
                } else {
                    let mut out: Vec<u8> = Vec::new();
                    out.push(4u8);
                    let mut xb = C::fe_to_bytes(x);
                    out.append(&mut xb);
                    let mut yb = C::fe_to_bytes(y);
                    out.append(&mut yb);
                    proof {
                        assert(out@ =~= seq![4u8] + be_bytes(C::fe_val(x), C::field_bytes())
                            + be_bytes(C::fe_val(y), C::field_bytes()));
                    }
                    EncodedPoint::from_vec(out)
                }
            },
        }
    }
}

/// The negation of a square root of v is itself a square root of v.
pub(crate) proof fn lemma_neg_is_root<C: Curve>(rv: nat, v: nat)
    requires
        is_root_of(rv, v, C::prime()),
    ensures
        is_root_of(((C::prime() - rv) % (C::prime() as int)) as nat, v, C::prime()),
{
    C::lemma_params();
    let p = C::prime();
    if rv == 0 {
        lemma_mod_self_0(p as int);
        assert((p - 0) % (p as int) == 0);
    } else {
        lemma_small_mod((p - rv) as nat, p);
        let ov = (p - rv) as nat;
        assert(ov * ov == (p as int) * (p as int - 2 * rv) + rv * rv) by (nonlinear_arith)
            requires
                ov == p - rv,
                rv <= p,
        ;
        lemma_mod_multiples_vanish(p as int - 2 * rv, (rv * rv) as int, p as int);
        assert((ov * ov) % p == (rv * rv) % p);
    }
}

/// A root with the requested parity is unique, so it is the one the
/// decoding relation picks.
pub(crate) proof fn lemma_choice_is_unique<C: Curve>(yv: nat, v: nat, odd: bool)
    requires
        is_parity_root(yv, v, C::prime(), odd),
    ensures
        (choose|z: nat| is_parity_root(z, v, C::prime(), odd)) == yv,
{
    C::lemma_params();
    let p = C::prime();
    let zc = choose|z: nat| is_parity_root(z, v, p, odd);
    assert(is_parity_root(zc, v, p, odd));
    C::lemma_root_pair(zc, yv);
    if zc + yv == p {
        lemma_add_mod_noop(zc as int, yv as int, 2);
        assert((zc + yv) % 2 == p % 2);
        assert(false);
    }
}

} // verus!
