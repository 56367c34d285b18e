//! The codec's governing laws, stated once over the decoding and
//! encoding relations and proved for every curve plug-in.

use vstd::prelude::*;
use vstd::arithmetic::div_mod::{lemma_add_mod_noop, lemma_small_mod};
use crate::affine::{
    lemma_choice_is_unique, lemma_neg_is_root, spec_decode, spec_encode, valid_point,
};
use crate::big_endian::{be_bytes, be_val, lemma_be_bytes_len, lemma_be_val_of_be_bytes};
use crate::curve::{curve_rhs, is_parity_root, is_root_of, Curve, PointVal};

verus! {

/// Decoding inverts encoding: every valid point, compressed or not,
/// comes back from its own encoding.
pub proof fn lemma_round_trip<C: Curve>(pt: PointVal, compress: bool)
    requires
        valid_point::<C>(pt),
    ensures
        spec_decode::<C>(spec_encode::<C>(pt, compress)) == Some(pt),
{
    C::lemma_params();
    let p = C::prime();
    let n = C::field_bytes();
    let s = spec_encode::<C>(pt, compress);
    match pt {
        PointVal::Identity => {
            assert(s.len() == 1 && s[0] == 0u8);
        },
        PointVal::Finite { x, y } => {
            lemma_be_bytes_len(x, n);
            lemma_be_bytes_len(y, n);
            lemma_be_val_of_be_bytes(x, n);
            let v = curve_rhs(x, C::coeff_a(), C::coeff_b(), p);
            if compress {
                let odd = y % 2 == 1;
                let tag: u8 = if odd {
                    3u8
                } else {
                    2u8
                };
                assert(s.len() == 1 + n && s[0] == tag);
                assert(s.subrange(1, s.len() as int) =~= be_bytes(x, n));
                assert(is_parity_root(y, v, p, odd));
                lemma_choice_is_unique::<C>(y, v, odd);
                assert(spec_decode::<C>(s) == Some(pt));
            } else {
                lemma_be_val_of_be_bytes(y, n);
                assert(s.len() == 1 + 2 * n && s[0] == 4u8);
                assert(s.subrange(1, 1 + n as int) =~= be_bytes(x, n));
                assert(s.subrange(1 + n as int, s.len() as int) =~= be_bytes(y, n));
                assert(spec_decode::<C>(s) == Some(pt));
            }
        },
    }
}

/// Decoding is sound: whatever comes out of the decoding relation is a
/// valid point, whatever bytes went in.
pub proof fn lemma_decode_yields_valid_points<C: Curve>(s: Seq<u8>)
    ensures
        match spec_decode::<C>(s) {
            Some(pt) => valid_point::<C>(pt),
            None => true,
        },
{
    let p = C::prime();
    if s.len() == 1 + C::field_bytes() && (s[0] == 2u8 || s[0] == 3u8) {
        let x = be_val(s.subrange(1, s.len() as int));
        let odd = s[0] == 3u8;
        let v = curve_rhs(x, C::coeff_a(), C::coeff_b(), p);
        if x < p && (exists|y: nat| is_parity_root(y, v, p, odd)) {
            let y = choose|y: nat| is_parity_root(y, v, p, odd);
            assert(is_parity_root(y, v, p, odd));
        }
    }
}

/// One encoding denotes one point: two valid points with the same
/// encoding are the same point.
pub proof fn lemma_one_encoding_one_point<C: Curve>(p1: PointVal, p2: PointVal, compress: bool)
    requires
        valid_point::<C>(p1),
        valid_point::<C>(p2),
        spec_encode::<C>(p1, compress) == spec_encode::<C>(p2, compress),
    ensures
        p1 == p2,
{
    lemma_round_trip::<C>(p1, compress);
    lemma_round_trip::<C>(p2, compress);
}

/// Encoded lengths: 1 byte for the identity whatever the preference;
/// 1+N compressed and 1+2N uncompressed for every other point.
pub proof fn lemma_encode_length<C: Curve>(pt: PointVal, compress: bool)
    ensures
        pt is Identity ==> spec_encode::<C>(pt, compress).len() == 1,
        pt is Finite && compress ==> spec_encode::<C>(pt, compress).len() == 1
            + C::field_bytes(),
        pt is Finite && !compress ==> spec_encode::<C>(pt, compress).len() == 1 + 2
            * C::field_bytes(),
{
    match pt {
        PointVal::Identity => {
        },
        PointVal::Finite { x, y } => {
            lemma_be_bytes_len(x, C::field_bytes());
            lemma_be_bytes_len(y, C::field_bytes());
        },
    }
}

/// A byte string whose leading byte is none of the four tags decodes to
/// nothing, whatever follows it.
pub proof fn lemma_unknown_tag_rejected<C: Curve>(s: Seq<u8>)
    requires
        s.len() > 0,
        s[0] != 0u8,
        s[0] != 2u8,
        s[0] != 3u8,
        s[0] != 4u8,
    ensures
        spec_decode::<C>(s) is None,
{
}

/// A compressed encoding whose x yields no square root decodes to
/// nothing.
pub proof fn lemma_rootless_x_rejected<C: Curve>(s: Seq<u8>)
    requires
        s.len() == 1 + C::field_bytes(),
        s[0] == 2u8 || s[0] == 3u8,
        forall|y: nat|
            !is_root_of(
                y,
                curve_rhs(
                    be_val(s.subrange(1, s.len() as int)),
                    C::coeff_a(),
                    C::coeff_b(),
                    C::prime(),
                ),
                C::prime(),
            ),
    ensures
        spec_decode::<C>(s) is None,
{
    C::lemma_params();
    let p = C::prime();
    let x = be_val(s.subrange(1, s.len() as int));
    let v = curve_rhs(x, C::coeff_a(), C::coeff_b(), p);
    let odd = s[0] == 3u8;
    assert forall|y: nat| !is_parity_root(y, v, p, odd) by {
        assert(!is_root_of(y, v, p));
    }
}

/// Parity selection: when x has the two roots y and p - y with y even,
/// tag 0x02 decodes to the even root and tag 0x03 to the odd one.
pub proof fn lemma_parity_selection<C: Curve>(x: nat, y: nat)
    requires
        x < C::prime(),
        0 < y < C::prime(),
        y % 2 == 0,
        is_root_of(y, curve_rhs(x, C::coeff_a(), C::coeff_b(), C::prime()), C::prime()),
    ensures
        spec_decode::<C>(seq![2u8] + be_bytes(x, C::field_bytes())) == Some(
            PointVal::Finite { x, y },
        ),
        spec_decode::<C>(seq![3u8] + be_bytes(x, C::field_bytes())) == Some(
            PointVal::Finite { x, y: (C::prime() - y) as nat },
        ),
{
    C::lemma_params();
    let p = C::prime();
    let n = C::field_bytes();
    lemma_be_bytes_len(x, n);
    lemma_be_val_of_be_bytes(x, n);
    let v = curve_rhs(x, C::coeff_a(), C::coeff_b(), p);
    let even_s = seq![2u8] + be_bytes(x, n);
    let odd_s = seq![3u8] + be_bytes(x, n);
    assert(even_s.subrange(1, even_s.len() as int) =~= be_bytes(x, n));
    assert(odd_s.subrange(1, odd_s.len() as int) =~= be_bytes(x, n));
    assert(is_parity_root(y, v, p, false));
    lemma_choice_is_unique::<C>(y, v, false);
    assert(spec_decode::<C>(even_s) == Some(PointVal::Finite { x, y }));
    let w = (p - y) as nat;
    lemma_neg_is_root::<C>(y, v);
    lemma_small_mod(w, p);
    assert(is_root_of(w, v, p));
    lemma_add_mod_noop(y as int, w as int, 2);
    assert((y + w) % 2 == p % 2);
    assert(w % 2 == 1);
    assert(is_parity_root(w, v, p, true));
    lemma_choice_is_unique::<C>(w, v, true);
    assert(spec_decode::<C>(odd_s) == Some(PointVal::Finite { x, y: w }));
}

} // verus!
