//! The SEC1 tagged byte layout: a structural parse of untrusted bytes,
//! before any field arithmetic is involved.

use core::marker::PhantomData;
use vstd::prelude::*;
use vstd::slice::slice_to_vec;
use crate::affine::{spec_decode, spec_encode, AffinePoint};
use crate::curve::Curve;

verus! {

/// Why a byte string was rejected. Only the byte-shape causes are produced
/// here; the range and curve-membership causes come from point validation.
/// None of them crosses the public-key trust boundary.
#[derive(Clone, Copy, Debug, PartialEq, Eq)]
pub enum DecodeError {
    /// The byte count is not 1, 1+N or 1+2N, or does not fit the tag.
    InvalidLength,
    /// The leading byte is none of 0x00, 0x02, 0x03, 0x04.
    InvalidTag,
    /// A coordinate is not below the field prime.
    CoordinateOutOfRange,
    /// No point of the curve matches the coordinate bytes.
    PointNotOnCurve,
}

/// Whether the leading byte is one of the four SEC1 tags.
pub open spec fn tag_ok(s: Seq<u8>) -> bool {
    s.len() > 0 && (s[0] == 0u8 || s[0] == 2u8 || s[0] == 3u8 || s[0] == 4u8)
}

/// The total length the SEC1 layout prescribes for a tag.
pub open spec fn tag_len<C: Curve>(tag: u8) -> nat {
    if tag == 0u8 {
        1
    } else if tag == 4u8 {
        1 + 2 * C::field_bytes()
    } else {
        1 + C::field_bytes()
    }
}

/// Whether a byte string has a valid SEC1 shape for the curve: a known
/// tag followed by exactly the coordinate bytes that tag calls for.
pub open spec fn valid_shape<C: Curve>(s: Seq<u8>) -> bool {
    tag_ok(s) && s.len() == tag_len::<C>(s[0])
}

/// A byte string known to have the SEC1 shape: one tag byte, then 0, N
/// or 2N coordinate bytes. Produced from raw bytes or from a point, and
/// consumed to reconstruct one; it performs no field arithmetic itself.
pub struct EncodedPoint<C: Curve> {
    bytes: Vec<u8>,
    curve: PhantomData<C>,
}

impl<C: Curve> View for EncodedPoint<C> {
    type V = Seq<u8>;

    closed spec fn view(&self) -> Seq<u8> {
        self.bytes@
    }
}

impl<C: Curve> EncodedPoint<C> {
    /// The shape invariant every constructed value satisfies.
    pub open spec fn wf(self) -> bool {
        valid_shape::<C>(self@)
    }

    /// Accept a byte string exactly when its tag is known and its length
    /// is the one the tag prescribes; say which of the two checks failed.
    pub fn from_bytes(bytes: &[u8]) -> (r: Result<Self, DecodeError>)
        ensures
            match r {
                Ok(ep) => valid_shape::<C>(bytes@) && ep.wf() && ep@ == bytes@,
                Err(DecodeError::InvalidTag) => bytes@.len() > 0 && !tag_ok(bytes@),
                Err(DecodeError::InvalidLength) => bytes@.len() == 0 || (tag_ok(bytes@)
                    && bytes@.len() != tag_len::<C>(bytes@[0])),
                Err(_) => false,
            },
    {
        if bytes.len() == 0 {
            return Err(DecodeError::InvalidLength);
        }
        let tag = *vstd::slice::slice_index_get(bytes, 0);
        if !(tag == 0 || tag == 2 || tag == 3 || tag == 4) {
            return Err(DecodeError::InvalidTag);
        }
        proof {
            C::lemma_params();
        }
        let n = C::byte_len();
        let expect: usize = if tag == 0 {
            1
        } else if tag == 4 {
            1 + 2 * n
        } else {
            1 + n
        };
        if bytes.len() != expect {
            return Err(DecodeError::InvalidLength);
        }
        Ok(EncodedPoint { bytes: slice_to_vec(bytes), curve: PhantomData })
    }

    /// Wrap bytes already known to have the SEC1 shape.
    pub(crate) fn from_vec(bytes: Vec<u8>) -> (r: Self)
        requires
            valid_shape::<C>(bytes@),
        ensures
            r.wf(),
            r@ == bytes@,
    {
        EncodedPoint { bytes, curve: PhantomData }
    }

    /// The encoded bytes.
    pub fn as_bytes(&self) -> (r: &[u8])
        ensures
            r@ == self@,
    {
        self.bytes.as_slice()
    }

    /// The total encoded length.
    pub fn len(&self) -> (n: usize)
        ensures
            n == self@.len(),
    {
        self.bytes.len()
    }

    /// Encode a point, compressed or not. The structural-from-semantic
    /// direction of the codec.
    pub fn from_point(point: &AffinePoint<C>, compress: bool) -> (r: Self)
        requires
            point.wf(),
        ensures
            r.wf(),
            r@ == spec_encode::<C>(point@, compress),
    {
        point.to_encoded(compress)
    }

    /// The structural-to-semantic handoff: the point this encoding
    /// denotes, if the coordinate bytes survive semantic validation.
    pub fn to_point(&self) -> (r: Option<AffinePoint<C>>)
        requires
            self.wf(),
        ensures
            match r {
                Some(pt) => pt.wf() && spec_decode::<C>(self@) == Some(pt@),
                None => spec_decode::<C>(self@) is None,
            },
    {
        AffinePoint::from_encoded(self)
    }
}

} // verus!
