//! Public keys: the validated wrapper around an affine point that
//! protocols interact with.

use vstd::prelude::*;
use crate::affine::{spec_decode, spec_encode, valid_point, AffinePoint};
use crate::curve::{Curve, PointVal};
use crate::encoded::EncodedPoint;

verus! {

/// The one error a caller handling untrusted key bytes sees. It carries
/// no cause on purpose: which validation step failed is not revealed
/// across the trust boundary.
#[derive(Clone, Copy, Debug, PartialEq, Eq)]
pub struct Error;

/// The projective form (X : Y : Z) of a point, handed to the scalar
/// arithmetic collaborator. An affine point (x, y) maps to (x, y, 1),
/// the identity to (0, 1, 0).
pub struct ProjectivePoint<C: Curve> {
    /// Projective X coordinate.
    pub x: C::Fe,
    /// Projective Y coordinate.
    pub y: C::Fe,
    /// Projective Z coordinate.
    pub z: C::Fe,
}

impl<C: Curve> View for ProjectivePoint<C> {
    type V = (nat, nat, nat);

    open spec fn view(&self) -> (nat, nat, nat) {
        (C::fe_val(&self.x), C::fe_val(&self.y), C::fe_val(&self.z))
    }
}

/// An elliptic curve public key: a thin wrapper around a validated
/// [`AffinePoint`] that simplifies encoding and decoding. Immutable
/// after construction.
pub struct PublicKey<C: Curve> {
    point: AffinePoint<C>,
}

impl<C: Curve> View for PublicKey<C> {
    type V = PointVal;

    closed spec fn view(&self) -> PointVal {
        self.point@
    }
}

impl<C: Curve> PublicKey<C> {
    /// The invariant every constructed key satisfies.
    pub closed spec fn wf(self) -> bool {
        self.point.wf()
    }

    /// Initialize a [`PublicKey`] from a SEC1-encoded public key.
    /// Succeeds exactly on the byte strings that denote a point; every
    /// failure collapses to the one opaque [`Error`].
    ///
    /// The identity encoding 0x00 is accepted here. A protocol that
    /// must treat the identity as an invalid key checks for it itself,
    /// through [`AffinePoint::is_identity`].
    pub fn new(bytes: &[u8]) -> (r: Result<Self, Error>)
        ensures
            match r {
                Ok(pk) => pk.wf() && spec_decode::<C>(bytes@) == Some(pk@),
                Err(_) => spec_decode::<C>(bytes@) is None,
            },
    {
        match EncodedPoint::<C>::from_bytes(bytes) {
            Ok(ep) => match ep.to_point() {
                Some(point) => Ok(PublicKey { point }),
                None => Err(Error),
            },
            Err(_) => {
                proof {
                    lemma_bad_shape_decodes_to_none::<C>(bytes@);
                }
                Err(Error)
            },
        }
    }

    /// Convert an [`AffinePoint`] into a [`PublicKey`]. The trusted
    /// construction path for callers that already hold a valid point;
    /// no re-validation happens.
    pub fn from_affine(point: AffinePoint<C>) -> (r: Self)
        requires
            point.wf(),
        ensures
            r.wf(),
            r@ == point@,
    {
        PublicKey { point }
    }

    /// The affine point this key wraps.
    pub fn as_affine(&self) -> (r: &AffinePoint<C>)
        requires
            self.wf(),
        ensures
            r.wf(),
            r@ == self@,
    {
        &self.point
    }

    /// Convert this [`PublicKey`] to a [`ProjectivePoint`] for the
    /// curve's arithmetic.
    pub fn to_projective(&self) -> (r: ProjectivePoint<C>)
        requires
            self.wf(),
        ensures
            match self@ {
                PointVal::Identity => r@ == (0nat, 1nat, 0nat),
                PointVal::Finite { x, y } => r@ == (x, y, 1nat),
            },
    {
        match &self.point {
            AffinePoint::Identity => ProjectivePoint {
                x: C::fe_zero(),
                y: C::fe_one(),
                z: C::fe_zero(),
            },
            AffinePoint::Finite { x, y } => ProjectivePoint {
                x: C::fe_clone(x),
                y: C::fe_clone(y),
                z: C::fe_one(),
            },
        }
    }

    /// Initialize a [`PublicKey`] from an [`EncodedPoint`].
    pub fn from_encoded_point(encoded_point: &EncodedPoint<C>) -> (r: Option<Self>)
        requires
            encoded_point.wf(),
        ensures
            match r {
                Some(pk) => pk.wf() && spec_decode::<C>(encoded_point@) == Some(pk@),
                None => spec_decode::<C>(encoded_point@) is None,
            },
    {
        match encoded_point.to_point() {
            Some(point) => Some(PublicKey { point }),
            None => None,
        }
    }

    /// Serialize this [`PublicKey`] as a SEC1 [`EncodedPoint`],
    /// optionally applying point compression.
    pub fn to_encoded_point(&self, compress: bool) -> (r: EncodedPoint<C>)
        requires
            self.wf(),
        ensures
            r.wf(),
            r@ == spec_encode::<C>(self@, compress),
    {
        self.point.to_encoded(compress)
    }

    /// Serialize with the curve's own compression preference.
    pub fn to_encoded_point_default(&self) -> (r: EncodedPoint<C>)
        requires
            self.wf(),
        ensures
            r.wf(),
            r@ == spec_encode::<C>(self@, C::compress_default()),
    {
        self.point.to_encoded(C::compressed_by_default())
    }

    /// Duplicate the key.
    pub fn clone_key(&self) -> (r: Self)
        requires
            self.wf(),
        ensures
            r.wf(),
            r@ == self@,
    {
        PublicKey { point: self.point.clone_point() }
    }

    /// Equality of keys: equality of the wrapped points' canonical
    /// coordinates.
    pub fn eq_key(&self, other: &Self) -> (r: bool)
        requires
            self.wf(),
            other.wf(),
        ensures
            r == (self@ == other@),
    {
        self.point.eq_point(&other.point)
    }

    /// The point value this key holds is a valid one.
    pub proof fn lemma_wf_point(self)
        requires
            self.wf(),
        ensures
            valid_point::<C>(self@),
    {
    }
}

/// A byte string without the SEC1 shape denotes no point.
proof fn lemma_bad_shape_decodes_to_none<C: Curve>(s: Seq<u8>)
    requires
        !crate::encoded::valid_shape::<C>(s),
    ensures
        spec_decode::<C>(s) is None,
{
}

} // verus!
