//! Behaviour of the public-key wrapper on the demonstration curve.

use elliptic_curve::affine::AffinePoint;
use elliptic_curve::encoded::EncodedPoint;
use elliptic_curve::public_key::PublicKey;
use elliptic_curve::toy::ToyCurve;

fn point_1_5() -> AffinePoint<ToyCurve> {
    AffinePoint::Finite { x: 1, y: 5 }
}

#[test]
fn new_accepts_valid_encodings() {
    for bytes in [&[0x03, 0x01][..], &[0x02, 0x01][..], &[0x04, 0x01, 0x05][..], &[0x00][..]] {
        assert!(PublicKey::<ToyCurve>::new(bytes).is_ok());
    }
}

#[test]
fn new_rejects_invalid_encodings_opaquely() {
    for bytes in [
        &[][..],
        &[0x00, 0xFF][..],
        &[0x01, 0x01][..],
        &[0x05][..],
        &[0x02, 23][..],
        &[0x02, 0x04][..],
        &[0x04, 0x01, 0x06][..],
        &[0x04, 0x01][..],
    ] {
        assert!(PublicKey::<ToyCurve>::new(bytes).is_err());
    }
}

#[test]
fn new_then_encode_round_trips() {
    let pk = PublicKey::<ToyCurve>::new(&[0x03, 0x01]).unwrap();
    assert_eq!(pk.to_encoded_point(true).as_bytes(), &[0x03, 0x01]);
    assert_eq!(pk.to_encoded_point(false).as_bytes(), &[0x04, 0x01, 0x05]);
}

#[test]
fn from_affine_wraps_without_revalidation() {
    let pk = PublicKey::from_affine(point_1_5());
    assert_eq!(pk.to_encoded_point(true).as_bytes(), &[0x03, 0x01]);
    match pk.as_affine() {
        AffinePoint::Finite { x, y } => {
            assert_eq!(*x, 1);
            assert_eq!(*y, 5);
        },
        AffinePoint::Identity => panic!("expected a finite point"),
    }
}

#[test]
fn default_compression_follows_the_curve() {
    // The demonstration curve prefers compressed encodings.
    let pk = PublicKey::from_affine(point_1_5());
    assert_eq!(pk.to_encoded_point_default().as_bytes(), &[0x03, 0x01]);
}

#[test]
fn from_encoded_point_matches_new() {
    let ep = EncodedPoint::<ToyCurve>::from_bytes(&[0x02, 0x01]).unwrap();
    let pk = PublicKey::from_encoded_point(&ep).unwrap();
    assert_eq!(pk.to_encoded_point(true).as_bytes(), &[0x02, 0x01]);
}

#[test]
fn to_projective_lifts_affine_coordinates() {
    let pk = PublicKey::from_affine(point_1_5());
    let proj = pk.to_projective();
    assert_eq!(proj.x, 1);
    assert_eq!(proj.y, 5);
    assert_eq!(proj.z, 1);
}

#[test]
fn to_projective_maps_identity_to_0_1_0() {
    let pk = PublicKey::<ToyCurve>::from_affine(AffinePoint::Identity);
    let proj = pk.to_projective();
    assert_eq!(proj.x, 0);
    assert_eq!(proj.y, 1);
    assert_eq!(proj.z, 0);
}

#[test]
fn key_equality_follows_the_point() {
    let a = PublicKey::<ToyCurve>::new(&[0x03, 0x01]).unwrap();
    let b = PublicKey::from_affine(point_1_5());
    let c = PublicKey::<ToyCurve>::new(&[0x02, 0x01]).unwrap();
    assert!(a.eq_key(&b));
    assert!(!a.eq_key(&c));
}

#[test]
fn cloned_key_equals_the_original() {
    let pk = PublicKey::<ToyCurve>::new(&[0x03, 0x01]).unwrap();
    let copy = pk.clone_key();
    assert!(pk.eq_key(&copy));
    assert_eq!(copy.to_encoded_point(true).as_bytes(), &[0x03, 0x01]);
}

#[test]
fn identity_key_round_trips() {
    let pk = PublicKey::<ToyCurve>::new(&[0x00]).unwrap();
    assert!(pk.as_affine().is_identity());
    assert_eq!(pk.to_encoded_point(true).as_bytes(), &[0x00]);
    assert_eq!(pk.to_encoded_point(false).as_bytes(), &[0x00]);
}
