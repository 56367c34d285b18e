//! Byte-level behaviour of the SEC1 codec on the demonstration curve
//! (p = 23, y^2 = x^3 + x, N = 1).

use elliptic_curve::affine::AffinePoint;
use elliptic_curve::encoded::{DecodeError, EncodedPoint};
use elliptic_curve::toy::ToyCurve;

fn finite(x: u8, y: u8) -> AffinePoint<ToyCurve> {
    AffinePoint::Finite { x, y }
}

fn coords(pt: &AffinePoint<ToyCurve>) -> Option<(u8, u8)> {
    match pt {
        AffinePoint::Identity => None,
        AffinePoint::Finite { x, y } => Some((*x, *y)),
    }
}

fn decode(bytes: &[u8]) -> Result<AffinePoint<ToyCurve>, DecodeError> {
    let ep = EncodedPoint::<ToyCurve>::from_bytes(bytes)?;
    AffinePoint::try_from_encoded(&ep)
}

fn decode_err(bytes: &[u8]) -> DecodeError {
    match decode(bytes) {
        Ok(_) => panic!("expected this encoding to be rejected"),
        Err(e) => e,
    }
}

#[test]
fn identity_encodes_as_single_zero_byte() {
    let id = AffinePoint::<ToyCurve>::Identity;
    assert_eq!(id.to_encoded(true).as_bytes(), &[0x00]);
    assert_eq!(id.to_encoded(false).as_bytes(), &[0x00]);
}

#[test]
fn identity_decodes_back() {
    let pt = decode(&[0x00]).unwrap();
    assert!(pt.is_identity());
}

#[test]
fn identity_with_trailing_byte_is_invalid_length() {
    assert_eq!(decode_err(&[0x00, 0xFF]), DecodeError::InvalidLength);
}

#[test]
fn compressed_scenario_point_1_5() {
    // (1, 5): 5^2 = 25 = 2 mod 23 and 1^3 + 1 = 2, so the point is on
    // the curve; 5 is odd, so the tag is 0x03.
    let ep = finite(1, 5).to_encoded(true);
    assert_eq!(ep.as_bytes(), &[0x03, 0x01]);
    assert_eq!(coords(&decode(&[0x03, 0x01]).unwrap()), Some((1, 5)));
    assert_eq!(coords(&decode(&[0x02, 0x01]).unwrap()), Some((1, 18)));
}

#[test]
fn parity_tags_select_matching_root() {
    // x = 1 has the roots 5 (odd) and 23 - 5 = 18 (even).
    assert_eq!(coords(&decode(&[0x02, 0x01]).unwrap()), Some((1, 18)));
    assert_eq!(coords(&decode(&[0x03, 0x01]).unwrap()), Some((1, 5)));
}

#[test]
fn uncompressed_encoding_and_decoding() {
    let ep = finite(1, 5).to_encoded(false);
    assert_eq!(ep.as_bytes(), &[0x04, 0x01, 0x05]);
    assert_eq!(coords(&decode(&[0x04, 0x01, 0x05]).unwrap()), Some((1, 5)));
}

#[test]
fn unknown_tags_are_rejected() {
    assert_eq!(decode_err(&[0x01, 0x01]), DecodeError::InvalidTag);
    assert_eq!(decode_err(&[0x05, 0x01, 0x05]), DecodeError::InvalidTag);
    assert_eq!(decode_err(&[0xFF]), DecodeError::InvalidTag);
    assert_eq!(decode_err(&[0x06]), DecodeError::InvalidTag);
}

#[test]
fn wrong_lengths_are_rejected() {
    assert_eq!(decode_err(&[]), DecodeError::InvalidLength);
    assert_eq!(decode_err(&[0x02]), DecodeError::InvalidLength);
    assert_eq!(decode_err(&[0x02, 0x01, 0x05]), DecodeError::InvalidLength);
    assert_eq!(decode_err(&[0x04, 0x01]), DecodeError::InvalidLength);
    assert_eq!(decode_err(&[0x04, 0x01, 0x05, 0x00]), DecodeError::InvalidLength);
}

#[test]
fn coordinates_at_or_above_the_prime_are_rejected() {
    assert_eq!(decode_err(&[0x02, 23]), DecodeError::CoordinateOutOfRange);
    assert_eq!(decode_err(&[0x03, 0xFF]), DecodeError::CoordinateOutOfRange);
    assert_eq!(decode_err(&[0x04, 23, 0x05]), DecodeError::CoordinateOutOfRange);
    assert_eq!(decode_err(&[0x04, 0x01, 23]), DecodeError::CoordinateOutOfRange);
}

#[test]
fn rootless_x_is_rejected() {
    // x = 4 gives 4^3 + 4 = 68 = 22 mod 23, which is no square mod 23.
    assert_eq!(decode_err(&[0x02, 0x04]), DecodeError::PointNotOnCurve);
    assert_eq!(decode_err(&[0x03, 0x04]), DecodeError::PointNotOnCurve);
}

#[test]
fn zero_root_has_no_odd_partner() {
    // x = 0 gives rhs 0, whose only root is y = 0 (even): the odd tag
    // finds no matching root.
    assert_eq!(coords(&decode(&[0x02, 0x00]).unwrap()), Some((0, 0)));
    assert_eq!(decode_err(&[0x03, 0x00]), DecodeError::PointNotOnCurve);
}

#[test]
fn point_equality_is_over_coordinates() {
    let a = finite(1, 5);
    let b = finite(1, 5);
    let c = finite(1, 18);
    let id = AffinePoint::<ToyCurve>::Identity;
    assert!(a.eq_point(&b));
    assert!(!a.eq_point(&c));
    assert!(!a.eq_point(&id));
    assert!(id.eq_point(&AffinePoint::Identity));
}

#[test]
fn off_curve_pair_is_rejected() {
    assert_eq!(decode_err(&[0x04, 0x01, 0x06]), DecodeError::PointNotOnCurve);
}

#[test]
fn every_point_round_trips_both_ways() {
    for x in 0u8..23 {
        for y in 0u8..23 {
            let on_curve = (y as u32 * y as u32) % 23
                == (x as u32 * x as u32 * x as u32 + x as u32) % 23;
            if !on_curve {
                continue;
            }
            for compress in [true, false] {
                let ep = finite(x, y).to_encoded(compress);
                let back = AffinePoint::try_from_encoded(&ep).unwrap();
                assert_eq!(coords(&back), Some((x, y)));
            }
        }
    }
}

#[test]
fn encoded_lengths_match_the_layout() {
    let id = AffinePoint::<ToyCurve>::Identity;
    assert_eq!(id.to_encoded(true).len(), 1);
    assert_eq!(id.to_encoded(false).len(), 1);
    let pt = finite(1, 5);
    assert_eq!(pt.to_encoded(true).len(), 2);
    assert_eq!(pt.to_encoded(false).len(), 3);
}

#[test]
fn from_point_and_to_point_mirror_each_other() {
    // (1, 18): 18^2 = 324 = 2 mod 23 and 1^3 + 1 = 2; 18 is even.
    let good = finite(1, 18);
    let ep = EncodedPoint::from_point(&good, true);
    assert_eq!(ep.as_bytes(), &[0x02, 0x01]);
    let back = ep.to_point().unwrap();
    assert_eq!(coords(&back), Some((1, 18)));
}
