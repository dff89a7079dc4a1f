use minehouse::cube::{decode_cube, encode_cube, CubeBits, CubeDecodeError};

fn sample() -> CubeBits {
    CubeBits {
        x1: 1.0f64.to_bits(),
        y1: (-64.0f64).to_bits(),
        z1: 12.5f64.to_bits(),
        x2: 4.0f64.to_bits(),
        y2: 70.0f64.to_bits(),
        z2: (-3.25f64).to_bits(),
    }
}

#[test]
fn encoded_cube_starts_with_three_dimensions() {
    let bytes = encode_cube(&sample());
    assert_eq!(bytes.len(), 52);
    assert_eq!(&bytes[0..4], &[0, 0, 0, 3]);
    assert_eq!(&bytes[4..12], &1.0f64.to_be_bytes());
    assert_eq!(&bytes[44..52], &(-3.25f64).to_be_bytes());
}

#[test]
fn cube_roundtrips_through_its_binary_form() {
    let cube = sample();
    assert_eq!(decode_cube(&encode_cube(&cube)), Ok(cube));
}

#[test]
fn point_decodes_to_a_degenerate_cube() {
    let mut bytes = vec![0x80, 0, 0, 3];
    bytes.extend_from_slice(&2.0f64.to_be_bytes());
    bytes.extend_from_slice(&65.0f64.to_be_bytes());
    bytes.extend_from_slice(&(-7.0f64).to_be_bytes());
    let cube = decode_cube(&bytes).unwrap();
    assert_eq!(f64::from_bits(cube.x1), 2.0);
    assert_eq!(f64::from_bits(cube.y2), 65.0);
    assert_eq!(cube.z2, cube.z1);
    assert_eq!(f64::from_bits(cube.z2), -7.0);
}

#[test]
fn short_cube_lacks_its_header() {
    let error = decode_cube(&[0, 0, 3]).unwrap_err();
    assert_eq!(error, CubeDecodeError::MissingHeader);
    assert_eq!(error.message(), "cube value is missing its header");
}

#[test]
fn two_dimensional_cube_is_refused() {
    let mut bytes = vec![0, 0, 0, 2];
    bytes.extend_from_slice(&[0; 32]);
    let error = decode_cube(&bytes).unwrap_err();
    assert_eq!(error, CubeDecodeError::Dimensions { dimensions: 2 });
    assert_eq!(error.message(), "expected a 3D cube, got 2 dimensions");
}

#[test]
fn cube_with_wrong_length_is_refused() {
    let mut bytes = vec![0x80, 0, 0, 3];
    bytes.extend_from_slice(&[0; 48]);
    let error = decode_cube(&bytes).unwrap_err();
    assert_eq!(error, CubeDecodeError::PayloadLength { length: 52 });
    assert_eq!(error.message(), "invalid 3D cube payload length: 52");
}
