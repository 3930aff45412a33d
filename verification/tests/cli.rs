use tetr::cli::{parse_decimal, same_text, GlVersion, GlVersionError, WindowSize, WindowSizeError};
use tetr::online::packet::{ProtocolId, ProtocolIdError};

#[test]
fn window_sizes_decode_from_width_x_height() {
    assert_eq!(WindowSize::decode("800x600"), Ok(WindowSize(800, 600)));
    assert_eq!(WindowSize::decode("+1x0"), Ok(WindowSize(1, 0)));
    assert_eq!(WindowSize::decode("4294967295x7"), Ok(WindowSize(4294967295, 7)));
}

#[test]
fn window_size_errors() {
    assert_eq!(WindowSize::decode("800"), Err(WindowSizeError::MissingX));
    assert_eq!(WindowSize::decode(""), Err(WindowSizeError::MissingX));
    assert_eq!(WindowSize::decode("x600"), Err(WindowSizeError::InvalidWidth));
    assert_eq!(WindowSize::decode("-8x600"), Err(WindowSizeError::InvalidWidth));
    assert_eq!(WindowSize::decode("4294967296x7"), Err(WindowSizeError::InvalidWidth));
    assert_eq!(WindowSize::decode("800x"), Err(WindowSizeError::InvalidHeight));
    assert_eq!(WindowSize::decode("800x600x2"), Err(WindowSizeError::InvalidHeight));
    assert_eq!(WindowSize::decode("800x 600"), Err(WindowSizeError::InvalidHeight));
    assert_eq!(
        WindowSizeError::MissingX.message(),
        "Invalid format: Missing 'x' in \"<WIDTH>x<HEIGHT>\""
    );
}

#[test]
fn gl_versions_decode_from_their_numbers() {
    assert_eq!(GlVersion::decode("32"), Ok(GlVersion::V3_2));
    assert_eq!(GlVersion::decode("20"), Ok(GlVersion::V2_0));
    assert_eq!(GlVersion::decode("45"), Ok(GlVersion::V4_5));
    assert_eq!(GlVersion::decode("+41"), Ok(GlVersion::V4_1));
    assert_eq!(GlVersion::decode("34"), Err(GlVersionError::UnknownVersion));
    assert_eq!(GlVersion::decode("255"), Err(GlVersionError::UnknownVersion));
    assert_eq!(GlVersion::decode("256"), Err(GlVersionError::InvalidNumber));
    assert_eq!(GlVersion::decode("v3"), Err(GlVersionError::InvalidNumber));
    assert_eq!(GlVersion::decode(""), Err(GlVersionError::InvalidNumber));
    assert_eq!(GlVersion::V3_3.name(), "v3.3");
    assert_eq!(GlVersion::V4_5.name(), "v4.5");
    assert_eq!(GlVersionError::UnknownVersion.message(), "Invalid version number was given");
}

#[test]
fn decimal_numbers() {
    assert_eq!(parse_decimal("a123b", 1, 4, 1000), Some(123));
    assert_eq!(parse_decimal("a123b", 1, 4, 122), None);
    assert_eq!(parse_decimal("+", 0, 1, 10), None);
    assert_eq!(parse_decimal("007", 0, 3, 10), Some(7));
}

#[test]
fn texts_compare_by_their_characters() {
    assert!(same_text("TETR", "TETR"));
    assert!(!same_text("TETR", "TETRA"));
    assert!(!same_text("tetr", "TETR"));
}

#[test]
fn the_protocol_id_is_tetr() {
    assert_eq!(ProtocolId.text(), "TETR");
    assert_eq!(ProtocolId::from_text("TETR"), Ok(ProtocolId));
    assert_eq!(ProtocolId::from_text("TETX"), Err(ProtocolIdError));
    assert_eq!(ProtocolId::from_bytes(b"TETR"), Ok(ProtocolId));
    assert_eq!(ProtocolId::from_bytes(b"TET"), Err(ProtocolIdError));
    assert_eq!(ProtocolIdError.message(), "Expected `TETR` as the protocol id");
}
