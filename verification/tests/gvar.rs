use fonttools::binary::DecodeError;
use fonttools::gvar::{gvar, read_data_offsets};

#[test]
fn gvar_de() {
    let binary_gvar = vec![
        0x00, 0x01, 0x00, 0x00, 0x00, 0x01, 0x00, 0x00, 0x00, 0x00, 0x00, 0x1a, 0x00, 0x02,
        0x00, 0x00, 0x00, 0x00, 0x00, 0x1a, 0x00, 0x00, 0x00, 0x00, 0x00, 0x16, 0x80, 0x01,
        0x00, 0x0a, 0x00, 0x21, 0x80, 0x00, 0x20, 0x00, 0x00, 0x06, 0x35, 0x30, 0x49, 0x45,
        0x00, 0x10, 0x74, 0x40, 0x00, 0x84, 0x03, 0x4b, 0x2e, 0x3d, 0x00, 0x40, 0x01, 0x20,
        0x81, 0x0a, 0xf8, 0x03, 0x03, 0xf8, 0xf8, 0x1c, 0x1c, 0xf8, 0x3b, 0x3b, 0x15, 0x83,
    ];
    let deserialized: gvar = gvar::decode(&binary_gvar).unwrap();
    assert_eq!(deserialized.majorVersion, 1);
    assert_eq!(deserialized.minorVersion, 0);
    assert_eq!(deserialized.axisCount, 1);
    assert_eq!(deserialized.sharedTuples.len(), 0);
    assert_eq!(deserialized.glyphVariations.len(), 0);
    assert_eq!(read_data_offsets(&binary_gvar), Ok(vec![0, 0]));
}

/// A table of two axes, two shared tuples and three glyphs.
fn table(long_offsets: bool) -> Vec<u8> {
    let mut bytes = vec![
        0x00, 0x01, 0x00, 0x02, // version 1.2
        0x00, 0x02, // two axes
        0x00, 0x02, // two shared tuples
        0x00, 0x00, 0x00, 0x16, // two bytes lie before the shared tuples
        0x00, 0x03, // three glyphs
        0x00, if long_offsets { 0x01 } else { 0x00 },
        0x00, 0x00, 0x00, 0x40,
    ];
    if long_offsets {
        bytes.extend([0, 0, 0, 0, 0, 0, 0x80, 0x01, 0xff, 0xff, 0xff, 0xff]);
    } else {
        bytes.extend([0, 0, 0x80, 0x01, 0xff, 0xff]);
    }
    bytes.extend([0xee, 0xee]);
    bytes.extend([0x40, 0x00, 0xc0, 0x00, 0x20, 0x00, 0x00, 0x01]);
    bytes
}

#[test]
fn shared_tuples_come_as_fixed_point_numbers() {
    for long_offsets in [false, true] {
        let decoded = gvar::decode(&table(long_offsets)).unwrap();
        assert_eq!(decoded.majorVersion, 1);
        assert_eq!(decoded.minorVersion, 2);
        assert_eq!(decoded.axisCount, 2);
        assert_eq!(decoded.sharedTuples, vec![vec![16384, -16384], vec![8192, 1]]);
        assert!(decoded.glyphVariations.is_empty());
    }
}

#[test]
fn short_offsets_are_doubled() {
    assert_eq!(read_data_offsets(&table(false)), Ok(vec![0, 0x10002, 0x1fffe]));
    assert_eq!(read_data_offsets(&table(true)), Ok(vec![0, 0x8001, 0xffffffff]));
}

#[test]
fn truncated_tables_fail() {
    for long_offsets in [false, true] {
        let bytes = table(long_offsets);
        for cut in 0..bytes.len() {
            assert_eq!(gvar::decode(&bytes[..cut]), Err(DecodeError::UnexpectedEnd));
        }
        let array_end = if long_offsets { 32 } else { 26 };
        for cut in 0..array_end {
            assert_eq!(read_data_offsets(&bytes[..cut]), Err(DecodeError::UnexpectedEnd));
        }
        assert!(read_data_offsets(&bytes[..array_end]).is_ok());
    }
}

#[test]
fn tuples_cannot_start_before_the_header_ends() {
    let mut bytes = table(false);
    bytes[11] = 0x13;
    assert_eq!(gvar::decode(&bytes), Err(DecodeError::OffsetBeforeData));
    assert_eq!(
        DecodeError::OffsetBeforeData.description(),
        "Offset points before the data"
    );
    bytes[11] = 0x14;
    assert_eq!(gvar::decode(&bytes).unwrap().sharedTuples, vec![vec![-4370, 16384], vec![-16384, 8192]]);
}
