use fonttools::binary::DecodeError;
use fonttools::glyf::{from_bytes, glyf, Component, ComponentFlags, Glyph, Point};

/// A font with eight glyphs, among them a composite one.
fn binary_font() -> Vec<u8> {
    vec![
            0x00, 0x01, 0x00, 0x00, 0x00, 0x0a, 0x00, 0x80, 0x00, 0x03, 0x00, 0x20, 0x4f, 0x53,
            0x2f, 0x32, 0x47, 0x36, 0x45, 0x90, 0x00, 0x00, 0x01, 0x28, 0x00, 0x00, 0x00, 0x60,
            0x63, 0x6d, 0x61, 0x70, 0x01, 0x5c, 0x04, 0x51, 0x00, 0x00, 0x01, 0xa8, 0x00, 0x00,
            0x00, 0x64, 0x67, 0x6c, 0x79, 0x66, 0x01, 0x73, 0xbf, 0xf8, 0x00, 0x00, 0x02, 0x20,
            0x00, 0x00, 0x02, 0x1e, 0x68, 0x65, 0x61, 0x64, 0x1a, 0x46, 0x65, 0x4f, 0x00, 0x00,
            0x00, 0xac, 0x00, 0x00, 0x00, 0x36, 0x68, 0x68, 0x65, 0x61, 0x05, 0x85, 0x01, 0xc2,
            0x00, 0x00, 0x00, 0xe4, 0x00, 0x00, 0x00, 0x24, 0x68, 0x6d, 0x74, 0x78, 0x10, 0xf6,
            0xff, 0xda, 0x00, 0x00, 0x01, 0x88, 0x00, 0x00, 0x00, 0x20, 0x6c, 0x6f, 0x63, 0x61,
            0x02, 0x55, 0x01, 0xd6, 0x00, 0x00, 0x02, 0x0c, 0x00, 0x00, 0x00, 0x12, 0x6d, 0x61,
            0x78, 0x70, 0x00, 0x12, 0x00, 0x47, 0x00, 0x00, 0x01, 0x08, 0x00, 0x00, 0x00, 0x20,
            0x6e, 0x61, 0x6d, 0x65, 0xff, 0x72, 0x0d, 0x88, 0x00, 0x00, 0x04, 0x40, 0x00, 0x00,
            0x00, 0xb4, 0x70, 0x6f, 0x73, 0x74, 0x16, 0xf9, 0xc6, 0xb7, 0x00, 0x00, 0x04, 0xf4,
            0x00, 0x00, 0x00, 0x48, 0x00, 0x01, 0x00, 0x00, 0x00, 0x01, 0x00, 0x00, 0x7e, 0x62,
            0x06, 0x11, 0x5f, 0x0f, 0x3c, 0xf5, 0x00, 0x03, 0x03, 0xe8, 0x00, 0x00, 0x00, 0x00,
            0xdc, 0x27, 0x59, 0x19, 0x00, 0x00, 0x00, 0x00, 0xdc, 0xa5, 0xc8, 0x08, 0xff, 0x73,
            0xff, 0xb4, 0x02, 0xef, 0x03, 0x93, 0x00, 0x00, 0x00, 0x0a, 0x00, 0x02, 0x00, 0x00,
            0x00, 0x00, 0x00, 0x00, 0x00, 0x01, 0x00, 0x00, 0x03, 0x20, 0xff, 0x38, 0x00, 0x00,
            0x02, 0xf4, 0xff, 0x73, 0xff, 0x8d, 0x02, 0xef, 0x00, 0x01, 0x00, 0x00, 0x00, 0x00,
            0x00, 0x00, 0x00, 0x00, 0x00, 0x00, 0x00, 0x00, 0x00, 0x00, 0x00, 0x08, 0x00, 0x01,
            0x00, 0x00, 0x00, 0x08, 0x00, 0x34, 0x00, 0x03, 0x00, 0x10, 0x00, 0x04, 0x00, 0x02,
            0x00, 0x00, 0x00, 0x00, 0x00, 0x00, 0x00, 0x00, 0x00, 0x00, 0x00, 0x00, 0x00, 0x02,
            0x00, 0x01, 0x00, 0x03, 0x02, 0x1f, 0x01, 0x90, 0x00, 0x05, 0x00, 0x04, 0x00, 0x00,
            0x00, 0x00, 0x00, 0x00, 0x00, 0x00, 0x00, 0x00, 0x00, 0x00, 0x00, 0x00, 0x00, 0x00,
            0x00, 0x00, 0x00, 0x00, 0x00, 0x00, 0x00, 0x00, 0x00, 0x00, 0x00, 0x00, 0x00, 0x00,
            0x00, 0x00, 0x00, 0x00, 0x00, 0x43, 0x00, 0x00, 0x00, 0x00, 0x00, 0x00, 0x00, 0x00,
            0x00, 0x00, 0x00, 0x00, 0x3f, 0x3f, 0x3f, 0x3f, 0x00, 0x00, 0x00, 0x20, 0x03, 0x01,
            0x03, 0x20, 0xff, 0x38, 0x00, 0x00, 0x00, 0x00, 0x00, 0x00, 0x00, 0x00, 0x00, 0x00,
            0x00, 0x00, 0x00, 0x00, 0x01, 0xf4, 0x02, 0xbc, 0x00, 0x00, 0x00, 0x20, 0x00, 0x00,
            0x02, 0xf4, 0x00, 0x05, 0x02, 0xf4, 0x00, 0x05, 0x02, 0x98, 0x00, 0x1e, 0x02, 0xf4,
            0x00, 0x05, 0x00, 0xc8, 0x00, 0x00, 0x02, 0x58, 0x00, 0x1d, 0x02, 0x58, 0x00, 0x1d,
            0x00, 0x0a, 0xff, 0x73, 0x00, 0x00, 0x00, 0x02, 0x00, 0x00, 0x00, 0x03, 0x00, 0x00,
            0x00, 0x14, 0x00, 0x03, 0x00, 0x01, 0x00, 0x00, 0x00, 0x14, 0x00, 0x04, 0x00, 0x50,
            0x00, 0x00, 0x00, 0x10, 0x00, 0x10, 0x00, 0x03, 0x00, 0x00, 0x00, 0x20, 0x00, 0x24,
            0x00, 0x41, 0x00, 0x4f, 0x00, 0x56, 0x00, 0xc1, 0x03, 0x01, 0xff, 0xff, 0x00, 0x00,
            0x00, 0x20, 0x00, 0x24, 0x00, 0x41, 0x00, 0x4f, 0x00, 0x56, 0x00, 0xc1, 0x03, 0x01,
            0xff, 0xff, 0xff, 0xe4, 0xff, 0xe1, 0xff, 0xbf, 0xff, 0xb3, 0xff, 0xad, 0xff, 0x40,
            0xfd, 0x06, 0x00, 0x01, 0x00, 0x00, 0x00, 0x00, 0x00, 0x00, 0x00, 0x00, 0x00, 0x00,
            0x00, 0x00, 0x00, 0x00, 0x00, 0x00, 0x00, 0x00, 0x00, 0x1e, 0x00, 0x2a, 0x00, 0x51,
            0x00, 0x66, 0x00, 0x66, 0x00, 0xb6, 0x01, 0x01, 0x01, 0x0f, 0x00, 0x00, 0x00, 0x03,
            0x00, 0x05, 0x00, 0x00, 0x02, 0xef, 0x02, 0xbc, 0x00, 0x03, 0x00, 0x07, 0x00, 0x0b,
            0x00, 0x00, 0x01, 0x01, 0x33, 0x01, 0x23, 0x01, 0x33, 0x01, 0x13, 0x35, 0x21, 0x15,
            0x01, 0x43, 0x01, 0x3e, 0x6e, 0xfe, 0xc2, 0x6e, 0xfe, 0xc2, 0x6e, 0x01, 0x3e, 0x86,
            0xfe, 0x61, 0x02, 0xbc, 0xfd, 0x44, 0x02, 0xbc, 0xfd, 0x44, 0x02, 0xbc, 0xfe, 0x10,
            0x50, 0x50, 0xff, 0xff, 0x00, 0x05, 0x00, 0x00, 0x02, 0xef, 0x03, 0x93, 0x00, 0x26,
            0x00, 0x00, 0x00, 0x00, 0x00, 0x07, 0x00, 0x07, 0x01, 0x92, 0x00, 0x82, 0x00, 0x02,
            0x00, 0x1e, 0xff, 0xf6, 0x02, 0x7a, 0x02, 0xc6, 0x00, 0x0b, 0x00, 0x17, 0x00, 0x00,
            0x01, 0x14, 0x06, 0x23, 0x22, 0x26, 0x35, 0x34, 0x36, 0x33, 0x32, 0x16, 0x05, 0x14,
            0x16, 0x33, 0x32, 0x36, 0x35, 0x34, 0x26, 0x23, 0x22, 0x06, 0x02, 0x7a, 0x96, 0x98,
            0x97, 0x97, 0x97, 0x97, 0x98, 0x96, 0xfd, 0xfe, 0x6a, 0x6a, 0x6a, 0x6a, 0x6a, 0x6a,
            0x6a, 0x6a, 0x01, 0x5e, 0xb5, 0xb3, 0xb3, 0xb5, 0xb5, 0xb3, 0xb3, 0xb5, 0x8a, 0x8a,
            0x8a, 0x8a, 0x8a, 0x8a, 0x8a, 0x00, 0x00, 0x02, 0x00, 0x05, 0x00, 0x00, 0x02, 0xef,
            0x02, 0xbc, 0x00, 0x03, 0x00, 0x07, 0x00, 0x00, 0x21, 0x23, 0x01, 0x33, 0x01, 0x23,
            0x01, 0x33, 0x01, 0xb1, 0x6e, 0x01, 0x3e, 0x6e, 0xfe, 0xc2, 0x6e, 0xfe, 0xc2, 0x6e,
            0x02, 0xbc, 0xfd, 0x44, 0x02, 0xbc, 0x00, 0x03, 0x00, 0x1d, 0xff, 0xbc, 0x02, 0x44,
            0x02, 0xf7, 0x00, 0x23, 0x00, 0x2b, 0x00, 0x33, 0x00, 0x00, 0x01, 0x35, 0x33, 0x15,
            0x16, 0x16, 0x17, 0x07, 0x26, 0x26, 0x27, 0x15, 0x16, 0x16, 0x15, 0x14, 0x06, 0x07,
            0x15, 0x23, 0x35, 0x26, 0x26, 0x27, 0x37, 0x16, 0x16, 0x17, 0x35, 0x27, 0x26, 0x26,
            0x35, 0x34, 0x36, 0x36, 0x17, 0x06, 0x06, 0x15, 0x14, 0x16, 0x16, 0x17, 0x17, 0x15,
            0x36, 0x36, 0x35, 0x34, 0x26, 0x26, 0x01, 0x08, 0x5a, 0x3d, 0x68, 0x2b, 0x35, 0x24,
            0x4b, 0x2c, 0x71, 0x71, 0x79, 0x69, 0x5a, 0x48, 0x78, 0x2b, 0x34, 0x2a, 0x54, 0x39,
            0x0f, 0x65, 0x69, 0x38, 0x64, 0x41, 0x3d, 0x42, 0x17, 0x36, 0x2f, 0x5d, 0x45, 0x3f,
            0x18, 0x39, 0x02, 0xcb, 0x2c, 0x2c, 0x06, 0x2f, 0x2a, 0x48, 0x24, 0x25, 0x06, 0xfe,
            0x16, 0x58, 0x4f, 0x52, 0x6e, 0x0a, 0x32, 0x32, 0x06, 0x2e, 0x28, 0x48, 0x24, 0x25,
            0x04, 0xe8, 0x03, 0x13, 0x61, 0x52, 0x39, 0x5b, 0x39, 0x50, 0x09, 0x41, 0x33, 0x20,
            0x2a, 0x1a, 0x0a, 0x6b, 0xd8, 0x07, 0x3b, 0x30, 0x1c, 0x27, 0x19, 0x00, 0x00, 0x01,
            0x00, 0x1d, 0xff, 0xb4, 0x02, 0x44, 0x02, 0xf7, 0x00, 0x32, 0x00, 0x00, 0x01, 0x35,
            0x33, 0x15, 0x16, 0x16, 0x17, 0x07, 0x26, 0x26, 0x23, 0x22, 0x06, 0x15, 0x14, 0x16,
            0x16, 0x17, 0x17, 0x16, 0x16, 0x15, 0x14, 0x06, 0x06, 0x07, 0x15, 0x23, 0x35, 0x26,
            0x26, 0x27, 0x37, 0x1e, 0x02, 0x33, 0x32, 0x36, 0x35, 0x34, 0x26, 0x26, 0x27, 0x27,
            0x26, 0x26, 0x35, 0x34, 0x36, 0x36, 0x01, 0x08, 0x5a, 0x3d, 0x68, 0x2b, 0x35, 0x2d,
            0x5e, 0x3e, 0x52, 0x59, 0x17, 0x36, 0x2f, 0x63, 0x6d, 0x6f, 0x37, 0x65, 0x46, 0x5a,
            0x48, 0x78, 0x2b, 0x34, 0x22, 0x41, 0x4f, 0x33, 0x5d, 0x53, 0x19, 0x3c, 0x35, 0x63,
            0x65, 0x69, 0x38, 0x64, 0x02, 0xcb, 0x2c, 0x2c, 0x06, 0x2f, 0x2a, 0x48, 0x2c, 0x26,
            0x44, 0x3c, 0x20, 0x2a, 0x1a, 0x0a, 0x14, 0x16, 0x57, 0x4f, 0x36, 0x57, 0x36, 0x07,
            0x3a, 0x3a, 0x06, 0x2e, 0x28, 0x48, 0x1c, 0x23, 0x10, 0x3d, 0x37, 0x1d, 0x27, 0x1a,
            0x09, 0x12, 0x13, 0x61, 0x52, 0x39, 0x5b, 0x39, 0x00, 0x01, 0xff, 0x73, 0x02, 0x76,
            0x00, 0x7d, 0x03, 0x11, 0x00, 0x03, 0x00, 0x00, 0x13, 0x07, 0x07, 0x37, 0x7d, 0xf3,
            0x17, 0xf3, 0x03, 0x11, 0x45, 0x56, 0x45, 0x00, 0x00, 0x00, 0x00, 0x00, 0x00, 0x08,
            0x00, 0x66, 0x00, 0x01, 0x00, 0x00, 0x00, 0x00, 0x00, 0x01, 0x00, 0x0f, 0x00, 0x00,
            0x00, 0x01, 0x00, 0x00, 0x00, 0x00, 0x00, 0x10, 0x00, 0x0f, 0x00, 0x00, 0x00, 0x01,
            0x00, 0x00, 0x00, 0x00, 0x01, 0x00, 0x00, 0x06, 0x00, 0x0f, 0x00, 0x01, 0x00, 0x00,
            0x00, 0x00, 0x01, 0x01, 0x00, 0x05, 0x00, 0x15, 0x00, 0x03, 0x00, 0x01, 0x04, 0x09,
            0x00, 0x01, 0x00, 0x1e, 0x00, 0x1a, 0x00, 0x03, 0x00, 0x01, 0x04, 0x09, 0x00, 0x10,
            0x00, 0x1e, 0x00, 0x1a, 0x00, 0x03, 0x00, 0x01, 0x04, 0x09, 0x01, 0x00, 0x00, 0x0c,
            0x00, 0x38, 0x00, 0x03, 0x00, 0x01, 0x04, 0x09, 0x01, 0x01, 0x00, 0x0a, 0x00, 0x44,
            0x53, 0x69, 0x6d, 0x70, 0x6c, 0x65, 0x20, 0x54, 0x77, 0x6f, 0x20, 0x41, 0x78, 0x69,
            0x73, 0x57, 0x65, 0x69, 0x67, 0x68, 0x74, 0x53, 0x6c, 0x61, 0x6e, 0x74, 0x00, 0x53,
            0x00, 0x69, 0x00, 0x6d, 0x00, 0x70, 0x00, 0x6c, 0x00, 0x65, 0x00, 0x20, 0x00, 0x54,
            0x00, 0x77, 0x00, 0x6f, 0x00, 0x20, 0x00, 0x41, 0x00, 0x78, 0x00, 0x69, 0x00, 0x73,
            0x00, 0x57, 0x00, 0x65, 0x00, 0x69, 0x00, 0x67, 0x00, 0x68, 0x00, 0x74, 0x00, 0x53,
            0x00, 0x6c, 0x00, 0x61, 0x00, 0x6e, 0x00, 0x74, 0x00, 0x02, 0x00, 0x00, 0x00, 0x00,
            0x00, 0x00, 0x00, 0x00, 0x00, 0x00, 0x00, 0x00, 0x00, 0x00, 0x00, 0x00, 0x00, 0x00,
            0x00, 0x00, 0x00, 0x00, 0x00, 0x00, 0x00, 0x00, 0x00, 0x00, 0x00, 0x00, 0x00, 0x08,
            0x00, 0x24, 0x00, 0xc9, 0x00, 0x32, 0x00, 0x39, 0x00, 0x03, 0x00, 0x07, 0x01, 0x02,
            0x01, 0x03, 0x0b, 0x64, 0x6f, 0x6c, 0x6c, 0x61, 0x72, 0x2e, 0x62, 0x6f, 0x6c, 0x64,
            0x09, 0x61, 0x63, 0x75, 0x74, 0x65, 0x63, 0x6f, 0x6d, 0x62,
        ]
}

/// Cuts the glyph table out of the font, and reads the offsets of its
/// glyphs from the font's index of 16-bit half-offsets: a glyph whose
/// offset equals the next one's has no data.
fn glyph_table() -> (Vec<u8>, Vec<Option<u32>>) {
    let font = binary_font();
    let table = font[0x220..0x220 + 0x21e].to_vec();
    let index = &font[0x20c..0x20c + 0x12];
    let halves: Vec<u32> = index
        .chunks(2)
        .map(|pair| 2 * (u32::from(pair[0]) * 256 + u32::from(pair[1])))
        .collect();
    let offsets = halves
        .windows(2)
        .map(|w| if w[0] == w[1] { None } else { Some(w[0]) })
        .collect();
    (table, offsets)
}

#[test]
fn glyf_de() {
    let binary_glyf = vec![
            0x00, 0x02, // Two contours
            0x00, 0x14, // xMin
            0x00, 0x00, // yMin
            0x02, 0x37, // xMax
            0x01, 0x22, // yMax
            0x00, 0x02, // end of first
            0x00, 0x0e, // end of second
            0x00, 0x00, // No instructions
            /* First contour flags */
            0x33, // pt0: Oncurve. X is short. Y is repeated.
            0x33, // pt1: Oncurve. X is short. Y is repeated.
            0x27, // pt2: Oncurve. X is short + negative. Y is short + positive.
            /* Second contour flags */
            0x24, // pt3: Offcurve. Y is short + positive
            0x36, // pt4:
            0x33, // pt5: Oncurve. X is short. Y is repeated.
            0x32, // pt6: Offcurve. X is short. Y is repeated.
            0x16, // pt7:
            0x15, // pt8:
            0x14, // pt9:
            0x06, // pt10: On curve, x and y short
            0x23, // pt11:
            0x22, // pt12:
            0x26, // pt13:
            0x35, // pt14:
            /* Point 0 */
            0x14, // X = 20
            /* Point 1 */
            0xc8, // X += 200
            /* Point 2 */
            0x78, // X -= 120
            0x01, // ???
            0x1e, 0x36, 0x25, 0x25, 0x35, 0x35, 0x25, 0x25, 0x36, 0xc8, 0x25, 0x35, 0x35, 0x25,
            0x25, 0x36, 0x36, 0x25,
        ];
    let deserialized = Glyph::decode(&binary_glyf).unwrap();
    let glyph = Glyph {
        xMin: 20, xMax: 567, yMin: 0, yMax: 290,
        contours: vec![
            vec![
                Point {x: 20, y: 0, on_curve: true, },
                Point {x: 220, y: 0, on_curve: true, },
                Point {x: 100, y: 200, on_curve: true, },
            ],
            vec![
                Point {x: 386, y: 237, on_curve: false, },
                Point {x: 440, y: 290, on_curve: false, },
                Point {x: 477, y: 290, on_curve: true, },
                Point {x: 514, y: 290, on_curve: false, },
                Point {x: 567, y: 237, on_curve: false, },
                Point {x: 567, y: 200, on_curve: true, },
                Point {x: 567, y: 163, on_curve: false, },
                Point {x: 514, y: 109, on_curve: false, },
                Point {x: 477, y: 109, on_curve: true, },
                Point {x: 440, y: 109, on_curve: false, },
                Point {x: 386, y: 163, on_curve: false, },
                Point {x: 386, y: 200, on_curve: true, },
            ],
        ],
        instructions: vec![],
        components: vec![],
        overlap: false,
    };
    assert_eq!(deserialized, glyph);
    let serialized = glyph.encode().unwrap();
    assert_eq!(serialized, binary_glyf);
}

#[test]
fn test_glyf_de() {
    let (table, offsets) = glyph_table();
    let glyf = from_bytes(&table, offsets).unwrap();
    let cap_a = &glyf.glyphs[0];
    assert_eq!(cap_a, &Glyph {
        xMin:5, yMin:0, xMax: 751, yMax:700,
        contours: vec![
            vec![
                Point { x:323, y:700, on_curve: true },
                Point { x:641, y:0, on_curve: true },
                Point { x:751, y:0, on_curve: true },
                Point { x:433, y:700, on_curve: true },
            ],
            vec![
                Point { x:323, y:700, on_curve: true },
                Point { x:5, y:0, on_curve: true },
                Point { x:115, y:0, on_curve: true },
                Point { x:433, y:700, on_curve: true },
            ],
            vec![
                Point { x:567, y:204, on_curve: true },
                Point { x:567, y:284, on_curve: true },
                Point { x:152, y:284, on_curve: true },
                Point { x:152, y:204, on_curve: true },
            ],
        ],
        components: vec![],
        instructions: vec![],
        overlap: false // There is, though.
    });

    let aacute = &glyf.glyphs[1];
    assert_eq!(
        aacute.components[0],
        Component {
            glyph_index: 0,
            transformation: kurbo::Affine::new([1.0, 0.0, 0.0, 1.0, 0.0, 0.0]),
            match_points: None,
            flags: ComponentFlags::from_bits(
                ComponentFlags::ROUND_XY_TO_GRID
                    | ComponentFlags::ARGS_ARE_XY_VALUES
                    | ComponentFlags::MORE_COMPONENTS
            )
        }
    );

    assert_eq!(
        aacute.components[1],
        Component {
            glyph_index: 7,
            transformation: kurbo::Affine::new([1.0, 0.0, 0.0, 1.0, 402.0, 130.0]),
            match_points: None,
            flags: ComponentFlags::from_bits(
                ComponentFlags::ROUND_XY_TO_GRID
                    | ComponentFlags::ARGS_ARE_XY_VALUES
                    | ComponentFlags::ARG_1_AND_2_ARE_WORDS
            )
        }
    );

    let component1_bytes = aacute.encode().unwrap();
    assert_eq!(
        component1_bytes,
        vec![
            0xff, 0xff, 0x00, 0x05, 0x00, 0x00, 0x02, 0xef, 0x03, 0x93, 0x00, 0x26, 0x00, 0x00,
            0x00, 0x00, 0x00, 0x07, 0x00, 0x07, 0x01, 0x92, 0x00, 0x82
        ]
    );

    assert!(glyf.glyphs[4].is_empty());
    let dollarbold = &glyf.glyphs[6];
    assert_eq!(dollarbold.xMin, 29);
    assert_eq!(dollarbold.yMin, -76);
    assert_eq!(dollarbold.xMax, 580);
    assert_eq!(dollarbold.yMax, 759);
    let firstpoint = dollarbold.contours[0][0];
    assert_eq!(
        firstpoint,
        Point {
            x: 264,
            y: 715,
            on_curve: true
        }
    );
}

#[test]
fn every_glyph_of_the_font_survives_encoding() {
    let (table, offsets) = glyph_table();
    let glyf = from_bytes(&table, offsets.clone()).unwrap();
    let mut same_bytes = 0;
    for (glyph, at) in glyf.glyphs.iter().zip(offsets.iter()) {
        let bytes = glyph.encode().unwrap();
        match at {
            None => assert!(bytes.is_empty()),
            Some(at) => {
                let at = *at as usize;
                assert_eq!(Glyph::decode(&bytes).unwrap(), *glyph);
                if table[at..].starts_with(&bytes) {
                    same_bytes += 1;
                }
            }
        }
    }
    // one glyph of the font stores a run of three equal flags as a repeated
    // flag, which is valid but not the form that encoding chooses
    assert_eq!(same_bytes, offsets.iter().flatten().count() - 1);
}

#[test]
fn repeated_flag_covers_its_run_and_no_more() {
    // one contour of four points; the first flag byte is repeated twice
    // more, the fourth point has a flag byte of its own
    let bytes = vec![
        0x00, 0x01, 0, 0, 0, 0, 0, 3, 0, 3, // header
        0x00, 0x03, // the contour ends at point 3
        0x00, 0x00, // no instructions
        0x3f, 0x02, // on curve, short positive x and y; two more points alike
        0x30, // off curve, x and y unchanged
        1, 1, 1, // x deltas
        1, 1, 1, // y deltas
    ];
    let glyph = Glyph::decode(&bytes).unwrap();
    assert_eq!(
        glyph.contours,
        vec![vec![
            Point { x: 1, y: 1, on_curve: true },
            Point { x: 2, y: 2, on_curve: true },
            Point { x: 3, y: 3, on_curve: true },
            Point { x: 3, y: 3, on_curve: false },
        ]]
    );
    // a count that reaches beyond the last point is cut off there
    let mut long_run = bytes.clone();
    long_run[15] = 0xff;
    long_run.remove(16);
    long_run.extend([1, 1]);
    let glyph = Glyph::decode(&long_run).unwrap();
    assert_eq!(glyph.contours[0].len(), 4);
    assert_eq!(glyph.contours[0][3], Point { x: 4, y: 4, on_curve: true });
    // encoding does not repeat flags
    let plain = Glyph::decode(&bytes).unwrap().encode().unwrap();
    assert_eq!(&plain[14..18], &[0x37, 0x37, 0x37, 0x30]);
    assert_eq!(Glyph::decode(&plain).unwrap(), Glyph::decode(&bytes).unwrap());
}

#[test]
fn coordinates_sum_up_across_contours() {
    // two contours of one point each: the second point lies at the sum of
    // both deltas, not at its own delta
    let bytes = vec![
        0x00, 0x02, 0, 0, 0, 0, 0, 0, 0, 0, // header
        0x00, 0x00, 0x00, 0x01, // ends
        0x00, 0x00, // no instructions
        0x01, 0x01, // on curve, long deltas
        0x01, 0x00, 0xfe, 0xd4, // x: 256, -300
        0x80, 0x00, 0x7f, 0xff, // y: -32768, 32767
    ];
    let glyph = Glyph::decode(&bytes).unwrap();
    assert_eq!(
        glyph.contours,
        vec![
            vec![Point { x: 256, y: -32768, on_curve: true }],
            vec![Point { x: -44, y: -1, on_curve: true }],
        ]
    );
    assert_eq!(glyph.encode().unwrap(), bytes);
}

#[test]
fn decoding_reports_each_failure() {
    let good = vec![
        0x00, 0x02, 0, 0, 0, 0, 0, 0, 0, 0, 0x00, 0x00, 0x00, 0x01, 0x00, 0x00, 0x01, 0x01,
        0x01, 0x00, 0xff, 0x38, 0x80, 0x00, 0x7f, 0xff,
    ];
    for cut in 0..good.len() {
        assert_eq!(Glyph::decode(&good[..cut]), Err(DecodeError::UnexpectedEnd));
    }
    assert_eq!(Glyph::decode_at(&good, good.len() + 1), Err(DecodeError::UnexpectedEnd));
    // the second contour ends before the first
    let mut descending = good.clone();
    descending[11] = 0x01;
    descending[13] = 0x00;
    assert_eq!(Glyph::decode(&descending), Err(DecodeError::ContourEndsDescend));
    // the second x delta carries the coordinate beyond 32767
    let mut overflow = good.clone();
    overflow[18] = 0x7f;
    overflow[19] = 0xff;
    overflow[20] = 0x00;
    overflow[21] = 0x01;
    assert_eq!(Glyph::decode(&overflow), Err(DecodeError::CoordinateOverflow));
    assert_eq!(DecodeError::UnexpectedEnd.description(), "End of file");
}

#[test]
fn entry_without_offset_gives_the_blank_glyph() {
    let table = from_bytes(&[], vec![None, None]).unwrap();
    assert_eq!(table.glyphs.len(), 2);
    for g in &table.glyphs {
        assert!(g.contours.is_empty());
        assert!(g.components.is_empty());
        assert!(g.instructions.is_empty());
        assert_eq!((g.xMin, g.yMin, g.xMax, g.yMax), (0, 0, 0, 0));
        assert!(!g.overlap);
        assert!(g.is_empty());
    }
    assert_eq!(table, glyf { glyphs: vec![Glyph::blank(), Glyph::blank()] });
}

#[test]
fn table_decoding_stops_at_the_first_bad_glyph() {
    let (table, mut offsets) = glyph_table();
    offsets[2] = Some(table.len() as u32 - 3);
    assert_eq!(from_bytes(&table, offsets), Err(DecodeError::UnexpectedEnd));
    assert_eq!(from_bytes(&table, vec![Some(u32::MAX)]), Err(DecodeError::UnexpectedEnd));
}
