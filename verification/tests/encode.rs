use fonttools::glyf::encode::{encode_simple, EncodeError};
use fonttools::glyf::{Glyph, Point};

fn on(x: i16, y: i16) -> Point {
    Point { x, y, on_curve: true }
}

fn off(x: i16, y: i16) -> Point {
    Point { x, y, on_curve: false }
}

fn outline(contours: Vec<Vec<Point>>) -> Glyph {
    let mut g = Glyph::blank();
    g.contours = contours;
    g
}

#[test]
fn an_empty_glyph_has_no_bytes() {
    assert_eq!(Glyph::blank().encode(), Ok(vec![]));
    let mut g = Glyph::blank();
    g.xMax = 5;
    g.instructions = vec![1, 2, 3];
    g.overlap = true;
    assert_eq!(g.encode(), Ok(vec![]));
}

#[test]
fn each_delta_takes_its_most_compact_form() {
    let mut g = outline(vec![vec![on(0, -255), off(255, 0), on(255, 256), off(-1, 256)]]);
    g.xMin = -1;
    g.yMin = -255;
    g.xMax = 255;
    g.yMax = 256;
    g.instructions = vec![0xb0, 0x01];
    g.overlap = true;
    let bytes = g.encode().unwrap();
    assert_eq!(
        bytes,
        vec![
            0x00, 0x01, 0xff, 0xff, 0xff, 0x01, 0x00, 0xff, 0x01, 0x00, // header
            0x00, 0x03, // the contour ends at point 3
            0x00, 0x02, 0xb0, 0x01, // instructions
            0x55, // on curve, x unchanged, y short and negative, overlap
            0x36, // off curve, x short and positive, y short and positive
            0x11, // on curve, x unchanged, y long
            0x20, // off curve, x long, y unchanged
            0xff, 0xff, 0x00, // x: 255, then -256
            0xff, 0xff, 0x01, 0x00, // y: -255, 255, then 256
        ]
    );
    assert_eq!(Glyph::decode(&bytes).unwrap(), g);
    assert_eq!(encode_simple(&g), Ok(bytes));
}

#[test]
fn contours_are_told_apart_by_their_ends() {
    let g = outline(vec![vec![on(1, 1)], vec![], vec![on(1, 1), on(1, 1)], vec![]]);
    let bytes = g.encode().unwrap();
    assert_eq!(&bytes[..2], &[0x00, 0x04]);
    assert_eq!(&bytes[10..18], &[0x00, 0x00, 0x00, 0x00, 0x00, 0x02, 0x00, 0x02]);
    assert_eq!(Glyph::decode(&bytes).unwrap(), g);
}

#[test]
fn what_cannot_be_stored_is_refused() {
    let g = outline(vec![vec![]; 0x8000]);
    assert_eq!(g.encode(), Err(EncodeError::TooManyContours));
    let g = outline(vec![vec![], vec![on(0, 0)]]);
    assert_eq!(g.encode(), Err(EncodeError::ContourEndOutOfRange));
    let g = outline(vec![vec![on(0, 0); 0x10000], vec![on(0, 0)]]);
    assert_eq!(g.encode(), Err(EncodeError::ContourEndOutOfRange));
    let mut g = outline(vec![vec![on(0, 0); 0x10000]]);
    assert_eq!(g.encode().unwrap().len(), 10 + 2 + 2 + 0x10000);
    g.instructions = vec![0; 0x10000];
    assert_eq!(g.encode(), Err(EncodeError::TooManyInstructions));
    let g = outline(vec![vec![on(-32768, 0), on(-1, 0)]]);
    assert!(g.encode().is_ok());
    let g = outline(vec![vec![on(-32768, 0), on(0, 0)]]);
    assert_eq!(g.encode(), Err(EncodeError::DeltaOutOfRange));
    let g = outline(vec![vec![on(0, 32767), on(0, -2)]]);
    assert_eq!(g.encode(), Err(EncodeError::DeltaOutOfRange));
    let g = outline(vec![vec![on(0, 32767)], vec![on(0, -1)]]);
    assert!(g.encode().is_ok());
}
