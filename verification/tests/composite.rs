use fonttools::binary::DecodeError;
use fonttools::glyf::composite::{put_component, read_stored_component, StoredComponent};
use fonttools::glyf::encode::EncodeError;
use fonttools::glyf::{Component, ComponentFlags, Glyph, Point};
use kurbo::Affine;

const HEADER: [u8; 10] = [0xff, 0xff, 0x00, 0x01, 0x00, 0x02, 0x00, 0x03, 0x00, 0x04];

fn glyph_of(components: &[u8]) -> Vec<u8> {
    let mut bytes = HEADER.to_vec();
    bytes.extend_from_slice(components);
    bytes
}

fn component(glyph_index: u16, coeffs: [f64; 6], match_points: Option<(u16, u16)>, flags: u16) -> Component {
    Component {
        glyph_index,
        transformation: Affine::new(coeffs),
        match_points,
        flags: ComponentFlags::from_bits(flags),
    }
}

#[test]
fn component_with_one_scale_and_short_offset() {
    let bytes = glyph_of(&[0x00, 0x0a, 0x00, 0x03, 0xfe, 0x05, 0x20, 0x00]);
    let glyph = Glyph::decode(&bytes).unwrap();
    assert_eq!((glyph.xMin, glyph.yMin, glyph.xMax, glyph.yMax), (1, 2, 3, 4));
    assert!(glyph.contours.is_empty());
    assert!(glyph.instructions.is_empty());
    assert!(!glyph.overlap);
    assert_eq!(glyph.components, vec![component(3, [0.5, 0.0, 0.0, 0.5, -2.0, 5.0], None, 0x000a)]);
    assert_eq!(glyph.encode().unwrap(), bytes);
}

#[test]
fn component_with_a_scale_per_axis_and_long_offset() {
    let bytes = glyph_of(&[0x00, 0x43, 0x00, 0x04, 0x01, 0x2c, 0xfe, 0xd4, 0x40, 0x00, 0xc0, 0x00]);
    let glyph = Glyph::decode(&bytes).unwrap();
    assert_eq!(glyph.components, vec![component(4, [1.0, 0.0, 0.0, -1.0, 300.0, -300.0], None, 0x0043)]);
    assert_eq!(glyph.encode().unwrap(), bytes);
}

#[test]
fn component_with_a_matrix_and_matched_points() {
    let bytes = glyph_of(&[
        0x00, 0x80, 0x00, 0x05, 0x07, 0x09, 0x00, 0x00, 0x40, 0x00, 0xc0, 0x00, 0x00, 0x00,
    ]);
    let glyph = Glyph::decode(&bytes).unwrap();
    assert_eq!(glyph.components, vec![component(5, [0.0, 1.0, -1.0, 0.0, 0.0, 0.0], Some((7, 9)), 0x0080)]);
    assert_eq!(glyph.encode().unwrap(), bytes);
    // point numbers beyond 255 take two bytes each
    let bytes = glyph_of(&[0x00, 0x01, 0x00, 0x05, 0x01, 0x00, 0x00, 0x02]);
    let glyph = Glyph::decode(&bytes).unwrap();
    assert_eq!(glyph.components, vec![component(5, [1.0, 0.0, 0.0, 1.0, 0.0, 0.0], Some((256, 2)), 0x0001)]);
    assert_eq!(glyph.encode().unwrap(), bytes);
}

#[test]
fn only_the_first_announced_scale_is_read() {
    // one scale, a scale per axis and a matrix are all announced; one
    // number is read, and what follows belongs to the next component
    let bytes = glyph_of(&[
        0x00, 0xea, 0x00, 0x01, 0x00, 0x00, 0x60, 0x00, // one scale of 1.5, more to come
        0x00, 0x02, 0x00, 0x02, 0x01, 0x01,
    ]);
    let glyph = Glyph::decode(&bytes).unwrap();
    assert_eq!(
        glyph.components,
        vec![
            component(1, [1.5, 0.0, 0.0, 1.5, 0.0, 0.0], None, 0x00ea),
            component(2, [1.0, 0.0, 0.0, 1.0, 1.0, 1.0], None, 0x0002),
        ]
    );
    // written with the one scale that holds the matrix
    let written = glyph.encode().unwrap();
    assert_eq!(&written[10..12], &[0x00, 0x2a]);
    assert_eq!(Glyph::decode(&written).unwrap().components[0].transformation, Affine::new([1.5, 0.0, 0.0, 1.5, 0.0, 0.0]));
}

#[test]
fn components_run_until_one_announces_no_other() {
    let bytes = glyph_of(&[
        0x04, 0x22, 0x00, 0x01, 0x00, 0x00, // overlapping, more to come
        0x01, 0x02, 0x00, 0x02, 0x01, 0x01, // instructions follow
        0x00, 0x03, 0xaa, 0xbb, 0xcc, // three bytes of instructions
        0x00, 0x02, 0x00, 0x09, 0x00, 0x00, // not part of the glyph
    ]);
    let glyph = Glyph::decode(&bytes).unwrap();
    assert_eq!(glyph.components.len(), 2);
    assert_eq!(glyph.components[0].flags.bits(), 0x0422);
    assert_eq!(glyph.components[1].flags.bits(), 0x0102);
    assert_eq!(glyph.instructions, vec![0xaa, 0xbb, 0xcc]);
    assert!(glyph.overlap);
    assert_eq!(glyph.encode().unwrap(), bytes[..27].to_vec());
    // without instructions the last component does not announce any
    let mut bare = glyph.clone();
    bare.instructions.clear();
    bare.overlap = false;
    bare.components[0].flags = ComponentFlags::from_bits(0x0022);
    let written = bare.encode().unwrap();
    assert_eq!(written, glyph_of(&[0x00, 0x22, 0x00, 0x01, 0x00, 0x00, 0x00, 0x02, 0x00, 0x02, 0x01, 0x01]));
}

#[test]
fn a_contour_count_below_one_means_components() {
    let mut bytes = glyph_of(&[0x00, 0x02, 0x00, 0x07, 0x00, 0x00]);
    bytes[0] = 0x00;
    bytes[1] = 0x00;
    let glyph = Glyph::decode(&bytes).unwrap();
    assert_eq!(glyph.components.len(), 1);
    bytes[0] = 0x80;
    assert_eq!(Glyph::decode(&bytes).unwrap().components.len(), 1);
}

#[test]
fn truncated_components_fail() {
    let bytes = glyph_of(&[
        0x00, 0xa3, 0x00, 0x01, 0x00, 0x00, 0x00, 0x00, 0x40, 0x00, 0x00, 0x00, 0x00, 0x00, 0x40, 0x00,
        0x01, 0x02, 0x00, 0x02, 0x01, 0x01, 0x00, 0x02, 0xaa, 0xbb,
    ]);
    assert!(Glyph::decode(&bytes).is_ok());
    for cut in 0..bytes.len() {
        assert_eq!(Glyph::decode(&bytes[..cut]), Err(DecodeError::UnexpectedEnd));
    }
}

#[test]
fn stored_component_holds_the_integers_of_the_font() {
    let bytes = [0x00, 0x43, 0x00, 0x04, 0x01, 0x2c, 0xfe, 0xd4, 0x40, 0x00, 0xc0, 0x00, 0xff];
    let (stored, next) = read_stored_component(&bytes, 0).unwrap();
    assert_eq!(next, 12);
    assert_eq!(
        stored,
        StoredComponent {
            flags: 0x0043,
            glyph_index: 4,
            match_points: None,
            dx: 300,
            dy: -300,
            xx: 0x4000,
            yx: 0,
            xy: 0,
            yy: -0x4000,
        }
    );
    assert_eq!(stored.to_component(), component(4, [1.0, 0.0, 0.0, -1.0, 300.0, -300.0], None, 0x0043));
    // read anywhere else the bytes mean something else
    assert_eq!(read_stored_component(&bytes, 2).unwrap().0.match_points, Some((0xfe, 0xd4)));
    assert_eq!(read_stored_component(&bytes, 8), Err(DecodeError::UnexpectedEnd));
    assert_eq!(read_stored_component(&bytes, 13), Err(DecodeError::UnexpectedEnd));
}

#[test]
fn put_component_chooses_the_most_compact_form() {
    let mut out = vec![0xee];
    // own flags: only the kept bits survive
    put_component(&mut out, 0xffff, 7, None, (0x4000, 0, 0, 0x4000, -128, 127), false, true, true);
    assert_eq!(out, vec![0xee, 0x1f, 0x06, 0x00, 0x07, 0x80, 0x7f]);
    let mut out = vec![];
    put_component(&mut out, 0, 7, None, (0x4000, 0, 0, 0x4000, -129, 0), true, true, false);
    assert_eq!(out, vec![0x00, 0x23, 0x00, 0x07, 0xff, 0x7f, 0x00, 0x00]);
    let mut out = vec![];
    put_component(&mut out, 0, 7, Some((255, 0)), (0x2000, 0, 0, 0x2000, 9, 9), false, false, false);
    assert_eq!(out, vec![0x00, 0x08, 0x00, 0x07, 0xff, 0x00, 0x20, 0x00]);
    let mut out = vec![];
    put_component(&mut out, 0, 7, Some((0, 256)), (1, 0, -1, 1, 0, 0), false, false, false);
    assert_eq!(
        out,
        vec![0x00, 0x81, 0x00, 0x07, 0x00, 0x00, 0x01, 0x00, 0x00, 0x01, 0x00, 0x00, 0xff, 0xff, 0x00, 0x01]
    );
}

#[test]
fn stored_parts_round_to_the_nearest_fixed_point_number() {
    let c = component(0, [0.5, 1.0 / 3.0, -1.99999, 1.99993896484375, 12.9, -12.9], None, 0);
    assert_eq!(c.stored_parts(), Some((0x2000, 5461, -0x8000, 0x7fff, 12, -12)));
    // halfway between the largest number and 2.0 rounds up, out of range
    let c = component(0, [1.999969482421875, 0.0, 0.0, 1.0, 0.0, 0.0], None, 0);
    assert_eq!(c.stored_parts(), None);
    let c = component(0, [2.0, 0.0, 0.0, 1.0, 0.0, 0.0], None, 0);
    assert_eq!(c.stored_parts(), None);
    let c = component(0, [1.0, 0.0, -2.1, 1.0, 0.0, 0.0], None, 0);
    assert_eq!(c.stored_parts(), None);
}

#[test]
fn a_transform_that_cannot_be_stored_fails_to_encode() {
    let mut glyph = Glyph::blank();
    glyph.components = vec![
        component(0, [1.0, 0.0, 0.0, 1.0, 0.0, 0.0], None, 0),
        component(0, [4.0, 0.0, 0.0, 4.0, 0.0, 0.0], None, 0),
    ];
    assert_eq!(glyph.encode(), Err(EncodeError::ScaleOutOfRange));
    glyph.components.pop();
    glyph.instructions = vec![0; 0x10000];
    assert_eq!(glyph.encode(), Err(EncodeError::TooManyInstructions));
    glyph.instructions.pop();
    assert_eq!(glyph.encode().unwrap().len(), 10 + 6 + 2 + 0xffff);
    // components take precedence over contours
    glyph.instructions.clear();
    glyph.contours = vec![vec![Point { x: 0, y: 0, on_curve: true }]];
    assert_eq!(glyph.encode().unwrap(), vec![0xff, 0xff, 0, 0, 0, 0, 0, 0, 0, 0, 0x00, 0x02, 0x00, 0x00, 0x00, 0x00]);
}
