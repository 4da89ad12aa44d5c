use vstd::prelude::*;
use crate::binary::{i16_bytes, put_i16, put_u16, u16_bytes};
use super::bounds::{all_points, coordinate, BoundingBox};
use super::glyph::{contours_view, Glyph, GlyphView};
use super::outline::{
    same_bit, short_bit, ON_CURVE_POINT, OVERLAP_SIMPLE, X_IS_SAME_OR_POSITIVE_X_SHORT_VECTOR,
    X_SHORT_VECTOR, Y_IS_SAME_OR_POSITIVE_Y_SHORT_VECTOR, Y_SHORT_VECTOR,
};
use super::point::Point;
use super::point_count;

verus! {

/// Why a glyph could not be encoded.
#[derive(Clone, Copy, Debug, PartialEq, Eq, Structural)]
pub enum EncodeError {
    /// The glyph has more contours than a signed 16-bit count holds
    TooManyContours,
    /// A contour ends at no point at all, or behind the 65536th point
    ContourEndOutOfRange,
    /// The instructions are longer than an unsigned 16-bit length holds
    TooManyInstructions,
    /// Two successive points lie further apart than a 16-bit delta spans
    DeltaOutOfRange,
    /// A coefficient of a component's transform is no 2.14 fixed-point number
    ScaleOutOfRange,
}

impl EncodeError {
    /// The words that describe the failure.
    pub open spec fn words(self) -> Seq<char> {
        match self {
            EncodeError::TooManyContours => "Too many contours"@,
            EncodeError::ContourEndOutOfRange => "Contour end out of range"@,
            EncodeError::TooManyInstructions => "Too many instructions"@,
            EncodeError::DeltaOutOfRange => "Points too far apart"@,
            EncodeError::ScaleOutOfRange => "Value didn't fit into a F2DOT14"@,
        }
    }

    /// A description of the failure.
    pub fn description(&self) -> (s: String)
        ensures
            s@ == self.words(),
    {
        match self {
            EncodeError::TooManyContours => "Too many contours".to_string(),
            EncodeError::ContourEndOutOfRange => "Contour end out of range".to_string(),
            EncodeError::TooManyInstructions => "Too many instructions".to_string(),
            EncodeError::DeltaOutOfRange => "Points too far apart".to_string(),
            EncodeError::ScaleOutOfRange => "Value didn't fit into a F2DOT14".to_string(),
        }
    }
}

/// How far point `i` lies from the point before it, or from 0 for the
/// first point, along one axis.
pub open spec fn delta_of(points: Seq<Point>, i: int, vertical: bool) -> int {
    coordinate(points[i], vertical) - if i == 0 {
        0
    } else {
        coordinate(points[i - 1], vertical)
    }
}

/// Whether a delta is stored in one byte: it is not zero and its magnitude
/// is at most 255.
pub open spec fn is_short(d: int) -> bool {
    d != 0 && -255 <= d <= 255
}

/// The flag bits that announce how a delta is stored.
pub open spec fn delta_bits(d: int, vertical: bool) -> int {
    if d == 0 {
        same_bit(vertical) as int
    } else if is_short(d) {
        if d > 0 {
            short_bit(vertical) as int + same_bit(vertical) as int
        } else {
            short_bit(vertical) as int
        }
    } else {
        0
    }
}

/// The bytes of a delta in its most compact form: none for zero, one for a
/// short delta, two otherwise.
pub open spec fn delta_bytes(d: int) -> Seq<u8> {
    if d == 0 {
        Seq::empty()
    } else if is_short(d) {
        seq![(if d > 0 {
            d
        } else {
            -d
        }) as u8]
    } else {
        i16_bytes(d)
    }
}

/// The flag byte of point `i`. No flag is ever marked as repeated.
pub open spec fn point_flag(points: Seq<Point>, i: int, overlap: bool) -> u8 {
    ((if points[i].on_curve {
        ON_CURVE_POINT as int
    } else {
        0
    }) + delta_bits(delta_of(points, i, false), false) + delta_bits(
        delta_of(points, i, true),
        true,
    ) + (if i == 0 && overlap {
        OVERLAP_SIMPLE as int
    } else {
        0
    })) as u8
}

/// The flag bytes of the first `upto` points.
pub open spec fn encoded_flags(points: Seq<Point>, upto: int, overlap: bool) -> Seq<u8>
    decreases upto,
{
    if upto <= 0 {
        Seq::empty()
    } else {
        encoded_flags(points, upto - 1, overlap).push(point_flag(points, upto - 1, overlap))
    }
}

/// The delta bytes of the first `upto` points along one axis.
pub open spec fn encoded_deltas(points: Seq<Point>, upto: int, vertical: bool) -> Seq<u8>
    decreases upto,
{
    if upto <= 0 {
        Seq::empty()
    } else {
        encoded_deltas(points, upto - 1, vertical) + delta_bytes(
            delta_of(points, upto - 1, vertical),
        )
    }
}

/// The end point indices of the first `upto` contours, two bytes each.
pub open spec fn encoded_ends(contours: Seq<Seq<Point>>, upto: int) -> Seq<u8>
    decreases upto,
{
    if upto <= 0 {
        Seq::empty()
    } else {
        encoded_ends(contours, upto - 1) + u16_bytes(point_count(contours.take(upto)) - 1)
    }
}

/// Whether every contour ends at a point that a 16-bit index can name.
pub open spec fn ends_fit(contours: Seq<Seq<Point>>) -> bool {
    forall|k: int|
        1 <= k <= contours.len() ==> 1 <= #[trigger] point_count(contours.take(k)) <= 0x10000
}

/// Whether every delta between successive points is a 16-bit number.
pub open spec fn deltas_fit(points: Seq<Point>) -> bool {
    forall|i: int, vertical: bool|
        0 <= i < points.len() ==> -0x8000 <= #[trigger] delta_of(points, i, vertical) <= 0x7fff
}

/// The ten bytes in front of every glyph: the contour count and the box.
pub open spec fn encoded_header(count: int, bounds: BoundingBox) -> Seq<u8> {
    i16_bytes(count) + i16_bytes(bounds.x_min as int) + i16_bytes(bounds.y_min as int)
        + i16_bytes(bounds.x_max as int) + i16_bytes(bounds.y_max as int)
}

/// The bytes of a simple glyph, where it can be encoded: the header, the
/// contour ends, the instructions with their length, one flag per point, the
/// x deltas and the y deltas.
pub open spec fn encoded_simple(g: GlyphView) -> Result<Seq<u8>, EncodeError> {
    let points = all_points(g.contours);
    if g.contours.len() > 0x7fff {
        Err(EncodeError::TooManyContours)
    } else if !ends_fit(g.contours) {
        Err(EncodeError::ContourEndOutOfRange)
    } else if g.instructions.len() > 0xffff {
        Err(EncodeError::TooManyInstructions)
    } else if !deltas_fit(points) {
        Err(EncodeError::DeltaOutOfRange)
    } else {
        Ok(
            encoded_header(g.contours.len() as int, g.bounds) + encoded_ends(
                g.contours,
                g.contours.len() as int,
            ) + u16_bytes(g.instructions.len() as int) + g.instructions + encoded_flags(
                points,
                points.len() as int,
                g.overlap,
            ) + encoded_deltas(points, points.len() as int, false) + encoded_deltas(
                points,
                points.len() as int,
                true,
            ),
        )
    }
}

/// Appends the header of a glyph.
pub fn put_header(out: &mut Vec<u8>, count: i16, bounds: BoundingBox)
    ensures
        final(out)@ == old(out)@ + encoded_header(count as int, bounds),
{
    put_i16(out, count);
    put_i16(out, bounds.x_min);
    put_i16(out, bounds.y_min);
    put_i16(out, bounds.x_max);
    put_i16(out, bounds.y_max);
    proof {
        assert(out@ =~= old(out)@ + encoded_header(count as int, bounds));
    }
}

/// Appends all of `tail` to `out`.
pub fn put_all(out: &mut Vec<u8>, tail: &Vec<u8>)
    ensures
        final(out)@ == old(out)@ + tail@,
{
    let n = tail.len();
    let mut i: usize = 0;
    while i < n
        invariant
            n == tail.len(),
            i <= n,
            out@ == old(out)@ + tail@.take(i as int),
        decreases n - i,
    {
        out.push(tail[i]);
        proof {
            assert(out@ =~= old(out)@ + tail@.take(i as int + 1));
        }
        i += 1;
    }
    proof {
        assert(tail@.take(n as int) =~= tail@);
    }
}

/// Collects the points of all contours in stream order.
pub fn collect_points(contours: &Vec<Vec<Point>>) -> (points: Vec<Point>)
    ensures
        points@ == all_points(contours_view(contours@)),
{
    let ghost outline = contours_view(contours@);
    let mut points: Vec<Point> = Vec::new();
    let n = contours.len();
    let mut c: usize = 0;
    while c < n
        invariant
            n == contours.len(),
            outline == contours_view(contours@),
            c <= n,
            points@ == all_points(outline.take(c as int)),
        decreases n - c,
    {
        let contour = &contours[c];
        let ghost done = points@;
        proof {
            let upto = outline.take(c as int + 1);
            assert(upto.drop_last() =~= outline.take(c as int));
            assert(upto.last() == contour@);
        }
        let m = contour.len();
        let mut k: usize = 0;
        while k < m
            invariant
                m == contour.len(),
                k <= m,
                points@ == done + contour@.take(k as int),
            decreases m - k,
        {
            points.push(contour[k]);
            proof {
                assert(points@ =~= done + contour@.take(k as int + 1));
            }
            k += 1;
        }
        proof {
            assert(contour@.take(m as int) =~= contour@);
        }
        c += 1;
    }
    proof {
        assert(outline.take(n as int) =~= outline);
    }
    points
}

/// The flag bits and the bytes of one delta, in its most compact form.
fn pack_delta(d: i32, short: u8, same: u8, bytes: &mut Vec<u8>) -> (bits: u8)
    requires
        -0x8000 <= d <= 0x7fff,
        short as int + same as int <= 255,
    ensures
        bits as int == if d == 0 {
            same as int
        } else if is_short(d as int) {
            if d > 0 {
                short as int + same as int
            } else {
                short as int
            }
        } else {
            0
        },
        final(bytes)@ == old(bytes)@ + delta_bytes(d as int),
{
    if d == 0 {
        proof {
            assert(bytes@ =~= old(bytes)@ + delta_bytes(d as int));
        }
        same
    } else if -255 <= d && d <= 255 {
        if d > 0 {
            bytes.push(d as u8);
            proof {
                assert(bytes@ =~= old(bytes)@ + delta_bytes(d as int));
            }
            short + same
        } else {
            bytes.push((-d) as u8);
            proof {
                assert(bytes@ =~= old(bytes)@ + delta_bytes(d as int));
            }
            short
        }
    } else {
        put_i16(bytes, d as i16);
        0
    }
}

/// Whether an encoding result agrees with a specified one.
pub open spec fn bytes_agree(r: Result<Vec<u8>, EncodeError>, expected: Result<Seq<u8>, EncodeError>) -> bool {
    match r {
        Ok(v) => expected == Ok::<Seq<u8>, EncodeError>(v@),
        Err(e) => expected == Err::<Seq<u8>, EncodeError>(e),
    }
}

/// Encodes a simple glyph: every delta in its most compact form, one flag
/// byte per point.
pub fn encode_simple(g: &Glyph) -> (r: Result<Vec<u8>, EncodeError>)
    ensures
        bytes_agree(r, encoded_simple(g@)),
{
    let n = g.contours.len();
    if n > 0x7fff {
        return Err(EncodeError::TooManyContours);
    }
    let ghost outline = g@.contours;
    let mut out: Vec<u8> = Vec::new();
    put_header(&mut out, n as i16, g.bounds());
    let ghost header = out@;
    let mut total: usize = 0;
    let mut c: usize = 0;
    while c < n
        invariant
            n == g.contours.len(),
            n <= 0x7fff,
            outline == g@.contours,
            c <= n,
            total == point_count(outline.take(c as int)),
            total <= 0x10000,
            forall|k: int| 1 <= k <= c ==> 1 <= #[trigger] point_count(outline.take(k)) <= 0x10000,
            out@ == header + encoded_ends(outline, c as int),
        decreases n - c,
    {
        let m = g.contours[c].len();
        proof {
            let upto = outline.take(c as int + 1);
            assert(upto.drop_last() =~= outline.take(c as int));
            assert(upto.last() == g.contours[c as int]@);
        }
        assert(point_count(outline.take(c as int + 1)) == total + m);
        if m > 0x10000 - total || total + m == 0 {
            return Err(EncodeError::ContourEndOutOfRange);
        }
        total = total + m;
        put_u16(&mut out, (total - 1) as u16);
        proof {
            assert(out@ =~= header + encoded_ends(outline, c as int + 1));
        }
        c += 1;
    }
    assert(ends_fit(outline));
    if g.instructions.len() > 0xffff {
        return Err(EncodeError::TooManyInstructions);
    }
    put_u16(&mut out, g.instructions.len() as u16);
    put_all(&mut out, &g.instructions);
    let ghost front = out@;
    let points = collect_points(&g.contours);
    let count = points.len();
    let mut flags: Vec<u8> = Vec::new();
    let mut xs: Vec<u8> = Vec::new();
    let mut ys: Vec<u8> = Vec::new();
    let mut last_x: i16 = 0;
    let mut last_y: i16 = 0;
    let mut i: usize = 0;
    while i < count
        invariant
            count == points.len(),
            i <= count,
            points@ == all_points(g@.contours),
            g@.contours.len() <= 0x7fff,
            ends_fit(g@.contours),
            g@.instructions.len() <= 0xffff,
            last_x as int == (if i == 0 {
                0
            } else {
                coordinate(points@[i as int - 1], false)
            }),
            last_y as int == (if i == 0 {
                0
            } else {
                coordinate(points@[i as int - 1], true)
            }),
            forall|k: int, vertical: bool|
                0 <= k < i ==> -0x8000 <= #[trigger] delta_of(points@, k, vertical) <= 0x7fff,
            flags@ == encoded_flags(points@, i as int, g.overlap),
            xs@ == encoded_deltas(points@, i as int, false),
            ys@ == encoded_deltas(points@, i as int, true),
        decreases count - i,
    {
        let p = points[i];
        let dx: i32 = p.x as i32 - last_x as i32;
        let dy: i32 = p.y as i32 - last_y as i32;
        assert(dx == delta_of(points@, i as int, false));
        assert(dy == delta_of(points@, i as int, true));
        if dx < -0x8000 || dx > 0x7fff || dy < -0x8000 || dy > 0x7fff {
            proof {
                if dx < -0x8000 || dx > 0x7fff {
                    assert(!(-0x8000 <= delta_of(points@, i as int, false) <= 0x7fff));
                } else {
                    assert(!(-0x8000 <= delta_of(points@, i as int, true) <= 0x7fff));
                }
            }
            return Err(EncodeError::DeltaOutOfRange);
        }
        let mut flag: u8 = if p.on_curve {
            ON_CURVE_POINT
        } else {
            0
        };
        let x_bits = pack_delta(
            dx,
            X_SHORT_VECTOR,
            X_IS_SAME_OR_POSITIVE_X_SHORT_VECTOR,
            &mut xs,
        );
        let y_bits = pack_delta(
            dy,
            Y_SHORT_VECTOR,
            Y_IS_SAME_OR_POSITIVE_Y_SHORT_VECTOR,
            &mut ys,
        );
        flag = flag + x_bits + y_bits;
        if i == 0 && g.overlap {
            flag = flag + OVERLAP_SIMPLE;
        }
        assert(flag == point_flag(points@, i as int, g.overlap));
        flags.push(flag);
        last_x = p.x;
        last_y = p.y;
        proof {
            assert forall|k: int, vertical: bool| 0 <= k < i + 1 implies -0x8000
                <= #[trigger] delta_of(points@, k, vertical) <= 0x7fff by {
                if k == i {
                    if vertical {
                        assert(delta_of(points@, k, vertical) == dy);
                    } else {
                        assert(delta_of(points@, k, vertical) == dx);
                    }
                }
            }
        }
        i += 1;
    }
    put_all(&mut out, &flags);
    put_all(&mut out, &xs);
    put_all(&mut out, &ys);
    proof {
        assert(deltas_fit(points@));
    }
    Ok(out)
}

} // verus!
