use vstd::prelude::*;
use crate::binary::{
    be_i16, be_u16, i16_bytes, in_bounds, lemma_i16_round_trip, lemma_u16_round_trip, u16_bytes,
    DecodeError,
};
use super::bounds::{all_points, coordinate, BoundingBox};
use super::codec::{decoded_glyph, encoded};
use super::encode::{
    delta_bits, delta_bytes, delta_of, deltas_fit, encoded_deltas, encoded_ends, encoded_flags,
    encoded_header, encoded_simple, ends_fit, is_short, point_flag, EncodeError,
};
use super::glyph::GlyphView;
use super::outline::{
    ascending, contour_ends, decoded_points, decoded_simple, deltas_from, expanded_flags,
    flag_has, running, same_bit, short_bit, split, sums_fit, ON_CURVE_POINT,
    OVERLAP_SIMPLE, REPEAT_FLAG, X_IS_SAME_OR_POSITIVE_X_SHORT_VECTOR, X_SHORT_VECTOR,
    Y_IS_SAME_OR_POSITIVE_Y_SHORT_VECTOR, Y_SHORT_VECTOR,
};
use super::point::Point;
use super::point_count;
use super::stream::{
    lemma_deltas_len, lemma_expanded_flags_len, lemma_split_rejoins, stream_deltas, stream_flags,
    stream_start,
};

verus! {

/// The bits of a number put together from six bits of different weight.
proof fn lemma_weighted_bits(b0: int, b1: int, b2: int, b4: int, b5: int, b6: int)
    requires
        0 <= b0 <= 1,
        0 <= b1 <= 1,
        0 <= b2 <= 1,
        0 <= b4 <= 1,
        0 <= b5 <= 1,
        0 <= b6 <= 1,
    ensures
        ({
            let v = b0 + 2 * b1 + 4 * b2 + 16 * b4 + 32 * b5 + 64 * b6;
            &&& 0 <= v <= 119
            &&& (v / 1) % 2 == b0
            &&& (v / 2) % 2 == b1
            &&& (v / 4) % 2 == b2
            &&& (v / 8) % 2 == 0
            &&& (v / 16) % 2 == b4
            &&& (v / 32) % 2 == b5
            &&& (v / 64) % 2 == b6
        }),
{
}

/// Whether a delta is announced with the same-or-positive bit: it is zero,
/// or short and positive.
pub open spec fn is_same_or_positive(d: int) -> bool {
    d == 0 || (is_short(d) && d > 0)
}

/// What the flag byte of a point says of the point: whether it is on the
/// curve, in which form each of its deltas is stored, and whether the glyph
/// is marked as overlapping. It never announces a repetition.
pub proof fn lemma_point_flag_bits(points: Seq<Point>, i: int, overlap: bool)
    requires
        0 <= i < points.len(),
    ensures
        ({
            let f = point_flag(points, i, overlap);
            let dx = delta_of(points, i, false);
            let dy = delta_of(points, i, true);
            &&& flag_has(f, ON_CURVE_POINT) == points[i].on_curve
            &&& flag_has(f, X_SHORT_VECTOR) == is_short(dx)
            &&& flag_has(f, Y_SHORT_VECTOR) == is_short(dy)
            &&& !flag_has(f, REPEAT_FLAG)
            &&& flag_has(f, X_IS_SAME_OR_POSITIVE_X_SHORT_VECTOR) == is_same_or_positive(dx)
            &&& flag_has(f, Y_IS_SAME_OR_POSITIVE_Y_SHORT_VECTOR) == is_same_or_positive(dy)
            &&& flag_has(f, OVERLAP_SIMPLE) == (i == 0 && overlap)
        }),
{
    let dx = delta_of(points, i, false);
    let dy = delta_of(points, i, true);
    let b0: int = if points[i].on_curve {
        1
    } else {
        0
    };
    let b1: int = if is_short(dx) {
        1
    } else {
        0
    };
    let b2: int = if is_short(dy) {
        1
    } else {
        0
    };
    let b4: int = if is_same_or_positive(dx) {
        1
    } else {
        0
    };
    let b5: int = if is_same_or_positive(dy) {
        1
    } else {
        0
    };
    let b6: int = if i == 0 && overlap {
        1
    } else {
        0
    };
    lemma_weighted_bits(b0, b1, b2, b4, b5, b6);
    assert(delta_bits(dx, false) == 2 * b1 + 16 * b4);
    assert(delta_bits(dy, true) == 4 * b2 + 32 * b5);
    let v = b0 + 2 * b1 + 4 * b2 + 16 * b4 + 32 * b5 + 64 * b6;
    assert(point_flag(points, i, overlap) == v as u8);
}

/// The deltas of the first `upto` points, as the encoder stores them.
pub open spec fn stored_deltas(points: Seq<Point>, upto: int, vertical: bool) -> Seq<i16> {
    Seq::new(
        if upto >= 0 {
            upto as nat
        } else {
            0
        },
        |i: int| delta_of(points, i, vertical) as i16,
    )
}

/// Deltas sum up to the coordinates they were taken from.
pub proof fn lemma_running_deltas(points: Seq<Point>, k: int, vertical: bool)
    requires
        0 <= k <= points.len(),
        deltas_fit(points),
    ensures
        running(stored_deltas(points, points.len() as int, vertical), k) == if k == 0 {
            0
        } else {
            coordinate(points[k - 1], vertical)
        },
    decreases k,
{
    if k > 0 {
        lemma_running_deltas(points, k - 1, vertical);
        let d = delta_of(points, k - 1, vertical);
        assert(-0x8000 <= d <= 0x7fff);
        assert(stored_deltas(points, points.len() as int, vertical)[k - 1] == d as i16);
    }
}

/// Flag bytes none of which announces a repetition are read one per point.
pub proof fn lemma_plain_flags(bytes: Seq<u8>, at: int, want: int)
    requires
        0 <= want,
        in_bounds(bytes, at, want),
        forall|i: int| 0 <= i < want ==> !flag_has(#[trigger] bytes[at + i], REPEAT_FLAG),
    ensures
        expanded_flags(bytes, at, want) == Ok::<(Seq<u8>, int), DecodeError>(
            (bytes.subrange(at, at + want), at + want),
        ),
    decreases want,
{
    if want > 0 {
        assert(!flag_has(bytes[at + 0], REPEAT_FLAG));
        assert forall|i: int| 0 <= i < want - 1 implies !flag_has(
            #[trigger] bytes[at + 1 + i],
            REPEAT_FLAG,
        ) by {
            assert(!flag_has(bytes[at + (i + 1)], REPEAT_FLAG));
        }
        lemma_plain_flags(bytes, at + 1, want - 1);
        assert(seq![bytes[at]] + bytes.subrange(at + 1, at + want) =~= bytes.subrange(
            at,
            at + want,
        ));
    } else {
        assert(bytes.subrange(at, at + want) =~= Seq::<u8>::empty());
    }
}

/// There is one flag byte per point, and it is the flag of that point.
pub proof fn lemma_encoded_flags(points: Seq<Point>, upto: int, overlap: bool)
    requires
        0 <= upto,
    ensures
        encoded_flags(points, upto, overlap).len() == upto,
        forall|i: int|
            0 <= i < upto ==> #[trigger] encoded_flags(points, upto, overlap)[i] == point_flag(
                points,
                i,
                overlap,
            ),
    decreases upto,
{
    if upto > 0 {
        lemma_encoded_flags(points, upto - 1, overlap);
    }
}

/// The delta bytes of more points start with the delta bytes of fewer.
pub proof fn lemma_encoded_deltas_grow(points: Seq<Point>, i: int, j: int, vertical: bool)
    requires
        0 <= i <= j,
    ensures
        encoded_deltas(points, i, vertical).len() <= encoded_deltas(points, j, vertical).len(),
        encoded_deltas(points, j, vertical).subrange(
            0,
            encoded_deltas(points, i, vertical).len() as int,
        ) == encoded_deltas(points, i, vertical),
    decreases j - i,
{
    let short = encoded_deltas(points, i, vertical);
    if i < j {
        lemma_encoded_deltas_grow(points, i, j - 1, vertical);
        let before = encoded_deltas(points, j - 1, vertical);
        assert(encoded_deltas(points, j, vertical).subrange(0, short.len() as int)
            =~= before.subrange(0, short.len() as int));
    } else {
        assert(short.subrange(0, short.len() as int) =~= short);
    }
}

/// The bytes that the encoder writes for the deltas of all points, found at
/// `start`, are read as these deltas under the flags that the encoder
/// writes: from point `i` on, starting behind the bytes of the points
/// before `i`, and up to the end of the bytes.
#[verifier::spinoff_prover]
pub proof fn lemma_read_encoded_deltas(
    bytes: Seq<u8>,
    start: int,
    points: Seq<Point>,
    overlap: bool,
    i: int,
    vertical: bool,
)
    requires
        0 <= i <= points.len(),
        deltas_fit(points),
        in_bounds(bytes, start, encoded_deltas(points, points.len() as int, vertical).len() as int),
        bytes.subrange(
            start,
            start + encoded_deltas(points, points.len() as int, vertical).len(),
        ) == encoded_deltas(points, points.len() as int, vertical),
    ensures
        deltas_from(
            bytes,
            start + encoded_deltas(points, i, vertical).len(),
            encoded_flags(points, points.len() as int, overlap),
            i,
            vertical,
        ) == Ok::<(Seq<i16>, int), DecodeError>(
            (
                stored_deltas(points, points.len() as int, vertical).skip(i),
                start + encoded_deltas(points, points.len() as int, vertical).len(),
            ),
        ),
    decreases points.len() - i,
{
    let n = points.len() as int;
    let all = encoded_deltas(points, n, vertical);
    let flags = encoded_flags(points, n, overlap);
    let stored = stored_deltas(points, n, vertical);
    let at = start + encoded_deltas(points, i, vertical).len();
    let end = start + all.len();
    lemma_encoded_flags(points, n, overlap);
    lemma_encoded_deltas_grow(points, i, n, vertical);
    if i == n {
        assert(stored.skip(i) =~= Seq::<i16>::empty());
    } else {
        lemma_read_encoded_deltas(bytes, start, points, overlap, i + 1, vertical);
        lemma_encoded_deltas_grow(points, i + 1, n, vertical);
        lemma_point_flag_bits(points, i, overlap);
        let d = delta_of(points, i, vertical);
        assert(-0x8000 <= d <= 0x7fff);
        let here = delta_bytes(d);
        let upto = encoded_deltas(points, i + 1, vertical);
        let before = encoded_deltas(points, i, vertical);
        assert(upto == before + here);
        assert(flags[i] == point_flag(points, i, overlap));
        assert(flag_has(flags[i], short_bit(vertical)) == is_short(d));
        assert(flag_has(flags[i], same_bit(vertical)) == is_same_or_positive(d));
        // the bytes of this delta, where they stand in the data
        assert forall|k: int| 0 <= k < here.len() implies bytes[at + k] == #[trigger] here[k] by {
            assert(upto[before.len() + k] == here[k]);
            assert(all.subrange(0, upto.len() as int)[before.len() + k] == all[before.len() + k]);
            assert(bytes.subrange(start, end)[before.len() + k] == bytes[start + before.len()
                + k]);
        }
        let next = deltas_from(bytes, at + here.len(), flags, i + 1, vertical);
        assert(next == Ok::<(Seq<i16>, int), DecodeError>((stored.skip(i + 1), end)));
        assert(seq![d as i16] + stored.skip(i + 1) =~= stored.skip(i));
        if d == 0 {
        } else if is_short(d) {
            assert(bytes[at + 0] == here[0]);
        } else {
            assert(bytes.subrange(at, at + 2) =~= here) by {
                assert(bytes[at + 0] == here[0]);
                assert(bytes[at + 1] == here[1]);
            }
            lemma_i16_round_trip(bytes, at, d);
        }
    }
}

/// An outline has as many points as its contours have together.
pub proof fn lemma_all_points_len(contours: Seq<Seq<Point>>)
    ensures
        all_points(contours).len() == point_count(contours),
    decreases contours.len(),
{
    if contours.len() > 0 {
        lemma_all_points_len(contours.drop_last());
    }
}

/// The points of the first `k` contours are the first points of the
/// outline.
pub proof fn lemma_points_prefix(contours: Seq<Seq<Point>>, k: int)
    requires
        0 <= k <= contours.len(),
    ensures
        all_points(contours.take(k)).len() == point_count(contours.take(k)),
        point_count(contours.take(k)) <= point_count(contours),
        all_points(contours).len() == point_count(contours),
        all_points(contours).subrange(0, point_count(contours.take(k)) as int) == all_points(
            contours.take(k),
        ),
    decreases contours.len() - k,
{
    lemma_all_points_len(contours);
    lemma_all_points_len(contours.take(k));
    let whole = all_points(contours);
    if k == contours.len() {
        assert(contours.take(k) =~= contours);
        assert(whole.subrange(0, whole.len() as int) =~= whole);
    } else {
        lemma_points_prefix(contours, k + 1);
        let more = contours.take(k + 1);
        assert(more.drop_last() =~= contours.take(k));
        assert(all_points(more) == all_points(contours.take(k)) + more.last());
        assert(whole.subrange(0, point_count(contours.take(k)) as int) =~= all_points(
            contours.take(k),
        )) by {
            let fewer = all_points(contours.take(k));
            assert forall|m: int| 0 <= m < fewer.len() implies whole[m] == fewer[m] by {
                assert(whole.subrange(0, point_count(more) as int)[m] == whole[m]);
                assert(all_points(more)[m] == fewer[m]);
            }
        }
    }
}

/// Contour `i` is the stretch of the point stream between the end of the
/// contour before it and its own end.
pub proof fn lemma_contour_slice(contours: Seq<Seq<Point>>, i: int)
    requires
        0 <= i < contours.len(),
    ensures
        point_count(contours.take(i)) <= point_count(contours.take(i + 1)) <= point_count(
            contours,
        ),
        all_points(contours).subrange(
            point_count(contours.take(i)) as int,
            point_count(contours.take(i + 1)) as int,
        ) == contours[i],
{
    lemma_points_prefix(contours, i);
    lemma_points_prefix(contours, i + 1);
    let more = contours.take(i + 1);
    assert(more.drop_last() =~= contours.take(i));
    assert(more.last() == contours[i]);
    let whole = all_points(contours);
    let from = point_count(contours.take(i)) as int;
    let to = point_count(more) as int;
    assert(whole.subrange(from, to) =~= contours[i]) by {
        assert forall|m: int| 0 <= m < contours[i].len() implies whole[from + m]
            == contours[i][m] by {
            assert(whole.subrange(0, to)[from + m] == whole[from + m]);
            assert(all_points(more)[from + m] == contours[i][m]);
        }
    }
}

/// Each contour end takes two bytes, and the bytes of the first `k` ends
/// hold the end of contour `i` at its place.
pub proof fn lemma_encoded_ends(contours: Seq<Seq<Point>>, k: int, i: int)
    requires
        0 <= i < k,
    ensures
        encoded_ends(contours, k).len() == 2 * k,
        encoded_ends(contours, k).subrange(2 * i, 2 * i + 2) == u16_bytes(
            point_count(contours.take(i + 1)) - 1,
        ),
    decreases k,
{
    let before = encoded_ends(contours, k - 1);
    let last = u16_bytes(point_count(contours.take(k)) - 1);
    if k > 1 {
        lemma_encoded_ends(contours, k - 1, 0);
    }
    assert(before.len() == 2 * (k - 1));
    if i < k - 1 {
        lemma_encoded_ends(contours, k - 1, i);
        assert((before + last).subrange(2 * i, 2 * i + 2) =~= before.subrange(2 * i, 2 * i + 2));
    } else {
        assert((before + last).subrange(2 * i, 2 * i + 2) =~= last);
    }
}

/// The header of a glyph is read as the contour count and the box that
/// were written.
pub proof fn lemma_read_header(bytes: Seq<u8>, count: int, bounds: BoundingBox)
    requires
        -0x8000 <= count <= 0x7fff,
        in_bounds(bytes, 0, 10),
        bytes.subrange(0, 10) == encoded_header(count, bounds),
    ensures
        be_i16(bytes, 0) == count,
        be_i16(bytes, 2) == bounds.x_min,
        be_i16(bytes, 4) == bounds.y_min,
        be_i16(bytes, 6) == bounds.x_max,
        be_i16(bytes, 8) == bounds.y_max,
{
    let header = encoded_header(count, bounds);
    assert(header.len() == 10);
    assert forall|m: int| 0 <= m < 10 implies bytes[m] == header[m] by {
        assert(bytes.subrange(0, 10)[m] == bytes[m]);
    }
    assert(bytes.subrange(0, 2) =~= i16_bytes(count));
    assert(bytes.subrange(2, 4) =~= i16_bytes(bounds.x_min as int));
    assert(bytes.subrange(4, 6) =~= i16_bytes(bounds.y_min as int));
    assert(bytes.subrange(6, 8) =~= i16_bytes(bounds.x_max as int));
    assert(bytes.subrange(8, 10) =~= i16_bytes(bounds.y_max as int));
    lemma_i16_round_trip(bytes, 0, count);
    lemma_i16_round_trip(bytes, 2, bounds.x_min as int);
    lemma_i16_round_trip(bytes, 4, bounds.y_min as int);
    lemma_i16_round_trip(bytes, 6, bounds.x_max as int);
    lemma_i16_round_trip(bytes, 8, bounds.y_max as int);
}

/// The number of points up to the end of each contour.
pub open spec fn ends_of(contours: Seq<Seq<Point>>) -> Seq<int> {
    Seq::new(contours.len(), |i: int| point_count(contours.take(i + 1)) as int)
}

/// The contour ends that the encoder writes, found at `at`, are read as
/// the number of points up to the end of each contour, and they ascend.
#[verifier::spinoff_prover]
pub proof fn lemma_read_encoded_ends(bytes: Seq<u8>, at: int, contours: Seq<Seq<Point>>)
    requires
        ends_fit(contours),
        in_bounds(bytes, at, 2 * (contours.len() as int)),
        bytes.subrange(at, at + 2 * contours.len()) == encoded_ends(
            contours,
            contours.len() as int,
        ),
    ensures
        contour_ends(bytes, at, contours.len() as int) == ends_of(contours),
        ascending(contour_ends(bytes, at, contours.len() as int)),
{
    reveal(ascending);
    let n = contours.len() as int;
    let stored = encoded_ends(contours, n);
    let ends = contour_ends(bytes, at, n);
    let counts = ends_of(contours);
    assert forall|i: int| 0 <= i < n implies ends[i] == counts[i] by {
        lemma_encoded_ends(contours, n, i);
        let v = point_count(contours.take(i + 1)) - 1;
        assert(1 <= point_count(contours.take(i + 1)) <= 0x10000);
        assert(bytes.subrange(at + 2 * i, at + 2 * i + 2) =~= u16_bytes(v)) by {
            assert(bytes.subrange(at, at + 2 * n)[2 * i] == bytes[at + 2 * i]);
            assert(bytes.subrange(at, at + 2 * n)[2 * i + 1] == bytes[at + 2 * i + 1]);
            assert(stored.subrange(2 * i, 2 * i + 2)[0] == stored[2 * i]);
            assert(stored.subrange(2 * i, 2 * i + 2)[1] == stored[2 * i + 1]);
        }
        lemma_u16_round_trip(bytes, at + 2 * i, v);
    }
    assert(ends =~= counts);
    assert forall|i: int, j: int| 0 <= i <= j < ends.len() implies #[trigger] ends[i]
        <= #[trigger] ends[j] by {
        lemma_point_count_grows(contours, i + 1, j + 1);
    }
}

/// More contours have at least as many points.
pub proof fn lemma_point_count_grows(contours: Seq<Seq<Point>>, i: int, j: int)
    requires
        0 <= i <= j <= contours.len(),
    ensures
        point_count(contours.take(i)) <= point_count(contours.take(j)),
    decreases j - i,
{
    if i < j {
        lemma_point_count_grows(contours, i, j - 1);
        assert(contours.take(j).drop_last() =~= contours.take(j - 1));
    }
}

/// Where the instruction length of an encoded simple glyph stands: behind
/// the header and the contour ends.
pub open spec fn length_position(g: GlyphView) -> int {
    10 + 2 * (g.contours.len() as int)
}

/// Where the flags of an encoded simple glyph stand: behind the
/// instructions.
pub open spec fn flags_position(g: GlyphView) -> int {
    length_position(g) + 2 + g.instructions.len()
}

/// Where the x deltas of an encoded simple glyph stand: behind the flags,
/// of which there is one per point.
pub open spec fn xs_position(g: GlyphView) -> int {
    flags_position(g) + all_points(g.contours).len()
}

/// Where the y deltas of an encoded simple glyph stand: behind the x
/// deltas.
pub open spec fn ys_position(g: GlyphView) -> int {
    xs_position(g) + encoded_deltas(
        all_points(g.contours),
        all_points(g.contours).len() as int,
        false,
    ).len()
}

/// Where the parts of an encoded simple glyph stand: the header, the
/// contour ends, the instruction length, the instructions, the flags, the x
/// deltas and the y deltas, one after the other and nothing else.
pub open spec fn holds_simple(bytes: Seq<u8>, g: GlyphView) -> bool {
    let points = all_points(g.contours);
    &&& bytes.len() == ys_position(g) + encoded_deltas(points, points.len() as int, true).len()
    &&& bytes.subrange(0, 10) == encoded_header(g.contours.len() as int, g.bounds)
    &&& bytes.subrange(10, length_position(g)) == encoded_ends(
        g.contours,
        g.contours.len() as int,
    )
    &&& bytes.subrange(length_position(g), length_position(g) + 2) == u16_bytes(
        g.instructions.len() as int,
    )
    &&& bytes.subrange(length_position(g) + 2, flags_position(g)) == g.instructions
    &&& bytes.subrange(flags_position(g), xs_position(g)) == encoded_flags(
        points,
        points.len() as int,
        g.overlap,
    )
    &&& bytes.subrange(xs_position(g), ys_position(g)) == encoded_deltas(
        points,
        points.len() as int,
        false,
    )
    &&& bytes.subrange(ys_position(g), bytes.len() as int) == encoded_deltas(
        points,
        points.len() as int,
        true,
    )
}

/// The encoding of a simple glyph holds its parts one after the other.
#[verifier::spinoff_prover]
pub proof fn lemma_encoded_simple_layout(g: GlyphView, bytes: Seq<u8>)
    requires
        g.contours.len() > 0,
        encoded_simple(g) == Ok::<Seq<u8>, EncodeError>(bytes),
    ensures
        holds_simple(bytes, g),
{
    let n = g.contours.len() as int;
    let points = all_points(g.contours);
    let total = points.len() as int;
    let header = encoded_header(n, g.bounds);
    let ends = encoded_ends(g.contours, n);
    let length = u16_bytes(g.instructions.len() as int);
    let flags = encoded_flags(points, total, g.overlap);
    let xs = encoded_deltas(points, total, false);
    let ys = encoded_deltas(points, total, true);
    lemma_encoded_ends(g.contours, n, 0);
    lemma_encoded_flags(points, total, g.overlap);
    assert(header.len() == 10);
    assert(length.len() == 2);
    let length_at = length_position(g);
    let flags_at = flags_position(g);
    let xs_at = xs_position(g);
    let ys_at = ys_position(g);
    assert(bytes == header + ends + length + g.instructions + flags + xs + ys);
    assert(bytes.len() == ys_at + ys.len());
    assert(bytes.subrange(0, 10) =~= header);
    assert(bytes.subrange(10, length_at) =~= ends);
    assert(bytes.subrange(length_at, length_at + 2) =~= length);
    assert(bytes.subrange(length_at + 2, flags_at) =~= g.instructions);
    assert(bytes.subrange(flags_at, xs_at) =~= flags);
    assert(bytes.subrange(xs_at, ys_at) =~= xs);
    assert(bytes.subrange(ys_at, bytes.len() as int) =~= ys);
}

/// The flag bytes that the encoder writes, found from `at` to `end`, are
/// read as one flag per point.
pub proof fn lemma_read_encoded_flags(
    bytes: Seq<u8>,
    at: int,
    end: int,
    points: Seq<Point>,
    overlap: bool,
)
    requires
        0 <= at,
        end == at + points.len(),
        end <= bytes.len(),
        bytes.subrange(at, end) == encoded_flags(points, points.len() as int, overlap),
    ensures
        expanded_flags(bytes, at, points.len() as int) == Ok::<(Seq<u8>, int), DecodeError>(
            (encoded_flags(points, points.len() as int, overlap), end),
        ),
{
    let total = points.len() as int;
    let flags = encoded_flags(points, total, overlap);
    lemma_encoded_flags(points, total, overlap);
    assert forall|i: int| 0 <= i < total implies !flag_has(#[trigger] bytes[at + i], REPEAT_FLAG) by {
        assert(bytes.subrange(at, end)[i] == bytes[at + i]);
        assert(flags[i] == point_flag(points, i, overlap));
        lemma_point_flag_bits(points, i, overlap);
    }
    lemma_plain_flags(bytes, at, total);
}

/// The deltas that the encoder stores sum up to 16-bit coordinates.
pub proof fn lemma_stored_sums_fit(points: Seq<Point>, vertical: bool)
    requires
        deltas_fit(points),
    ensures
        sums_fit(stored_deltas(points, points.len() as int, vertical)),
{
    let stored = stored_deltas(points, points.len() as int, vertical);
    assert forall|k: int| 1 <= k <= stored.len() implies -0x8000 <= #[trigger] running(stored, k)
        <= 0x7fff by {
        lemma_running_deltas(points, k, vertical);
    }
}

/// The flags and deltas that the encoder stores describe the points they
/// were taken from: every coordinate is the sum of the deltas up to its
/// point.
pub proof fn lemma_decoded_stored_points(points: Seq<Point>, overlap: bool)
    requires
        deltas_fit(points),
    ensures
        decoded_points(
            encoded_flags(points, points.len() as int, overlap),
            stored_deltas(points, points.len() as int, false),
            stored_deltas(points, points.len() as int, true),
        ) == points,
{
    let total = points.len() as int;
    let flags = encoded_flags(points, total, overlap);
    let dxs = stored_deltas(points, total, false);
    let dys = stored_deltas(points, total, true);
    lemma_encoded_flags(points, total, overlap);
    assert forall|i: int| 0 <= i < total implies #[trigger] decoded_points(flags, dxs, dys)[i]
        == points[i] by {
        lemma_running_deltas(points, i + 1, false);
        lemma_running_deltas(points, i + 1, true);
        lemma_point_flag_bits(points, i, overlap);
        assert(flags[i] == point_flag(points, i, overlap));
    }
    assert(decoded_points(flags, dxs, dys) =~= points);
}

/// The bytes that the encoder writes for the deltas of all points, found
/// from `start` to `end`, are read as these deltas.
pub proof fn lemma_read_all_encoded_deltas(
    bytes: Seq<u8>,
    start: int,
    end: int,
    points: Seq<Point>,
    overlap: bool,
    vertical: bool,
)
    requires
        deltas_fit(points),
        0 <= start,
        end == start + encoded_deltas(points, points.len() as int, vertical).len(),
        end <= bytes.len(),
        bytes.subrange(start, end) == encoded_deltas(points, points.len() as int, vertical),
    ensures
        deltas_from(
            bytes,
            start,
            encoded_flags(points, points.len() as int, overlap),
            0,
            vertical,
        ) == Ok::<(Seq<i16>, int), DecodeError>(
            (stored_deltas(points, points.len() as int, vertical), end),
        ),
{
    lemma_read_encoded_deltas(bytes, start, points, overlap, 0, vertical);
    let stored = stored_deltas(points, points.len() as int, vertical);
    assert(stored.skip(0) =~= stored);
}

/// The flag of the first point says whether the glyph is marked as
/// overlapping.
pub proof fn lemma_first_flag_marks_overlap(points: Seq<Point>, overlap: bool)
    requires
        points.len() >= 1,
    ensures
        flag_has(encoded_flags(points, points.len() as int, overlap)[0], OVERLAP_SIMPLE)
            == overlap,
{
    lemma_point_flag_bits(points, 0, overlap);
    lemma_encoded_flags(points, points.len() as int, overlap);
}

/// The point stream of an outline, cut at the ends of its contours, gives
/// the contours back.
pub proof fn lemma_split_all_points(contours: Seq<Seq<Point>>)
    ensures
        split(all_points(contours), ends_of(contours)) == contours,
{
    let points = all_points(contours);
    let ends = ends_of(contours);
    assert forall|i: int| 0 <= i < contours.len() implies #[trigger] split(points, ends)[i]
        == contours[i] by {
        lemma_contour_slice(contours, i);
        if i == 0 {
            assert(contours.take(0) =~= Seq::<Seq<Point>>::empty());
        }
    }
    assert(split(points, ends) =~= contours);
}

/// The last contour ends at the last point of the outline, and an outline
/// whose first contour ends at a point has a point.
pub proof fn lemma_last_end(contours: Seq<Seq<Point>>)
    requires
        contours.len() > 0,
        ends_fit(contours),
    ensures
        ends_of(contours).last() == all_points(contours).len(),
        all_points(contours).len() >= 1,
{
    let n = contours.len() as int;
    lemma_points_prefix(contours, n);
    lemma_points_prefix(contours, 1);
    assert(1 <= point_count(contours.take(1)));
    assert(contours.take(n) =~= contours);
}

/// The contour ends of an encoded simple glyph are read as the ends of its
/// contours, and they ascend.
#[verifier::spinoff_prover]
pub proof fn lemma_read_laid_out_ends(g: GlyphView, bytes: Seq<u8>)
    requires
        0 < g.contours.len(),
        ends_fit(g.contours),
        holds_simple(bytes, g),
    ensures
        ascending(contour_ends(bytes, 10, g.contours.len() as int)),
        contour_ends(bytes, 10, g.contours.len() as int) == ends_of(g.contours),
{
    let n = g.contours.len() as int;
    assert(length_position(g) == 10 + 2 * n);
    assert(bytes.len() >= length_position(g));
    lemma_read_encoded_ends(bytes, 10, g.contours);
}

/// The instructions of an encoded simple glyph are found behind their
/// length.
pub proof fn lemma_read_laid_out_instructions(g: GlyphView, bytes: Seq<u8>)
    requires
        g.instructions.len() <= 0xffff,
        holds_simple(bytes, g),
    ensures
        be_u16(bytes, length_position(g)) == g.instructions.len(),
{
    lemma_u16_round_trip(bytes, length_position(g), g.instructions.len() as int);
}

/// The flags and deltas of an encoded simple glyph are read as its points.
#[verifier::spinoff_prover]
pub proof fn lemma_read_laid_out_points(g: GlyphView, bytes: Seq<u8>)
    requires
        all_points(g.contours).len() >= 1,
        deltas_fit(all_points(g.contours)),
        holds_simple(bytes, g),
    ensures
        ({
            let points = all_points(g.contours);
            let total = points.len() as int;
            let flags = encoded_flags(points, total, g.overlap);
            let dxs = stored_deltas(points, total, false);
            let dys = stored_deltas(points, total, true);
            &&& expanded_flags(bytes, flags_position(g), total) == Ok::<
                (Seq<u8>, int),
                DecodeError,
            >((flags, xs_position(g)))
            &&& deltas_from(bytes, xs_position(g), flags, 0, false) == Ok::<
                (Seq<i16>, int),
                DecodeError,
            >((dxs, ys_position(g)))
            &&& deltas_from(bytes, ys_position(g), flags, 0, true) == Ok::<
                (Seq<i16>, int),
                DecodeError,
            >((dys, bytes.len() as int))
            &&& sums_fit(dxs)
            &&& sums_fit(dys)
            &&& decoded_points(flags, dxs, dys) == points
            &&& flag_has(flags[0], OVERLAP_SIMPLE) == g.overlap
        }),
{
    let points = all_points(g.contours);
    lemma_read_encoded_flags(bytes, flags_position(g), xs_position(g), points, g.overlap);
    lemma_read_all_encoded_deltas(
        bytes,
        xs_position(g),
        ys_position(g),
        points,
        g.overlap,
        false,
    );
    lemma_read_all_encoded_deltas(
        bytes,
        ys_position(g),
        bytes.len() as int,
        points,
        g.overlap,
        true,
    );
    lemma_stored_sums_fit(points, false);
    lemma_stored_sums_fit(points, true);
    lemma_decoded_stored_points(points, g.overlap);
    lemma_first_flag_marks_overlap(points, g.overlap);
}

/// What the parts of a simple glyph's body are read as makes up the glyph.
proof fn lemma_assemble_simple(
    bytes: Seq<u8>,
    g: GlyphView,
    n: int,
    length: int,
    flags: Seq<u8>,
    dxs: Seq<i16>,
    dys: Seq<i16>,
    xs_at: int,
    ys_at: int,
    end: int,
)
    requires
        n == g.contours.len(),
        n >= 1,
        length == g.instructions.len(),
        in_bounds(bytes, 10, 2 * n + 2),
        ascending(contour_ends(bytes, 10, n)),
        be_u16(bytes, 10 + 2 * n) == length,
        in_bounds(bytes, 12 + 2 * n, length),
        bytes.subrange(12 + 2 * n, 12 + 2 * n + length) == g.instructions,
        expanded_flags(bytes, 12 + 2 * n + length, contour_ends(bytes, 10, n).last()) == Ok::<
            (Seq<u8>, int),
            DecodeError,
        >((flags, xs_at)),
        deltas_from(bytes, xs_at, flags, 0, false) == Ok::<(Seq<i16>, int), DecodeError>(
            (dxs, ys_at),
        ),
        deltas_from(bytes, ys_at, flags, 0, true) == Ok::<(Seq<i16>, int), DecodeError>(
            (dys, end),
        ),
        sums_fit(dxs),
        sums_fit(dys),
        split(decoded_points(flags, dxs, dys), contour_ends(bytes, 10, n)) == g.contours,
        g.components == Seq::<super::component::Component>::empty(),
        flag_has(flags[0], OVERLAP_SIMPLE) == g.overlap,
    ensures
        decoded_simple(bytes, 10, n, g.bounds) == Ok::<GlyphView, DecodeError>(g),
{
}

/// The body of a simple glyph, where its parts stand one after the other,
/// is decoded as that glyph.
#[verifier::spinoff_prover]
pub proof fn lemma_decode_laid_out_body(g: GlyphView, bytes: Seq<u8>)
    requires
        0 < g.contours.len() <= 0x7fff,
        g.components.len() == 0,
        g.instructions.len() <= 0xffff,
        ends_fit(g.contours),
        deltas_fit(all_points(g.contours)),
        holds_simple(bytes, g),
    ensures
        decoded_simple(bytes, 10, g.contours.len() as int, g.bounds) == Ok::<
            GlyphView,
            DecodeError,
        >(g),
{
    let n = g.contours.len() as int;
    let length = g.instructions.len() as int;
    let points = all_points(g.contours);
    let total = points.len() as int;
    lemma_read_laid_out_ends(g, bytes);
    lemma_last_end(g.contours);
    lemma_split_all_points(g.contours);
    lemma_read_laid_out_instructions(g, bytes);
    lemma_read_laid_out_points(g, bytes);
    assert(g.components =~= Seq::empty());
    assert(length_position(g) == 10 + 2 * n);
    assert(flags_position(g) == 12 + 2 * n + length);
    assert(bytes.subrange(12 + 2 * n, 12 + 2 * n + length) == g.instructions);
    lemma_assemble_simple(
        bytes,
        g,
        n,
        length,
        encoded_flags(points, total, g.overlap),
        stored_deltas(points, total, false),
        stored_deltas(points, total, true),
        xs_position(g),
        ys_position(g),
        bytes.len() as int,
    );
}

/// Bytes that start with the header of a simple glyph are decoded as the
/// header says: as a simple glyph with its contour count and its box.
pub proof fn lemma_decode_simple_header(bytes: Seq<u8>, count: int, bounds: BoundingBox)
    requires
        1 <= count <= 0x7fff,
        in_bounds(bytes, 0, 10),
        bytes.subrange(0, 10) == encoded_header(count, bounds),
    ensures
        decoded_glyph(bytes, 0) == decoded_simple(bytes, 10, count, bounds),
{
    lemma_read_header(bytes, count, bounds);
    let read = BoundingBox {
        x_min: be_i16(bytes, 2) as i16,
        y_min: be_i16(bytes, 4) as i16,
        x_max: be_i16(bytes, 6) as i16,
        y_max: be_i16(bytes, 8) as i16,
    };
    assert(read == bounds);
}

/// Decoding what the encoder wrote for a simple glyph gives the glyph back.
pub proof fn lemma_decode_encoded_simple(g: GlyphView, bytes: Seq<u8>)
    requires
        g.contours.len() > 0,
        g.components.len() == 0,
        encoded_simple(g) == Ok::<Seq<u8>, EncodeError>(bytes),
    ensures
        decoded_glyph(bytes, 0) == Ok::<GlyphView, DecodeError>(g),
{
    lemma_encoded_simple_layout(g, bytes);
    lemma_decode_laid_out_body(g, bytes);
    lemma_decode_simple_header(bytes, g.contours.len() as int, g.bounds);
}

/// For the bytes of any simple glyph that can be encoded, encoding what
/// decoding gives reproduces the bytes.
pub proof fn lemma_encode_decoded(g: GlyphView, bytes: Seq<u8>)
    requires
        g.contours.len() > 0,
        g.components.len() == 0,
        encoded(g) == Ok::<Seq<u8>, EncodeError>(bytes),
    ensures
        decoded_glyph(bytes, 0) is Ok,
        encoded(decoded_glyph(bytes, 0).unwrap()) == Ok::<Seq<u8>, EncodeError>(bytes),
{
    lemma_decode_encoded_simple(g, bytes);
}

/// Contour ends that ascend still ascend where the last ones are left out.
pub proof fn lemma_ascending_take(ends: Seq<int>, k: int)
    requires
        0 <= k <= ends.len(),
        ascending(ends),
    ensures
        ascending(ends.take(k)),
{
    reveal(ascending);
    let fewer = ends.take(k);
    assert forall|i: int, j: int| 0 <= i <= j < fewer.len() implies #[trigger] fewer[i]
        <= #[trigger] fewer[j] by {
        assert(ends[i] <= ends[j]);
    }
}

/// The contours cut from a point stream end where the stream was cut: the
/// first `k` of them hold as many points as the end of contour `k - 1`
/// says.
pub proof fn lemma_split_point_count(points: Seq<Point>, ends: Seq<int>, k: int)
    requires
        1 <= k <= ends.len(),
        ascending(ends),
        0 <= ends[0],
        ends.last() <= points.len(),
    ensures
        point_count(split(points, ends).take(k)) == ends[k - 1],
{
    let fewer = ends.take(k);
    lemma_ascending_take(ends, k);
    assert(ends[0] <= ends[k - 1] <= ends.last()) by {
        reveal(ascending);
    }
    assert(fewer.last() == ends[k - 1]);
    assert(fewer[0] == ends[0]);
    lemma_split_rejoins(points, fewer);
    assert(split(points, ends).take(k) =~= split(points, fewer));
    lemma_all_points_len(split(points, fewer));
    assert(points.subrange(0, ends[k - 1]).len() == ends[k - 1]);
}

/// Points whose coordinates are sums of 16-bit deltas lie no further apart
/// than a 16-bit delta spans: each lies from the one before it by its
/// delta.
pub proof fn lemma_decoded_deltas_fit(flags: Seq<u8>, dxs: Seq<i16>, dys: Seq<i16>)
    requires
        dxs.len() == flags.len(),
        dys.len() == flags.len(),
        sums_fit(dxs),
        sums_fit(dys),
    ensures
        deltas_fit(decoded_points(flags, dxs, dys)),
{
    let points = decoded_points(flags, dxs, dys);
    assert forall|i: int, vertical: bool| 0 <= i < points.len() implies -0x8000
        <= #[trigger] delta_of(points, i, vertical) <= 0x7fff by {
        assert(-0x8000 <= running(dxs, i + 1) <= 0x7fff);
        assert(-0x8000 <= running(dys, i + 1) <= 0x7fff);
        if i > 0 {
            assert(-0x8000 <= running(dxs, i) <= 0x7fff);
            assert(-0x8000 <= running(dys, i) <= 0x7fff);
        } else {
            assert(running(dxs, 0) == 0);
            assert(running(dys, 0) == 0);
        }
        if vertical {
            assert(delta_of(points, i, true) == dys[i]);
        } else {
            assert(delta_of(points, i, false) == dxs[i]);
        }
    }
}

/// Every simple glyph that decoding gives can be encoded.
#[verifier::spinoff_prover]
pub proof fn lemma_decoded_simple_is_encodable(
    bytes: Seq<u8>,
    at: int,
    count: int,
    bounds: BoundingBox,
)
    requires
        1 <= count <= 0x7fff,
        decoded_simple(bytes, at, count, bounds) is Ok,
    ensures
        encoded_simple(decoded_simple(bytes, at, count, bounds).unwrap()) is Ok,
        decoded_simple(bytes, at, count, bounds).unwrap().contours.len() == count,
        decoded_simple(bytes, at, count, bounds).unwrap().components.len() == 0,
{
    let g = decoded_simple(bytes, at, count, bounds).unwrap();
    let ends = contour_ends(bytes, at, count);
    let flags = stream_flags(bytes, at, count);
    let dxs = stream_deltas(bytes, at, count, false);
    let dys = stream_deltas(bytes, at, count, true);
    let points = decoded_points(flags, dxs, dys);
    let read = expanded_flags(bytes, stream_start(bytes, at, count), ends.last());
    lemma_expanded_flags_len(bytes, stream_start(bytes, at, count), ends.last());
    let xs_at = read.unwrap().1;
    lemma_deltas_len(bytes, xs_at, flags, 0, false);
    let ys_at = deltas_from(bytes, xs_at, flags, 0, false).unwrap().1;
    lemma_deltas_len(bytes, ys_at, flags, 0, true);
    assert(g.contours == split(points, ends));
    assert(ends[0] >= 1);
    // the contour ends
    assert forall|k: int| 1 <= k <= g.contours.len() implies 1 <= #[trigger] point_count(
        g.contours.take(k),
    ) <= 0x10000 by {
        lemma_split_point_count(points, ends, k);
        assert(ends[k - 1] == be_u16(bytes, at + 2 * (k - 1)) + 1);
    }
    // the deltas
    lemma_split_rejoins(points, ends);
    assert(points.subrange(0, ends.last()) =~= points);
    lemma_decoded_deltas_fit(flags, dxs, dys);
}

/// Encoding keeps the value of whatever decoding gives: a simple glyph
/// that was decoded, from bytes in whatever valid form, can be encoded, and
/// decoding its encoding gives the same glyph again.
pub proof fn lemma_decoded_survives_encoding(bytes: Seq<u8>, at: int)
    requires
        decoded_glyph(bytes, at) is Ok,
        decoded_glyph(bytes, at).unwrap().contours.len() > 0,
    ensures
        encoded(decoded_glyph(bytes, at).unwrap()) is Ok,
        decoded_glyph(encoded(decoded_glyph(bytes, at).unwrap()).unwrap(), 0) == decoded_glyph(
            bytes,
            at,
        ),
{
    let g = decoded_glyph(bytes, at).unwrap();
    let count = be_i16(bytes, at);
    let bounds = BoundingBox {
        x_min: be_i16(bytes, at + 2) as i16,
        y_min: be_i16(bytes, at + 4) as i16,
        x_max: be_i16(bytes, at + 6) as i16,
        y_max: be_i16(bytes, at + 8) as i16,
    };
    // a glyph with contours was not read as a composite one
    assert(count >= 1);
    lemma_decoded_simple_is_encodable(bytes, at + 10, count, bounds);
    lemma_decode_encoded_simple(g, encoded_simple(g).unwrap());
}

} // verus!
