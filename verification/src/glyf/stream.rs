use vstd::prelude::*;
use crate::binary::be_u16;
use super::bounds::{all_points, BoundingBox};
use super::outline::{
    ascending, contour_ends, decoded_points, decoded_simple, deltas_from, expanded_flags,
    flag_has, running, split, ON_CURVE_POINT,
};
use super::point::Point;

verus! {

/// Where the flags of a simple glyph stand whose body starts at `at`:
/// behind the contour ends and the instructions.
pub open spec fn stream_start(bytes: Seq<u8>, at: int, count: int) -> int {
    at + 2 * count + 2 + be_u16(bytes, at + 2 * count)
}

/// The flags of all points of a simple glyph, one per point.
pub open spec fn stream_flags(bytes: Seq<u8>, at: int, count: int) -> Seq<u8> {
    expanded_flags(
        bytes,
        stream_start(bytes, at, count),
        contour_ends(bytes, at, count).last(),
    ).unwrap().0
}

/// The deltas of all points of a simple glyph along one axis.
pub open spec fn stream_deltas(bytes: Seq<u8>, at: int, count: int, vertical: bool) -> Seq<i16> {
    let flags = stream_flags(bytes, at, count);
    let xs_at = expanded_flags(
        bytes,
        stream_start(bytes, at, count),
        contour_ends(bytes, at, count).last(),
    ).unwrap().1;
    if vertical {
        deltas_from(
            bytes,
            deltas_from(bytes, xs_at, flags, 0, false).unwrap().1,
            flags,
            0,
            true,
        ).unwrap().0
    } else {
        deltas_from(bytes, xs_at, flags, 0, false).unwrap().0
    }
}

/// Flags are read for as many points as are asked for.
pub proof fn lemma_expanded_flags_len(bytes: Seq<u8>, at: int, want: int)
    requires
        0 <= want,
        expanded_flags(bytes, at, want) is Ok,
    ensures
        expanded_flags(bytes, at, want).unwrap().0.len() == want,
    decreases want,
{
    if want > 0 {
        if flag_has(bytes[at], super::outline::REPEAT_FLAG) {
            let run = super::outline::run_length(bytes[at + 1], want);
            assert(expanded_flags(bytes, at + 2, want - run) is Ok);
            lemma_expanded_flags_len(bytes, at + 2, want - run);
        } else {
            assert(expanded_flags(bytes, at + 1, want - 1) is Ok);
            lemma_expanded_flags_len(bytes, at + 1, want - 1);
        }
    }
}

/// There is one delta per point.
pub proof fn lemma_deltas_len(bytes: Seq<u8>, at: int, flags: Seq<u8>, i: int, vertical: bool)
    requires
        0 <= i <= flags.len(),
        deltas_from(bytes, at, flags, i, vertical) is Ok,
    ensures
        deltas_from(bytes, at, flags, i, vertical).unwrap().0.len() == flags.len() - i,
    decreases flags.len() - i,
{
    if i < flags.len() {
        let short = flag_has(flags[i], super::outline::short_bit(vertical));
        let same = flag_has(flags[i], super::outline::same_bit(vertical));
        let next = if short {
            at + 1
        } else if same {
            at
        } else {
            at + 2
        };
        assert(deltas_from(bytes, next, flags, i + 1, vertical) is Ok);
        lemma_deltas_len(bytes, next, flags, i + 1, vertical);
    }
}

/// The point stream cut into contours and put together again is the
/// stream, up to the end of the last contour.
pub proof fn lemma_split_rejoins(points: Seq<Point>, ends: Seq<int>)
    requires
        ends.len() > 0,
        ascending(ends),
        0 <= ends[0],
        ends.last() <= points.len(),
    ensures
        all_points(split(points, ends)) == points.subrange(0, ends.last()),
    decreases ends.len(),
{
    reveal(ascending);
    let cut = split(points, ends);
    let n = ends.len() as int;
    if n == 1 {
        assert(cut.drop_last() =~= Seq::<Seq<Point>>::empty());
        assert(all_points(cut.drop_last()) =~= Seq::<Point>::empty());
        assert(all_points(cut) =~= points.subrange(0, ends.last()));
    } else {
        let fewer = ends.drop_last();
        assert(ascending(fewer)) by {
            assert forall|i: int, j: int| 0 <= i <= j < fewer.len() implies #[trigger] fewer[i]
                <= #[trigger] fewer[j] by {
                assert(ends[i] <= ends[j]);
            }
        }
        assert(ends[0] <= ends[n - 2] <= ends[n - 1]);
        lemma_split_rejoins(points, fewer);
        assert(cut.drop_last() =~= split(points, fewer));
        assert(cut.last() == points.subrange(ends[n - 2], ends[n - 1]));
        assert(points.subrange(0, ends[n - 2]) + points.subrange(ends[n - 2], ends[n - 1])
            =~= points.subrange(0, ends[n - 1]));
    }
}

/// The points of a decoded simple glyph, taken contour after contour, are
/// the points of the stream: point `i` has the flag `i`, and its
/// coordinates are the sums of the deltas of the points 0 to `i`. The sums
/// run over the whole glyph; they do not start anew with a contour.
pub proof fn lemma_decoded_coordinates(
    bytes: Seq<u8>,
    at: int,
    count: int,
    bounds: BoundingBox,
    i: int,
)
    requires
        count >= 1,
        decoded_simple(bytes, at, count, bounds) is Ok,
        0 <= i < all_points(decoded_simple(bytes, at, count, bounds).unwrap().contours).len(),
    ensures
        ({
            let p = all_points(decoded_simple(bytes, at, count, bounds).unwrap().contours)[i];
            &&& p.x == running(stream_deltas(bytes, at, count, false), i + 1)
            &&& p.y == running(stream_deltas(bytes, at, count, true), i + 1)
            &&& p.on_curve == flag_has(stream_flags(bytes, at, count)[i], ON_CURVE_POINT)
        }),
        all_points(decoded_simple(bytes, at, count, bounds).unwrap().contours).len()
            == contour_ends(bytes, at, count).last(),
{
    let ends = contour_ends(bytes, at, count);
    let flags = stream_flags(bytes, at, count);
    let dxs = stream_deltas(bytes, at, count, false);
    let dys = stream_deltas(bytes, at, count, true);
    let points = decoded_points(flags, dxs, dys);
    let read = expanded_flags(bytes, stream_start(bytes, at, count), ends.last());
    lemma_expanded_flags_len(bytes, stream_start(bytes, at, count), ends.last());
    let xs_at = read.unwrap().1;
    lemma_deltas_len(bytes, xs_at, flags, 0, false);
    let ys_at = deltas_from(bytes, xs_at, flags, 0, false).unwrap().1;
    lemma_deltas_len(bytes, ys_at, flags, 0, true);
    assert(super::outline::sums_fit(dxs));
    assert(super::outline::sums_fit(dys));
    assert(ends[0] >= 1);
    lemma_split_rejoins(points, ends);
    assert(points.subrange(0, ends.last()) =~= points);
    assert(-0x8000 <= running(dxs, i + 1) <= 0x7fff);
    assert(-0x8000 <= running(dys, i + 1) <= 0x7fff);
}

} // verus!
