use vstd::prelude::*;
use crate::binary::{be_i16, be_u16, in_bounds, read_i16, read_u16, DecodeError};
use super::bounds::BoundingBox;
use super::glyph::{Glyph, GlyphView};
use super::point::Point;

verus! {

/// Point flag: the point is on the curve
pub const ON_CURVE_POINT: u8 = 0x01;

/// Point flag: the x delta is one byte long
pub const X_SHORT_VECTOR: u8 = 0x02;

/// Point flag: the y delta is one byte long
pub const Y_SHORT_VECTOR: u8 = 0x04;

/// Point flag: the next byte counts how many more points have this flag
pub const REPEAT_FLAG: u8 = 0x08;

/// Point flag: a short x delta is positive; a long one is zero and not stored
pub const X_IS_SAME_OR_POSITIVE_X_SHORT_VECTOR: u8 = 0x10;

/// Point flag: a short y delta is positive; a long one is zero and not stored
pub const Y_IS_SAME_OR_POSITIVE_Y_SHORT_VECTOR: u8 = 0x20;

/// Point flag, on the first point: the contours of the glyph overlap
pub const OVERLAP_SIMPLE: u8 = 0x40;

/// Whether the bit of weight `bit` (a power of two) is set in `flag`.
pub open spec fn flag_has(flag: u8, bit: u8) -> bool {
    (flag as int / bit as int) % 2 == 1
}

/// Tests whether the bit of weight `bit` is set in `flag`.
pub fn flag_contains(flag: u8, bit: u8) -> (r: bool)
    requires
        bit > 0,
    ensures
        r == flag_has(flag, bit),
{
    (flag / bit) % 2 == 1
}

/// A decoded sequence with what follows it in the data: the sequence
/// `prefix` put in front of a further result, an error passed on.
pub open spec fn followed<T>(prefix: Seq<T>, rest: Result<(Seq<T>, int), DecodeError>) -> Result<
    (Seq<T>, int),
    DecodeError,
> {
    match rest {
        Ok((more, end)) => Ok((prefix + more, end)),
        Err(e) => Err(e),
    }
}

/// The flags of `want` points read from `at`, one flag per point, with the
/// position after the last byte read.
///
/// A flag byte without `REPEAT_FLAG` applies to one point. A flag byte with
/// it is followed by a count byte `n` and applies to `1 + n` points, of which
/// those beyond `want` are dropped; no further flag byte is read for them.
pub open spec fn expanded_flags(bytes: Seq<u8>, at: int, want: int) -> Result<
    (Seq<u8>, int),
    DecodeError,
>
    decreases want,
{
    if want <= 0 {
        Ok((Seq::empty(), at))
    } else if !in_bounds(bytes, at, 1) {
        Err(DecodeError::UnexpectedEnd)
    } else if flag_has(bytes[at], REPEAT_FLAG) {
        if !in_bounds(bytes, at, 2) {
            Err(DecodeError::UnexpectedEnd)
        } else {
            let run = run_length(bytes[at + 1], want);
            followed(
                Seq::new(run as nat, |i: int| bytes[at]),
                expanded_flags(bytes, at + 2, want - run),
            )
        }
    } else {
        followed(seq![bytes[at]], expanded_flags(bytes, at + 1, want - 1))
    }
}

/// The number of points that a repeated flag with count byte `count` covers
/// where `want` points are still to come.
pub open spec fn run_length(count: u8, want: int) -> int {
    if 1 + count as int <= want {
        1 + count as int
    } else {
        want
    }
}

/// A flag byte with a repeat count of `n` applies to exactly `1 + n` points
/// (the point it stands for and the `n` that follow), and the flag of the
/// next point is read right after the count byte.
pub proof fn lemma_repeated_flag(bytes: Seq<u8>, at: int, want: int)
    requires
        in_bounds(bytes, at, 2),
        flag_has(bytes[at], REPEAT_FLAG),
        1 + bytes[at + 1] as int <= want,
    ensures
        expanded_flags(bytes, at, want) == followed(
            Seq::new((1 + bytes[at + 1] as int) as nat, |i: int| bytes[at]),
            expanded_flags(bytes, at + 2, want - (1 + bytes[at + 1] as int)),
        ),
{
}

/// The bit that says whether the delta of a point is one byte long.
pub open spec fn short_bit(vertical: bool) -> u8 {
    if vertical {
        Y_SHORT_VECTOR
    } else {
        X_SHORT_VECTOR
    }
}

/// The bit that gives the sign of a short delta, or marks a zero delta.
pub open spec fn same_bit(vertical: bool) -> u8 {
    if vertical {
        Y_IS_SAME_OR_POSITIVE_Y_SHORT_VECTOR
    } else {
        X_IS_SAME_OR_POSITIVE_X_SHORT_VECTOR
    }
}

/// The coordinate deltas of the points from `i` on, read from `at` under
/// their flags, with the position after the last byte read.
///
/// A short delta is one byte, its sign given by the same-or-positive bit. A
/// delta that is not short is zero and takes no byte if that bit is set, or
/// else a signed 16-bit number.
pub open spec fn deltas_from(
    bytes: Seq<u8>,
    at: int,
    flags: Seq<u8>,
    i: int,
    vertical: bool,
) -> Result<(Seq<i16>, int), DecodeError>
    decreases flags.len() - i,
{
    if i < 0 || i >= flags.len() {
        Ok((Seq::empty(), at))
    } else if flag_has(flags[i], short_bit(vertical)) {
        if !in_bounds(bytes, at, 1) {
            Err(DecodeError::UnexpectedEnd)
        } else {
            let d = if flag_has(flags[i], same_bit(vertical)) {
                bytes[at] as int
            } else {
                -(bytes[at] as int)
            };
            followed(seq![d as i16], deltas_from(bytes, at + 1, flags, i + 1, vertical))
        }
    } else if flag_has(flags[i], same_bit(vertical)) {
        followed(seq![0i16], deltas_from(bytes, at, flags, i + 1, vertical))
    } else if !in_bounds(bytes, at, 2) {
        Err(DecodeError::UnexpectedEnd)
    } else {
        followed(
            seq![be_i16(bytes, at) as i16],
            deltas_from(bytes, at + 2, flags, i + 1, vertical),
        )
    }
}

/// The sum of the first `k` deltas: the coordinate of point `k - 1`. Deltas
/// add up from 0 over the whole glyph and do not start anew with a contour.
pub open spec fn running(deltas: Seq<i16>, k: int) -> int
    decreases k,
{
    if k <= 0 {
        0
    } else {
        running(deltas, k - 1) + deltas[k - 1] as int
    }
}

/// Whether every coordinate summed up from the deltas is a 16-bit number.
pub open spec fn sums_fit(deltas: Seq<i16>) -> bool {
    forall|k: int| 1 <= k <= deltas.len() ==> -0x8000 <= #[trigger] running(deltas, k) <= 0x7fff
}

/// The points that flags and deltas describe: the coordinates of point `i`
/// are the sums of the deltas of the points up to and including `i`.
pub open spec fn decoded_points(flags: Seq<u8>, dxs: Seq<i16>, dys: Seq<i16>) -> Seq<Point> {
    Seq::new(
        flags.len(),
        |i: int|
            Point {
                x: running(dxs, i + 1) as i16,
                y: running(dys, i + 1) as i16,
                on_curve: flag_has(flags[i], ON_CURVE_POINT),
            },
    )
}

/// The number of points up to the end of each contour, as stored: each end
/// point index plus one.
pub open spec fn contour_ends(bytes: Seq<u8>, at: int, count: int) -> Seq<int> {
    Seq::new(count as nat, |i: int| be_u16(bytes, at + 2 * i) + 1)
}

/// Whether no contour ends before the one preceding it.
#[verifier::opaque]
pub open spec fn ascending(ends: Seq<int>) -> bool {
    forall|i: int, j: int| 0 <= i <= j < ends.len() ==> #[trigger] ends[i] <= #[trigger] ends[j]
}

/// The point stream cut into contours at the given ends.
pub open spec fn split(points: Seq<Point>, ends: Seq<int>) -> Seq<Seq<Point>> {
    Seq::new(
        ends.len(),
        |i: int|
            points.subrange(
                if i == 0 {
                    0
                } else {
                    ends[i - 1]
                },
                ends[i],
            ),
    )
}

/// The simple glyph of `count` contours whose body starts at `at`, right
/// after the bounding box: the contour ends, the instructions behind their
/// length, one flag per point, the x deltas and the y deltas.
///
/// There is no such glyph where the data end inside one of these parts,
/// where a contour ends before the one preceding it, or where a coordinate
/// leaves the 16-bit range.
pub open spec fn decoded_simple(bytes: Seq<u8>, at: int, count: int, bounds: BoundingBox) -> Result<
    GlyphView,
    DecodeError,
> {
    let ends = contour_ends(bytes, at, count);
    let after_ends = at + 2 * count;
    let instructions_at = after_ends + 2;
    if !in_bounds(bytes, at, 2 * count + 2) {
        Err(DecodeError::UnexpectedEnd)
    } else if !ascending(ends) {
        Err(DecodeError::ContourEndsDescend)
    } else if !in_bounds(bytes, instructions_at, be_u16(bytes, after_ends)) {
        Err(DecodeError::UnexpectedEnd)
    } else {
        let flags_at = instructions_at + be_u16(bytes, after_ends);
        match expanded_flags(bytes, flags_at, ends.last()) {
            Err(e) => Err(e),
            Ok((flags, xs_at)) => match deltas_from(bytes, xs_at, flags, 0, false) {
                Err(e) => Err(e),
                Ok((dxs, ys_at)) => match deltas_from(bytes, ys_at, flags, 0, true) {
                    Err(e) => Err(e),
                    Ok((dys, end)) => if !sums_fit(dxs) || !sums_fit(dys) {
                        Err(DecodeError::CoordinateOverflow)
                    } else {
                        Ok(
                            GlyphView {
                                bounds,
                                contours: split(decoded_points(flags, dxs, dys), ends),
                                instructions: bytes.subrange(instructions_at, flags_at),
                                components: Seq::empty(),
                                overlap: flag_has(flags[0], OVERLAP_SIMPLE),
                            },
                        )
                    },
                },
            },
        }
    }
}

/// Whether an executable result agrees with a specified one.
pub open spec fn seq_agrees<T>(
    r: Result<(Vec<T>, usize), DecodeError>,
    expected: Result<(Seq<T>, int), DecodeError>,
) -> bool {
    match r {
        Ok((v, end)) => expected == Ok::<(Seq<T>, int), DecodeError>((v@, end as int)),
        Err(e) => expected == Err::<(Seq<T>, int), DecodeError>(e),
    }
}

/// Reads the flags of `want` points, expanding repeated flags.
pub fn read_flags(bytes: &[u8], start: usize, want: usize) -> (r: Result<
    (Vec<u8>, usize),
    DecodeError,
>)
    ensures
        seq_agrees(r, expanded_flags(bytes@, start as int, want as int)),
        r matches Ok((flags, end)) ==> flags.len() == want && start <= end && (want > 0
            ==> end <= bytes.len()),
{
    let mut flags: Vec<u8> = Vec::new();
    let mut at: usize = start;
    while flags.len() < want
        invariant
            flags.len() <= want,
            start <= at,
            at <= bytes.len() || flags.len() == 0,
            expanded_flags(bytes@, start as int, want as int) == followed(
                flags@,
                expanded_flags(bytes@, at as int, want - flags.len()),
            ),
        decreases want - flags.len(),
    {
        let ghost done = flags@;
        let ghost rest = expanded_flags(bytes@, at as int, want - flags.len());
        if at >= bytes.len() {
            return Err(DecodeError::UnexpectedEnd);
        }
        let flag = bytes[at];
        if flag_contains(flag, REPEAT_FLAG) {
            if bytes.len() - at < 2 {
                return Err(DecodeError::UnexpectedEnd);
            }
            let remaining = want - flags.len();
            let count = bytes[at + 1];
            let run: usize = if (count as usize) < remaining {
                1 + count as usize
            } else {
                remaining
            };
            assert(run == run_length(count, remaining as int));
            let mut k: usize = 0;
            while k < run
                invariant
                    k <= run,
                    flags@ == done + Seq::new(k as nat, |i: int| flag),
                decreases run - k,
            {
                flags.push(flag);
                proof {
                    assert(flags@ =~= done + Seq::new((k + 1) as nat, |i: int| flag));
                }
                k += 1;
            }
            at += 2;
            proof {
                let next = expanded_flags(bytes@, at as int, want - flags.len());
                assert(rest == followed(Seq::new(run as nat, |i: int| flag), next));
                match next {
                    Ok((more, end)) => {
                        assert(done + (Seq::new(run as nat, |i: int| flag) + more) =~= flags@
                            + more);
                    },
                    Err(e) => {},
                }
            }
        } else {
            flags.push(flag);
            at += 1;
            proof {
                let next = expanded_flags(bytes@, at as int, want - flags.len());
                assert(rest == followed(seq![flag], next));
                match next {
                    Ok((more, end)) => {
                        assert(done + (seq![flag] + more) =~= flags@ + more);
                    },
                    Err(e) => {},
                }
            }
        }
    }
    proof {
        assert(flags@ + Seq::<u8>::empty() =~= flags@);
    }
    Ok((flags, at))
}

/// Reads the coordinate deltas of all points, each in the form that its
/// flag announces.
pub fn read_deltas(bytes: &[u8], start: usize, flags: &Vec<u8>, vertical: bool) -> (r: Result<
    (Vec<i16>, usize),
    DecodeError,
>)
    ensures
        seq_agrees(r, deltas_from(bytes@, start as int, flags@, 0, vertical)),
        r matches Ok((deltas, end)) ==> deltas.len() == flags.len() && start <= end,
{
    let short: u8 = if vertical {
        Y_SHORT_VECTOR
    } else {
        X_SHORT_VECTOR
    };
    let same: u8 = if vertical {
        Y_IS_SAME_OR_POSITIVE_Y_SHORT_VECTOR
    } else {
        X_IS_SAME_OR_POSITIVE_X_SHORT_VECTOR
    };
    let n = flags.len();
    let mut deltas: Vec<i16> = Vec::new();
    let mut at: usize = start;
    let mut i: usize = 0;
    while i < n
        invariant
            n == flags.len(),
            i <= n,
            deltas.len() == i,
            start <= at,
            short == short_bit(vertical),
            same == same_bit(vertical),
            deltas_from(bytes@, start as int, flags@, 0, vertical) == followed(
                deltas@,
                deltas_from(bytes@, at as int, flags@, i as int, vertical),
            ),
        decreases n - i,
    {
        let ghost done = deltas@;
        let ghost rest = deltas_from(bytes@, at as int, flags@, i as int, vertical);
        let flag = flags[i];
        let len = bytes.len();
        let d: i16;
        if flag_contains(flag, short) {
            if at >= len {
                return Err(DecodeError::UnexpectedEnd);
            }
            let b = bytes[at];
            d = if flag_contains(flag, same) {
                b as i16
            } else {
                -(b as i16)
            };
            at += 1;
        } else if flag_contains(flag, same) {
            d = 0;
        } else {
            match read_i16(bytes, at) {
                Err(e) => {
                    return Err(e);
                },
                Ok(v) => {
                    d = v;
                    at += 2;
                },
            }
        }
        deltas.push(d);
        i += 1;
        proof {
            let next = deltas_from(bytes@, at as int, flags@, i as int, vertical);
            assert(rest == followed(seq![d], next));
            match next {
                Ok((more, end)) => {
                    assert(done + (seq![d] + more) =~= deltas@ + more);
                },
                Err(e) => {},
            }
        }
    }
    proof {
        assert(deltas@ + Seq::<i16>::empty() =~= deltas@);
    }
    Ok((deltas, at))
}

/// Sums deltas up to coordinates; fails where a sum leaves the 16-bit range.
pub fn accumulate(deltas: &Vec<i16>) -> (r: Result<Vec<i16>, DecodeError>)
    ensures
        match r {
            Ok(v) => sums_fit(deltas@) && v.len() == deltas.len() && forall|i: int|
                0 <= i < v.len() ==> #[trigger] v[i] == running(deltas@, i + 1),
            Err(e) => e == DecodeError::CoordinateOverflow && !sums_fit(deltas@),
        },
{
    let n = deltas.len();
    let mut out: Vec<i16> = Vec::new();
    let mut last: i16 = 0;
    let mut i: usize = 0;
    while i < n
        invariant
            n == deltas.len(),
            i <= n,
            out.len() == i,
            last == running(deltas@, i as int),
            forall|k: int| 1 <= k <= i ==> -0x8000 <= #[trigger] running(deltas@, k) <= 0x7fff,
            forall|j: int| 0 <= j < i ==> #[trigger] out[j] == running(deltas@, j + 1),
        decreases n - i,
    {
        let wide: i32 = last as i32 + deltas[i] as i32;
        assert(wide == running(deltas@, i as int + 1));
        if wide < -0x8000 || wide > 0x7fff {
            return Err(DecodeError::CoordinateOverflow);
        }
        last = wide as i16;
        out.push(last);
        i += 1;
    }
    Ok(out)
}

/// Copies the bytes from `from` up to `to`.
pub fn copy_range(bytes: &[u8], from: usize, to: usize) -> (v: Vec<u8>)
    requires
        from <= to <= bytes.len(),
    ensures
        v@ == bytes@.subrange(from as int, to as int),
{
    let mut v: Vec<u8> = Vec::new();
    let mut k: usize = from;
    while k < to
        invariant
            from <= k <= to,
            to <= bytes.len(),
            v@ == bytes@.subrange(from as int, k as int),
        decreases to - k,
    {
        v.push(bytes[k]);
        proof {
            assert(v@ =~= bytes@.subrange(from as int, k as int + 1));
        }
        k += 1;
    }
    v
}

/// Whether a decoded glyph agrees with a specified one.
pub open spec fn glyph_agrees(
    r: Result<Glyph, DecodeError>,
    expected: Result<GlyphView, DecodeError>,
) -> bool {
    match r {
        Ok(g) => expected == Ok::<GlyphView, DecodeError>(g@),
        Err(e) => expected == Err::<GlyphView, DecodeError>(e),
    }
}

/// Decodes the body of a simple glyph of `count` contours, which starts at
/// `at`, right after the bounding box.
pub fn decode_simple(bytes: &[u8], at: usize, count: u16, bounds: BoundingBox) -> (r: Result<
    Glyph,
    DecodeError,
>)
    requires
        1 <= count <= 0x7fff,
    ensures
        glyph_agrees(r, decoded_simple(bytes@, at as int, count as int, bounds)),
{
    let len = bytes.len();
    let n = count as usize;
    if at > len || len - at < 2 * n + 2 {
        return Err(DecodeError::UnexpectedEnd);
    }
    let ghost ends_spec = contour_ends(bytes@, at as int, count as int);
    let mut ends: Vec<usize> = Vec::new();
    let mut i: usize = 0;
    while i < n
        invariant
            n == count,
            i <= n,
            at + 2 * n + 2 <= len,
            len == bytes.len(),
            ends.len() == i,
            ends_spec == contour_ends(bytes@, at as int, count as int),
            forall|k: int| 0 <= k < i ==> #[trigger] ends[k] as int == ends_spec[k],
            forall|j: int, k: int|
                0 <= j <= k < i ==> 1 <= #[trigger] ends_spec[j] <= #[trigger] ends_spec[k],
        decreases n - i,
    {
        match read_u16(bytes, at + 2 * i) {
            Err(e) => {
                return Err(e);
            },
            Ok(e) => {
                let end = e as usize + 1;
                assert(end == ends_spec[i as int]);
                if i > 0 && ends[i - 1] > end {
                    proof {
                        reveal(ascending);
                        assert(ends[i as int - 1] as int == ends_spec[i as int - 1]);
                        assert(ends_spec[i as int - 1] > ends_spec[i as int]);
                    }
                    return Err(DecodeError::ContourEndsDescend);
                }
                proof {
                    if i > 0 {
                        assert(ends[i as int - 1] as int == ends_spec[i as int - 1]);
                    }
                }
                ends.push(end);
            },
        }
        i += 1;
    }
    assert(ascending(ends_spec)) by {
        reveal(ascending);
    }
    let after_ends = at + 2 * n;
    let instructions_at = after_ends + 2;
    let instruction_length = match read_u16(bytes, after_ends) {
        Err(e) => {
            return Err(e);
        },
        Ok(l) => l as usize,
    };
    if len - instructions_at < instruction_length {
        return Err(DecodeError::UnexpectedEnd);
    }
    let flags_at = instructions_at + instruction_length;
    let instructions = copy_range(bytes, instructions_at, flags_at);
    let total = ends[n - 1];
    let (flags, xs_at) = match read_flags(bytes, flags_at, total) {
        Err(e) => {
            return Err(e);
        },
        Ok(found) => found,
    };
    let (dxs, ys_at) = match read_deltas(bytes, xs_at, &flags, false) {
        Err(e) => {
            return Err(e);
        },
        Ok(found) => found,
    };
    let (dys, end) = match read_deltas(bytes, ys_at, &flags, true) {
        Err(e) => {
            return Err(e);
        },
        Ok(found) => found,
    };
    let xs = match accumulate(&dxs) {
        Err(e) => {
            return Err(e);
        },
        Ok(v) => v,
    };
    let ys = match accumulate(&dys) {
        Err(e) => {
            return Err(e);
        },
        Ok(v) => v,
    };
    let ghost points = decoded_points(flags@, dxs@, dys@);
    let mut contours: Vec<Vec<Point>> = Vec::new();
    let mut c: usize = 0;
    while c < n
        invariant
            c <= n,
            n == ends.len(),
            n == ends_spec.len(),
            total == ends_spec[n as int - 1],
            flags.len() == total,
            xs.len() == total,
            ys.len() == total,
            points == decoded_points(flags@, dxs@, dys@),
            forall|k: int| 0 <= k < n ==> #[trigger] ends[k] as int == ends_spec[k],
            ascending(ends_spec),
            forall|i: int| 0 <= i < xs.len() ==> #[trigger] xs[i] == running(dxs@, i + 1),
            forall|i: int| 0 <= i < ys.len() ==> #[trigger] ys[i] == running(dys@, i + 1),
            contours.len() == c,
            forall|k: int| 0 <= k < c ==> (#[trigger] contours[k])@ == split(points, ends_spec)[k],
        decreases n - c,
    {
        let from: usize = if c == 0 {
            0
        } else {
            ends[c - 1]
        };
        let to: usize = ends[c];
        proof {
            reveal(ascending);
            assert(ends[c as int] as int == ends_spec[c as int]);
            assert(ends_spec[c as int] <= ends_spec[n as int - 1]);
            if c > 0 {
                assert(ends[c as int - 1] as int == ends_spec[c as int - 1]);
                assert(ends_spec[c as int - 1] <= ends_spec[c as int]);
            }
        }
        let mut contour: Vec<Point> = Vec::new();
        let mut k: usize = from;
        while k < to
            invariant
                from <= k <= to,
                to <= total,
                flags.len() == total,
                xs.len() == total,
                ys.len() == total,
                points == decoded_points(flags@, dxs@, dys@),
                forall|i: int| 0 <= i < xs.len() ==> #[trigger] xs[i] == running(dxs@, i + 1),
                forall|i: int| 0 <= i < ys.len() ==> #[trigger] ys[i] == running(dys@, i + 1),
                contour@ == points.subrange(from as int, k as int),
            decreases to - k,
        {
            let p = Point {
                x: xs[k],
                y: ys[k],
                on_curve: flag_contains(flags[k], ON_CURVE_POINT),
            };
            contour.push(p);
            proof {
                assert(p == points[k as int]);
                assert(contour@ =~= points.subrange(from as int, k as int + 1));
            }
            k += 1;
        }
        contours.push(contour);
        c += 1;
    }
    let overlap = flag_contains(flags[0], OVERLAP_SIMPLE);
    let g = Glyph {
        xMin: bounds.x_min,
        xMax: bounds.x_max,
        yMin: bounds.y_min,
        yMax: bounds.y_max,
        contours,
        instructions,
        components: Vec::new(),
        overlap,
    };
    proof {
        assert(g@.contours =~= split(points, ends_spec));
        assert(g@.components =~= Seq::empty());
    }
    Ok(g)
}

} // verus!
