use vstd::prelude::*;
use super::glyph::{Glyph, GlyphView};
use super::point::Point;

verus! {

/// Whether both points are quadratic control points, so that an on-curve
/// point is implied halfway between them.
pub open spec fn both_off_curve(a: Point, b: Point) -> bool {
    !a.on_curve && !b.on_curve
}

/// The contour with every implied on-curve point made explicit: between any
/// two neighbouring stored points that are both off-curve stands their
/// midpoint; all stored points are kept, in order. The last and first point
/// of the contour are not taken as neighbours.
pub open spec fn with_implied(contour: Seq<Point>) -> Seq<Point>
    decreases contour.len(),
{
    if contour.len() <= 1 {
        contour
    } else {
        let init = with_implied(contour.drop_last());
        let a = contour[contour.len() - 2];
        let b = contour.last();
        if both_off_curve(a, b) {
            init.push(Point::implied_between(a, b)).push(b)
        } else {
            init.push(b)
        }
    }
}

/// The number of neighbouring pairs of stored points that are both
/// off-curve.
pub open spec fn off_curve_pairs(contour: Seq<Point>) -> nat
    decreases contour.len(),
{
    if contour.len() <= 1 {
        0
    } else {
        let before = off_curve_pairs(contour.drop_last());
        if both_off_curve(contour[contour.len() - 2], contour.last()) {
            before + 1
        } else {
            before
        }
    }
}

/// Whether no two neighbouring points of the contour are both off-curve.
pub open spec fn is_explicit(contour: Seq<Point>) -> bool {
    forall|i: int|
        0 <= i < contour.len() - 1 ==> !both_off_curve(#[trigger] contour[i], contour[i + 1])
}

/// Where the stored point `i` of a contour stands once the implied points
/// are explicit: after itself it has one more point before it for every
/// off-curve pair up to it.
pub open spec fn position_after(contour: Seq<Point>, i: int) -> int {
    i + off_curve_pairs(contour.take(i + 1))
}

/// Making implied points explicit lengthens the contour by exactly the
/// number of neighbouring off-curve pairs, and keeps its last point last.
pub proof fn lemma_with_implied_len(contour: Seq<Point>)
    ensures
        with_implied(contour).len() == contour.len() + off_curve_pairs(contour),
        contour.len() > 0 ==> with_implied(contour).last() == contour.last(),
    decreases contour.len(),
{
    if contour.len() > 1 {
        lemma_with_implied_len(contour.drop_last());
    }
}

/// Every stored point is kept, at `position_after`, and each inserted point
/// is the midpoint of the two stored points around it.
pub proof fn lemma_with_implied_layout(contour: Seq<Point>, i: int)
    requires
        0 <= i < contour.len(),
    ensures
        0 <= position_after(contour, i) < with_implied(contour).len(),
        with_implied(contour)[position_after(contour, i)] == contour[i],
        i + 1 < contour.len() && both_off_curve(contour[i], contour[i + 1]) ==> {
            &&& position_after(contour, i + 1) == position_after(contour, i) + 2
            &&& with_implied(contour)[position_after(contour, i) + 1] == Point::implied_between(
                contour[i],
                contour[i + 1],
            )
        },
        i + 1 < contour.len() && !both_off_curve(contour[i], contour[i + 1])
            ==> position_after(contour, i + 1) == position_after(contour, i) + 1,
    decreases contour.len(),
{
    let n = contour.len() as int;
    let init = contour.drop_last();
    lemma_with_implied_len(contour);
    if n > 1 {
        lemma_with_implied_len(init);
    }
    if i + 1 < n {
        // what follows the stored point i
        let upto = contour.take(i + 2);
        assert(upto.drop_last() =~= contour.take(i + 1));
        assert(upto[upto.len() - 2] == contour[i]);
        assert(upto.last() == contour[i + 1]);
    }
    if i == n - 1 {
        assert(contour.take(n) =~= contour);
    } else {
        // the stored point i belongs to the contour without its last point
        lemma_with_implied_layout(init, i);
        assert(init.take(i + 1) =~= contour.take(i + 1));
        assert(init[i] == contour[i]);
        if i + 1 < n - 1 {
            lemma_with_implied_layout(init, i + 1);
            assert(init.take(i + 2) =~= contour.take(i + 2));
            assert(init[i + 1] == contour[i + 1]);
        } else {
            assert(init.take(i + 1) =~= init);
            assert(contour.take(n) =~= contour);
        }
    }
}

/// A contour without neighbouring off-curve pairs has no implied points.
pub proof fn lemma_explicit_is_fixed(contour: Seq<Point>)
    requires
        is_explicit(contour),
    ensures
        with_implied(contour) == contour,
    decreases contour.len(),
{
    if contour.len() > 1 {
        let init = contour.drop_last();
        assert forall|i: int| 0 <= i < init.len() - 1 implies !both_off_curve(
            #[trigger] init[i],
            init[i + 1],
        ) by {
            assert(init[i] == contour[i]);
            assert(init[i + 1] == contour[i + 1]);
        }
        lemma_explicit_is_fixed(init);
        let k = contour.len() - 2;
        assert(!both_off_curve(contour[k], contour[k + 1]));
        assert(init.push(contour.last()) =~= contour);
    }
}

/// Once the implied points are explicit, no two neighbours are both
/// off-curve.
pub proof fn lemma_with_implied_is_explicit(contour: Seq<Point>)
    ensures
        is_explicit(with_implied(contour)),
    decreases contour.len(),
{
    if contour.len() > 1 {
        let init = contour.drop_last();
        lemma_with_implied_is_explicit(init);
        lemma_with_implied_len(init);
        let done = with_implied(init);
        let a = contour[contour.len() - 2];
        let b = contour.last();
        assert(done.last() == a);
        let out = with_implied(contour);
        assert forall|i: int| 0 <= i < out.len() - 1 implies !both_off_curve(
            #[trigger] out[i],
            out[i + 1],
        ) by {
            if i < done.len() - 1 {
                assert(out[i] == done[i]);
                assert(out[i + 1] == done[i + 1]);
            }
        }
    }
}

/// Making implied points explicit a second time changes nothing.
pub proof fn lemma_with_implied_idempotent(contour: Seq<Point>)
    ensures
        with_implied(with_implied(contour)) == with_implied(contour),
{
    lemma_with_implied_is_explicit(contour);
    lemma_explicit_is_fixed(with_implied(contour));
}

/// Makes the implied on-curve points of one contour explicit.
pub fn explicit_contour(contour: &Vec<Point>) -> (out: Vec<Point>)
    ensures
        out@ == with_implied(contour@),
{
    let mut out: Vec<Point> = Vec::new();
    let n = contour.len();
    let mut k: usize = 0;
    while k < n
        invariant
            n == contour.len(),
            k <= n,
            out@ == with_implied(contour@.take(k as int)),
        decreases n - k,
    {
        let cur = contour[k];
        proof {
            let upto = contour@.take(k as int + 1);
            assert(upto.drop_last() =~= contour@.take(k as int));
            assert(upto.last() == cur);
            if k > 0 {
                assert(upto[upto.len() - 2] == contour@[k as int - 1]);
            } else {
                assert(out@ =~= Seq::<Point>::empty());
                assert(out@.push(cur) =~= upto);
            }
        }
        if k > 0 {
            let prev = contour[k - 1];
            if !prev.on_curve && !cur.on_curve {
                out.push(Point::between(prev, cur));
            }
        }
        out.push(cur);
        k += 1;
    }
    proof {
        assert(contour@.take(n as int) =~= contour@);
    }
    out
}

impl Glyph {
    /// Inserts, in every contour, the on-curve point implied between each
    /// two neighbouring off-curve points. Nothing else of the glyph changes.
    pub fn insert_explicit_oncurves(&mut self)
        ensures
            final(self)@ == (GlyphView {
                contours: Seq::new(
                    old(self)@.contours.len(),
                    |i: int| with_implied(old(self)@.contours[i]),
                ),
                ..old(self)@
            }),
    {
        let n = self.contours.len();
        let mut expanded: Vec<Vec<Point>> = Vec::new();
        let mut i: usize = 0;
        while i < n
            invariant
                n == self.contours.len(),
                i <= n,
                expanded.len() == i,
                forall|k: int| 0 <= k < i ==> (#[trigger] expanded[k])@ == with_implied(
                    self.contours[k]@,
                ),
            decreases n - i,
        {
            let contour = explicit_contour(&self.contours[i]);
            expanded.push(contour);
            i += 1;
        }
        let ghost before = self@;
        self.contours = expanded;
        proof {
            assert(self@.contours =~= Seq::new(
                before.contours.len(),
                |i: int| with_implied(before.contours[i]),
            ));
        }
    }
}

} // verus!
