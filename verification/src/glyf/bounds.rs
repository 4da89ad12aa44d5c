use vstd::prelude::*;
use super::component::{Component, ComponentFlags};
use super::point::Point;
use super::transform::{
    bbox_under, bottom_edge, left_edge, rect_from_edges, rect_max_x, rect_max_y, rect_min_x,
    rect_min_y, rect_of_edges, right_edge, top_edge, transform_rect_bbox, union_rects, united,
};

verus! {

/// An axis-aligned box in font units.
#[derive(Clone, Copy, Debug, PartialEq, Eq, Structural)]
pub struct BoundingBox {
    /// Left edge
    pub x_min: i16,
    /// Bottom edge
    pub y_min: i16,
    /// Right edge
    pub x_max: i16,
    /// Top edge
    pub y_max: i16,
}

impl BoundingBox {
    /// The degenerate box at the origin.
    pub open spec fn zero() -> BoundingBox {
        BoundingBox { x_min: 0, y_min: 0, x_max: 0, y_max: 0 }
    }

    /// The rectangle with the edges of this box.
    pub open spec fn rect(self) -> kurbo::Rect {
        rect_of_edges(self.x_min, self.y_min, self.x_max, self.y_max)
    }

    /// The box with the edges of a rectangle, in whole font units.
    pub open spec fn of_rect(r: kurbo::Rect) -> BoundingBox {
        BoundingBox {
            x_min: left_edge(r),
            y_min: bottom_edge(r),
            x_max: right_edge(r),
            y_max: top_edge(r),
        }
    }

    /// Converts this box to a rectangle.
    pub fn to_rect(&self) -> (r: kurbo::Rect)
        ensures
            r == self.rect(),
    {
        rect_from_edges(self.x_min, self.y_min, self.x_max, self.y_max)
    }

    /// Reads the edges of a rectangle as a box in whole font units.
    pub fn from_rect(r: &kurbo::Rect) -> (b: BoundingBox)
        ensures
            b == BoundingBox::of_rect(*r),
    {
        BoundingBox {
            x_min: rect_min_x(r),
            y_min: rect_min_y(r),
            x_max: rect_max_x(r),
            y_max: rect_max_y(r),
        }
    }
}

/// All points of an outline in stream order, contour after contour.
pub open spec fn all_points(contours: Seq<Seq<Point>>) -> Seq<Point>
    decreases contours.len(),
{
    if contours.len() == 0 {
        Seq::empty()
    } else {
        all_points(contours.drop_last()) + contours.last()
    }
}

/// One coordinate of a point: `y` if `vertical`, else `x`.
pub open spec fn coordinate(p: Point, vertical: bool) -> int {
    if vertical {
        p.y as int
    } else {
        p.x as int
    }
}

/// The least coordinate among `points`; 0 where there are none.
pub open spec fn least(points: Seq<Point>, vertical: bool) -> int
    decreases points.len(),
{
    if points.len() == 0 {
        0
    } else if points.len() == 1 {
        coordinate(points[0], vertical)
    } else {
        let rest = least(points.drop_last(), vertical);
        let v = coordinate(points.last(), vertical);
        if v < rest {
            v
        } else {
            rest
        }
    }
}

/// The greatest coordinate among `points`; 0 where there are none.
pub open spec fn greatest(points: Seq<Point>, vertical: bool) -> int
    decreases points.len(),
{
    if points.len() == 0 {
        0
    } else if points.len() == 1 {
        coordinate(points[0], vertical)
    } else {
        let rest = greatest(points.drop_last(), vertical);
        let v = coordinate(points.last(), vertical);
        if v > rest {
            v
        } else {
            rest
        }
    }
}

/// The tight box around `points`: the all-zero box where there are none.
pub open spec fn tight_box(points: Seq<Point>) -> BoundingBox {
    BoundingBox {
        x_min: least(points, false) as i16,
        y_min: least(points, true) as i16,
        x_max: greatest(points, false) as i16,
        y_max: greatest(points, true) as i16,
    }
}

/// The least and greatest coordinates bound every point and are each
/// attained by some point.
pub proof fn lemma_extremes_are_tight(points: Seq<Point>, vertical: bool)
    requires
        points.len() > 0,
    ensures
        forall|i: int|
            0 <= i < points.len() ==> least(points, vertical) <= coordinate(
                #[trigger] points[i],
                vertical,
            ) <= greatest(points, vertical),
        exists|i: int|
            0 <= i < points.len() && coordinate(#[trigger] points[i], vertical) == least(
                points,
                vertical,
            ),
        exists|i: int|
            0 <= i < points.len() && coordinate(#[trigger] points[i], vertical) == greatest(
                points,
                vertical,
            ),
    decreases points.len(),
{
    if points.len() == 1 {
        assert(coordinate(points[0], vertical) == least(points, vertical));
        assert(coordinate(points[0], vertical) == greatest(points, vertical));
    } else {
        let init = points.drop_last();
        let last = points.len() - 1;
        lemma_extremes_are_tight(init, vertical);
        assert forall|i: int| 0 <= i < points.len() implies least(points, vertical) <= coordinate(
            #[trigger] points[i],
            vertical,
        ) <= greatest(points, vertical) by {
            if i < last {
                assert(points[i] == init[i]);
            }
        }
        let lo = choose|i: int|
            0 <= i < init.len() && coordinate(#[trigger] init[i], vertical) == least(
                init,
                vertical,
            );
        let hi = choose|i: int|
            0 <= i < init.len() && coordinate(#[trigger] init[i], vertical) == greatest(
                init,
                vertical,
            );
        assert(points[lo] == init[lo]);
        assert(points[hi] == init[hi]);
        if coordinate(points[last], vertical) < least(init, vertical) {
            assert(coordinate(points[last], vertical) == least(points, vertical));
        } else {
            assert(coordinate(points[lo], vertical) == least(points, vertical));
        }
        if coordinate(points[last], vertical) > greatest(init, vertical) {
            assert(coordinate(points[last], vertical) == greatest(points, vertical));
        } else {
            assert(coordinate(points[hi], vertical) == greatest(points, vertical));
        }
    }
}

/// The extremes of a point list extended by one point.
proof fn lemma_extremes_push(points: Seq<Point>, p: Point, vertical: bool)
    ensures
        least(points.push(p), vertical) == if points.len() == 0 {
            coordinate(p, vertical)
        } else if coordinate(p, vertical) < least(points, vertical) {
            coordinate(p, vertical)
        } else {
            least(points, vertical)
        },
        greatest(points.push(p), vertical) == if points.len() == 0 {
            coordinate(p, vertical)
        } else if coordinate(p, vertical) > greatest(points, vertical) {
            coordinate(p, vertical)
        } else {
            greatest(points, vertical)
        },
{
    let more = points.push(p);
    assert(more.drop_last() =~= points);
    assert(more.last() == p);
}

/// Computes the tight box around all points of an outline.
pub fn tight_box_of(contours: &Vec<Vec<Point>>) -> (b: BoundingBox)
    ensures
        b == tight_box(all_points(super::glyph::contours_view(contours@))),
{
    let ghost outline = super::glyph::contours_view(contours@);
    let mut b = BoundingBox { x_min: 0, y_min: 0, x_max: 0, y_max: 0 };
    let mut seen = false;
    let n = contours.len();
    let mut c: usize = 0;
    while c < n
        invariant
            n == contours.len(),
            outline == super::glyph::contours_view(contours@),
            c <= n,
            seen == (all_points(outline.take(c as int)).len() > 0),
            b == tight_box(all_points(outline.take(c as int))),
        decreases n - c,
    {
        let contour = &contours[c];
        let ghost done = all_points(outline.take(c as int));
        proof {
            let upto = outline.take(c as int + 1);
            assert(upto.drop_last() =~= outline.take(c as int));
            assert(upto.last() == contour@);
        }
        let m = contour.len();
        let mut k: usize = 0;
        while k < m
            invariant
                m == contour.len(),
                k <= m,
                seen == ((done + contour@.take(k as int)).len() > 0),
                b == tight_box(done + contour@.take(k as int)),
            decreases m - k,
        {
            let p = contour[k];
            proof {
                let sofar = done + contour@.take(k as int);
                assert(done + contour@.take(k as int + 1) =~= sofar.push(p));
                lemma_extremes_push(sofar, p, false);
                lemma_extremes_push(sofar, p, true);
                if sofar.len() > 0 {
                    lemma_extremes_are_tight(sofar, false);
                    lemma_extremes_are_tight(sofar, true);
                }
            }
            if !seen {
                b = BoundingBox { x_min: p.x, y_min: p.y, x_max: p.x, y_max: p.y };
                seen = true;
            } else {
                if p.x < b.x_min {
                    b.x_min = p.x;
                }
                if p.x > b.x_max {
                    b.x_max = p.x;
                }
                if p.y < b.y_min {
                    b.y_min = p.y;
                }
                if p.y > b.y_max {
                    b.y_max = p.y;
                }
            }
            k += 1;
        }
        proof {
            assert(contour@.take(m as int) =~= contour@);
        }
        c += 1;
    }
    proof {
        assert(outline.take(n as int) =~= outline);
    }
    b
}

/// The box recorded for glyph `index`; the zero box for an index outside
/// the table.
pub open spec fn box_at(boxes: Seq<BoundingBox>, index: u16) -> BoundingBox {
    if (index as int) < boxes.len() {
        boxes[index as int]
    } else {
        BoundingBox::zero()
    }
}

/// The first component that asks for its metrics to be used, if any.
pub open spec fn metrics_component(comps: Seq<Component>) -> Option<Component>
    decreases comps.len(),
{
    if comps.len() == 0 {
        None
    } else {
        match metrics_component(comps.drop_last()) {
            Some(c) => Some(c),
            None => if comps.last().flags.has(ComponentFlags::USE_MY_METRICS) {
                Some(comps.last())
            } else {
                None
            },
        }
    }
}

/// The box of the glyph that `c` refers to, mapped through the transform of
/// `c` and bounded again.
pub open spec fn placed_rect(c: Component, boxes: Seq<BoundingBox>) -> kurbo::Rect {
    bbox_under(c.transformation, box_at(boxes, c.glyph_index).rect())
}

/// The union of the placed rectangles of `comps`, joined from the first to
/// the last. Meant for a non-empty list.
pub open spec fn union_of_placed(comps: Seq<Component>, boxes: Seq<BoundingBox>) -> kurbo::Rect
    decreases comps.len(),
{
    if comps.len() <= 1 {
        placed_rect(comps[0], boxes)
    } else {
        united(union_of_placed(comps.drop_last(), boxes), placed_rect(comps.last(), boxes))
    }
}

/// The box of a composite glyph with components `comps`, given the boxes of
/// all glyphs of the table. Where a component asks for its metrics to be
/// used, the box is that of the glyph it refers to, whatever the other
/// components are; else it is the union of the placed rectangles.
pub open spec fn composite_box(comps: Seq<Component>, boxes: Seq<BoundingBox>) -> BoundingBox {
    match metrics_component(comps) {
        Some(c) => box_at(boxes, c.glyph_index),
        None => BoundingBox::of_rect(union_of_placed(comps, boxes)),
    }
}

/// A component found to ask for its metrics in a prefix of the list is the
/// one found in the whole list.
pub proof fn lemma_metrics_component_first(comps: Seq<Component>, k: int)
    requires
        0 <= k <= comps.len(),
        metrics_component(comps.take(k)) is Some,
    ensures
        metrics_component(comps) == metrics_component(comps.take(k)),
    decreases comps.len() - k,
{
    if k < comps.len() {
        assert(comps.take(k + 1).drop_last() =~= comps.take(k));
        lemma_metrics_component_first(comps, k + 1);
    } else {
        assert(comps.take(k) =~= comps);
    }
}

/// Where no component asks for its metrics to be used, none is found.
pub proof fn lemma_no_metrics_component(comps: Seq<Component>)
    requires
        forall|k: int|
            0 <= k < comps.len() ==> !(#[trigger] comps[k]).flags.has(
                ComponentFlags::USE_MY_METRICS,
            ),
    ensures
        metrics_component(comps) is None,
    decreases comps.len(),
{
    if comps.len() > 0 {
        let init = comps.drop_last();
        assert forall|k: int| 0 <= k < init.len() implies !(#[trigger] init[k]).flags.has(
            ComponentFlags::USE_MY_METRICS,
        ) by {
            assert(init[k] == comps[k]);
        }
        lemma_no_metrics_component(init);
        assert(!comps[comps.len() - 1].flags.has(ComponentFlags::USE_MY_METRICS));
    }
}

/// The box of a composite none of whose components asks for its metrics
/// to be used is the union of the placed rectangles of its components.
pub proof fn lemma_composite_box_is_union(comps: Seq<Component>, boxes: Seq<BoundingBox>)
    requires
        forall|k: int|
            0 <= k < comps.len() ==> !(#[trigger] comps[k]).flags.has(
                ComponentFlags::USE_MY_METRICS,
            ),
    ensures
        composite_box(comps, boxes) == BoundingBox::of_rect(union_of_placed(comps, boxes)),
{
    lemma_no_metrics_component(comps);
}

/// The box of a composite whose first component asking for its metrics to
/// be used is `comps[k]` is the box of the glyph that `comps[k]` refers to,
/// whatever the other components are.
pub proof fn lemma_composite_box_uses_metrics(
    comps: Seq<Component>,
    boxes: Seq<BoundingBox>,
    k: int,
)
    requires
        0 <= k < comps.len(),
        comps[k].flags.has(ComponentFlags::USE_MY_METRICS),
        forall|j: int|
            0 <= j < k ==> !(#[trigger] comps[j]).flags.has(ComponentFlags::USE_MY_METRICS),
    ensures
        composite_box(comps, boxes) == box_at(boxes, comps[k].glyph_index),
{
    let before = comps.take(k);
    assert forall|j: int| 0 <= j < before.len() implies !(#[trigger] before[j]).flags.has(
        ComponentFlags::USE_MY_METRICS,
    ) by {
        assert(before[j] == comps[j]);
    }
    lemma_no_metrics_component(before);
    let upto = comps.take(k + 1);
    assert(upto.drop_last() =~= before);
    assert(upto.last() == comps[k]);
    assert(metrics_component(upto) == Some(comps[k]));
    lemma_metrics_component_first(comps, k + 1);
}

/// Looks up the box recorded for a glyph index.
pub fn lookup_box(boxes: &Vec<BoundingBox>, index: u16) -> (b: BoundingBox)
    ensures
        b == box_at(boxes@, index),
{
    if (index as usize) < boxes.len() {
        boxes[index as usize]
    } else {
        BoundingBox { x_min: 0, y_min: 0, x_max: 0, y_max: 0 }
    }
}

/// Computes the box of a composite glyph from the boxes of all glyphs.
/// Without components there is nothing to take a box from.
pub fn composite_box_of(comps: &Vec<Component>, boxes: &Vec<BoundingBox>) -> (b: Option<
    BoundingBox,
>)
    ensures
        b == if comps.len() == 0 {
            None
        } else {
            Some(composite_box(comps@, boxes@))
        },
{
    if comps.len() == 0 {
        return None;
    }
    let n = comps.len();
    let mut i: usize = 0;
    while i < n
        invariant
            n == comps.len(),
            i <= n,
            metrics_component(comps@.take(i as int)) is None,
        decreases n - i,
    {
        proof {
            assert(comps@.take(i as int + 1).drop_last() =~= comps@.take(i as int));
        }
        if comps[i].flags.contains(ComponentFlags::USE_MY_METRICS) {
            proof {
                lemma_metrics_component_first(comps@, i as int + 1);
            }
            return Some(lookup_box(boxes, comps[i].glyph_index));
        }
        i += 1;
    }
    proof {
        assert(comps@.take(n as int) =~= comps@);
    }
    let first = &comps[0];
    let mut joined = transform_rect_bbox(
        &first.transformation,
        lookup_box(boxes, first.glyph_index).to_rect(),
    );
    proof {
        assert(comps@.take(1)[0] == comps@[0]);
    }
    let mut j: usize = 1;
    while j < n
        invariant
            n == comps.len(),
            1 <= j <= n,
            joined == union_of_placed(comps@.take(j as int), boxes@),
        decreases n - j,
    {
        let c = &comps[j];
        proof {
            let upto = comps@.take(j as int + 1);
            assert(upto.drop_last() =~= comps@.take(j as int));
            assert(upto.last() == *c);
        }
        let placed = transform_rect_bbox(
            &c.transformation,
            lookup_box(boxes, c.glyph_index).to_rect(),
        );
        joined = union_rects(&joined, placed);
        j += 1;
    }
    proof {
        assert(comps@.take(n as int) =~= comps@);
    }
    Some(BoundingBox::from_rect(&joined))
}

} // verus!
