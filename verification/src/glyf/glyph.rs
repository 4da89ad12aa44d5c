use vstd::prelude::*;
use super::bounds::BoundingBox;
use super::component::Component;
use super::transform::{rect_of_edges};
use super::point::Point;

verus! {

/// The mathematical content of a glyph record.
pub struct GlyphView {
    /// The stored bounding box
    pub bounds: BoundingBox,
    /// The outline, one sequence of points per contour
    pub contours: Seq<Seq<Point>>,
    /// Hinting instructions, uninterpreted
    pub instructions: Seq<u8>,
    /// The references to other glyphs
    pub components: Seq<Component>,
    /// Whether the outline or the components are marked as overlapping
    pub overlap: bool,
}

/// One glyph of the table: either an outline of its own, or a list of
/// references to other glyphs, or neither.
#[allow(non_snake_case)]
#[derive(Clone, Debug, PartialEq)]
pub struct Glyph {
    /// Left edge of the bounding box
    pub xMin: i16,
    /// Right edge of the bounding box
    pub xMax: i16,
    /// Bottom edge of the bounding box
    pub yMin: i16,
    /// Top edge of the bounding box
    pub yMax: i16,
    /// The outline, one list of points per contour
    pub contours: Vec<Vec<Point>>,
    /// Hinting instructions, uninterpreted
    pub instructions: Vec<u8>,
    /// The references to other glyphs
    pub components: Vec<Component>,
    /// Whether the outline or the components are marked as overlapping
    pub overlap: bool,
}

/// The point sequences held by a list of contours.
pub open spec fn contours_view(contours: Seq<Vec<Point>>) -> Seq<Seq<Point>> {
    Seq::new(contours.len(), |i: int| contours[i]@)
}

impl View for Glyph {
    type V = GlyphView;

    open spec fn view(&self) -> GlyphView {
        GlyphView {
            bounds: BoundingBox {
                x_min: self.xMin,
                y_min: self.yMin,
                x_max: self.xMax,
                y_max: self.yMax,
            },
            contours: contours_view(self.contours@),
            instructions: self.instructions@,
            components: self.components@,
            overlap: self.overlap,
        }
    }
}

impl GlyphView {
    /// A glyph is simple or composite, never both.
    pub open spec fn wf(self) -> bool {
        self.contours.len() == 0 || self.components.len() == 0
    }

    /// Whether the glyph refers to other glyphs.
    pub open spec fn is_composite(self) -> bool {
        self.components.len() > 0
    }

    /// Whether the glyph has neither outline nor components.
    pub open spec fn is_empty(self) -> bool {
        self.components.len() == 0 && self.contours.len() == 0
    }

    /// The record of a glyph identifier that has no outline data.
    pub open spec fn blank() -> GlyphView {
        GlyphView {
            bounds: BoundingBox::zero(),
            contours: Seq::empty(),
            instructions: Seq::empty(),
            components: Seq::empty(),
            overlap: false,
        }
    }
}

impl Glyph {
    /// The glyph of an identifier that has no outline data: no contours, no
    /// components, an all-zero bounding box.
    pub fn blank() -> (g: Glyph)
        ensures
            g@ == GlyphView::blank(),
    {
        let g = Glyph {
            xMin: 0,
            xMax: 0,
            yMin: 0,
            yMax: 0,
            contours: Vec::new(),
            instructions: Vec::new(),
            components: Vec::new(),
            overlap: false,
        };
        assert(g@.contours =~= Seq::empty());
        g
    }

    /// Tests whether the glyph refers to other glyphs.
    pub fn has_components(&self) -> (r: bool)
        ensures
            r == self@.is_composite(),
    {
        self.components.len() > 0
    }

    /// Tests whether the glyph has neither outline nor components.
    pub fn is_empty(&self) -> (r: bool)
        ensures
            r == self@.is_empty(),
    {
        self.components.len() == 0 && self.contours.len() == 0
    }

    /// The stored bounding box.
    pub fn bounds(&self) -> (b: BoundingBox)
        ensures
            b == self@.bounds,
    {
        BoundingBox { x_min: self.xMin, y_min: self.yMin, x_max: self.xMax, y_max: self.yMax }
    }

    /// Replaces the stored bounding box and nothing else.
    pub fn set_bounds(&mut self, b: BoundingBox)
        ensures
            final(self)@ == (GlyphView { bounds: b, ..old(self)@ }),
    {
        self.xMin = b.x_min;
        self.yMin = b.y_min;
        self.xMax = b.x_max;
        self.yMax = b.y_max;
    }

    /// The stored bounding box as a rectangle.
    pub fn bounds_rect(&self) -> (r: kurbo::Rect)
        ensures
            r == rect_of_edges(self.xMin, self.yMin, self.xMax, self.yMax),
    {
        self.bounds().to_rect()
    }

    /// Replaces the stored bounding box by the edges of a rectangle, in
    /// whole font units, and nothing else.
    pub fn set_bounds_rect(&mut self, r: kurbo::Rect)
        ensures
            final(self)@ == (GlyphView { bounds: BoundingBox::of_rect(r), ..old(self)@ }),
    {
        let b = BoundingBox::from_rect(&r);
        self.set_bounds(b);
    }
}

} // verus!
