use vstd::prelude::*;

verus! {

/// `kurbo::Affine`, a 2x3 affine map of floating-point coefficients. The
/// coefficients are not visible to the verifier: a transform is carried as
/// it is, and whatever is computed from one is computed by `kurbo` and
/// stands in contracts under a name of its own.
#[verifier::external_type_specification]
#[verifier::external_body]
pub struct ExAffine(kurbo::Affine);

/// `kurbo::Rect`, an axis-aligned rectangle with floating-point edges. Not
/// visible to the verifier either.
#[verifier::external_type_specification]
#[verifier::external_body]
pub struct ExRect(kurbo::Rect);

/// The product `parent * child` as `kurbo` computes it.
pub uninterp spec fn composed(parent: kurbo::Affine, child: kurbo::Affine) -> kurbo::Affine;

/// Composes two transforms with `kurbo`'s `Mul` for `Affine`: the result
/// maps a point through `child` first and `parent` second.
#[verifier::external_body]
pub(crate) fn compose(parent: &kurbo::Affine, child: &kurbo::Affine) -> (t: kurbo::Affine)
    ensures
        t == composed(*parent, *child),
{
    *parent * *child
}

/// Whether `kurbo` holds two transforms equal: coefficient by coefficient,
/// as floating-point numbers compare.
pub uninterp spec fn same_transform(a: kurbo::Affine, b: kurbo::Affine) -> bool;

/// Compares two transforms with `kurbo`'s `PartialEq` for `Affine`.
#[verifier::external_body]
pub(crate) fn transforms_equal(a: &kurbo::Affine, b: &kurbo::Affine) -> (r: bool)
    ensures
        r == same_transform(*a, *b),
{
    *a == *b
}

/// The rectangle that `kurbo` makes of four edges given in font units.
pub uninterp spec fn rect_of_edges(x_min: i16, y_min: i16, x_max: i16, y_max: i16) -> kurbo::Rect;

/// Builds a rectangle with `kurbo::Rect::new`, from edges given in font
/// units; `new` stores the four values as they are.
#[verifier::external_body]
pub(crate) fn rect_from_edges(x_min: i16, y_min: i16, x_max: i16, y_max: i16) -> (r: kurbo::Rect)
    ensures
        r == rect_of_edges(x_min, y_min, x_max, y_max),
{
    kurbo::Rect::new(x_min.into(), y_min.into(), x_max.into(), y_max.into())
}

/// The bounding box of `r` mapped through `t`, as `kurbo` computes it.
pub uninterp spec fn bbox_under(t: kurbo::Affine, r: kurbo::Rect) -> kurbo::Rect;

/// Maps the four corners of a rectangle through a transform and bounds the
/// result, with `kurbo::Affine::transform_rect_bbox`.
#[verifier::external_body]
pub(crate) fn transform_rect_bbox(t: &kurbo::Affine, r: kurbo::Rect) -> (b: kurbo::Rect)
    ensures
        b == bbox_under(*t, r),
{
    t.transform_rect_bbox(r)
}

/// The smallest rectangle enclosing both `a` and `b`, as `kurbo` computes it.
pub uninterp spec fn united(a: kurbo::Rect, b: kurbo::Rect) -> kurbo::Rect;

/// Joins two rectangles with `kurbo::Rect::union`.
#[verifier::external_body]
pub(crate) fn union_rects(a: &kurbo::Rect, b: kurbo::Rect) -> (u: kurbo::Rect)
    ensures
        u == united(*a, b),
{
    a.union(b)
}

/// The lesser horizontal edge of `r`, in whole font units.
pub uninterp spec fn left_edge(r: kurbo::Rect) -> i16;

/// Reads `kurbo::Rect::min_x` and converts it to font units: the value is cut
/// to a whole number towards zero and kept within the 16-bit range; what is
/// not a number gives 0.
#[verifier::external_body]
pub(crate) fn rect_min_x(r: &kurbo::Rect) -> (v: i16)
    ensures
        v == left_edge(*r),
{
    r.min_x() as i16
}

/// The greater horizontal edge of `r`, in whole font units.
pub uninterp spec fn right_edge(r: kurbo::Rect) -> i16;

/// Reads `kurbo::Rect::max_x` and converts it to font units: the value is cut
/// to a whole number towards zero and kept within the 16-bit range; what is
/// not a number gives 0.
#[verifier::external_body]
pub(crate) fn rect_max_x(r: &kurbo::Rect) -> (v: i16)
    ensures
        v == right_edge(*r),
{
    r.max_x() as i16
}

/// The lesser vertical edge of `r`, in whole font units.
pub uninterp spec fn bottom_edge(r: kurbo::Rect) -> i16;

/// Reads `kurbo::Rect::min_y` and converts it to font units: the value is cut
/// to a whole number towards zero and kept within the 16-bit range; what is
/// not a number gives 0.
#[verifier::external_body]
pub(crate) fn rect_min_y(r: &kurbo::Rect) -> (v: i16)
    ensures
        v == bottom_edge(*r),
{
    r.min_y() as i16
}

/// The greater vertical edge of `r`, in whole font units.
pub uninterp spec fn top_edge(r: kurbo::Rect) -> i16;

/// Reads `kurbo::Rect::max_y` and converts it to font units: the value is cut
/// to a whole number towards zero and kept within the 16-bit range; what is
/// not a number gives 0.
#[verifier::external_body]
pub(crate) fn rect_max_y(r: &kurbo::Rect) -> (v: i16)
    ensures
        v == top_edge(*r),
{
    r.max_y() as i16
}

/// The transform with the given stored parts: the four matrix coefficients
/// as 2.14 fixed-point numbers, the offset in font units.
pub uninterp spec fn stored_affine(xx: i16, yx: i16, xy: i16, yy: i16, dx: i16, dy: i16) -> kurbo::Affine;

/// Builds a transform with `kurbo::Affine::new` from its stored parts. Each
/// matrix coefficient is unpacked from 2.14 fixed point with `otspec`'s
/// `F2DOT14::from_packed`; the offset is taken as it is. The coefficients go
/// to `new` in the order `xx, yx, xy, yy, dx, dy`, so that a point `(x, y)`
/// is mapped to `(xx * x + xy * y + dx, yx * x + yy * y + dy)`.
#[verifier::external_body]
pub(crate) fn affine_from_stored(xx: i16, yx: i16, xy: i16, yy: i16, dx: i16, dy: i16) -> (t:
    kurbo::Affine)
    ensures
        t == stored_affine(xx, yx, xy, yy, dx, dy),
{
    kurbo::Affine::new(
        [
            otspec::types::F2DOT14::from_packed(xx).0.into(),
            otspec::types::F2DOT14::from_packed(yx).0.into(),
            otspec::types::F2DOT14::from_packed(xy).0.into(),
            otspec::types::F2DOT14::from_packed(yy).0.into(),
            dx.into(),
            dy.into(),
        ],
    )
}

/// Coefficient `k` of a transform (0 to 3: `xx, yx, xy, yy`) packed as a
/// 2.14 fixed-point number, or nothing where it does not fit.
pub uninterp spec fn packed_coefficient(t: kurbo::Affine, k: int) -> Option<i16>;

/// Reads a matrix coefficient with `kurbo::Affine::as_coeffs`, narrows it to
/// single precision and packs it with `otspec`'s `F2DOT14::as_packed`, which
/// rounds to the nearest 2.14 number (halves upwards) and fails where that
/// is no 16-bit number.
#[verifier::external_body]
pub(crate) fn pack_coefficient(t: &kurbo::Affine, k: usize) -> (p: Option<i16>)
    requires
        k < 4,
    ensures
        p == packed_coefficient(*t, k as int),
{
    otspec::types::F2DOT14(t.as_coeffs()[k] as _).as_packed().ok()
}

/// Offset `k` of a transform (4: `dx`, 5: `dy`) in whole font units.
pub uninterp spec fn whole_offset(t: kurbo::Affine, k: int) -> i16;

/// Reads an offset with `kurbo::Affine::as_coeffs` and converts it to font
/// units: the value is cut to a whole number towards zero and kept within
/// the 16-bit range; what is not a number gives 0.
#[verifier::external_body]
pub(crate) fn offset_of(t: &kurbo::Affine, k: usize) -> (v: i16)
    requires
        4 <= k < 6,
    ensures
        v == whole_offset(*t, k as int),
{
    t.as_coeffs()[k] as i16
}

} // verus!
