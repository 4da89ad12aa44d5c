use vstd::prelude::*;
use super::transform::{same_transform, transforms_equal};

verus! {

/// The flag word of a composite-glyph component.
#[derive(Clone, Copy, Debug, PartialEq, Eq, Structural)]
pub struct ComponentFlags {
    /// The raw bit pattern, as stored in the font
    pub bits: u16,
}

impl ComponentFlags {
    /// The two arguments are 16 bits wide (else 8 bits)
    pub const ARG_1_AND_2_ARE_WORDS: u16 = 0x0001;
    /// The arguments are a signed offset (else a pair of point numbers)
    pub const ARGS_ARE_XY_VALUES: u16 = 0x0002;
    /// The offset is rounded to the pixel grid
    pub const ROUND_XY_TO_GRID: u16 = 0x0004;
    /// One scale applies to both axes
    pub const WE_HAVE_A_SCALE: u16 = 0x0008;
    /// Another component follows this one
    pub const MORE_COMPONENTS: u16 = 0x0020;
    /// Each axis has its own scale
    pub const WE_HAVE_AN_X_AND_Y_SCALE: u16 = 0x0040;
    /// A full 2x2 matrix is stored
    pub const WE_HAVE_A_TWO_BY_TWO: u16 = 0x0080;
    /// Hinting instructions follow the last component
    pub const WE_HAVE_INSTRUCTIONS: u16 = 0x0100;
    /// The composite takes its metrics from this component
    pub const USE_MY_METRICS: u16 = 0x0200;
    /// The components of the composite overlap
    pub const OVERLAP_COMPOUND: u16 = 0x0400;
    /// The offset is scaled by the component's transform
    pub const SCALED_COMPONENT_OFFSET: u16 = 0x0800;
    /// The offset is not scaled by the component's transform
    pub const UNSCALED_COMPONENT_OFFSET: u16 = 0x1000;

    /// Whether every bit of `mask` is set in `self`.
    pub open spec fn has(self, mask: u16) -> bool {
        self.bits & mask == mask
    }

    /// The flag set with no bit set.
    pub fn empty() -> (f: ComponentFlags)
        ensures
            f.bits == 0,
    {
        ComponentFlags { bits: 0 }
    }

    /// The flag set with exactly the given bits.
    pub fn from_bits(bits: u16) -> (f: ComponentFlags)
        ensures
            f.bits == bits,
    {
        ComponentFlags { bits }
    }

    /// The raw bit pattern.
    pub fn bits(&self) -> (b: u16)
        ensures
            b == self.bits,
    {
        self.bits
    }

    /// Tests whether every bit of `mask` is set in `self`.
    pub fn contains(&self, mask: u16) -> (r: bool)
        ensures
            r == self.has(mask),
    {
        self.bits & mask == mask
    }

}

/// One reference from a composite glyph to another glyph.
#[derive(Clone, Copy, Debug, PartialEq)]
pub struct Component {
    /// Index of the referenced glyph in the table
    pub glyph_index: u16,
    /// The transform under which the referenced glyph is placed
    pub transformation: kurbo::Affine,
    /// Point numbers (parent, child) to align, where the component is
    /// positioned by matching points rather than by an offset
    pub match_points: Option<(u16, u16)>,
    /// The component's flag word
    pub flags: ComponentFlags,
}

impl Component {
    /// Whether two components are equal: the same target, flags and match
    /// points, and transforms that compare equal.
    pub open spec fn matches(self, other: Component) -> bool {
        &&& self.glyph_index == other.glyph_index
        &&& same_transform(self.transformation, other.transformation)
        &&& self.match_points == other.match_points
        &&& self.flags == other.flags
    }

    /// Tests whether two components are equal.
    pub fn same_as(&self, other: &Component) -> (r: bool)
        ensures
            r == self.matches(*other),
    {
        let points_agree = match (self.match_points, other.match_points) {
            (None, None) => true,
            (Some(a), Some(b)) => a.0 == b.0 && a.1 == b.1,
            _ => false,
        };
        self.glyph_index == other.glyph_index && transforms_equal(
            &self.transformation,
            &other.transformation,
        ) && points_agree && self.flags.bits == other.flags.bits
    }
}

/// Whether two component lists are equal, component by component.
pub open spec fn same_components(a: Seq<Component>, b: Seq<Component>) -> bool {
    a.len() == b.len() && forall|i: int| 0 <= i < a.len() ==> (#[trigger] a[i]).matches(b[i])
}

/// Tests whether two component lists are equal.
pub fn components_equal(a: &Vec<Component>, b: &Vec<Component>) -> (r: bool)
    ensures
        r == same_components(a@, b@),
{
    if a.len() != b.len() {
        return false;
    }
    let n = a.len();
    let mut i: usize = 0;
    while i < n
        invariant
            n == a.len(),
            n == b.len(),
            i <= n,
            forall|k: int| 0 <= k < i ==> (#[trigger] a@[k]).matches(b@[k]),
        decreases n - i,
    {
        if !a[i].same_as(&b[i]) {
            return false;
        }
        i += 1;
    }
    true
}

} // verus!
