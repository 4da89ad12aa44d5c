use vstd::prelude::*;

/// Bounding boxes of outlines and of composites
pub mod bounds;
/// Decoding and encoding whole glyph records
pub mod codec;
/// Structures for handling components within a composite glyph
pub mod component;
/// The byte format of a composite glyph's components
pub mod composite;
/// Writing a simple glyph's outline as bytes
pub mod encode;
/// Structures for handling simple glyph descriptions
pub mod glyph;
/// Making implied on-curve points explicit
pub mod oncurve;
/// The byte format of a simple glyph's outline
pub mod outline;
/// A representation of a contour point
pub mod point;
/// Encoding and decoding a simple glyph undo each other
pub mod roundtrip;
/// The point stream of a decoded simple glyph
pub mod stream;
/// Affine transforms and rectangles, as provided by `kurbo`
pub mod transform;

pub use bounds::BoundingBox;
use bounds::{
    all_points, box_at, composite_box, composite_box_of, lemma_composite_box_is_union,
    lemma_composite_box_uses_metrics, tight_box, tight_box_of, union_of_placed,
};
pub use component::{components_equal, same_components, Component, ComponentFlags};
pub use glyph::{Glyph, GlyphView};
pub use point::Point;
use crate::binary::DecodeError;
use codec::decoded_glyph;
use transform::{compose, composed};

verus! {

/// The glyf table
#[allow(non_camel_case_types)]
#[derive(Debug, PartialEq)]
pub struct glyf {
    /// A list of glyph objects in the font
    pub glyphs: Vec<Glyph>,
}

impl View for glyf {
    type V = Seq<GlyphView>;

    open spec fn view(&self) -> Seq<GlyphView> {
        Seq::new(self.glyphs@.len(), |i: int| self.glyphs@[i]@)
    }
}

/// The glyph of one entry of the offset list: the blank glyph where there
/// is no offset, else the glyph record at the offset.
pub open spec fn decoded_entry(bytes: Seq<u8>, offset: Option<u32>) -> Result<
    GlyphView,
    DecodeError,
> {
    match offset {
        None => Ok(GlyphView::blank()),
        Some(at) => decoded_glyph(bytes, at as int),
    }
}

/// The glyphs of the first `upto` entries of the offset list, or the error
/// of the first entry that cannot be decoded.
pub open spec fn decoded_table(bytes: Seq<u8>, offsets: Seq<Option<u32>>, upto: int) -> Result<
    Seq<GlyphView>,
    DecodeError,
>
    decreases upto,
{
    if upto <= 0 {
        Ok(Seq::empty())
    } else {
        match decoded_table(bytes, offsets, upto - 1) {
            Err(e) => Err(e),
            Ok(before) => match decoded_entry(bytes, offsets[upto - 1]) {
                Err(e) => Err(e),
                Ok(g) => Ok(before.push(g)),
            },
        }
    }
}

/// A decoded table has one glyph per entry of the offset list.
pub proof fn lemma_decoded_table_len(bytes: Seq<u8>, offsets: Seq<Option<u32>>, upto: int)
    requires
        0 <= upto,
        decoded_table(bytes, offsets, upto) is Ok,
    ensures
        decoded_table(bytes, offsets, upto).unwrap().len() == upto,
    decreases upto,
{
    if upto > 0 {
        assert(decoded_table(bytes, offsets, upto - 1) is Ok);
        lemma_decoded_table_len(bytes, offsets, upto - 1);
    }
}

/// The glyphs of a decoded table stand in the order of the offset list:
/// glyph `i` is the glyph of entry `i`, and so the blank glyph where entry
/// `i` has no offset.
pub proof fn lemma_decoded_table_entries(
    bytes: Seq<u8>,
    offsets: Seq<Option<u32>>,
    upto: int,
    i: int,
)
    requires
        0 <= i < upto <= offsets.len(),
        decoded_table(bytes, offsets, upto) is Ok,
    ensures
        decoded_table(bytes, offsets, upto).unwrap().len() == upto,
        decoded_entry(bytes, offsets[i]) == Ok::<GlyphView, DecodeError>(
            decoded_table(bytes, offsets, upto).unwrap()[i],
        ),
        offsets[i] is None ==> decoded_table(bytes, offsets, upto).unwrap()[i]
            == GlyphView::blank(),
    decreases upto,
{
    lemma_decoded_table_len(bytes, offsets, upto);
    assert(decoded_table(bytes, offsets, upto - 1) is Ok);
    lemma_decoded_table_len(bytes, offsets, upto - 1);
    if i < upto - 1 {
        lemma_decoded_table_entries(bytes, offsets, upto - 1, i);
    }
}

/// Deserialize the font from a binary buffer.
///
/// loca_offsets must be obtained from the `loca` table. Every glyph is
/// decoded at its own offset, independently of the others; an entry without
/// offset gives the blank glyph. Decoding stops at the first glyph that
/// fails, with its error.
pub fn from_bytes(c: &[u8], loca_offsets: Vec<Option<u32>>) -> (r: Result<glyf, DecodeError>)
    ensures
        match r {
            Ok(table) => decoded_table(c@, loca_offsets@, loca_offsets.len() as int) == Ok::<
                Seq<GlyphView>,
                DecodeError,
            >(table@),
            Err(e) => decoded_table(c@, loca_offsets@, loca_offsets.len() as int) == Err::<
                Seq<GlyphView>,
                DecodeError,
            >(e),
        },
{
    let mut res = glyf { glyphs: Vec::new() };
    let n = loca_offsets.len();
    let mut i: usize = 0;
    proof {
        assert(res@ =~= Seq::empty());
    }
    while i < n
        invariant
            n == loca_offsets.len(),
            i <= n,
            decoded_table(c@, loca_offsets@, i as int) == Ok::<Seq<GlyphView>, DecodeError>(res@),
        decreases n - i,
    {
        let ghost before = res@;
        let glyph = match loca_offsets[i] {
            None => Glyph::blank(),
            Some(item) => match Glyph::decode_at(c, item as usize) {
                Err(e) => {
                    proof {
                        lemma_decoded_table_fails(c@, loca_offsets@, i as int + 1, n as int);
                    }
                    return Err(e);
                },
                Ok(glyph) => glyph,
            },
        };
        res.glyphs.push(glyph);
        proof {
            assert(res@ =~= before.push(glyph@));
        }
        i += 1;
    }
    Ok(res)
}

/// Once a prefix of the offset list fails to decode, so does the whole,
/// with the same error.
proof fn lemma_decoded_table_fails(bytes: Seq<u8>, offsets: Seq<Option<u32>>, k: int, upto: int)
    requires
        k <= upto,
        decoded_table(bytes, offsets, k) is Err,
    ensures
        decoded_table(bytes, offsets, upto) == decoded_table(bytes, offsets, k),
    decreases upto - k,
{
    if k < upto {
        lemma_decoded_table_fails(bytes, offsets, k, upto - 1);
    }
}

/// Nesting beyond this depth is taken for a reference cycle.
pub const MAX_COMPONENT_DEPTH: u32 = 64;

/// The components `inner`, each placed under the transform of `parent`: the
/// parent's transform is applied after the component's own.
pub open spec fn placed_under(parent: Component, inner: Seq<Component>) -> Seq<Component> {
    Seq::new(
        inner.len(),
        |i: int|
            Component {
                transformation: composed(parent.transformation, inner[i].transformation),
                ..inner[i]
            },
    )
}

/// Whether `c` refers to a glyph of `table` that is itself composite.
pub open spec fn refers_to_composite(table: Seq<GlyphView>, c: Component) -> bool {
    (c.glyph_index as int) < table.len() && table[c.glyph_index as int].is_composite()
}

/// The primitive components that the component list `comps` amounts to,
/// seen from nesting depth `depth`.
///
/// A component that refers to a simple glyph, to an empty glyph or to no
/// glyph of the table stands for itself. One that refers to a composite
/// glyph stands for that glyph's own flattened components, each placed under
/// the referring component's transform. Beyond `MAX_COMPONENT_DEPTH` nothing
/// is contributed.
pub open spec fn flattened(table: Seq<GlyphView>, comps: Seq<Component>, depth: nat) -> Seq<
    Component,
>
    decreases 65 - depth, comps.len(),
{
    if depth > MAX_COMPONENT_DEPTH || comps.len() == 0 {
        Seq::empty()
    } else {
        let c = comps.last();
        let before = flattened(table, comps.drop_last(), depth);
        if refers_to_composite(table, c) {
            before + placed_under(
                c,
                flattened(table, table[c.glyph_index as int].components, depth + 1),
            )
        } else {
            before.push(c)
        }
    }
}

/// Flattened components are primitive: none of them refers to a composite
/// glyph.
pub proof fn lemma_flattened_is_primitive(
    table: Seq<GlyphView>,
    comps: Seq<Component>,
    depth: nat,
    k: int,
)
    requires
        0 <= k < flattened(table, comps, depth).len(),
    ensures
        !refers_to_composite(table, flattened(table, comps, depth)[k]),
    decreases 65 - depth, comps.len(),
{
    let c = comps.last();
    let before = flattened(table, comps.drop_last(), depth);
    if k < before.len() {
        lemma_flattened_is_primitive(table, comps.drop_last(), depth, k);
    } else if refers_to_composite(table, c) {
        let inner = flattened(table, table[c.glyph_index as int].components, depth + 1);
        lemma_flattened_is_primitive(
            table,
            table[c.glyph_index as int].components,
            depth + 1,
            k - before.len(),
        );
        assert(placed_under(c, inner)[k - before.len()].glyph_index == inner[k
            - before.len()].glyph_index);
    }
}

/// Whether flattening the component list `comps` from nesting depth `depth`
/// goes beyond `MAX_COMPONENT_DEPTH` somewhere, so that a branch is cut off
/// there and contributes nothing.
pub open spec fn too_deep(table: Seq<GlyphView>, comps: Seq<Component>, depth: nat) -> bool
    decreases 65 - depth, comps.len(),
{
    if depth > MAX_COMPONENT_DEPTH {
        true
    } else if comps.len() == 0 {
        false
    } else {
        let c = comps.last();
        too_deep(table, comps.drop_last(), depth) || (refers_to_composite(table, c) && too_deep(
            table,
            table[c.glyph_index as int].components,
            depth + 1,
        ))
    }
}

/// Where references never reach an outline, flattening a component list
/// that is not empty always goes too deep.
pub proof fn lemma_cycle_is_too_deep(table: Seq<GlyphView>, comps: Seq<Component>, depth: nat)
    requires
        only_composites(table),
        refers_within(table, comps),
        comps.len() > 0,
    ensures
        too_deep(table, comps, depth),
    decreases 65 - depth,
{
    if depth <= 64 {
        let c = comps.last();
        assert(c == comps[comps.len() - 1]);
        let target = table[c.glyph_index as int];
        assert(target.is_composite() && refers_within(table, target.components));
        lemma_cycle_is_too_deep(table, target.components, depth + 1);
    }
}

/// Whether every glyph of the table is composite and every reference stays
/// inside the table, so that no chain of references ever reaches an outline.
/// A cycle of composite glyphs is such a table.
pub open spec fn only_composites(table: Seq<GlyphView>) -> bool {
    forall|i: int|
        0 <= i < table.len() ==> (#[trigger] table[i]).is_composite() && refers_within(
            table,
            table[i].components,
        )
}

/// Whether every component of `comps` refers to a glyph of the table.
pub open spec fn refers_within(table: Seq<GlyphView>, comps: Seq<Component>) -> bool {
    forall|j: int| 0 <= j < comps.len() ==> ((#[trigger] comps[j]).glyph_index as int) < table.len()
}

/// Flattening stops at the depth cap: in a table whose references never
/// reach an outline, such as a cycle of composite glyphs, every component
/// list flattens to nothing, from any depth.
pub proof fn lemma_cycle_flattens_to_nothing(
    table: Seq<GlyphView>,
    comps: Seq<Component>,
    depth: nat,
)
    requires
        only_composites(table),
        refers_within(table, comps),
    ensures
        flattened(table, comps, depth) == Seq::<Component>::empty(),
    decreases 65 - depth, comps.len(),
{
    if depth <= 64 && comps.len() > 0 {
        let c = comps.last();
        let init = comps.drop_last();
        assert forall|j: int| 0 <= j < init.len() implies ((#[trigger] init[j]).glyph_index as int)
            < table.len() by {
            assert(init[j] == comps[j]);
        }
        lemma_cycle_flattens_to_nothing(table, init, depth);
        assert(c == comps[comps.len() - 1]);
        let target = table[c.glyph_index as int];
        assert(target.is_composite() && refers_within(table, target.components));
        lemma_cycle_flattens_to_nothing(table, target.components, depth + 1);
        assert(placed_under(c, Seq::<Component>::empty()) =~= Seq::<Component>::empty());
        assert(flattened(table, comps, depth) =~= Seq::<Component>::empty());
    }
}

/// After recomputation, the box of a composite glyph none of whose
/// flattened components asks for its metrics to be used is the union of the
/// boxes of the glyphs it refers to, each mapped through its component's
/// transform.
pub proof fn lemma_recalculated_box_is_union(table: Seq<GlyphView>, i: int)
    requires
        0 <= i < table.len(),
        flattened_table(table)[i].is_composite(),
        forall|k: int|
            0 <= k < flattened_table(table)[i].components.len() ==> !(
            #[trigger] flattened_table(table)[i].components[k]).flags.has(
                ComponentFlags::USE_MY_METRICS,
            ),
    ensures
        recalculated(table)[i].bounds == BoundingBox::of_rect(
            union_of_placed(
                flattened_table(table)[i].components,
                gathered_boxes(flattened_table(table)),
            ),
        ),
{
    let flat = flattened_table(table);
    lemma_composite_box_is_union(flat[i].components, gathered_boxes(flat));
}

/// After recomputation, the box of a composite glyph whose first flattened
/// component asking for its metrics to be used is the `k`-th is the box of
/// the glyph that this component refers to, whatever the other components
/// are.
pub proof fn lemma_recalculated_box_uses_metrics(table: Seq<GlyphView>, i: int, k: int)
    requires
        0 <= i < table.len(),
        0 <= k < flattened_table(table)[i].components.len(),
        flattened_table(table)[i].components[k].flags.has(ComponentFlags::USE_MY_METRICS),
        forall|j: int|
            0 <= j < k ==> !(#[trigger] flattened_table(table)[i].components[j]).flags.has(
                ComponentFlags::USE_MY_METRICS,
            ),
    ensures
        recalculated(table)[i].bounds == box_at(
            gathered_boxes(flattened_table(table)),
            flattened_table(table)[i].components[k].glyph_index,
        ),
{
    let flat = flattened_table(table);
    lemma_composite_box_uses_metrics(flat[i].components, gathered_boxes(flat), k);
}

/// The component list of glyph `i` once the table is flattened: its
/// flattened components where they differ from the stored ones, else the
/// stored ones.
pub open spec fn flattened_components_of(table: Seq<GlyphView>, i: int) -> Seq<Component> {
    let flat = flattened(table, table[i].components, 0);
    if table[i].is_composite() && !same_components(table[i].components, flat) {
        flat
    } else {
        table[i].components
    }
}

/// The table with every composite glyph flattened to one level. Each glyph
/// is flattened against the table as it stood before.
pub open spec fn flattened_table(table: Seq<GlyphView>) -> Seq<GlyphView> {
    Seq::new(
        table.len(),
        |i: int| GlyphView { components: flattened_components_of(table, i), ..table[i] },
    )
}

/// The box that the composite pass looks up for each glyph of a flattened
/// table: the tight box of a glyph without components, the stored box of a
/// composite glyph.
pub open spec fn gathered_boxes(flat: Seq<GlyphView>) -> Seq<BoundingBox> {
    Seq::new(
        flat.len(),
        |i: int|
            if flat[i].is_composite() {
                flat[i].bounds
            } else {
                tight_box(all_points(flat[i].contours))
            },
    )
}

/// The table flattened and with every bounding box recomputed. A glyph
/// without components gets the tight box of its points. A composite glyph
/// gets the box of its flattened components over `gathered_boxes`.
pub open spec fn recalculated(table: Seq<GlyphView>) -> Seq<GlyphView> {
    recalculated_from(flattened_table(table))
}

/// The bounding boxes of an already flattened table recomputed.
pub open spec fn recalculated_from(flat: Seq<GlyphView>) -> Seq<GlyphView> {
    let boxes = gathered_boxes(flat);
    Seq::new(
        flat.len(),
        |i: int|
            GlyphView {
                bounds: if flat[i].is_composite() {
                    composite_box(flat[i].components, boxes)
                } else {
                    boxes[i]
                },
                ..flat[i]
            },
    )
}

/// The number of points of an outline, over all its contours.
pub open spec fn point_count(contours: Seq<Seq<Point>>) -> nat
    decreases contours.len(),
{
    if contours.len() == 0 {
        0
    } else {
        point_count(contours.drop_last()) + contours.last().len()
    }
}

/// The largest point count of any glyph of the table; 0 for no glyphs.
pub open spec fn max_points(table: Seq<GlyphView>) -> nat
    decreases table.len(),
{
    if table.len() == 0 {
        0
    } else {
        let rest = max_points(table.drop_last());
        let here = point_count(table.last().contours);
        if here > rest {
            here
        } else {
            rest
        }
    }
}

/// The largest contour count of any glyph of the table; 0 for no glyphs.
pub open spec fn max_contours(table: Seq<GlyphView>) -> nat
    decreases table.len(),
{
    if table.len() == 0 {
        0
    } else {
        let rest = max_contours(table.drop_last());
        let here = table.last().contours.len();
        if here > rest {
            here
        } else {
            rest
        }
    }
}

/// The largest component count of any glyph of the table; 0 for no glyphs.
pub open spec fn max_component_elements(table: Seq<GlyphView>) -> nat
    decreases table.len(),
{
    if table.len() == 0 {
        0
    } else {
        let rest = max_component_elements(table.drop_last());
        let here = table.last().components.len();
        if here > rest {
            here
        } else {
            rest
        }
    }
}

/// A count as a 16-bit table field holds it: its low 16 bits.
pub open spec fn low16(n: nat) -> u16 {
    (n % 0x10000) as u16
}

impl glyf {
    /// Given a `Glyph` object, return all components used by this glyph,
    /// including recursively descending into nested components and positioning
    /// them accordingly. Should be called with `depth=0`.
    pub fn flat_components(&self, g: &Glyph, depth: u32) -> (flat: Vec<Component>)
        ensures
            flat@ == flattened(self@, g@.components, depth as nat),
            depth > MAX_COMPONENT_DEPTH ==> flat@.len() == 0,
        decreases 65 - depth,
    {
        let mut new_components: Vec<Component> = Vec::new();
        if depth > MAX_COMPONENT_DEPTH {
            return new_components;
        }
        let n = g.components.len();
        let mut i: usize = 0;
        while i < n
            invariant
                depth <= 64,
                n == g.components.len(),
                i <= n,
                new_components@ == flattened(self@, g@.components.take(i as int), depth as nat),
            decreases n - i,
        {
            let comp = g.components[i];
            let ghost before = new_components@;
            proof {
                let upto = g@.components.take(i as int + 1);
                assert(upto.drop_last() =~= g@.components.take(i as int));
                assert(upto.last() == comp);
            }
            let target = comp.glyph_index as usize;
            if target < self.glyphs.len() && self.glyphs[target].has_components() {
                let inner = self.flat_components(&self.glyphs[target], depth + 1);
                let m = inner.len();
                let mut j: usize = 0;
                while j < m
                    invariant
                        m == inner.len(),
                        j <= m,
                        new_components@ == before + placed_under(comp, inner@.take(j as int)),
                    decreases m - j,
                {
                    let mut f = inner[j];
                    f.transformation = compose(&comp.transformation, &f.transformation);
                    new_components.push(f);
                    proof {
                        assert(new_components@ =~= before + placed_under(
                            comp,
                            inner@.take(j as int + 1),
                        ));
                    }
                    j += 1;
                }
                proof {
                    assert(inner@.take(m as int) =~= inner@);
                }
            } else {
                new_components.push(comp);
            }
            i += 1;
        }
        proof {
            assert(g@.components.take(n as int) =~= g@.components);
        }
        new_components
    }

    /// Tells whether `flat_components`, called with the same arguments, cuts
    /// off a branch because it lies deeper than `MAX_COMPONENT_DEPTH`: the
    /// sign of a reference cycle, or of nesting beyond all reason.
    pub fn nests_too_deep(&self, g: &Glyph, depth: u32) -> (r: bool)
        ensures
            r == too_deep(self@, g@.components, depth as nat),
        decreases 65 - depth,
    {
        if depth > MAX_COMPONENT_DEPTH {
            return true;
        }
        let n = g.components.len();
        let mut found = false;
        let mut i: usize = 0;
        while i < n
            invariant
                depth <= 64,
                n == g.components.len(),
                i <= n,
                found == too_deep(self@, g@.components.take(i as int), depth as nat),
            decreases n - i,
        {
            let comp = g.components[i];
            proof {
                let upto = g@.components.take(i as int + 1);
                assert(upto.drop_last() =~= g@.components.take(i as int));
                assert(upto.last() == comp);
            }
            let target = comp.glyph_index as usize;
            if !found && target < self.glyphs.len() && self.glyphs[target].has_components() {
                found = self.nests_too_deep(&self.glyphs[target], depth + 1);
            }
            i += 1;
        }
        proof {
            assert(g@.components.take(n as int) =~= g@.components);
        }
        found
    }

    /// Flattens all components in this table, replacing nested components with
    /// a single level of correctly positioned components.
    pub fn flatten_components(&mut self)
        ensures
            final(self)@ == flattened_table(old(self)@),
    {
        let n = self.glyphs.len();
        let mut needs_flattening: Vec<Option<Vec<Component>>> = Vec::new();
        let mut id: usize = 0;
        while id < n
            invariant
                n == self.glyphs.len(),
                id <= n,
                needs_flattening.len() == id,
                forall|k: int|
                    0 <= k < id ==> match #[trigger] needs_flattening[k] {
                        Some(flat) => flat@ == flattened_components_of(self@, k),
                        None => self@[k].components == flattened_components_of(self@, k),
                    },
            decreases n - id,
        {
            let g = &self.glyphs[id];
            if !g.has_components() {
                needs_flattening.push(None);
            } else {
                let flat = self.flat_components(g, 0);
                if components_equal(&g.components, &flat) {
                    needs_flattening.push(None);
                } else {
                    needs_flattening.push(Some(flat));
                }
            }
            id += 1;
        }
        let ghost before = self@;
        while id > 0
            invariant
                n == self.glyphs.len(),
                before.len() == n,
                id <= n,
                needs_flattening.len() == id,
                forall|k: int|
                    0 <= k < id ==> match #[trigger] needs_flattening[k] {
                        Some(flat) => flat@ == flattened_components_of(before, k),
                        None => before[k].components == flattened_components_of(before, k),
                    },
                forall|k: int| 0 <= k < id ==> #[trigger] self@[k] == before[k],
                forall|k: int| id <= k < n ==> #[trigger] self@[k] == flattened_table(before)[k],
            decreases id,
        {
            id -= 1;
            let ghost stored = self@;
            match needs_flattening.pop() {
                Some(Some(comp)) => {
                    self.glyphs[id].components = comp;
                },
                _ => {},
            }
            proof {
                assert forall|k: int| 0 <= k < id implies #[trigger] self@[k] == before[k] by {
                    assert(self@[k] == stored[k]);
                }
                assert forall|k: int| id <= k < n implies #[trigger] self@[k] == flattened_table(
                    before,
                )[k] by {
                    if k > id {
                        assert(self@[k] == stored[k]);
                    } else {
                        assert(stored[k] == before[k]);
                    }
                }
            }
        }
        proof {
            assert(self@ =~= flattened_table(before));
        }
    }

    /// Recalculate the bounds of all glyphs within the table.
    /// *Note* that this flattens nested components.
    pub fn recalc_bounds(&mut self)
        ensures
            final(self)@ == recalculated(old(self)@),
    {
        self.flatten_components();
        let ghost flat = self@;
        let n = self.glyphs.len();
        // First do simple glyphs
        let mut i: usize = 0;
        while i < n
            invariant
                n == self.glyphs.len(),
                flat.len() == n,
                i <= n,
                forall|k: int|
                    0 <= k < i ==> #[trigger] self@[k] == (GlyphView {
                        bounds: gathered_boxes(flat)[k],
                        ..flat[k]
                    }),
                forall|k: int| i <= k < n ==> #[trigger] self@[k] == flat[k],
            decreases n - i,
        {
            let ghost stored = self@;
            if !self.glyphs[i].has_components() {
                let b = tight_box_of(&self.glyphs[i].contours);
                self.glyphs[i].xMin = b.x_min;
                self.glyphs[i].yMin = b.y_min;
                self.glyphs[i].xMax = b.x_max;
                self.glyphs[i].yMax = b.y_max;
            }
            proof {
                assert forall|k: int| 0 <= k < i + 1 implies #[trigger] self@[k] == (GlyphView {
                    bounds: gathered_boxes(flat)[k],
                    ..flat[k]
                }) by {
                    if k < i {
                        assert(self@[k] == stored[k]);
                    } else {
                        assert(stored[k] == flat[k]);
                    }
                }
                assert forall|k: int| i + 1 <= k < n implies #[trigger] self@[k] == flat[k] by {
                    assert(self@[k] == stored[k]);
                }
            }
            i += 1;
        }
        // Gather boxes
        let mut boxes: Vec<BoundingBox> = Vec::new();
        let mut j: usize = 0;
        while j < n
            invariant
                n == self.glyphs.len(),
                flat.len() == n,
                j <= n,
                boxes.len() == j,
                forall|k: int|
                    0 <= k < n ==> #[trigger] self@[k] == (GlyphView {
                        bounds: gathered_boxes(flat)[k],
                        ..flat[k]
                    }),
                forall|k: int| 0 <= k < j ==> #[trigger] boxes[k] == gathered_boxes(flat)[k],
            decreases n - j,
        {
            proof {
                assert(self@[j as int].bounds == gathered_boxes(flat)[j as int]);
            }
            boxes.push(self.glyphs[j].bounds());
            j += 1;
        }
        proof {
            assert(boxes@ =~= gathered_boxes(flat));
        }
        // Now do component
        let mut c: usize = 0;
        while c < n
            invariant
                n == self.glyphs.len(),
                flat.len() == n,
                c <= n,
                boxes@ == gathered_boxes(flat),
                forall|k: int| 0 <= k < c ==> #[trigger] self@[k] == recalculated_from(flat)[k],
                forall|k: int|
                    c <= k < n ==> #[trigger] self@[k] == (GlyphView {
                        bounds: gathered_boxes(flat)[k],
                        ..flat[k]
                    }),
            decreases n - c,
        {
            let ghost stored = self@;
            if let Some(b) = composite_box_of(&self.glyphs[c].components, &boxes) {
                self.glyphs[c].xMin = b.x_min;
                self.glyphs[c].yMin = b.y_min;
                self.glyphs[c].xMax = b.x_max;
                self.glyphs[c].yMax = b.y_max;
            }
            proof {
                assert forall|k: int| 0 <= k < c + 1 implies #[trigger] self@[k]
                    == recalculated_from(flat)[k] by {
                    if k < c {
                        assert(self@[k] == stored[k]);
                    } else {
                        assert(stored[k] == (GlyphView {
                            bounds: gathered_boxes(flat)[k],
                            ..flat[k]
                        }));
                    }
                }
                assert forall|k: int| c + 1 <= k < n implies #[trigger] self@[k] == (GlyphView {
                    bounds: gathered_boxes(flat)[k],
                    ..flat[k]
                }) by {
                    assert(self@[k] == stored[k]);
                }
            }
            c += 1;
        }
        proof {
            assert(self@ =~= recalculated(old(self)@));
        }
    }

    /// Gathers statistics to be used in the `maxp` table, returning a tuple of
    /// `(num_glyphs, max_points, max_contours, max_composite_points,
    /// max_composite_contours, max_component_elements, max_component_depth)`
    ///
    /// The composite point and contour maxima are not computed and reported
    /// as 0; the component depth is reported as 1. Every count is given by
    /// its low 16 bits.
    pub fn maxp_statistics(&self) -> (stats: (u16, u16, u16, u16, u16, u16, u16))
        ensures
            stats.0 == low16(self@.len()),
            stats.1 == low16(max_points(self@)),
            stats.2 == low16(max_contours(self@)),
            stats.3 == 0,
            stats.4 == 0,
            stats.5 == low16(max_component_elements(self@)),
            stats.6 == 1,
    {
        let n = self.glyphs.len();
        let mut most_points: u128 = 0;
        let mut most_contours: usize = 0;
        let mut most_components: usize = 0;
        let mut i: usize = 0;
        while i < n
            invariant
                n == self.glyphs.len(),
                i <= n,
                most_points == max_points(self@.take(i as int)),
                most_contours == max_contours(self@.take(i as int)),
                most_components == max_component_elements(self@.take(i as int)),
            decreases n - i,
        {
            let g = &self.glyphs[i];
            proof {
                let upto = self@.take(i as int + 1);
                assert(upto.drop_last() =~= self@.take(i as int));
                assert(upto.last() == g@);
            }
            let contours = g.contours.len();
            let mut points: u128 = 0;
            let mut c: usize = 0;
            while c < contours
                invariant
                    contours == g.contours.len(),
                    c <= contours,
                    points == point_count(g@.contours.take(c as int)),
                    points <= c * 0xFFFF_FFFF_FFFF_FFFF,
                decreases contours - c,
            {
                proof {
                    let upto = g@.contours.take(c as int + 1);
                    assert(upto.drop_last() =~= g@.contours.take(c as int));
                    assert(upto.last() == g.contours[c as int]@);
                }
                points = points + g.contours[c].len() as u128;
                c += 1;
            }
            proof {
                assert(g@.contours.take(contours as int) =~= g@.contours);
            }
            if points > most_points {
                most_points = points;
            }
            if contours > most_contours {
                most_contours = contours;
            }
            if g.components.len() > most_components {
                most_components = g.components.len();
            }
            i += 1;
        }
        proof {
            assert(self@.take(n as int) =~= self@);
        }
        (
            (n % 0x10000) as u16,
            (most_points % 0x10000) as u16,
            (most_contours % 0x10000) as u16,
            0,
            0,
            (most_components % 0x10000) as u16,
            1,
        )
    }
}

} // verus!
