use vstd::prelude::*;
use crate::binary::{be_i16, be_u16, in_bounds, put_u16, read_i16, read_u16, u16_bytes, DecodeError};
use super::bounds::BoundingBox;
use super::component::{Component, ComponentFlags};
use super::composite::{
    any_has, decoded_components, put_component, read_components, some_component_has,
    stored_transform, written_component,
};
use super::encode::{
    bytes_agree, encode_simple, encoded_header, encoded_simple, put_all, put_header, EncodeError,
};
use super::glyph::{Glyph, GlyphView};
use super::outline::{copy_range, decode_simple, decoded_simple, glyph_agrees};

verus! {

/// The instructions that follow the component list ending at `at`: none
/// unless a component announces them.
pub open spec fn composite_instructions(bytes: Seq<u8>, at: int, comps: Seq<Component>) -> Result<
    Seq<u8>,
    DecodeError,
> {
    if !any_has(comps, ComponentFlags::WE_HAVE_INSTRUCTIONS) {
        Ok(Seq::empty())
    } else if !in_bounds(bytes, at, 2) || !in_bounds(bytes, at + 2, be_u16(bytes, at)) {
        Err(DecodeError::UnexpectedEnd)
    } else {
        Ok(bytes.subrange(at + 2, at + 2 + be_u16(bytes, at)))
    }
}

/// The composite glyph whose component list starts at `at`, right after the
/// bounding box. It is marked as overlapping if its first component is.
pub open spec fn decoded_composite(bytes: Seq<u8>, at: int, bounds: BoundingBox) -> Result<
    GlyphView,
    DecodeError,
> {
    match decoded_components(bytes, at) {
        Err(e) => Err(e),
        Ok((comps, end)) => match composite_instructions(bytes, end, comps) {
            Err(e) => Err(e),
            Ok(instructions) => Ok(
                GlyphView {
                    bounds,
                    contours: Seq::empty(),
                    instructions,
                    components: comps,
                    overlap: comps[0].flags.has(ComponentFlags::OVERLAP_COMPOUND),
                },
            ),
        },
    }
}

/// The glyph record at `at`: a contour count and a bounding box, then the
/// body of a simple glyph where the count is positive, else a component
/// list.
pub open spec fn decoded_glyph(bytes: Seq<u8>, at: int) -> Result<GlyphView, DecodeError> {
    if !in_bounds(bytes, at, 10) {
        Err(DecodeError::UnexpectedEnd)
    } else {
        let bounds = BoundingBox {
            x_min: be_i16(bytes, at + 2) as i16,
            y_min: be_i16(bytes, at + 4) as i16,
            x_max: be_i16(bytes, at + 6) as i16,
            y_max: be_i16(bytes, at + 8) as i16,
        };
        if be_i16(bytes, at) < 1 {
            decoded_composite(bytes, at + 10, bounds)
        } else {
            decoded_simple(bytes, at + 10, be_i16(bytes, at), bounds)
        }
    }
}

/// Whether every component's transform can be stored.
pub open spec fn all_storable(comps: Seq<Component>) -> bool {
    forall|k: int| 0 <= k < comps.len() ==> stored_transform(#[trigger] comps[k]) is Some
}

/// The bytes of the first `upto` components of a list. Every component but
/// the last announces a further one; the last announces the instructions,
/// if there are any; the first carries the overlap mark.
pub open spec fn encoded_components(
    comps: Seq<Component>,
    upto: int,
    instructions: bool,
    overlap: bool,
) -> Seq<u8>
    decreases upto,
{
    if upto <= 0 {
        Seq::empty()
    } else {
        let c = comps[upto - 1];
        encoded_components(comps, upto - 1, instructions, overlap) + written_component(
            c.flags.bits,
            c.glyph_index,
            c.match_points,
            stored_transform(c).unwrap(),
            upto < comps.len(),
            instructions,
            overlap && upto == 1,
        )
    }
}

/// The bytes of a composite glyph, where it can be encoded: the header with
/// a contour count of -1, the components, and the instructions with their
/// length if there are any.
pub open spec fn encoded_composite(g: GlyphView) -> Result<Seq<u8>, EncodeError> {
    if g.instructions.len() > 0xffff {
        Err(EncodeError::TooManyInstructions)
    } else if !all_storable(g.components) {
        Err(EncodeError::ScaleOutOfRange)
    } else {
        Ok(
            encoded_header(-1, g.bounds) + encoded_components(
                g.components,
                g.components.len() as int,
                g.instructions.len() > 0,
                g.overlap,
            ) + (if g.instructions.len() > 0 {
                u16_bytes(g.instructions.len() as int) + g.instructions
            } else {
                Seq::empty()
            }),
        )
    }
}

/// The bytes of a glyph: none for an empty glyph, else those of a composite
/// glyph if it has components, else those of a simple glyph.
pub open spec fn encoded(g: GlyphView) -> Result<Seq<u8>, EncodeError> {
    if g.is_empty() {
        Ok(Seq::empty())
    } else if g.is_composite() {
        encoded_composite(g)
    } else {
        encoded_simple(g)
    }
}

/// Decodes the body of a composite glyph, which starts at `at`.
pub fn decode_composite(bytes: &[u8], at: usize, bounds: BoundingBox) -> (r: Result<
    Glyph,
    DecodeError,
>)
    ensures
        glyph_agrees(r, decoded_composite(bytes@, at as int, bounds)),
        r matches Ok(g) ==> g@.components.len() > 0 && g@.contours.len() == 0,
{
    let (components, end) = match read_components(bytes, at) {
        Err(e) => {
            return Err(e);
        },
        Ok(found) => found,
    };
    let mut instructions: Vec<u8> = Vec::new();
    if some_component_has(&components, ComponentFlags::WE_HAVE_INSTRUCTIONS) {
        let length = match read_u16(bytes, end) {
            Err(e) => {
                return Err(e);
            },
            Ok(l) => l as usize,
        };
        if bytes.len() - (end + 2) < length {
            return Err(DecodeError::UnexpectedEnd);
        }
        instructions = copy_range(bytes, end + 2, end + 2 + length);
    }
    let overlap = components[0].flags.contains(ComponentFlags::OVERLAP_COMPOUND);
    let g = Glyph {
        xMin: bounds.x_min,
        xMax: bounds.x_max,
        yMin: bounds.y_min,
        yMax: bounds.y_max,
        contours: Vec::new(),
        instructions,
        components,
        overlap,
    };
    proof {
        assert(g@.contours =~= Seq::empty());
    }
    Ok(g)
}

impl Glyph {
    /// Decodes the glyph record that starts at `at`. The data before `at`
    /// and behind the record is not looked at.
    pub fn decode_at(bytes: &[u8], at: usize) -> (r: Result<Glyph, DecodeError>)
        ensures
            glyph_agrees(r, decoded_glyph(bytes@, at as int)),
            r matches Ok(g) ==> g@.wf(),
    {
        if at > bytes.len() || bytes.len() - at < 10 {
            return Err(DecodeError::UnexpectedEnd);
        }
        let count = read_i16(bytes, at);
        let x_min = read_i16(bytes, at + 2);
        let y_min = read_i16(bytes, at + 4);
        let x_max = read_i16(bytes, at + 6);
        let y_max = read_i16(bytes, at + 8);
        match (count, x_min, y_min, x_max, y_max) {
            (Ok(count), Ok(x_min), Ok(y_min), Ok(x_max), Ok(y_max)) => {
                let bounds = BoundingBox { x_min, y_min, x_max, y_max };
                if count < 1 {
                    decode_composite(bytes, at + 10, bounds)
                } else {
                    decode_simple(bytes, at + 10, count as u16, bounds)
                }
            },
            _ => Err(DecodeError::UnexpectedEnd),
        }
    }

    /// Decodes the glyph record that the data starts with.
    pub fn decode(bytes: &[u8]) -> (r: Result<Glyph, DecodeError>)
        ensures
            glyph_agrees(r, decoded_glyph(bytes@, 0)),
            r matches Ok(g) ==> g@.wf(),
    {
        Glyph::decode_at(bytes, 0)
    }

    /// Encodes the glyph. An empty glyph has no bytes at all.
    pub fn encode(&self) -> (r: Result<Vec<u8>, EncodeError>)
        ensures
            bytes_agree(r, encoded(self@)),
    {
        if self.is_empty() {
            return Ok(Vec::new());
        }
        if !self.has_components() {
            return encode_simple(self);
        }
        if self.instructions.len() > 0xffff {
            return Err(EncodeError::TooManyInstructions);
        }
        let with_instructions = self.instructions.len() > 0;
        let mut out: Vec<u8> = Vec::new();
        put_header(&mut out, -1, self.bounds());
        let ghost header = out@;
        let n = self.components.len();
        let mut i: usize = 0;
        while i < n
            invariant
                n == self.components.len(),
                i <= n,
                self@.instructions.len() <= 0xffff,
                self@.is_composite(),
                with_instructions == (self@.instructions.len() > 0),
                forall|k: int|
                    0 <= k < i ==> stored_transform(#[trigger] self@.components[k]) is Some,
                out@ == header + encoded_components(
                    self@.components,
                    i as int,
                    with_instructions,
                    self@.overlap,
                ),
            decreases n - i,
        {
            let c = &self.components[i];
            let parts = match c.stored_parts() {
                None => {
                    proof {
                        assert(stored_transform(self@.components[i as int]) is None);
                    }
                    return Err(EncodeError::ScaleOutOfRange);
                },
                Some(p) => p,
            };
            put_component(
                &mut out,
                c.flags.bits,
                c.glyph_index,
                c.match_points,
                parts,
                i + 1 < n,
                with_instructions,
                self.overlap && i == 0,
            );
            proof {
                assert(out@ =~= header + encoded_components(
                    self@.components,
                    i as int + 1,
                    with_instructions,
                    self@.overlap,
                ));
            }
            i += 1;
        }
        if with_instructions {
            put_u16(&mut out, self.instructions.len() as u16);
            put_all(&mut out, &self.instructions);
        }
        proof {
            assert(all_storable(self@.components));
            let body = encoded_components(
                self@.components,
                n as int,
                with_instructions,
                self@.overlap,
            );
            let tail = if with_instructions {
                u16_bytes(self@.instructions.len() as int) + self@.instructions
            } else {
                Seq::<u8>::empty()
            };
            assert(out@ =~= header + body + tail);
        }
        Ok(out)
    }
}

} // verus!
