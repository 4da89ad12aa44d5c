use vstd::prelude::*;
use crate::binary::{be_i16, be_u16, be_u32, in_bounds, read_i16, read_u16, read_u32, DecodeError};

verus! {

/// The length of the table header in bytes.
pub const HEADER_LENGTH: usize = 20;

/// The variation data of one glyph. Its content is not decoded.
#[derive(Clone, Copy, Debug, PartialEq, Eq, Structural)]
pub struct GlyphVariationData {}

/// The glyph variations table: its header and its shared tuples.
#[allow(non_camel_case_types)]
#[allow(non_snake_case)]
#[derive(Debug, PartialEq)]
pub struct gvar {
    /// Major version of the table
    pub majorVersion: u16,
    /// Minor version of the table
    pub minorVersion: u16,
    /// The number of variation axes
    pub axisCount: u16,
    /// The shared tuples, one coordinate per axis, each as a 2.14
    /// fixed-point number: the coordinate times 16384
    pub sharedTuples: Vec<Vec<i16>>,
    /// The variation data per glyph; always empty, as it is not decoded
    pub glyphVariations: Vec<GlyphVariationData>,
}

/// The mathematical content of a glyph variations table.
pub struct GvarView {
    /// Major version of the table
    pub major_version: u16,
    /// Minor version of the table
    pub minor_version: u16,
    /// The number of variation axes
    pub axis_count: u16,
    /// The shared tuples, in 2.14 fixed point
    pub shared_tuples: Seq<Seq<i16>>,
    /// The number of decoded glyph variations
    pub glyph_variations: nat,
}

impl View for gvar {
    type V = GvarView;

    open spec fn view(&self) -> GvarView {
        GvarView {
            major_version: self.majorVersion,
            minor_version: self.minorVersion,
            axis_count: self.axisCount,
            shared_tuples: Seq::new(self.sharedTuples@.len(), |i: int| self.sharedTuples@[i]@),
            glyph_variations: self.glyphVariations@.len(),
        }
    }
}

/// The width in bytes of one entry of the glyph offset array: 2 unless the
/// lowest bit of the header flags is set, then 4.
pub open spec fn offset_width(flags: int) -> int {
    if flags % 2 == 0 {
        2
    } else {
        4
    }
}

/// The offset of the variation data of glyph `i`: a 32-bit entry as it is,
/// a 16-bit entry doubled.
pub open spec fn data_offset(bytes: Seq<u8>, i: int) -> int {
    if be_u16(bytes, 14) % 2 == 0 {
        2 * be_u16(bytes, 20 + 2 * i)
    } else {
        be_u32(bytes, 20 + 4 * i)
    }
}

/// The offsets of the variation data of all glyphs, one per glyph counted
/// in the header.
pub open spec fn data_offsets(bytes: Seq<u8>) -> Result<Seq<u32>, DecodeError> {
    if !in_bounds(bytes, 0, 20) || !in_bounds(
        bytes,
        20,
        be_u16(bytes, 12) * offset_width(be_u16(bytes, 14)),
    ) {
        Err(DecodeError::UnexpectedEnd)
    } else {
        Ok(Seq::new(be_u16(bytes, 12) as nat, |i: int| data_offset(bytes, i) as u32))
    }
}

/// Where the shared tuples start: the header gives their offset counted
/// from behind the glyph offset array, plus the length of the header.
pub open spec fn tuples_start(bytes: Seq<u8>) -> int {
    20 + be_u16(bytes, 12) * offset_width(be_u16(bytes, 14)) + be_u32(bytes, 8) - 20
}

/// Coordinate `a` of shared tuple `t`, in 2.14 fixed point.
pub open spec fn tuple_coordinate(bytes: Seq<u8>, t: int, a: int) -> i16 {
    be_i16(bytes, tuples_start(bytes) + 2 * (t * be_u16(bytes, 4) + a)) as i16
}

/// The table that the bytes hold: the versions and the axis count of the
/// header, and the shared tuples. The variation data of the glyphs is not
/// decoded.
pub open spec fn decoded_gvar(bytes: Seq<u8>) -> Result<GvarView, DecodeError> {
    let axes = be_u16(bytes, 4);
    let tuples = be_u16(bytes, 6);
    if data_offsets(bytes) is Err {
        Err(DecodeError::UnexpectedEnd)
    } else if be_u32(bytes, 8) < 20 {
        Err(DecodeError::OffsetBeforeData)
    } else if !in_bounds(bytes, tuples_start(bytes), tuples * axes * 2) {
        Err(DecodeError::UnexpectedEnd)
    } else {
        Ok(
            GvarView {
                major_version: be_u16(bytes, 0) as u16,
                minor_version: be_u16(bytes, 2) as u16,
                axis_count: axes as u16,
                shared_tuples: Seq::new(
                    tuples as nat,
                    |t: int| Seq::new(axes as nat, |a: int| tuple_coordinate(bytes, t, a)),
                ),
                glyph_variations: 0,
            },
        )
    }
}

/// Reads the offsets of the variation data of all glyphs.
pub fn read_data_offsets(bytes: &[u8]) -> (r: Result<Vec<u32>, DecodeError>)
    ensures
        match r {
            Ok(v) => data_offsets(bytes@) == Ok::<Seq<u32>, DecodeError>(v@),
            Err(e) => data_offsets(bytes@) == Err::<Seq<u32>, DecodeError>(e),
        },
{
    let len = bytes.len();
    if len < HEADER_LENGTH {
        return Err(DecodeError::UnexpectedEnd);
    }
    let (glyphs, flags) = match (read_u16(bytes, 12), read_u16(bytes, 14)) {
        (Ok(g), Ok(f)) => (g as usize, f),
        _ => {
            return Err(DecodeError::UnexpectedEnd);
        },
    };
    let long = flags % 2 != 0;
    let width: usize = if long {
        4
    } else {
        2
    };
    if len - HEADER_LENGTH < glyphs * width {
        return Err(DecodeError::UnexpectedEnd);
    }
    let mut offsets: Vec<u32> = Vec::new();
    let mut i: usize = 0;
    while i < glyphs
        invariant
            i <= glyphs,
            glyphs == be_u16(bytes@, 12),
            long == (be_u16(bytes@, 14) % 2 != 0),
            width == offset_width(be_u16(bytes@, 14)),
            20 + glyphs * width <= bytes.len(),
            offsets.len() == i,
            forall|k: int| 0 <= k < i ==> #[trigger] offsets[k] == data_offset(bytes@, k) as u32,
        decreases glyphs - i,
    {
        let offset: u32 = if long {
            match read_u32(bytes, HEADER_LENGTH + 4 * i) {
                Ok(v) => v,
                Err(e) => {
                    return Err(e);
                },
            }
        } else {
            match read_u16(bytes, HEADER_LENGTH + 2 * i) {
                Ok(v) => 2 * (v as u32),
                Err(e) => {
                    return Err(e);
                },
            }
        };
        offsets.push(offset);
        i += 1;
    }
    proof {
        assert(offsets@ =~= Seq::new(
            be_u16(bytes@, 12) as nat,
            |i: int| data_offset(bytes@, i) as u32,
        ));
    }
    Ok(offsets)
}

impl gvar {
    /// Decodes the header and the shared tuples of a glyph variations
    /// table.
    pub fn decode(bytes: &[u8]) -> (r: Result<gvar, DecodeError>)
        ensures
            match r {
                Ok(table) => decoded_gvar(bytes@) == Ok::<GvarView, DecodeError>(table@),
                Err(e) => decoded_gvar(bytes@) == Err::<GvarView, DecodeError>(e),
            },
    {
        let offsets = match read_data_offsets(bytes) {
            Err(e) => {
                return Err(DecodeError::UnexpectedEnd);
            },
            Ok(v) => v,
        };
        let header = (
            read_u16(bytes, 0),
            read_u16(bytes, 2),
            read_u16(bytes, 4),
            read_u16(bytes, 6),
            read_u32(bytes, 8),
            read_u16(bytes, 14),
        );
        let (major, minor, axes, tuples, tuples_offset, flags) = match header {
            (Ok(a), Ok(b), Ok(c), Ok(d), Ok(e), Ok(f)) => (a, b, c, d, e, f),
            _ => {
                return Err(DecodeError::UnexpectedEnd);
            },
        };
        if tuples_offset < 20 {
            return Err(DecodeError::OffsetBeforeData);
        }
        let width: usize = if flags % 2 != 0 {
            4
        } else {
            2
        };
        let len = bytes.len();
        let array: usize = offsets.len() * width;
        let start: u64 = HEADER_LENGTH as u64 + array as u64 + (tuples_offset as u64 - 20);
        assert(tuples * axes <= 0xffff * 0xffff) by (nonlinear_arith)
            requires
                tuples <= 0xffff,
                axes <= 0xffff,
        ;
        let size: u64 = (tuples as u64) * (axes as u64) * 2;
        assert(start == tuples_start(bytes@));
        if start > len as u64 || len as u64 - start < size {
            return Err(DecodeError::UnexpectedEnd);
        }
        let start = start as usize;
        let mut shared: Vec<Vec<i16>> = Vec::new();
        let mut t: usize = 0;
        while t < tuples as usize
            invariant
                t <= tuples,
                tuples == be_u16(bytes@, 6),
                axes == be_u16(bytes@, 4),
                start == tuples_start(bytes@),
                start + tuples * axes * 2 <= bytes.len(),
                shared.len() == t,
                forall|k: int|
                    0 <= k < t ==> (#[trigger] shared[k])@ == Seq::new(
                        axes as nat,
                        |a: int| tuple_coordinate(bytes@, k, a),
                    ),
            decreases tuples - t,
        {
            let mut tuple: Vec<i16> = Vec::new();
            let mut a: usize = 0;
            while a < axes as usize
                invariant
                    t < tuples,
                    a <= axes,
                    tuples == be_u16(bytes@, 6),
                    axes == be_u16(bytes@, 4),
                    start == tuples_start(bytes@),
                    start + tuples * axes * 2 <= bytes.len(),
                    tuple.len() == a,
                    forall|k: int|
                        0 <= k < a ==> #[trigger] tuple[k] == tuple_coordinate(bytes@, t as int, k),
                decreases axes - a,
            {
                assert(t * axes + a < tuples * axes && t * axes <= 0xffff * 0xffff)
                    by (nonlinear_arith)
                    requires
                        t < tuples,
                        a < axes,
                        tuples <= 0xffff,
                        axes <= 0xffff,
                ;
                let at = start + 2 * (t * (axes as usize) + a);
                match read_i16(bytes, at) {
                    Err(e) => {
                        return Err(e);
                    },
                    Ok(v) => {
                        tuple.push(v);
                    },
                }
                a += 1;
            }
            proof {
                assert(tuple@ =~= Seq::new(
                    axes as nat,
                    |a: int| tuple_coordinate(bytes@, t as int, a),
                ));
            }
            shared.push(tuple);
            t += 1;
        }
        let table = gvar {
            majorVersion: major,
            minorVersion: minor,
            axisCount: axes,
            sharedTuples: shared,
            glyphVariations: Vec::new(),
        };
        proof {
            assert(table@.shared_tuples =~= Seq::new(
                tuples as nat,
                |t: int| Seq::new(axes as nat, |a: int| tuple_coordinate(bytes@, t, a)),
            ));
        }
        Ok(table)
    }
}

} // verus!
