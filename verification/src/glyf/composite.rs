use vstd::prelude::*;
use crate::binary::{
    be_i16, be_u16, i16_bytes, in_bounds, put_i16, put_u16, read_i16, read_u16, u16_bytes,
    DecodeError,
};
use super::component::{Component, ComponentFlags};
use super::outline::{followed, seq_agrees};
use super::transform::{
    affine_from_stored, offset_of, pack_coefficient, packed_coefficient, stored_affine,
    whole_offset,
};

verus! {

/// The 2.14 fixed-point number 1.0.
pub const UNIT_SCALE: i16 = 0x4000;

/// The flag bits that a component keeps when it is written: all others
/// follow from its place in the list and from its values.
pub const KEPT_FLAGS: u16 = 0x1e04;

/// A component as the font stores it: integers only.
#[derive(Clone, Copy, Debug, PartialEq, Eq)]
pub struct StoredComponent {
    /// The flag word
    pub flags: u16,
    /// Index of the referenced glyph
    pub glyph_index: u16,
    /// The point numbers to align, where the arguments are no offset
    pub match_points: Option<(u16, u16)>,
    /// Horizontal offset; 0 where the arguments are point numbers
    pub dx: i16,
    /// Vertical offset; 0 where the arguments are point numbers
    pub dy: i16,
    /// Matrix coefficient from x to x, in 2.14 fixed point
    pub xx: i16,
    /// Matrix coefficient from x to y, in 2.14 fixed point
    pub yx: i16,
    /// Matrix coefficient from y to x, in 2.14 fixed point
    pub xy: i16,
    /// Matrix coefficient from y to y, in 2.14 fixed point
    pub yy: i16,
}

/// A byte read as a signed number in two's complement.
pub open spec fn signed_byte(b: u8) -> int {
    if b >= 128 {
        b as int - 256
    } else {
        b as int
    }
}

/// The byte of a signed number between -128 and 127 in two's complement.
pub open spec fn byte_of_signed(v: int) -> u8 {
    (if v < 0 {
        v + 256
    } else {
        v
    }) as u8
}

/// How many 2.14 numbers follow the arguments. Only one form of scale is
/// read, the first that the flags announce: one scale, else a scale per
/// axis, else a full matrix.
pub open spec fn scale_count(flags: ComponentFlags) -> int {
    if flags.has(ComponentFlags::WE_HAVE_A_SCALE) {
        1
    } else if flags.has(ComponentFlags::WE_HAVE_AN_X_AND_Y_SCALE) {
        2
    } else if flags.has(ComponentFlags::WE_HAVE_A_TWO_BY_TWO) {
        4
    } else {
        0
    }
}

/// The number of bytes that the two arguments take.
pub open spec fn args_len(flags: ComponentFlags) -> int {
    if flags.has(ComponentFlags::ARG_1_AND_2_ARE_WORDS) {
        4
    } else {
        2
    }
}

/// The number of bytes of a component with the given flags.
pub open spec fn stored_len(flags: ComponentFlags) -> int {
    4 + args_len(flags) + 2 * scale_count(flags)
}

/// The component stored at `at`, with the position behind it.
pub open spec fn stored_component(bytes: Seq<u8>, at: int) -> Result<
    (StoredComponent, int),
    DecodeError,
> {
    let flags = ComponentFlags { bits: be_u16(bytes, at) as u16 };
    let words = flags.has(ComponentFlags::ARG_1_AND_2_ARE_WORDS);
    let offset = flags.has(ComponentFlags::ARGS_ARE_XY_VALUES);
    let args_at = at + 4;
    let scales_at = args_at + args_len(flags);
    let scales = scale_count(flags);
    if !in_bounds(bytes, at, 2) || !in_bounds(bytes, at, stored_len(flags)) {
        Err(DecodeError::UnexpectedEnd)
    } else {
        Ok(
            (
                StoredComponent {
                    flags: flags.bits,
                    glyph_index: be_u16(bytes, at + 2) as u16,
                    match_points: if offset {
                        None
                    } else if words {
                        Some((be_u16(bytes, args_at) as u16, be_u16(bytes, args_at + 2) as u16))
                    } else {
                        Some((bytes[args_at] as u16, bytes[args_at + 1] as u16))
                    },
                    dx: if !offset {
                        0
                    } else if words {
                        be_i16(bytes, args_at) as i16
                    } else {
                        signed_byte(bytes[args_at]) as i16
                    },
                    dy: if !offset {
                        0
                    } else if words {
                        be_i16(bytes, args_at + 2) as i16
                    } else {
                        signed_byte(bytes[args_at + 1]) as i16
                    },
                    xx: if scales == 0 {
                        UNIT_SCALE
                    } else {
                        be_i16(bytes, scales_at) as i16
                    },
                    yx: if scales == 4 {
                        be_i16(bytes, scales_at + 2) as i16
                    } else {
                        0
                    },
                    xy: if scales == 4 {
                        be_i16(bytes, scales_at + 4) as i16
                    } else {
                        0
                    },
                    yy: if scales == 0 {
                        UNIT_SCALE
                    } else if scales == 1 {
                        be_i16(bytes, scales_at) as i16
                    } else if scales == 2 {
                        be_i16(bytes, scales_at + 2) as i16
                    } else {
                        be_i16(bytes, scales_at + 6) as i16
                    },
                },
                at + stored_len(flags),
            ),
        )
    }
}

/// Reads one component in its stored form.
pub fn read_stored_component(bytes: &[u8], at: usize) -> (r: Result<
    (StoredComponent, usize),
    DecodeError,
>)
    ensures
        match r {
            Ok((s, next)) => stored_component(bytes@, at as int) == Ok::<
                (StoredComponent, int),
                DecodeError,
            >((s, next as int)) && at + 6 <= next <= bytes.len(),
            Err(e) => stored_component(bytes@, at as int) == Err::<
                (StoredComponent, int),
                DecodeError,
            >(e),
        },
{
    let len = bytes.len();
    let raw = match read_u16(bytes, at) {
        Err(e) => {
            return Err(e);
        },
        Ok(v) => v,
    };
    let flags = ComponentFlags::from_bits(raw);
    let words = flags.contains(ComponentFlags::ARG_1_AND_2_ARE_WORDS);
    let offset = flags.contains(ComponentFlags::ARGS_ARE_XY_VALUES);
    let scales: usize = if flags.contains(ComponentFlags::WE_HAVE_A_SCALE) {
        1
    } else if flags.contains(ComponentFlags::WE_HAVE_AN_X_AND_Y_SCALE) {
        2
    } else if flags.contains(ComponentFlags::WE_HAVE_A_TWO_BY_TWO) {
        4
    } else {
        0
    };
    let args: usize = if words {
        4
    } else {
        2
    };
    let size: usize = 4 + args + 2 * scales;
    if len - at < size {
        return Err(DecodeError::UnexpectedEnd);
    }
    let args_at = at + 4;
    let scales_at = args_at + args;
    let glyph_index = match read_u16(bytes, at + 2) {
        Err(e) => {
            return Err(e);
        },
        Ok(v) => v,
    };
    let mut match_points: Option<(u16, u16)> = None;
    let mut dx: i16 = 0;
    let mut dy: i16 = 0;
    if offset {
        if words {
            match (read_i16(bytes, args_at), read_i16(bytes, args_at + 2)) {
                (Ok(a), Ok(b)) => {
                    dx = a;
                    dy = b;
                },
                _ => {
                    return Err(DecodeError::UnexpectedEnd);
                },
            }
        } else {
            let a = bytes[args_at];
            let b = bytes[args_at + 1];
            dx = if a >= 128 {
                (a as i16) - 256
            } else {
                a as i16
            };
            dy = if b >= 128 {
                (b as i16) - 256
            } else {
                b as i16
            };
        }
    } else {
        if words {
            match (read_u16(bytes, args_at), read_u16(bytes, args_at + 2)) {
                (Ok(a), Ok(b)) => {
                    match_points = Some((a, b));
                },
                _ => {
                    return Err(DecodeError::UnexpectedEnd);
                },
            }
        } else {
            match_points = Some((bytes[args_at] as u16, bytes[args_at + 1] as u16));
        }
    }
    let mut xx: i16 = UNIT_SCALE;
    let mut yx: i16 = 0;
    let mut xy: i16 = 0;
    let mut yy: i16 = UNIT_SCALE;
    if scales == 1 {
        match read_i16(bytes, scales_at) {
            Ok(a) => {
                xx = a;
                yy = a;
            },
            _ => {
                return Err(DecodeError::UnexpectedEnd);
            },
        }
    } else if scales == 2 {
        match (read_i16(bytes, scales_at), read_i16(bytes, scales_at + 2)) {
            (Ok(a), Ok(d)) => {
                xx = a;
                yy = d;
            },
            _ => {
                return Err(DecodeError::UnexpectedEnd);
            },
        }
    } else if scales == 4 {
        match (
            read_i16(bytes, scales_at),
            read_i16(bytes, scales_at + 2),
            read_i16(bytes, scales_at + 4),
            read_i16(bytes, scales_at + 6),
        ) {
            (Ok(a), Ok(b), Ok(c), Ok(d)) => {
                xx = a;
                yx = b;
                xy = c;
                yy = d;
            },
            _ => {
                return Err(DecodeError::UnexpectedEnd);
            },
        }
    }
    Ok((StoredComponent { flags: raw, glyph_index, match_points, dx, dy, xx, yx, xy, yy }, at + size))
}

impl StoredComponent {
    /// The component that this stored form stands for.
    pub open spec fn component(self) -> Component {
        Component {
            glyph_index: self.glyph_index,
            transformation: stored_affine(self.xx, self.yx, self.xy, self.yy, self.dx, self.dy),
            match_points: self.match_points,
            flags: ComponentFlags { bits: self.flags },
        }
    }

    /// Builds the component that this stored form stands for.
    pub fn to_component(&self) -> (c: Component)
        ensures
            c == self.component(),
    {
        Component {
            glyph_index: self.glyph_index,
            transformation: affine_from_stored(
                self.xx,
                self.yx,
                self.xy,
                self.yy,
                self.dx,
                self.dy,
            ),
            match_points: self.match_points,
            flags: ComponentFlags::from_bits(self.flags),
        }
    }
}

/// The component at `at`, with the position behind it.
pub open spec fn decoded_component(bytes: Seq<u8>, at: int) -> Result<
    (Component, int),
    DecodeError,
> {
    match stored_component(bytes, at) {
        Ok((s, next)) => Ok((s.component(), next)),
        Err(e) => Err(e),
    }
}

/// The components read from `at` on, up to and including the first one that
/// does not announce a further one, with the position behind them.
pub open spec fn decoded_components(bytes: Seq<u8>, at: int) -> Result<
    (Seq<Component>, int),
    DecodeError,
>
    decreases bytes.len() - at,
{
    match decoded_component(bytes, at) {
        Err(e) => Err(e),
        Ok((c, next)) => if c.flags.has(ComponentFlags::MORE_COMPONENTS) && at < next
            <= bytes.len() {
            followed(seq![c], decoded_components(bytes, next))
        } else {
            Ok((seq![c], next))
        },
    }
}

/// Reads the component list of a composite glyph.
pub fn read_components(bytes: &[u8], start: usize) -> (r: Result<
    (Vec<Component>, usize),
    DecodeError,
>)
    ensures
        seq_agrees(r, decoded_components(bytes@, start as int)),
        r matches Ok((comps, end)) ==> comps.len() > 0 && start <= end <= bytes.len(),
{
    let mut comps: Vec<Component> = Vec::new();
    let mut at: usize = start;
    let mut more = true;
    while more
        invariant
            start <= at,
            comps.len() > 0 ==> at <= bytes.len(),
            !more ==> comps.len() > 0,
            more ==> decoded_components(bytes@, start as int) == followed(
                comps@,
                decoded_components(bytes@, at as int),
            ),
            !more ==> decoded_components(bytes@, start as int) == Ok::<
                (Seq<Component>, int),
                DecodeError,
            >((comps@, at as int)),
        decreases
                (if at <= bytes.len() {
                    bytes.len() - at
                } else {
                    0
                }) + (if more {
                    1int
                } else {
                    0int
                }),
    {
        let ghost done = comps@;
        let ghost rest = decoded_components(bytes@, at as int);
        match read_stored_component(bytes, at) {
            Err(e) => {
                return Err(e);
            },
            Ok((stored, next)) => {
                let c = stored.to_component();
                more = c.flags.contains(ComponentFlags::MORE_COMPONENTS);
                comps.push(c);
                proof {
                    if more {
                        let further = decoded_components(bytes@, next as int);
                        assert(rest == followed(seq![c], further));
                        match further {
                            Ok((tail, end)) => {
                                assert(done + (seq![c] + tail) =~= comps@ + tail);
                            },
                            Err(e) => {},
                        }
                    } else {
                        assert(rest == Ok::<(Seq<Component>, int), DecodeError>(
                            (seq![c], next as int),
                        ));
                        assert(done + seq![c] =~= comps@);
                    }
                }
                at = next;
            },
        }
    }
    Ok((comps, at))
}

/// Whether some component has every bit of `mask` set.
pub open spec fn any_has(comps: Seq<Component>, mask: u16) -> bool
    decreases comps.len(),
{
    if comps.len() == 0 {
        false
    } else {
        any_has(comps.drop_last(), mask) || comps.last().flags.has(mask)
    }
}

/// Tests whether some component has every bit of `mask` set.
pub fn some_component_has(comps: &Vec<Component>, mask: u16) -> (r: bool)
    ensures
        r == any_has(comps@, mask),
{
    let n = comps.len();
    let mut found = false;
    let mut i: usize = 0;
    while i < n
        invariant
            n == comps.len(),
            i <= n,
            found == any_has(comps@.take(i as int), mask),
        decreases n - i,
    {
        proof {
            assert(comps@.take(i as int + 1).drop_last() =~= comps@.take(i as int));
        }
        if comps[i].flags.contains(mask) {
            found = true;
        }
        i += 1;
    }
    proof {
        assert(comps@.take(n as int) =~= comps@);
    }
    found
}

/// The stored parts of a component's transform, where every matrix
/// coefficient is a 2.14 fixed-point number.
pub open spec fn stored_transform(c: Component) -> Option<(i16, i16, i16, i16, i16, i16)> {
    let t = c.transformation;
    match (
        packed_coefficient(t, 0),
        packed_coefficient(t, 1),
        packed_coefficient(t, 2),
        packed_coefficient(t, 3),
    ) {
        (Some(xx), Some(yx), Some(xy), Some(yy)) => Some(
            (xx, yx, xy, yy, whole_offset(t, 4), whole_offset(t, 5)),
        ),
        _ => None,
    }
}

/// The flag word with which a component is written.
///
/// Of the component's own flags the bits of `KEPT_FLAGS` stay. The others
/// say what is written: whether a component follows (`more`), or else
/// whether instructions follow the list; whether the glyph is marked as
/// overlapping, on its first component; whether the arguments are an offset
/// and whether they need 16 bits; and the most compact form of scale that
/// holds the matrix.
pub open spec fn written_flags(
    own: u16,
    match_points: Option<(u16, u16)>,
    parts: (i16, i16, i16, i16, i16, i16),
    more: bool,
    instructions: bool,
    overlap: bool,
) -> u16 {
    (own & KEPT_FLAGS) | (if more {
        ComponentFlags::MORE_COMPONENTS
    } else if instructions {
        ComponentFlags::WE_HAVE_INSTRUCTIONS
    } else {
        0
    }) | (if overlap {
        ComponentFlags::OVERLAP_COMPOUND
    } else {
        0
    }) | (if match_points is None {
        ComponentFlags::ARGS_ARE_XY_VALUES
    } else {
        0
    }) | (if wide_arguments(match_points, parts.4, parts.5) {
        ComponentFlags::ARG_1_AND_2_ARE_WORDS
    } else {
        0
    }) | (if parts.1 != 0 || parts.2 != 0 {
        ComponentFlags::WE_HAVE_A_TWO_BY_TWO
    } else if parts.0 != parts.3 {
        ComponentFlags::WE_HAVE_AN_X_AND_Y_SCALE
    } else if parts.0 != UNIT_SCALE {
        ComponentFlags::WE_HAVE_A_SCALE
    } else {
        0
    })
}

/// Whether the two arguments need 16 bits each.
pub open spec fn wide_arguments(match_points: Option<(u16, u16)>, dx: i16, dy: i16) -> bool {
    match match_points {
        Some((a, b)) => a > 255 || b > 255,
        None => !(-128 <= dx <= 127 && -128 <= dy <= 127),
    }
}

/// The bytes of the two arguments.
pub open spec fn written_arguments(match_points: Option<(u16, u16)>, dx: i16, dy: i16) -> Seq<u8> {
    match match_points {
        Some((a, b)) => if wide_arguments(match_points, dx, dy) {
            u16_bytes(a as int) + u16_bytes(b as int)
        } else {
            seq![a as u8, b as u8]
        },
        None => if wide_arguments(match_points, dx, dy) {
            i16_bytes(dx as int) + i16_bytes(dy as int)
        } else {
            seq![byte_of_signed(dx as int), byte_of_signed(dy as int)]
        },
    }
}

/// The bytes of the matrix in its most compact form: nothing for the
/// identity, one number for a uniform scale, two for a scale per axis, four
/// otherwise.
pub open spec fn written_scales(xx: i16, yx: i16, xy: i16, yy: i16) -> Seq<u8> {
    if yx != 0 || xy != 0 {
        i16_bytes(xx as int) + i16_bytes(yx as int) + i16_bytes(xy as int) + i16_bytes(yy as int)
    } else if xx != yy {
        i16_bytes(xx as int) + i16_bytes(yy as int)
    } else if xx != UNIT_SCALE {
        i16_bytes(xx as int)
    } else {
        Seq::empty()
    }
}

/// The bytes of one component, given the stored parts of its transform.
pub open spec fn written_component(
    own: u16,
    glyph_index: u16,
    match_points: Option<(u16, u16)>,
    parts: (i16, i16, i16, i16, i16, i16),
    more: bool,
    instructions: bool,
    overlap: bool,
) -> Seq<u8> {
    u16_bytes(written_flags(own, match_points, parts, more, instructions, overlap) as int)
        + u16_bytes(glyph_index as int) + written_arguments(match_points, parts.4, parts.5)
        + written_scales(parts.0, parts.1, parts.2, parts.3)
}

/// Computes the flag word with which a component is written.
pub fn flags_to_write(
    own: u16,
    match_points: Option<(u16, u16)>,
    parts: (i16, i16, i16, i16, i16, i16),
    more: bool,
    instructions: bool,
    overlap: bool,
) -> (flags: u16)
    ensures
        flags == written_flags(own, match_points, parts, more, instructions, overlap),
{
    let (xx, yx, xy, yy, dx, dy) = parts;
    let wide = match match_points {
        Some((a, b)) => a > 255 || b > 255,
        None => !(-128 <= dx && dx <= 127 && -128 <= dy && dy <= 127),
    };
    let place: u16 = if more {
        ComponentFlags::MORE_COMPONENTS
    } else if instructions {
        ComponentFlags::WE_HAVE_INSTRUCTIONS
    } else {
        0
    };
    let marked: u16 = if overlap {
        ComponentFlags::OVERLAP_COMPOUND
    } else {
        0
    };
    let kind: u16 = if match_points.is_none() {
        ComponentFlags::ARGS_ARE_XY_VALUES
    } else {
        0
    };
    let width: u16 = if wide {
        ComponentFlags::ARG_1_AND_2_ARE_WORDS
    } else {
        0
    };
    let scale: u16 = if yx != 0 || xy != 0 {
        ComponentFlags::WE_HAVE_A_TWO_BY_TWO
    } else if xx != yy {
        ComponentFlags::WE_HAVE_AN_X_AND_Y_SCALE
    } else if xx != UNIT_SCALE {
        ComponentFlags::WE_HAVE_A_SCALE
    } else {
        0
    };
    (own & KEPT_FLAGS) | place | marked | kind | width | scale
}

/// Appends the two arguments of a component.
pub fn put_arguments(out: &mut Vec<u8>, match_points: Option<(u16, u16)>, dx: i16, dy: i16)
    ensures
        final(out)@ == old(out)@ + written_arguments(match_points, dx, dy),
{
    match match_points {
        Some((a, b)) => {
            if a > 255 || b > 255 {
                put_u16(out, a);
                put_u16(out, b);
            } else {
                out.push(a as u8);
                out.push(b as u8);
            }
        },
        None => {
            if !(-128 <= dx && dx <= 127 && -128 <= dy && dy <= 127) {
                put_i16(out, dx);
                put_i16(out, dy);
            } else {
                let low_x: i16 = if dx < 0 {
                    dx + 256
                } else {
                    dx
                };
                let low_y: i16 = if dy < 0 {
                    dy + 256
                } else {
                    dy
                };
                out.push(low_x as u8);
                out.push(low_y as u8);
            }
        },
    }
    proof {
        assert(out@ =~= old(out)@ + written_arguments(match_points, dx, dy));
    }
}

/// Appends the matrix of a component in its most compact form.
pub fn put_scales(out: &mut Vec<u8>, xx: i16, yx: i16, xy: i16, yy: i16)
    ensures
        final(out)@ == old(out)@ + written_scales(xx, yx, xy, yy),
{
    if yx != 0 || xy != 0 {
        put_i16(out, xx);
        put_i16(out, yx);
        put_i16(out, xy);
        put_i16(out, yy);
    } else if xx != yy {
        put_i16(out, xx);
        put_i16(out, yy);
    } else if xx != UNIT_SCALE {
        put_i16(out, xx);
    }
    proof {
        assert(out@ =~= old(out)@ + written_scales(xx, yx, xy, yy));
    }
}

/// Appends one component, given the stored parts of its transform.
pub fn put_component(
    out: &mut Vec<u8>,
    own: u16,
    glyph_index: u16,
    match_points: Option<(u16, u16)>,
    parts: (i16, i16, i16, i16, i16, i16),
    more: bool,
    instructions: bool,
    overlap: bool,
)
    ensures
        final(out)@ == old(out)@ + written_component(
            own,
            glyph_index,
            match_points,
            parts,
            more,
            instructions,
            overlap,
        ),
{
    let flags = flags_to_write(own, match_points, parts, more, instructions, overlap);
    put_u16(out, flags);
    put_u16(out, glyph_index);
    put_arguments(out, match_points, parts.4, parts.5);
    put_scales(out, parts.0, parts.1, parts.2, parts.3);
    proof {
        assert(out@ =~= old(out)@ + written_component(
            own,
            glyph_index,
            match_points,
            parts,
            more,
            instructions,
            overlap,
        ));
    }
}

impl Component {
    /// Reads the stored parts of this component's transform; nothing where
    /// a matrix coefficient is no 2.14 fixed-point number.
    pub fn stored_parts(&self) -> (p: Option<(i16, i16, i16, i16, i16, i16)>)
        ensures
            p == stored_transform(*self),
    {
        let t = &self.transformation;
        match (
            pack_coefficient(t, 0),
            pack_coefficient(t, 1),
            pack_coefficient(t, 2),
            pack_coefficient(t, 3),
        ) {
            (Some(xx), Some(yx), Some(xy), Some(yy)) => Some(
                (xx, yx, xy, yy, offset_of(t, 4), offset_of(t, 5)),
            ),
            _ => None,
        }
    }
}

} // verus!
