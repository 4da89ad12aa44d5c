use vstd::prelude::*;

verus! {

/// Why a byte string could not be decoded.
#[derive(Clone, Copy, Debug, PartialEq, Eq, Structural)]
pub enum DecodeError {
    /// The data ends inside a field
    UnexpectedEnd,
    /// A contour ends before the contour preceding it
    ContourEndsDescend,
    /// A coordinate, summed up from its deltas, leaves the 16-bit range
    CoordinateOverflow,
    /// An offset points in front of the data that it is counted from
    OffsetBeforeData,
}

impl DecodeError {
    /// The words that describe the failure.
    pub open spec fn words(self) -> Seq<char> {
        match self {
            DecodeError::UnexpectedEnd => "End of file"@,
            DecodeError::ContourEndsDescend => "Contour end points are not ascending"@,
            DecodeError::CoordinateOverflow => "Coordinate out of range"@,
            DecodeError::OffsetBeforeData => "Offset points before the data"@,
        }
    }

    /// A description of the failure.
    pub fn description(&self) -> (s: String)
        ensures
            s@ == self.words(),
    {
        match self {
            DecodeError::UnexpectedEnd => "End of file".to_string(),
            DecodeError::ContourEndsDescend => "Contour end points are not ascending".to_string(),
            DecodeError::CoordinateOverflow => "Coordinate out of range".to_string(),
            DecodeError::OffsetBeforeData => "Offset points before the data".to_string(),
        }
    }
}

/// The unsigned big-endian 16-bit number at `at`.
pub open spec fn be_u16(bytes: Seq<u8>, at: int) -> int {
    bytes[at] as int * 256 + bytes[at + 1] as int
}

/// The signed big-endian 16-bit number at `at`, in two's complement.
pub open spec fn be_i16(bytes: Seq<u8>, at: int) -> int {
    if be_u16(bytes, at) >= 0x8000 {
        be_u16(bytes, at) - 0x10000
    } else {
        be_u16(bytes, at)
    }
}

/// The unsigned big-endian 32-bit number at `at`.
pub open spec fn be_u32(bytes: Seq<u8>, at: int) -> int {
    be_u16(bytes, at) * 0x10000 + be_u16(bytes, at + 2)
}

/// The two bytes of an unsigned 16-bit number, most significant first.
pub open spec fn u16_bytes(v: int) -> Seq<u8> {
    seq![(v / 256) as u8, (v % 256) as u8]
}

/// The two bytes of a signed 16-bit number in two's complement, most
/// significant first.
pub open spec fn i16_bytes(v: int) -> Seq<u8> {
    u16_bytes(
        if v < 0 {
            v + 0x10000
        } else {
            v
        },
    )
}

/// Whether `count` bytes can be read at `at`.
pub open spec fn in_bounds(bytes: Seq<u8>, at: int, count: int) -> bool {
    0 <= at && 0 <= count && at + count <= bytes.len()
}

/// Reading back what was written: the two bytes of a number, found at `at`,
/// read as that number.
pub proof fn lemma_u16_round_trip(bytes: Seq<u8>, at: int, v: int)
    requires
        0 <= v < 0x10000,
        in_bounds(bytes, at, 2),
        bytes.subrange(at, at + 2) == u16_bytes(v),
    ensures
        be_u16(bytes, at) == v,
{
    assert(bytes[at] == bytes.subrange(at, at + 2)[0]);
    assert(bytes[at + 1] == bytes.subrange(at, at + 2)[1]);
}

/// Reading back what was written, for a signed number.
pub proof fn lemma_i16_round_trip(bytes: Seq<u8>, at: int, v: int)
    requires
        -0x8000 <= v < 0x8000,
        in_bounds(bytes, at, 2),
        bytes.subrange(at, at + 2) == i16_bytes(v),
    ensures
        be_i16(bytes, at) == v,
{
    assert(bytes[at] == bytes.subrange(at, at + 2)[0]);
    assert(bytes[at + 1] == bytes.subrange(at, at + 2)[1]);
}

/// Reads an unsigned big-endian 16-bit number.
pub fn read_u16(bytes: &[u8], at: usize) -> (r: Result<u16, DecodeError>)
    ensures
        in_bounds(bytes@, at as int, 2) ==> r == Ok::<u16, DecodeError>(
            be_u16(bytes@, at as int) as u16,
        ),
        !in_bounds(bytes@, at as int, 2) ==> r == Err::<u16, DecodeError>(
            DecodeError::UnexpectedEnd,
        ),
        r matches Ok(v) ==> v == be_u16(bytes@, at as int) && in_bounds(bytes@, at as int, 2),
{
    if at >= bytes.len() || bytes.len() - at < 2 {
        return Err(DecodeError::UnexpectedEnd);
    }
    let hi: u16 = bytes[at] as u16;
    let lo: u16 = bytes[at + 1] as u16;
    Ok(hi * 256 + lo)
}

/// Reads a signed big-endian 16-bit number.
pub fn read_i16(bytes: &[u8], at: usize) -> (r: Result<i16, DecodeError>)
    ensures
        in_bounds(bytes@, at as int, 2) ==> r == Ok::<i16, DecodeError>(
            be_i16(bytes@, at as int) as i16,
        ),
        !in_bounds(bytes@, at as int, 2) ==> r == Err::<i16, DecodeError>(
            DecodeError::UnexpectedEnd,
        ),
        r matches Ok(v) ==> v == be_i16(bytes@, at as int) && in_bounds(bytes@, at as int, 2),
{
    match read_u16(bytes, at) {
        Err(e) => Err(e),
        Ok(u) => {
            let wide: i32 = u as i32;
            if wide >= 0x8000 {
                Ok((wide - 0x10000) as i16)
            } else {
                Ok(wide as i16)
            }
        },
    }
}

/// Reads an unsigned big-endian 32-bit number.
pub fn read_u32(bytes: &[u8], at: usize) -> (r: Result<u32, DecodeError>)
    ensures
        in_bounds(bytes@, at as int, 4) ==> r == Ok::<u32, DecodeError>(
            be_u32(bytes@, at as int) as u32,
        ),
        !in_bounds(bytes@, at as int, 4) ==> r == Err::<u32, DecodeError>(
            DecodeError::UnexpectedEnd,
        ),
        r matches Ok(v) ==> v == be_u32(bytes@, at as int) && in_bounds(bytes@, at as int, 4),
{
    if at >= bytes.len() || bytes.len() - at < 4 {
        return Err(DecodeError::UnexpectedEnd);
    }
    let hi = read_u16(bytes, at);
    let lo = read_u16(bytes, at + 2);
    match (hi, lo) {
        (Ok(h), Ok(l)) => Ok((h as u32) * 0x10000 + l as u32),
        _ => Err(DecodeError::UnexpectedEnd),
    }
}

/// Appends an unsigned 16-bit number, most significant byte first.
pub fn put_u16(out: &mut Vec<u8>, v: u16)
    ensures
        final(out)@ == old(out)@ + u16_bytes(v as int),
{
    out.push((v / 256) as u8);
    out.push((v % 256) as u8);
    proof {
        assert(out@ =~= old(out)@ + u16_bytes(v as int));
    }
}

/// Appends a signed 16-bit number in two's complement, most significant
/// byte first.
pub fn put_i16(out: &mut Vec<u8>, v: i16)
    ensures
        final(out)@ == old(out)@ + i16_bytes(v as int),
{
    let wide: i32 = if v < 0 {
        v as i32 + 0x10000
    } else {
        v as i32
    };
    put_u16(out, wide as u16);
}

} // verus!
