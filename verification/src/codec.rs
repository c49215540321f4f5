//! Little-endian encoding of the integers that appear in protocol headers.

use vstd::prelude::*;

verus! {

/// Why encoding or decoding a value failed.
#[derive(Debug, Clone, Copy, PartialEq, Eq, Structural)]
pub enum Error {
    /// The buffer is too short for the value.
    InsufficientSpace,
    /// The bytes do not form a valid value.
    InvalidValue,
}

/// The 16-bit value whose little-endian encoding is `lo`, `hi`.
pub open spec fn spec_u16_le(lo: u8, hi: u8) -> u16 {
    (lo as int + 256 * (hi as int)) as u16
}

/// The low byte of `v`.
pub open spec fn spec_lo(v: u16) -> u8 {
    (v as int % 256) as u8
}

/// The high byte of `v`.
pub open spec fn spec_hi(v: u16) -> u8 {
    (v as int / 256) as u8
}

/// Decoding the two encoded bytes of a value gives the value back.
pub proof fn lemma_u16_round_trip(v: u16)
    ensures
        spec_u16_le(spec_lo(v), spec_hi(v)) == v,
{
}

/// Reads a little-endian `u16` at `offset`.
pub fn decode_u16(data: &[u8], offset: usize) -> (r: Result<u16, Error>)
    ensures
        match r {
            Ok(v) => offset + 2 <= data@.len() && v == spec_u16_le(
                data@[offset as int],
                data@[offset + 1],
            ),
            Err(e) => offset + 2 > data@.len() && e == Error::InsufficientSpace,
        },
{
    if data.len() < 2 || offset > data.len() - 2 {
        return Err(Error::InsufficientSpace);
    }
    let lo: u16 = data[offset] as u16;
    let hi: u16 = data[offset + 1] as u16;
    Ok(lo + 256 * hi)
}

/// Appends the little-endian encoding of `v` to `out`.
pub fn encode_u16(out: &mut Vec<u8>, v: u16)
    ensures
        final(out)@ == old(out)@.push(spec_lo(v)).push(spec_hi(v)),
{
    out.push((v % 256) as u8);
    out.push((v / 256) as u8);
}

} // verus!
