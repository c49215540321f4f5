//! Framing of channel PDUs and their segmentation into transport fragments.

pub mod sar;

use crate::codec;
use crate::codec::{spec_hi, spec_lo, spec_u16_le};
use crate::Error;
use vstd::prelude::*;

verus! {

/// Number of bytes of the header that precedes every PDU.
pub const HEADER_LEN: usize = 4;

/// Largest payload length that a header can declare.
pub const MAX_PDU_LEN: usize = 0xffff;

/// The header of a PDU: the length of its payload and the channel it belongs to.
#[derive(Debug, Clone, Copy, PartialEq, Eq, Structural)]
pub struct L2capHeader {
    /// Number of payload bytes that follow the header.
    pub length: u16,
    /// Id of the destination channel.
    pub channel: u16,
}

impl L2capHeader {
    /// The four bytes that encode the header: length, then channel, each
    /// least significant byte first.
    pub open spec fn bytes(self) -> Seq<u8> {
        seq![spec_lo(self.length), spec_hi(self.length), spec_lo(self.channel), spec_hi(self.channel)]
    }

    /// The header that the first four bytes of `data` encode.
    pub open spec fn parse(data: Seq<u8>) -> L2capHeader {
        L2capHeader { length: spec_u16_le(data[0], data[1]), channel: spec_u16_le(data[2], data[3]) }
    }

    /// Parsing the encoding of a header gives the header back.
    pub proof fn lemma_parse_bytes(self, rest: Seq<u8>)
        ensures
            Self::parse(self.bytes() + rest) == self,
            (self.bytes() + rest).skip(4) == rest,
            self.bytes().len() == 4,
    {
        codec::lemma_u16_round_trip(self.length);
        codec::lemma_u16_round_trip(self.channel);
        assert((self.bytes() + rest).skip(4) =~= rest);
    }

    /// Reads a header from the start of `data`.
    pub fn decode(data: &[u8]) -> (r: Result<L2capHeader, codec::Error>)
        ensures
            match r {
                Ok(h) => data@.len() >= HEADER_LEN && h == Self::parse(data@),
                Err(e) => data@.len() < HEADER_LEN && e == codec::Error::InsufficientSpace,
            },
    {
        if data.len() < HEADER_LEN {
            return Err(codec::Error::InsufficientSpace);
        }
        let length = match codec::decode_u16(data, 0) {
            Ok(v) => v,
            Err(e) => {
                return Err(e);
            },
        };
        let channel = match codec::decode_u16(data, 2) {
            Ok(v) => v,
            Err(e) => {
                return Err(e);
            },
        };
        Ok(L2capHeader { length, channel })
    }

    /// Appends the encoding of the header to `out`.
    pub fn encode(&self, out: &mut Vec<u8>)
        ensures
            final(out)@ == old(out)@ + self.bytes(),
    {
        codec::encode_u16(out, self.length);
        codec::encode_u16(out, self.channel);
        assert(out@ =~= old(out)@ + self.bytes());
    }
}

/// A PDU as it travels: its header followed by its payload.
pub open spec fn frame(channel: u16, pdu: Seq<u8>) -> Seq<u8> {
    (L2capHeader { length: pdu.len() as u16, channel }).bytes() + pdu
}

/// `data` cut into fragments of `size` bytes, the last one holding what is
/// left. There is always at least one fragment, and only a sole fragment can
/// be empty.
pub open spec fn split(data: Seq<u8>, size: int) -> Seq<Seq<u8>>
    decreases data.len(),
{
    if size <= 0 || data.len() <= size {
        seq![data]
    } else {
        seq![data.subrange(0, size)] + split(data.subrange(size, data.len() as int), size)
    }
}

/// The fragments of `data` joined again give `data`.
pub open spec fn concat(fragments: Seq<Seq<u8>>) -> Seq<u8>
    decreases fragments.len(),
{
    if fragments.len() == 0 {
        Seq::empty()
    } else {
        fragments[0] + concat(fragments.skip(1))
    }
}

/// Cutting loses and reorders nothing, and no fragment exceeds the size.
pub proof fn lemma_split(data: Seq<u8>, size: int)
    requires
        size > 0,
    ensures
        concat(split(data, size)) == data,
        split(data, size).len() >= 1,
        forall|k: int| 0 <= k < split(data, size).len() ==> (#[trigger] split(data, size)[k]).len() <= size,
        split(data, size)[0] == data.subrange(0, if data.len() <= size { data.len() as int } else { size }),
    decreases data.len(),
{
    if data.len() <= size {
        let f = seq![data];
        assert(f.skip(1) =~= Seq::<Seq<u8>>::empty());
        assert(concat(f.skip(1)) =~= Seq::<u8>::empty());
        assert(concat(f) =~= data);
        assert(data.subrange(0, data.len() as int) =~= data);
    } else {
        let head = data.subrange(0, size);
        let tail = data.subrange(size, data.len() as int);
        lemma_split(tail, size);
        let f = split(data, size);
        assert(f.skip(1) =~= split(tail, size));
        assert(head + tail =~= data);
        assert forall|k: int| 0 <= k < f.len() implies (#[trigger] f[k]).len() <= size by {
            if k > 0 {
                assert(f[k] == split(tail, size)[k - 1]);
            }
        }
    }
}

/// What each of the given vectors holds.
pub open spec fn contents(fragments: Seq<Vec<u8>>) -> Seq<Seq<u8>> {
    Seq::new(fragments.len(), |k: int| fragments[k]@)
}

/// Cuts the frame of `pdu` for `channel` into fragments of at most `size`
/// bytes: an initial fragment that starts with the header, then continuation
/// fragments that carry payload only.
///
/// Fails with `InvalidValue` when `size` cannot hold a header or the payload
/// is longer than a header can declare.
pub fn segment(channel: u16, pdu: &[u8], size: usize) -> (r: Result<Vec<Vec<u8>>, Error>)
    ensures
        match r {
            Ok(fragments) => {
                &&& size >= HEADER_LEN
                &&& pdu@.len() <= MAX_PDU_LEN
                &&& contents(fragments@) == split(frame(channel, pdu@), size as int)
            },
            Err(e) => e == Error::InvalidValue && (size < HEADER_LEN || pdu@.len() > MAX_PDU_LEN),
        },
{
    if size < HEADER_LEN || pdu.len() > MAX_PDU_LEN {
        return Err(Error::InvalidValue);
    }
    let header = L2capHeader { length: pdu.len() as u16, channel };
    let mut data: Vec<u8> = Vec::new();
    header.encode(&mut data);
    data.extend_from_slice(pdu);
    assert(data@ =~= frame(channel, pdu@));
    let total = data.len();
    let mut fragments: Vec<Vec<u8>> = Vec::new();
    let mut start: usize = 0;
    let ghost whole = split(data@, size as int);
    assert(data@.subrange(0, total as int) =~= data@);
    while total - start > size
        invariant
            size >= HEADER_LEN,
            total == data@.len(),
            start <= total,
            whole =~= contents(fragments@) + split(data@.subrange(start as int, total as int), size as int),
        decreases total - start,
    {
        let mut piece: Vec<u8> = Vec::new();
        piece.extend_from_slice(vstd::slice::slice_subrange(data.as_slice(), start, start + size));
        proof {
            let rest = data@.subrange(start as int, total as int);
            assert(rest.subrange(0, size as int) =~= piece@);
            assert(rest.subrange(size as int, rest.len() as int) =~= data@.subrange(
                start + size,
                total as int,
            ));
            assert(contents(fragments@.push(piece)) =~= contents(fragments@).push(piece@));
        }
        fragments.push(piece);
        start = start + size;
    }
    let mut piece: Vec<u8> = Vec::new();
    piece.extend_from_slice(vstd::slice::slice_subrange(data.as_slice(), start, total));
    proof {
        assert(contents(fragments@.push(piece)) =~= contents(fragments@).push(piece@));
        let rest = data@.subrange(start as int, total as int);
        assert(piece@ == rest);
        assert(split(rest, size as int) == seq![rest]);
    }
    fragments.push(piece);
    assert(contents(fragments@) =~= whole);
    Ok(fragments)
}

} // verus!
