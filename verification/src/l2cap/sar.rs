//! Reassembly of inbound PDUs from transport fragments.
//!
//! A connection has one reassembly record. The initial fragment of a PDU opens
//! it, continuation fragments fill it, and the fragment that completes the
//! declared length closes it and yields the PDU.

use crate::l2cap::{frame, split, L2capHeader};
use crate::packet_pool::{Packet, PacketPool, PoolOp, PoolView};
use crate::Error;
use vstd::prelude::*;

verus! {

/// A reassembly in progress, as a mathematical value.
pub struct SarState {
    /// The header that opened the reassembly.
    pub header: L2capHeader,
    /// The payload bytes received so far.
    pub bytes: Seq<u8>,
}

/// What feeding a fragment leads to.
pub enum SarOutcome {
    /// More fragments are awaited.
    Partial(SarState),
    /// The PDU is complete; no reassembly is in progress any more.
    Complete { channel: u16, pdu: Seq<u8> },
    /// The fragment was refused; no reassembly is in progress any more.
    Rejected(Error),
}

/// The outcome of an initial fragment with the given header and payload,
/// where `max_len` is the largest payload length accepted.
pub open spec fn sar_begin(
    state: Option<SarState>,
    header: L2capHeader,
    payload: Seq<u8>,
    max_len: int,
) -> SarOutcome {
    if state is Some {
        SarOutcome::Rejected(Error::InvalidState)
    } else if header.length > max_len {
        SarOutcome::Rejected(Error::InvalidValue)
    } else if payload.len() > header.length {
        SarOutcome::Rejected(Error::InsufficientSpace)
    } else if payload.len() == header.length {
        SarOutcome::Complete { channel: header.channel, pdu: payload }
    } else {
        SarOutcome::Partial(SarState { header, bytes: payload })
    }
}

/// The outcome of a continuation fragment.
pub open spec fn sar_update(state: Option<SarState>, payload: Seq<u8>) -> SarOutcome {
    match state {
        None => SarOutcome::Rejected(Error::InvalidState),
        Some(s) => if s.bytes.len() + payload.len() > s.header.length {
            SarOutcome::Rejected(Error::InsufficientSpace)
        } else if s.bytes.len() + payload.len() == s.header.length {
            SarOutcome::Complete { channel: s.header.channel, pdu: s.bytes + payload }
        } else {
            SarOutcome::Partial(SarState { header: s.header, bytes: s.bytes + payload })
        },
    }
}

/// The reassembly that is in progress after an outcome.
pub open spec fn sar_pending(outcome: SarOutcome) -> Option<SarState> {
    match outcome {
        SarOutcome::Partial(s) => Some(s),
        _ => None,
    }
}

/// The outcome of the continuation fragments `fragments`, fed in order after
/// `previous`. A refusal ends the stream.
pub open spec fn sar_continue(previous: SarOutcome, fragments: Seq<Seq<u8>>) -> SarOutcome
    decreases fragments.len(),
{
    if fragments.len() == 0 {
        previous
    } else if previous is Rejected {
        previous
    } else {
        sar_continue(sar_update(sar_pending(previous), fragments[0]), fragments.skip(1))
    }
}

/// The outcome of a whole fragment stream on a connection with no reassembly
/// in progress: the first fragment is the initial one and starts with a
/// header, the others are continuations.
pub open spec fn sar_reassemble(fragments: Seq<Seq<u8>>, max_len: int) -> SarOutcome {
    if fragments.len() == 0 || fragments[0].len() < 4 {
        SarOutcome::Rejected(Error::InsufficientSpace)
    } else {
        sar_continue(
            sar_begin(None, L2capHeader::parse(fragments[0]), fragments[0].skip(4), max_len),
            fragments.skip(1),
        )
    }
}

proof fn lemma_continue_rest(state: SarState, rest: Seq<u8>, size: int)
    requires
        size > 0,
        rest.len() > 0,
        state.bytes.len() + rest.len() == state.header.length,
    ensures
        sar_continue(SarOutcome::Partial(state), split(rest, size)) == (SarOutcome::Complete {
            channel: state.header.channel,
            pdu: state.bytes + rest,
        }),
    decreases rest.len(),
{
    let fragments = split(rest, size);
    let start = SarOutcome::Partial(state);
    assert(sar_pending(start) == Some(state));
    if rest.len() <= size {
        assert(fragments.skip(1) =~= Seq::<Seq<u8>>::empty());
        assert(fragments[0] == rest);
        let done = sar_update(Some(state), rest);
        assert(done == SarOutcome::Complete { channel: state.header.channel, pdu: state.bytes + rest });
        assert(sar_continue(done, fragments.skip(1)) == done);
        assert(sar_continue(start, fragments) == sar_continue(done, fragments.skip(1)));
    } else {
        let head = rest.subrange(0, size);
        let tail = rest.subrange(size, rest.len() as int);
        assert(fragments.skip(1) =~= split(tail, size));
        assert(fragments[0] == head);
        let next = SarState { header: state.header, bytes: state.bytes + head };
        assert(sar_update(Some(state), head) == SarOutcome::Partial(next));
        lemma_continue_rest(next, tail, size);
        assert(next.bytes + tail =~= state.bytes + rest);
        assert(sar_continue(start, fragments) == sar_continue(SarOutcome::Partial(next), split(tail, size)));
    }
}

/// Round trip: the fragments into which a PDU is segmented, reassembled in
/// order, yield the PDU and its channel again. This holds for every payload
/// that a header can declare and the receiver accepts, and for every fragment
/// size that can hold a header.
pub proof fn lemma_segment_reassemble(channel: u16, pdu: Seq<u8>, size: int, max_len: int)
    requires
        size >= 4,
        pdu.len() <= 0xffff,
        pdu.len() <= max_len,
    ensures
        sar_reassemble(split(frame(channel, pdu), size), max_len) == (SarOutcome::Complete {
            channel,
            pdu,
        }),
{
    let header = L2capHeader { length: pdu.len() as u16, channel };
    let data = frame(channel, pdu);
    let fragments = split(data, size);
    header.lemma_parse_bytes(pdu);
    assert(data.len() == 4 + pdu.len());
    if data.len() <= size {
        assert(fragments.skip(1) =~= Seq::<Seq<u8>>::empty());
        assert(fragments[0] == data);
    } else {
        let head = data.subrange(0, size);
        let tail = data.subrange(size, data.len() as int);
        assert(fragments.skip(1) =~= split(tail, size));
        assert(fragments[0] == head);
        assert(L2capHeader::parse(head) == L2capHeader::parse(data));
        let first = head.skip(4);
        assert(first =~= pdu.subrange(0, size - 4));
        assert(tail =~= pdu.subrange(size - 4, pdu.len() as int));
        let state = SarState { header, bytes: first };
        assert(sar_begin(None, header, first, max_len) == SarOutcome::Partial(state));
        lemma_continue_rest(state, tail, size);
        assert(first + tail =~= pdu);
    }
}

/// A continuation fragment that arrives while no reassembly is in progress is
/// refused as a protocol error, whatever it holds.
pub proof fn lemma_orphan_continuation(payload: Seq<u8>)
    ensures
        sar_update(None, payload) == SarOutcome::Rejected(Error::InvalidState),
{
}

/// A complete PDU in a buffer of the pool.
#[derive(Debug, PartialEq)]
pub struct Pdu {
    /// Id of the channel that the PDU is addressed to.
    pub channel: u16,
    /// The buffer that holds the payload.
    pub packet: Packet,
}

/// The reassembly record of a connection.
#[derive(Debug, PartialEq)]
pub struct Reassembly {
    header: L2capHeader,
    packet: Packet,
}

impl Reassembly {
    /// The header that opened the reassembly.
    pub closed spec fn header(&self) -> L2capHeader {
        self.header
    }

    /// The slot of the buffer that accumulates the payload.
    pub closed spec fn slot(&self) -> int {
        self.packet.slot()
    }

    /// The record that opened with `header` and fills the buffer in `slot`.
    pub closed spec fn of(header: L2capHeader, slot: int) -> Reassembly {
        Reassembly { header, packet: Packet::at(slot) }
    }

    /// The record made of a header and a slot has that header and that slot.
    pub proof fn lemma_of(header: L2capHeader, slot: int)
        requires
            0 <= slot <= usize::MAX,
        ensures
            Reassembly::of(header, slot).header() == header,
            Reassembly::of(header, slot).slot() == slot,
    {
        Packet::lemma_slot_at(slot);
    }

    /// The reassembly as a mathematical value, read from the pool that holds
    /// its buffer.
    pub open spec fn state(&self, pool: PoolView) -> SarState {
        SarState { header: self.header(), bytes: pool.slots[self.slot()].bytes }
    }
}

/// The reassembly in progress that a record and its pool stand for.
pub open spec fn pending(record: Option<Reassembly>, pool: PoolView) -> Option<SarState> {
    match record {
        Some(r) => Some(r.state(pool)),
        None => None,
    }
}

/// The pool once the buffer of `record`, if there is one, has been released.
pub open spec fn pool_without(record: Option<Reassembly>, pool: PoolView) -> PoolView {
    match record {
        Some(r) => pool.released(r.slot()),
        None => pool,
    }
}

/// Why an initial fragment cannot be taken in, if it cannot: the checks are
/// made in this order, and none of them changes anything.
pub open spec fn begin_refusal(
    record: Option<Reassembly>,
    pool: PoolView,
    header: L2capHeader,
    payload_len: int,
    max_len: int,
) -> Option<Error> {
    if record is Some {
        Some(Error::InvalidState)
    } else if header.length > max_len || header.length > pool.mtu {
        Some(Error::InvalidValue)
    } else if payload_len > header.length {
        Some(Error::InsufficientSpace)
    } else if pool.exhausted() {
        Some(Error::OutOfMemory)
    } else {
        None
    }
}

/// Why a continuation fragment cannot be taken in, if it cannot: no
/// reassembly is in progress, its buffer is not held by the record alone, or
/// the bytes would exceed the declared length or the buffer.
pub open spec fn update_refusal(record: Option<Reassembly>, pool: PoolView, payload_len: int) -> Option<
    Error,
> {
    match record {
        None => Some(Error::InvalidState),
        Some(r) => if !pool.exclusive(r.slot()) {
            Some(Error::InvalidState)
        } else if pool.slots[r.slot()].bytes.len() + payload_len > r.header().length
            || pool.slots[r.slot()].bytes.len() + payload_len > pool.mtu {
            Some(Error::InsufficientSpace)
        } else {
            None
        },
    }
}

/// What a call that returned `result` and left `record` stands for.
pub open spec fn outcome_of(
    result: Result<Option<Pdu>, Error>,
    record: Option<Reassembly>,
    pool: PoolView,
) -> SarOutcome {
    match result {
        Ok(Some(pdu)) => SarOutcome::Complete {
            channel: pdu.channel,
            pdu: pool.slots[pdu.packet.slot()].bytes,
        },
        Ok(None) => match record {
            Some(r) => SarOutcome::Partial(r.state(pool)),
            None => SarOutcome::Rejected(Error::InvalidState),
        },
        Err(e) => SarOutcome::Rejected(e),
    }
}

/// What taking in an initial fragment makes of a record and its pool, and
/// what it returns.
///
/// It succeeds exactly when no check refuses the fragment. It then takes the
/// first free buffer of the pool and writes the payload to it; the buffer goes
/// to the record while the PDU is incomplete, and to the result once it is
/// complete. A refusal changes nothing.
pub open spec fn begin_model(
    record: Option<Reassembly>,
    pool: PoolView,
    header: L2capHeader,
    payload: Seq<u8>,
    max_len: int,
) -> (Option<Reassembly>, PoolView, Result<Option<Pdu>, Error>) {
    match begin_refusal(record, pool, header, payload.len() as int, max_len) {
        Some(e) => (record, pool, Err(e)),
        None => {
            let slot = pool.free_slot()->0;
            let filled = pool.allocated(slot).appended(slot, payload);
            if payload.len() == header.length {
                (None, filled, Ok(Some(Pdu { channel: header.channel, packet: Packet::at(slot) })))
            } else {
                (Some(Reassembly::of(header, slot)), filled, Ok(None))
            }
        },
    }
}

/// What taking in a continuation fragment makes of a record and its pool,
/// and what it returns.
///
/// It succeeds exactly when no check refuses the fragment. It then appends
/// the payload to the record's buffer; the buffer goes to the result once the
/// PDU is complete. A refusal ends the reassembly and releases its buffer.
pub open spec fn update_model(record: Option<Reassembly>, pool: PoolView, payload: Seq<u8>) -> (
    Option<Reassembly>,
    PoolView,
    Result<Option<Pdu>, Error>,
) {
    match update_refusal(record, pool, payload.len() as int) {
        Some(e) => (None, pool_without(record, pool), Err(e)),
        None => {
            let current = record->0;
            let filled = pool.appended(current.slot(), payload);
            if pool.slots[current.slot()].bytes.len() + payload.len() == current.header().length {
                (
                    None,
                    filled,
                    Ok(Some(Pdu { channel: current.header().channel, packet: Packet::at(current.slot()) })),
                )
            } else {
                (record, filled, Ok(None))
            }
        },
    }
}

/// What the models give stands for what the mathematical reassembly gives:
/// wherever a fragment is taken in, the record and its buffer afterwards hold
/// the state, or the result holds the PDU, that `sar_begin` and `sar_update`
/// name.
pub proof fn lemma_models(
    record: Option<Reassembly>,
    pool: PoolView,
    header: L2capHeader,
    payload: Seq<u8>,
    max_len: int,
)
    requires
        pool.slots.len() <= usize::MAX,
    ensures
        begin_model(record, pool, header, payload, max_len).2 is Ok ==> outcome_of(
            begin_model(record, pool, header, payload, max_len).2,
            begin_model(record, pool, header, payload, max_len).0,
            begin_model(record, pool, header, payload, max_len).1,
        ) == sar_begin(None, header, payload, max_len),
        update_model(record, pool, payload).2 is Ok ==> outcome_of(
            update_model(record, pool, payload).2,
            update_model(record, pool, payload).0,
            update_model(record, pool, payload).1,
        ) == sar_update(pending(record, pool), payload),
{
    if begin_model(record, pool, header, payload, max_len).2 is Ok {
        crate::packet_pool::lemma_free_slot(pool);
        let slot = pool.free_slot()->0;
        let filled = pool.allocated(slot).appended(slot, payload);
        assert(filled.slots[slot].bytes =~= payload);
        Packet::lemma_slot_at(slot);
        Reassembly::lemma_of(header, slot);
    }
    if update_model(record, pool, payload).2 is Ok {
        let current = record->0;
        current.packet.lemma_at();
    }
}

/// Takes in the initial fragment of a PDU: `header` is its decoded header and
/// `payload` what follows the header in the fragment.
///
/// A header that declares more than `max_len` bytes, or more than a buffer
/// holds, is refused before any buffer is taken or any byte copied. On a
/// refusal nothing changes. `OutOfMemory` means that the pool is exhausted
/// and the same fragment can be offered again later.
pub fn begin(
    record: &mut Option<Reassembly>,
    pool: &mut PacketPool,
    header: L2capHeader,
    payload: &[u8],
    max_len: usize,
) -> (r: Result<Option<Pdu>, Error>)
    requires
        old(pool).wf(),
    ensures
        final(pool).wf(),
        (*final(record), final(pool)@, r) == begin_model(
            *old(record),
            old(pool)@,
            header,
            payload@,
            max_len as int,
        ),
{
    if record.is_some() {
        return Err(Error::InvalidState);
    }
    let length = header.length as usize;
    if length > max_len || length > pool.mtu() {
        return Err(Error::InvalidValue);
    }
    if payload.len() > length {
        return Err(Error::InsufficientSpace);
    }
    let packet = match pool.allocate() {
        Some(p) => p,
        None => {
            return Err(Error::OutOfMemory);
        },
    };
    let appended = pool.append(&packet, payload);
    assert(appended is Ok);
    proof {
        crate::packet_pool::lemma_free_slot(old(pool)@);
        packet.lemma_at();
    }
    if payload.len() == length {
        Ok(Some(Pdu { channel: header.channel, packet }))
    } else {
        *record = Some(Reassembly { header, packet });
        Ok(None)
    }
}

/// Takes in a continuation fragment.
///
/// A fragment that arrives while no reassembly is in progress, or that would
/// exceed the declared length, is refused; a refusal ends the reassembly and
/// gives its buffer back to the pool, so that no partial PDU is retained.
pub fn update(record: &mut Option<Reassembly>, pool: &mut PacketPool, payload: &[u8]) -> (r: Result<
    Option<Pdu>,
    Error,
>)
    requires
        old(pool).wf(),
    ensures
        final(pool).wf(),
        (*final(record), final(pool)@, r) == update_model(*old(record), old(pool)@, payload@),
{
    let current = match record.take() {
        Some(c) => c,
        None => {
            return Err(Error::InvalidState);
        },
    };
    let have = match pool.data(&current.packet) {
        Some(bytes) => bytes.len(),
        None => {
            let _ = pool.release(current.packet);
            return Err(Error::InvalidState);
        },
    };
    if pool.ref_count(&current.packet) != 1 {
        let _ = pool.release(current.packet);
        return Err(Error::InvalidState);
    }
    let length = current.header.length as usize;
    if have > length || payload.len() > length - have {
        let _ = pool.release(current.packet);
        return Err(Error::InsufficientSpace);
    }
    proof {
        pool.lemma_wf();
    }
    match pool.append(&current.packet, payload) {
        Ok(_) => {},
        Err(_) => {
            let _ = pool.release(current.packet);
            return Err(Error::InsufficientSpace);
        },
    }
    proof {
        current.packet.lemma_at();
    }
    if have + payload.len() == length {
        Ok(Some(Pdu { channel: current.header.channel, packet: current.packet }))
    } else {
        *record = Some(current);
        Ok(None)
    }
}

/// Ends the reassembly in progress, if there is one, and gives its buffer
/// back to the pool.
pub fn abort(record: &mut Option<Reassembly>, pool: &mut PacketPool)
    requires
        old(pool).wf(),
    ensures
        final(pool).wf(),
        *final(record) is None,
        final(pool)@ == pool_without(*old(record), old(pool)@),
{
    match record.take() {
        Some(current) => {
            let _ = pool.release(current.packet);
        },
        None => {},
    }
}

} // verus!
