//! The fixed-capacity table of logical channels.
//!
//! A channel is bound to one connection and identified by a channel id that
//! names its slot. It keeps the PDU size that was negotiated when it was
//! opened, a bounded queue of inbound PDUs, and, when it is credit based, the
//! credits that each side may still spend.

use crate::connection_manager::{ConnectionManager, ConnectionState};
use crate::hci::ConnHandle;
use crate::packet_pool::{Packet, PacketPool, PoolView};
use crate::Error;
use vstd::prelude::*;

verus! {

/// The channel id of the first slot; slot `i` has the id `BASE_ID + i`.
pub const BASE_ID: u16 = 0x0040;

/// Number of slots that channel ids can name. A table may have more slots;
/// those beyond are never opened.
pub const MAX_CHANNELS: usize = 0xffc0;

/// The state of a channel slot.
#[derive(Debug, Clone, Copy, PartialEq, Eq, Structural)]
pub enum ChannelState {
    /// The slot is free: never used, or closed.
    Disconnected,
    /// The channel is open.
    Connected,
}

/// What the opening handshake of a channel settled.
#[derive(Debug, Clone, Copy, PartialEq, Eq, Structural)]
pub struct ChannelParams {
    /// Id of the channel at the peer.
    pub peer_cid: u16,
    /// Largest PDU that the local side accepts.
    pub mtu: u16,
    /// Largest PDU that the peer accepts.
    pub peer_mtu: u16,
    /// Whether the channel uses credit-based flow control.
    pub credit_based: bool,
    /// PDUs that the peer may still send.
    pub credits: u16,
    /// PDUs that the local side may still send.
    pub peer_credits: u16,
}

/// One slot of the table.
pub struct ChannelStorage {
    state: ChannelState,
    conn: Option<ConnHandle>,
    params: ChannelParams,
    inbound: Vec<Packet>,
}

/// A slot as a mathematical value.
pub struct ChannelView {
    /// State of the slot.
    pub state: ChannelState,
    /// Number of the handle of the connection that the channel is bound to.
    pub conn: Option<u16>,
    /// The negotiated parameters, with the current credit counts.
    pub params: ChannelParams,
    /// Buffers of the queued inbound PDUs, oldest first.
    pub inbound: Seq<Packet>,
}

/// The parameters of a free slot.
pub open spec fn no_params() -> ChannelParams {
    ChannelParams { peer_cid: 0, mtu: 0, peer_mtu: 0, credit_based: false, credits: 0, peer_credits: 0 }
}

impl ChannelView {
    /// A free slot.
    pub open spec fn vacant() -> ChannelView {
        ChannelView { state: ChannelState::Disconnected, conn: None, params: no_params(), inbound: Seq::empty() }
    }

    /// A slot that a channel has just occupied.
    pub open spec fn fresh(conn: u16, params: ChannelParams) -> ChannelView {
        ChannelView { state: ChannelState::Connected, conn: Some(conn), params, inbound: Seq::empty() }
    }

    /// The invariant of a slot: it is free exactly when it is bound to no
    /// connection, and a free slot holds nothing.
    pub open spec fn wf(self, queue_capacity: nat) -> bool {
        &&& self.state is Disconnected <==> self.conn is None
        &&& self.state is Disconnected ==> self == Self::vacant()
        &&& self.inbound.len() <= queue_capacity
    }

    /// The slot with `n` of the peer's credits spent, unless it is not credit
    /// based.
    pub open spec fn spent(self, n: u16) -> ChannelView {
        if self.params.credit_based {
            ChannelView {
                params: ChannelParams { peer_credits: (self.params.peer_credits - n) as u16, ..self.params },
                ..self
            }
        } else {
            self
        }
    }

    /// Whether the local side may send `n` PDUs now.
    pub open spec fn can_send(self, n: u16) -> bool {
        self.state is Connected && (self.params.credit_based ==> self.params.peer_credits >= n)
    }

    /// The slot with one more inbound PDU queued, and one of the local
    /// credits spent if it is credit based.
    pub open spec fn delivered(self, buffer: Packet) -> ChannelView {
        ChannelView {
            params: if self.params.credit_based {
                ChannelParams { credits: (self.params.credits - 1) as u16, ..self.params }
            } else {
                self.params
            },
            inbound: self.inbound.push(buffer),
            ..self
        }
    }
}

impl View for ChannelStorage {
    type V = ChannelView;

    closed spec fn view(&self) -> ChannelView {
        ChannelView {
            state: self.state,
            conn: match self.conn {
                Some(h) => Some(h@),
                None => None,
            },
            params: self.params,
            inbound: self.inbound@,
        }
    }
}

/// The slot that a channel id names.
pub open spec fn slot_index(cid: u16) -> int {
    cid - BASE_ID
}

/// The channel `cid` is open.
pub open spec fn is_open(slots: Seq<ChannelView>, cid: u16) -> bool {
    0 <= slot_index(cid) < slots.len() && slots[slot_index(cid)].state is Connected
}

/// The channel `cid` is open and bound to the connection `conn`.
pub open spec fn bound_to(slots: Seq<ChannelView>, cid: u16, conn: u16) -> bool {
    is_open(slots, cid) && slots[slot_index(cid)].conn == Some(conn)
}

/// Slot `i` is free, a channel id can name it, and every slot before it is
/// occupied.
pub open spec fn first_free(slots: Seq<ChannelView>, i: int) -> bool {
    &&& 0 <= i < slots.len()
    &&& i < MAX_CHANNELS
    &&& slots[i].state is Disconnected
    &&& forall|j: int| 0 <= j < i ==> (#[trigger] slots[j]).state is Connected
}

/// No slot that a channel id can name is free.
pub open spec fn no_free_slot(slots: Seq<ChannelView>) -> bool {
    forall|j: int| 0 <= j < slots.len() && j < MAX_CHANNELS ==> (#[trigger] slots[j]).state is Connected
}

/// The invariant of a table.
pub open spec fn table_wf(slots: Seq<ChannelView>, queue_capacity: nat) -> bool {
    forall|i: int| 0 <= i < slots.len() ==> (#[trigger] slots[i]).wf(queue_capacity)
}

/// Why an inbound PDU cannot be queued on the channel `cid`, if it cannot.
pub open spec fn enqueue_refusal(slots: Seq<ChannelView>, cid: u16, queue_capacity: nat) -> Option<Error> {
    if !is_open(slots, cid) {
        Some(Error::ChannelClosed)
    } else if slots[slot_index(cid)].params.credit_based && slots[slot_index(cid)].params.credits == 0 {
        Some(Error::InvalidState)
    } else if slots[slot_index(cid)].inbound.len() >= queue_capacity {
        Some(Error::OutOfMemory)
    } else {
        None
    }
}

/// The pool once every buffer of `buffers` has been released, the newest
/// first.
pub open spec fn released_all(pool: PoolView, buffers: Seq<Packet>) -> PoolView
    decreases buffers.len(),
{
    if buffers.len() == 0 {
        pool
    } else {
        released_all(pool.released(buffers.last().slot()), buffers.drop_last())
    }
}

/// The table after the channel `cid` was closed: its slot is free again. A
/// channel that is not open leaves the table as it is.
pub open spec fn after_close(slots: Seq<ChannelView>, cid: u16) -> Seq<ChannelView> {
    if is_open(slots, cid) {
        slots.update(slot_index(cid), ChannelView::vacant())
    } else {
        slots
    }
}

/// The pool after the channel `cid` was closed: the buffers that its queue
/// held are released.
pub open spec fn pool_after_close(slots: Seq<ChannelView>, cid: u16, pool: PoolView) -> PoolView {
    if is_open(slots, cid) {
        released_all(pool, slots[slot_index(cid)].inbound)
    } else {
        pool
    }
}

/// The table after every channel bound to `conn` was closed.
pub open spec fn after_close_all(slots: Seq<ChannelView>, conn: u16) -> Seq<ChannelView> {
    Seq::new(
        slots.len(),
        |i: int|
            if slots[i].conn == Some(conn) {
                ChannelView::vacant()
            } else {
                slots[i]
            },
    )
}

/// The pool after the channels bound to `conn` among the first `n` slots
/// were closed, in the order of their slots.
pub open spec fn pool_after_close_all(slots: Seq<ChannelView>, conn: u16, pool: PoolView, n: int) -> PoolView
    decreases n,
{
    if n <= 0 {
        pool
    } else {
        let before = pool_after_close_all(slots, conn, pool, n - 1);
        if slots[n - 1].conn == Some(conn) {
            released_all(before, slots[n - 1].inbound)
        } else {
            before
        }
    }
}

/// Number of open channels among the first `n` slots.
pub open spec fn open_among(slots: Seq<ChannelView>, n: int) -> nat
    decreases n,
{
    if n <= 0 {
        0
    } else {
        open_among(slots, n - 1) + (if slots[n - 1].state is Connected {
            1nat
        } else {
            0nat
        })
    }
}

/// Closing a channel twice is closing it once, and no channel stays bound to
/// a connection whose channels were all closed.
pub proof fn lemma_close(slots: Seq<ChannelView>, capacity: nat, cid: u16, conn: u16)
    requires
        table_wf(slots, capacity),
    ensures
        table_wf(after_close(slots, cid), capacity),
        !is_open(after_close(slots, cid), cid),
        after_close(after_close(slots, cid), cid) == after_close(slots, cid),
        table_wf(after_close_all(slots, conn), capacity),
        forall|c: u16| !bound_to(after_close_all(slots, conn), c, conn),
{
}

/// Gives the buffers of a queue back to the pool and leaves the queue empty.
pub fn release_all(pool: &mut PacketPool, buffers: &mut Vec<Packet>)
    requires
        old(pool).wf(),
    ensures
        final(pool).wf(),
        final(buffers)@.len() == 0,
        final(pool)@ == released_all(old(pool)@, old(buffers)@),
{
    while buffers.len() > 0
        invariant
            pool.wf(),
            released_all(pool@, buffers@) == released_all(old(pool)@, old(buffers)@),
        decreases buffers@.len(),
    {
        match buffers.pop() {
            Some(buffer) => {
                let _ = pool.release(buffer);
            },
            None => {},
        }
    }
}

/// The table of channels.
pub struct ChannelManager {
    slots: Vec<ChannelStorage>,
    queue_capacity: usize,
}

impl View for ChannelManager {
    type V = Seq<ChannelView>;

    closed spec fn view(&self) -> Seq<ChannelView> {
        Seq::new(self.slots@.len(), |i: int| self.slots@[i]@)
    }
}

impl ChannelManager {
    /// Number of PDUs that the inbound queue of one channel holds at most.
    pub closed spec fn queue_capacity(&self) -> nat {
        self.queue_capacity as nat
    }

    /// The invariant of the table.
    pub open spec fn wf(&self) -> bool {
        table_wf(self@, self.queue_capacity())
    }

    /// A table of `capacity` free slots whose inbound queues hold
    /// `queue_capacity` PDUs each.
    pub fn new(capacity: usize, queue_capacity: usize) -> (table: Self)
        ensures
            table.wf(),
            table@.len() == capacity,
            table.queue_capacity() == queue_capacity,
            forall|i: int| 0 <= i < capacity ==> table@[i] == ChannelView::vacant(),
    {
        let mut slots: Vec<ChannelStorage> = Vec::new();
        let mut i: usize = 0;
        while i < capacity
            invariant
                i <= capacity,
                slots@.len() == i,
                forall|j: int| 0 <= j < i ==> (#[trigger] slots@[j])@ == ChannelView::vacant(),
            decreases capacity - i,
        {
            slots.push(
                ChannelStorage {
                    state: ChannelState::Disconnected,
                    conn: None,
                    params: ChannelParams {
                        peer_cid: 0,
                        mtu: 0,
                        peer_mtu: 0,
                        credit_based: false,
                        credits: 0,
                        peer_credits: 0,
                    },
                    inbound: Vec::new(),
                },
            );
            i += 1;
        }
        ChannelManager { slots, queue_capacity }
    }

    /// Number of slots.
    pub fn capacity(&self) -> (r: usize)
        ensures
            r == self@.len(),
    {
        self.slots.len()
    }

    /// The slot of an open channel.
    fn index(&self, cid: u16) -> (r: Option<usize>)
        ensures
            match r {
                Some(i) => is_open(self@, cid) && i == slot_index(cid),
                None => !is_open(self@, cid),
            },
    {
        if cid < BASE_ID {
            return None;
        }
        let i = (cid - BASE_ID) as usize;
        if i >= self.slots.len() {
            return None;
        }
        match self.slots[i].state {
            ChannelState::Connected => Some(i),
            ChannelState::Disconnected => None,
        }
    }

    /// Opens a channel on the connection of `handle` once the opening
    /// handshake has completed, and returns its id.
    ///
    /// Returns `None`, changing nothing, when the connection is not in the
    /// connected state or no slot that a channel id can name is free.
    pub fn open(&mut self, connections: &ConnectionManager, handle: ConnHandle, params: ChannelParams) -> (r:
        Option<u16>)
        requires
            old(self).wf(),
            connections.wf(),
        ensures
            final(self).wf(),
            final(self).queue_capacity() == old(self).queue_capacity(),
            match r {
                Some(cid) => {
                    &&& is_connected(connections, handle)
                    &&& first_free(old(self)@, slot_index(cid))
                    &&& final(self)@ == old(self)@.update(slot_index(cid), ChannelView::fresh(handle@, params))
                },
                None => final(self)@ == old(self)@ && (!is_connected(connections, handle) || no_free_slot(
                    old(self)@,
                )),
            },
    {
        match connections.state(handle) {
            ConnectionState::Connected => {},
            _ => {
                return None;
            },
        }
        let mut i: usize = 0;
        while i < self.slots.len() && i < MAX_CHANNELS
            invariant
                i <= self.slots@.len(),
                i <= MAX_CHANNELS,
                *self == *old(self),
                self.wf(),
                is_connected(connections, handle),
                forall|j: int| 0 <= j < i ==> (#[trigger] self@[j]).state is Connected,
            decreases self.slots@.len() - i,
        {
            if let ChannelState::Disconnected = self.slots[i].state {
                assert(first_free(self@, i as int));
                assert(self@[i as int].wf(self.queue_capacity()));
                self.slots[i].state = ChannelState::Connected;
                self.slots[i].conn = Some(handle);
                self.slots[i].params = params;
                let cid: u16 = BASE_ID + i as u16;
                proof {
                    assert(self@ =~= old(self)@.update(i as int, ChannelView::fresh(handle@, params)));
                }
                return Some(cid);
            }
            assert(self@[i as int].state is Connected);
            i += 1;
        }
        None
    }

    /// Closes the channel `cid`: it takes no further inbound PDUs, a receiver
    /// finds it closed, the buffers of its queue go back to the pool, and its
    /// slot is free again. Returns whether the channel was open.
    pub fn close(&mut self, cid: u16, pool: &mut PacketPool) -> (r: bool)
        requires
            old(self).wf(),
            old(pool).wf(),
        ensures
            final(self).wf(),
            final(pool).wf(),
            final(self).queue_capacity() == old(self).queue_capacity(),
            r == is_open(old(self)@, cid),
            final(self)@ == after_close(old(self)@, cid),
            final(pool)@ == pool_after_close(old(self)@, cid, old(pool)@),
    {
        let i = match self.index(cid) {
            Some(i) => i,
            None => {
                return false;
            },
        };
        self.reset(i, pool);
        true
    }

    /// Frees slot `i` and releases the buffers of its queue.
    fn reset(&mut self, i: usize, pool: &mut PacketPool)
        requires
            old(self).wf(),
            old(pool).wf(),
            i < old(self)@.len(),
        ensures
            final(self).wf(),
            final(pool).wf(),
            final(self).queue_capacity() == old(self).queue_capacity(),
            final(self)@ == old(self)@.update(i as int, ChannelView::vacant()),
            final(pool)@ == released_all(old(pool)@, old(self)@[i as int].inbound),
    {
        release_all(pool, &mut self.slots[i].inbound);
        self.slots[i].state = ChannelState::Disconnected;
        self.slots[i].conn = None;
        self.slots[i].params = ChannelParams {
            peer_cid: 0,
            mtu: 0,
            peer_mtu: 0,
            credit_based: false,
            credits: 0,
            peer_credits: 0,
        };
        proof {
            assert(self.slots@[i as int].inbound@ =~= Seq::<Packet>::empty());
            assert(self@[i as int] == ChannelView::vacant());
            assert(self@ =~= old(self)@.update(i as int, ChannelView::vacant()));
        }
    }

    /// Closes every channel that is bound to the connection of `handle`, as
    /// `close` does, and returns how many were closed.
    pub fn close_all(&mut self, handle: ConnHandle, pool: &mut PacketPool) -> (r: usize)
        requires
            old(self).wf(),
            old(pool).wf(),
        ensures
            final(self).wf(),
            final(pool).wf(),
            final(self).queue_capacity() == old(self).queue_capacity(),
            final(self)@ == after_close_all(old(self)@, handle@),
            final(pool)@ == pool_after_close_all(old(self)@, handle@, old(pool)@, old(self)@.len() as int),
            r == open_among(old(self)@, old(self)@.len() as int) - open_among(
                final(self)@,
                old(self)@.len() as int,
            ),
    {
        let mut closed: usize = 0;
        let mut i: usize = 0;
        while i < self.slots.len()
            invariant
                i <= self.slots@.len(),
                closed <= i,
                self.wf(),
                pool.wf(),
                self.queue_capacity() == old(self).queue_capacity(),
                self@.len() == old(self)@.len(),
                forall|j: int| 0 <= j < i ==> self@[j] == after_close_all(old(self)@, handle@)[j],
                forall|j: int| i <= j < self@.len() ==> self@[j] == old(self)@[j],
                pool@ == pool_after_close_all(old(self)@, handle@, old(pool)@, i as int),
                closed == open_among(old(self)@, i as int) - open_among(self@, i as int),
            decreases self.slots@.len() - i,
        {
            let bound = match self.slots[i].conn {
                Some(h) => h.raw() == handle.raw(),
                None => false,
            };
            proof {
                assert(self@[i as int].wf(self.queue_capacity()));
                lemma_open_among_prefix(old(self)@, self@, i as int);
            }
            let ghost before = self@;
            if bound {
                self.reset(i, pool);
                closed += 1;
            }
            proof {
                lemma_open_among_same(before, self@, i as int);
            }
            i += 1;
        }
        proof {
            assert(self@ =~= after_close_all(old(self)@, handle@));
        }
        closed
    }

    /// Checks that `cid` names an open channel that is bound to the
    /// connection of `handle`; fails with `InvalidChannelId` otherwise.
    pub fn bind_check(&self, cid: u16, handle: ConnHandle) -> (r: Result<(), Error>)
        ensures
            match r {
                Ok(_) => bound_to(self@, cid, handle@),
                Err(e) => e == Error::InvalidChannelId && !bound_to(self@, cid, handle@),
            },
    {
        let i = match self.index(cid) {
            Some(i) => i,
            None => {
                return Err(Error::InvalidChannelId);
            },
        };
        match self.slots[i].conn {
            Some(h) => {
                if h.raw() == handle.raw() {
                    Ok(())
                } else {
                    Err(Error::InvalidChannelId)
                }
            },
            None => Err(Error::InvalidChannelId),
        }
    }

    /// The handle of the connection that the open channel `cid` is bound to.
    pub fn connection(&self, cid: u16) -> (r: Option<ConnHandle>)
        requires
            self.wf(),
        ensures
            match r {
                Some(h) => is_open(self@, cid) && self@[slot_index(cid)].conn == Some(h@),
                None => !is_open(self@, cid),
            },
    {
        match self.index(cid) {
            Some(i) => {
                assert(self@[i as int].wf(self.queue_capacity()));
                self.slots[i].conn
            },
            None => None,
        }
    }

    /// The parameters of the open channel `cid`, with its current credits.
    pub fn params(&self, cid: u16) -> (r: Option<ChannelParams>)
        ensures
            match r {
                Some(p) => is_open(self@, cid) && p == self@[slot_index(cid)].params,
                None => !is_open(self@, cid),
            },
    {
        match self.index(cid) {
            Some(i) => Some(self.slots[i].params),
            None => None,
        }
    }

    /// Checks the payload length that the header of an inbound PDU declares
    /// against the size negotiated for its channel, and returns that size.
    ///
    /// A length above the negotiated size fails the channel, not merely the
    /// PDU: the channel is closed as `close` does and the call fails with
    /// `InvalidValue`. For a channel that is not open it fails with
    /// `InvalidChannelId` and changes nothing.
    pub fn accept_length(&mut self, cid: u16, length: u16, pool: &mut PacketPool) -> (r: Result<u16, Error>)
        requires
            old(self).wf(),
            old(pool).wf(),
        ensures
            final(self).wf(),
            final(pool).wf(),
            final(self).queue_capacity() == old(self).queue_capacity(),
            match r {
                Ok(mtu) => {
                    &&& is_open(old(self)@, cid)
                    &&& mtu == old(self)@[slot_index(cid)].params.mtu
                    &&& length <= mtu
                    &&& final(self)@ == old(self)@
                    &&& final(pool)@ == old(pool)@
                },
                Err(e) => if is_open(old(self)@, cid) {
                    &&& e == Error::InvalidValue
                    &&& length > old(self)@[slot_index(cid)].params.mtu
                    &&& final(self)@ == after_close(old(self)@, cid)
                    &&& final(pool)@ == pool_after_close(old(self)@, cid, old(pool)@)
                } else {
                    e == Error::InvalidChannelId && final(self)@ == old(self)@ && final(pool)@ == old(pool)@
                },
            },
    {
        let i = match self.index(cid) {
            Some(i) => i,
            None => {
                return Err(Error::InvalidChannelId);
            },
        };
        let mtu = self.slots[i].params.mtu;
        if length > mtu {
            self.reset(i, pool);
            return Err(Error::InvalidValue);
        }
        Ok(mtu)
    }

    /// Queues a complete inbound PDU for the receiver of the channel `cid`.
    ///
    /// Never waits. It fails with `ChannelClosed` when the channel is not
    /// open, with `InvalidState` when a credit-based channel has no local
    /// credit left for the PDU, and with `OutOfMemory` when the queue is full;
    /// the buffer is then released and the table unchanged.
    pub fn enqueue_inbound(&mut self, cid: u16, buffer: Packet, pool: &mut PacketPool) -> (r: Result<
        (),
        Error,
    >)
        requires
            old(self).wf(),
            old(pool).wf(),
        ensures
            final(self).wf(),
            final(pool).wf(),
            final(self).queue_capacity() == old(self).queue_capacity(),
            match r {
                Ok(_) => {
                    &&& enqueue_refusal(old(self)@, cid, old(self).queue_capacity()) is None
                    &&& final(self)@ == old(self)@.update(
                        slot_index(cid),
                        old(self)@[slot_index(cid)].delivered(buffer),
                    )
                    &&& final(pool)@ == old(pool)@
                },
                Err(e) => {
                    &&& enqueue_refusal(old(self)@, cid, old(self).queue_capacity()) == Some(e)
                    &&& final(self)@ == old(self)@
                    &&& final(pool)@ == old(pool)@.released(buffer.slot())
                },
            },
    {
        let i = match self.index(cid) {
            Some(i) => i,
            None => {
                let _ = pool.release(buffer);
                return Err(Error::ChannelClosed);
            },
        };
        if self.slots[i].params.credit_based && self.slots[i].params.credits == 0 {
            let _ = pool.release(buffer);
            return Err(Error::InvalidState);
        }
        if self.slots[i].inbound.len() >= self.queue_capacity {
            let _ = pool.release(buffer);
            return Err(Error::OutOfMemory);
        }
        if self.slots[i].params.credit_based {
            self.slots[i].params.credits = self.slots[i].params.credits - 1;
        }
        self.slots[i].inbound.push(buffer);
        proof {
            assert(old(self)@[i as int].wf(self.queue_capacity()));
            assert(self@[i as int] == old(self)@[i as int].delivered(buffer));
            assert(self@ =~= old(self)@.update(i as int, old(self)@[i as int].delivered(buffer)));
        }
        Ok(())
    }

    /// Takes the oldest queued inbound PDU of the channel `cid`.
    ///
    /// Returns `Ok(None)` when the queue is empty, and fails with
    /// `ChannelClosed` when the channel is not open.
    pub fn receive(&mut self, cid: u16) -> (r: Result<Option<Packet>, Error>)
        requires
            old(self).wf(),
        ensures
            final(self).wf(),
            final(self).queue_capacity() == old(self).queue_capacity(),
            match r {
                Ok(Some(buffer)) => {
                    &&& is_open(old(self)@, cid)
                    &&& old(self)@[slot_index(cid)].inbound.len() > 0
                    &&& buffer == old(self)@[slot_index(cid)].inbound[0]
                    &&& final(self)@ == old(self)@.update(
                        slot_index(cid),
                        ChannelView {
                            inbound: old(self)@[slot_index(cid)].inbound.skip(1),
                            ..old(self)@[slot_index(cid)]
                        },
                    )
                },
                Ok(None) => is_open(old(self)@, cid) && old(self)@[slot_index(cid)].inbound.len() == 0
                    && final(self)@ == old(self)@,
                Err(e) => e == Error::ChannelClosed && !is_open(old(self)@, cid) && final(self)@ == old(
                    self,
                )@,
            },
    {
        let i = match self.index(cid) {
            Some(i) => i,
            None => {
                return Err(Error::ChannelClosed);
            },
        };
        if self.slots[i].inbound.len() == 0 {
            return Ok(None);
        }
        let buffer = self.slots[i].inbound.remove(0);
        proof {
            assert(old(self)@[i as int].wf(self.queue_capacity()));
            assert(self.slots@[i as int].inbound@ =~= old(self)@[i as int].inbound.skip(1));
            assert(self@ =~= old(self)@.update(
                i as int,
                ChannelView { inbound: old(self)@[i as int].inbound.skip(1), ..old(self)@[i as int] },
            ));
        }
        Ok(Some(buffer))
    }

    /// Spends `n` of the credits that the peer granted, for `n` outbound PDUs
    /// on the channel `cid`. Returns whether the PDUs may be sent: `false`,
    /// with nothing spent, means not ready, and the caller tries again after
    /// the peer has granted more. A channel that is not credit based is
    /// always ready while it is open.
    pub fn take_outbound_credit(&mut self, cid: u16, n: u16) -> (r: bool)
        requires
            old(self).wf(),
        ensures
            final(self).wf(),
            final(self).queue_capacity() == old(self).queue_capacity(),
            r == (is_open(old(self)@, cid) && old(self)@[slot_index(cid)].can_send(n)),
            final(self)@ == if r {
                old(self)@.update(slot_index(cid), old(self)@[slot_index(cid)].spent(n))
            } else {
                old(self)@
            },
    {
        let i = match self.index(cid) {
            Some(i) => i,
            None => {
                return false;
            },
        };
        if self.slots[i].params.credit_based {
            if self.slots[i].params.peer_credits < n {
                return false;
            }
            self.slots[i].params.peer_credits = self.slots[i].params.peer_credits - n;
        }
        proof {
            assert(old(self)@[i as int].wf(self.queue_capacity()));
            assert(self@[i as int] == old(self)@[i as int].spent(n));
            assert(self@ =~= old(self)@.update(i as int, old(self)@[i as int].spent(n)));
        }
        true
    }

    /// Adds `n` credits that the peer granted to the channel `cid`, and
    /// returns the credits it then has.
    ///
    /// Fails, changing nothing, with `InvalidChannelId` when the channel is
    /// not open and with `InvalidValue` when the credits would exceed what a
    /// credit counter holds.
    pub fn on_credits(&mut self, cid: u16, n: u16) -> (r: Result<u16, Error>)
        requires
            old(self).wf(),
        ensures
            final(self).wf(),
            final(self).queue_capacity() == old(self).queue_capacity(),
            match r {
                Ok(total) => {
                    &&& is_open(old(self)@, cid)
                    &&& total == old(self)@[slot_index(cid)].params.peer_credits + n
                    &&& final(self)@ == old(self)@.update(
                        slot_index(cid),
                        ChannelView {
                            params: ChannelParams { peer_credits: total, ..old(self)@[slot_index(cid)].params },
                            ..old(self)@[slot_index(cid)]
                        },
                    )
                },
                Err(e) => final(self)@ == old(self)@ && if is_open(old(self)@, cid) {
                    e == Error::InvalidValue && old(self)@[slot_index(cid)].params.peer_credits + n
                        > u16::MAX
                } else {
                    e == Error::InvalidChannelId
                },
            },
    {
        let i = match self.index(cid) {
            Some(i) => i,
            None => {
                return Err(Error::InvalidChannelId);
            },
        };
        let have = self.slots[i].params.peer_credits;
        if n > u16::MAX - have {
            return Err(Error::InvalidValue);
        }
        let total: u16 = have + n;
        self.slots[i].params.peer_credits = total;
        proof {
            assert(old(self)@[i as int].wf(self.queue_capacity()));
            assert(self@ =~= old(self)@.update(
                i as int,
                ChannelView {
                    params: ChannelParams { peer_credits: total, ..old(self)@[i as int].params },
                    ..old(self)@[i as int]
                },
            ));
        }
        Ok(total)
    }

    /// Grants the peer `n` more credits on the channel `cid`, and returns the
    /// credits it then has.
    ///
    /// Fails, changing nothing, with `InvalidChannelId` when the channel is
    /// not open and with `InvalidValue` when the credits would exceed what a
    /// credit counter holds.
    pub fn grant_credits(&mut self, cid: u16, n: u16) -> (r: Result<u16, Error>)
        requires
            old(self).wf(),
        ensures
            final(self).wf(),
            final(self).queue_capacity() == old(self).queue_capacity(),
            match r {
                Ok(total) => {
                    &&& is_open(old(self)@, cid)
                    &&& total == old(self)@[slot_index(cid)].params.credits + n
                    &&& final(self)@ == old(self)@.update(
                        slot_index(cid),
                        ChannelView {
                            params: ChannelParams { credits: total, ..old(self)@[slot_index(cid)].params },
                            ..old(self)@[slot_index(cid)]
                        },
                    )
                },
                Err(e) => final(self)@ == old(self)@ && if is_open(old(self)@, cid) {
                    e == Error::InvalidValue && old(self)@[slot_index(cid)].params.credits + n > u16::MAX
                } else {
                    e == Error::InvalidChannelId
                },
            },
    {
        let i = match self.index(cid) {
            Some(i) => i,
            None => {
                return Err(Error::InvalidChannelId);
            },
        };
        let have = self.slots[i].params.credits;
        if n > u16::MAX - have {
            return Err(Error::InvalidValue);
        }
        let total: u16 = have + n;
        self.slots[i].params.credits = total;
        proof {
            assert(old(self)@[i as int].wf(self.queue_capacity()));
            assert(self@ =~= old(self)@.update(
                i as int,
                ChannelView {
                    params: ChannelParams { credits: total, ..old(self)@[i as int].params },
                    ..old(self)@[i as int]
                },
            ));
        }
        Ok(total)
    }

    /// Number of open channels.
    pub fn active(&self) -> (r: usize)
        ensures
            r == open_among(self@, self@.len() as int),
    {
        let mut n: usize = 0;
        let mut i: usize = 0;
        while i < self.slots.len()
            invariant
                i <= self.slots@.len(),
                n <= i,
                n == open_among(self@, i as int),
            decreases self.slots@.len() - i,
        {
            if let ChannelState::Connected = self.slots[i].state {
                n += 1;
            }
            i += 1;
        }
        n
    }
}

/// The connection of `handle` is in the connected state.
pub open spec fn is_connected(connections: &ConnectionManager, handle: ConnHandle) -> bool {
    crate::connection_manager::index_of(connections@, handle@) matches Some(i) && connections@[i].state
        is Connected
}

proof fn lemma_open_among_prefix(a: Seq<ChannelView>, b: Seq<ChannelView>, n: int)
    ensures
        open_among(a, n + 1) == open_among(a, n) + (if n >= 0 && a[n].state is Connected {
            1nat
        } else {
            0nat
        }),
        open_among(b, n + 1) == open_among(b, n) + (if n >= 0 && b[n].state is Connected {
            1nat
        } else {
            0nat
        }),
{
}

proof fn lemma_open_among_same(a: Seq<ChannelView>, b: Seq<ChannelView>, n: int)
    requires
        forall|j: int| 0 <= j < n ==> a[j] == b[j],
    ensures
        open_among(a, n) == open_among(b, n),
    decreases n,
{
    if n > 0 {
        lemma_open_among_same(a, b, n - 1);
    }
}

} // verus!
