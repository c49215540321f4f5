//! The fixed-capacity table of connections.
//!
//! Each slot follows the life of one connection: disconnected, connected,
//! disconnecting, and disconnected again. A live handle occupies exactly one
//! slot, and a slot that is torn down keeps nothing of its connection.

use crate::hci::{ConnHandle, LeConnRole};
use crate::l2cap::sar;
use crate::l2cap::sar::{Pdu, Reassembly};
use crate::l2cap::L2capHeader;
use crate::packet_pool::{Packet, PacketPool, PoolView};
use crate::{Address, Error};
use vstd::prelude::*;

verus! {

/// The state of a connection slot.
#[derive(Debug, Clone, Copy, PartialEq, Eq, Structural)]
pub enum ConnectionState {
    /// The slot is free: never used, or torn down.
    Disconnected,
    /// The connection is established.
    Connected,
    /// A disconnect was requested and is not yet confirmed.
    Disconnecting,
}

/// An event delivered to the consumer of a connection.
#[derive(Debug, Clone, Copy, PartialEq, Eq, Structural)]
pub enum ConnectionEvent {
    /// The physical layer in use changed.
    PhyUpdated { tx_phy: u8, rx_phy: u8 },
    /// The connection parameters changed.
    ConnectionParamsUpdated { conn_interval: u16, peripheral_latency: u16, supervision_timeout: u16 },
    /// The link was lost or closed, with the controller's reason.
    Disconnected { reason: u8 },
}

/// One fragment that waits to be handed to the controller.
#[derive(Debug, PartialEq)]
pub struct Fragment {
    /// Whether this is the initial fragment of its PDU.
    pub first: bool,
    /// The buffer of the outbound pool that holds the fragment.
    pub packet: Packet,
}

/// One slot of the table.
pub struct ConnectionStorage {
    state: ConnectionState,
    handle: Option<ConnHandle>,
    role: Option<LeConnRole>,
    peer: Option<Address>,
    events: Vec<ConnectionEvent>,
    sar: Option<Reassembly>,
    outbound: Vec<Fragment>,
}

/// A slot as a mathematical value.
pub struct ConnectionView {
    /// State of the slot.
    pub state: ConnectionState,
    /// Number of the handle that occupies the slot.
    pub handle: Option<u16>,
    /// Role of the local device.
    pub role: Option<LeConnRole>,
    /// Address of the peer.
    pub peer: Option<Address>,
    /// The queued events, oldest first.
    pub events: Seq<ConnectionEvent>,
    /// The reassembly record.
    pub sar: Option<Reassembly>,
    /// The queued outbound fragments, oldest first.
    pub outbound: Seq<Fragment>,
}

impl ConnectionView {
    /// A free slot.
    pub open spec fn vacant() -> ConnectionView {
        ConnectionView {
            state: ConnectionState::Disconnected,
            handle: None,
            role: None,
            peer: None,
            events: Seq::empty(),
            sar: None,
            outbound: Seq::empty(),
        }
    }

    /// A slot that a connection has just occupied.
    pub open spec fn fresh(handle: u16, role: LeConnRole, peer: Address) -> ConnectionView {
        ConnectionView {
            state: ConnectionState::Connected,
            handle: Some(handle),
            role: Some(role),
            peer: Some(peer),
            events: Seq::empty(),
            sar: None,
            outbound: Seq::empty(),
        }
    }

    /// The invariant of a slot: it is free exactly when no handle occupies
    /// it, and a free slot holds nothing.
    pub open spec fn wf(self, event_capacity: nat) -> bool {
        &&& self.state is Disconnected <==> self.handle is None
        &&& self.state is Disconnected ==> self == Self::vacant()
        &&& self.events.len() <= event_capacity
    }
}

impl View for ConnectionStorage {
    type V = ConnectionView;

    closed spec fn view(&self) -> ConnectionView {
        ConnectionView {
            state: self.state,
            handle: match self.handle {
                Some(h) => Some(h@),
                None => None,
            },
            role: self.role,
            peer: self.peer,
            events: self.events@,
            sar: self.sar,
            outbound: self.outbound@,
        }
    }
}

/// Slot `i` is occupied by `handle`.
pub open spec fn slot_of(slots: Seq<ConnectionView>, handle: u16, i: int) -> bool {
    0 <= i < slots.len() && slots[i].handle == Some(handle)
}

/// Slot `i` is free and every slot before it is occupied.
pub open spec fn first_vacant(slots: Seq<ConnectionView>, i: int) -> bool {
    &&& 0 <= i < slots.len()
    &&& slots[i].state is Disconnected
    &&& forall|j: int| 0 <= j < i ==> !((#[trigger] slots[j]).state is Disconnected)
}

/// No slot is free.
pub open spec fn all_occupied(slots: Seq<ConnectionView>) -> bool {
    forall|j: int| 0 <= j < slots.len() ==> !((#[trigger] slots[j]).state is Disconnected)
}

/// The invariant of a table: every slot is well formed and no handle
/// occupies two slots.
pub open spec fn table_wf(slots: Seq<ConnectionView>, event_capacity: nat) -> bool {
    &&& forall|i: int| 0 <= i < slots.len() ==> (#[trigger] slots[i]).wf(event_capacity)
    &&& forall|i: int, j: int|
        0 <= i < slots.len() && 0 <= j < slots.len() && i != j && (#[trigger] slots[i]).handle is Some
            ==> slots[i].handle != (#[trigger] slots[j]).handle
}

/// The slot that `handle` occupies, if it occupies one.
pub open spec fn index_of(slots: Seq<ConnectionView>, handle: u16) -> Option<int> {
    if exists|i: int| slot_of(slots, handle, i) {
        Some(choose|i: int| slot_of(slots, handle, i))
    } else {
        None
    }
}

/// The table after a disconnection of `handle`: its slot, if it has one, is
/// free again; otherwise nothing changes.
pub open spec fn after_disconnect(slots: Seq<ConnectionView>, handle: u16) -> Seq<ConnectionView> {
    match index_of(slots, handle) {
        Some(i) => slots.update(i, ConnectionView::vacant()),
        None => slots,
    }
}

/// The pool once every buffer of `fragments` has been released, the newest
/// fragment first.
pub open spec fn released_all(pool: PoolView, fragments: Seq<Fragment>) -> PoolView
    decreases fragments.len(),
{
    if fragments.len() == 0 {
        pool
    } else {
        released_all(pool.released(fragments.last().packet.slot()), fragments.drop_last())
    }
}

/// Slot `i` is connected and has an outbound fragment queued.
pub open spec fn ready(slots: Seq<ConnectionView>, i: int) -> bool {
    0 <= i < slots.len() && slots[i].state is Connected && slots[i].outbound.len() > 0
}

/// Slot `j` is the first one at or after `start` that is ready to transmit.
pub open spec fn first_ready(slots: Seq<ConnectionView>, start: int, j: int) -> bool {
    &&& start <= j
    &&& ready(slots, j)
    &&& forall|k: int| start <= k < j ==> !ready(slots, k)
}

/// No slot at or after `start` is ready to transmit.
pub open spec fn none_ready(slots: Seq<ConnectionView>, start: int) -> bool {
    forall|k: int| start <= k < slots.len() ==> !ready(slots, k)
}

/// The slot that the transmit duty serves next when it last served the slot
/// before `cursor`: the first ready slot from `cursor` on or, if there is
/// none, the first ready slot of the table. Going round in this way, no
/// connection with queued fragments is passed over twice.
pub open spec fn next_turn(slots: Seq<ConnectionView>, cursor: int) -> Option<int> {
    if exists|j: int| first_ready(slots, cursor, j) {
        Some(choose|j: int| first_ready(slots, cursor, j))
    } else if exists|j: int| first_ready(slots, 0, j) {
        Some(choose|j: int| first_ready(slots, 0, j))
    } else {
        None
    }
}

/// `next_turn` names the first ready slot from the cursor on, else the first
/// ready slot, else none.
pub proof fn lemma_next_turn(slots: Seq<ConnectionView>, cursor: int)
    requires
        0 <= cursor,
    ensures
        forall|j: int| first_ready(slots, cursor, j) ==> next_turn(slots, cursor) == Some(j),
        forall|j: int|
            none_ready(slots, cursor) && first_ready(slots, 0, j) ==> next_turn(slots, cursor) == Some(j),
        none_ready(slots, cursor) && none_ready(slots, 0) ==> next_turn(slots, cursor) is None,
        next_turn(slots, cursor) matches Some(j) ==> ready(slots, j),
{
    if exists|j: int| first_ready(slots, cursor, j) {
        let a = choose|j: int| first_ready(slots, cursor, j);
        assert forall|j: int| first_ready(slots, cursor, j) implies j == a by {
            if j < a {
                assert(!ready(slots, j));
            } else if a < j {
                assert(!ready(slots, a));
            }
        }
        if none_ready(slots, cursor) {
            assert(!ready(slots, a));
        }
    } else if exists|j: int| first_ready(slots, 0, j) {
        let a = choose|j: int| first_ready(slots, 0, j);
        assert forall|j: int| first_ready(slots, 0, j) implies j == a by {
            if j < a {
                assert(!ready(slots, j));
            } else if a < j {
                assert(!ready(slots, a));
            }
        }
    }
}

/// Number of occupied slots among the first `n`.
pub open spec fn occupied_among(slots: Seq<ConnectionView>, n: int) -> nat
    decreases n,
{
    if n <= 0 {
        0
    } else {
        occupied_among(slots, n - 1) + (if slots[n - 1].state is Disconnected {
            0nat
        } else {
            1nat
        })
    }
}

/// Gives the buffers of all fragments of a queue back to the pool and leaves
/// the queue empty.
pub fn release_all(pool: &mut PacketPool, fragments: &mut Vec<Fragment>)
    requires
        old(pool).wf(),
    ensures
        final(pool).wf(),
        final(fragments)@.len() == 0,
        final(pool)@ == released_all(old(pool)@, old(fragments)@),
{
    while fragments.len() > 0
        invariant
            pool.wf(),
            released_all(pool@, fragments@) == released_all(old(pool)@, old(fragments)@),
        decreases fragments@.len(),
    {
        match fragments.pop() {
            Some(fragment) => {
                let _ = pool.release(fragment.packet);
            },
            None => {},
        }
    }
}

/// In a well-formed table `index_of` finds the one slot of a handle.
pub proof fn lemma_index_of(slots: Seq<ConnectionView>, capacity: nat, handle: u16)
    requires
        table_wf(slots, capacity),
    ensures
        match index_of(slots, handle) {
            Some(i) => slot_of(slots, handle, i),
            None => forall|i: int| 0 <= i < slots.len() ==> (#[trigger] slots[i]).handle != Some(handle),
        },
        forall|i: int| slot_of(slots, handle, i) ==> index_of(slots, handle) == Some(i),
{
    if exists|i: int| slot_of(slots, handle, i) {
        let k = choose|i: int| slot_of(slots, handle, i);
        assert forall|i: int| slot_of(slots, handle, i) implies index_of(slots, handle) == Some(i) by {
            if i != k {
                assert(slots[i].handle != slots[k].handle);
            }
        }
    } else {
        assert forall|i: int| 0 <= i < slots.len() implies (#[trigger] slots[i]).handle != Some(
            handle,
        ) by {
            assert(!slot_of(slots, handle, i));
        }
    }
}

/// Disconnecting is idempotent: a disconnection leaves a well-formed table in
/// which the handle occupies no slot, so a second disconnection of the same
/// handle right after the first changes nothing.
pub proof fn lemma_disconnect_idempotent(slots: Seq<ConnectionView>, capacity: nat, handle: u16)
    requires
        table_wf(slots, capacity),
    ensures
        table_wf(after_disconnect(slots, handle), capacity),
        index_of(after_disconnect(slots, handle), handle) is None,
        after_disconnect(after_disconnect(slots, handle), handle) == after_disconnect(slots, handle),
{
    lemma_index_of(slots, capacity, handle);
    let once = after_disconnect(slots, handle);
    assert forall|i: int| !slot_of(once, handle, i) by {
        if 0 <= i < once.len() {
            match index_of(slots, handle) {
                Some(k) => {
                    if i != k {
                        assert(slots[i].handle != slots[k].handle);
                    }
                },
                None => {},
            }
        }
    }
}

/// The table of connections.
pub struct ConnectionManager {
    slots: Vec<ConnectionStorage>,
    event_capacity: usize,
}

impl View for ConnectionManager {
    type V = Seq<ConnectionView>;

    closed spec fn view(&self) -> Seq<ConnectionView> {
        Seq::new(self.slots@.len(), |i: int| self.slots@[i]@)
    }
}

impl ConnectionManager {
    /// Number of events that the queue of one connection holds at most.
    pub closed spec fn event_capacity(&self) -> nat {
        self.event_capacity as nat
    }

    /// The invariant of the table.
    pub open spec fn wf(&self) -> bool {
        table_wf(self@, self.event_capacity())
    }

    /// A table of `capacity` free slots whose event queues hold
    /// `event_capacity` events each.
    pub fn new(capacity: usize, event_capacity: usize) -> (table: Self)
        ensures
            table.wf(),
            table@.len() == capacity,
            table.event_capacity() == event_capacity,
            forall|i: int| 0 <= i < capacity ==> table@[i] == ConnectionView::vacant(),
    {
        let mut slots: Vec<ConnectionStorage> = Vec::new();
        let mut i: usize = 0;
        while i < capacity
            invariant
                i <= capacity,
                slots@.len() == i,
                forall|j: int| 0 <= j < i ==> (#[trigger] slots@[j])@ == ConnectionView::vacant(),
            decreases capacity - i,
        {
            slots.push(
                ConnectionStorage {
                    state: ConnectionState::Disconnected,
                    handle: None,
                    role: None,
                    peer: None,
                    events: Vec::new(),
                    sar: None,
                    outbound: Vec::new(),
                },
            );
            i += 1;
        }
        ConnectionManager { slots, event_capacity }
    }

    /// Number of slots.
    pub fn capacity(&self) -> (r: usize)
        ensures
            r == self@.len(),
    {
        self.slots.len()
    }

    /// The slot that `handle` occupies.
    pub fn lookup(&self, handle: ConnHandle) -> (r: Option<usize>)
        requires
            self.wf(),
        ensures
            match r {
                Some(i) => slot_of(self@, handle@, i as int),
                None => forall|i: int| 0 <= i < self@.len() ==> (#[trigger] self@[i]).handle != Some(handle@),
            },
            index_of(self@, handle@) == match r {
                Some(i) => Some(i as int),
                None => None,
            },
    {
        let mut i: usize = 0;
        while i < self.slots.len()
            invariant
                i <= self.slots@.len(),
                self.wf(),
                forall|j: int| 0 <= j < i ==> (#[trigger] self@[j]).handle != Some(handle@),
            decreases self.slots@.len() - i,
        {
            match self.slots[i].handle {
                Some(h) => {
                    if h.raw() == handle.raw() {
                        proof {
                            lemma_index_of(self@, self.event_capacity(), handle@);
                            assert(slot_of(self@, handle@, i as int));
                        }
                        return Some(i);
                    }
                },
                None => {},
            }
            assert(self@[i as int].handle != Some(handle@));
            i += 1;
        }
        proof {
            lemma_index_of(self@, self.event_capacity(), handle@);
            assert(forall|k: int| !slot_of(self@, handle@, k));
        }
        None
    }

    /// Occupies the first free slot for a connection that the controller
    /// reported as complete, and returns the slot.
    ///
    /// Fails with `ConnectionLimitReached` when no slot is free, and with
    /// `InvalidState` when the handle already occupies a slot; the table is
    /// unchanged then, and the caller is expected to reject the connection.
    pub fn on_connected(&mut self, handle: ConnHandle, role: LeConnRole, peer: Address) -> (r: Result<
        usize,
        Error,
    >)
        requires
            old(self).wf(),
        ensures
            final(self).wf(),
            final(self).event_capacity() == old(self).event_capacity(),
            match r {
                Ok(i) => {
                    &&& index_of(old(self)@, handle@) is None
                    &&& first_vacant(old(self)@, i as int)
                    &&& final(self)@ == old(self)@.update(i as int, ConnectionView::fresh(handle@, role, peer))
                },
                Err(e) => {
                    &&& final(self)@ == old(self)@
                    &&& if index_of(old(self)@, handle@) is Some {
                        e == Error::InvalidState
                    } else {
                        e == Error::ConnectionLimitReached && all_occupied(old(self)@)
                    }
                },
            },
    {
        if self.lookup(handle).is_some() {
            return Err(Error::InvalidState);
        }
        let mut i: usize = 0;
        while i < self.slots.len()
            invariant
                i <= self.slots@.len(),
                *self == *old(self),
                self.wf(),
                index_of(self@, handle@) is None,
                forall|j: int| 0 <= j < i ==> !((#[trigger] self@[j]).state is Disconnected),
            decreases self.slots@.len() - i,
        {
            if let ConnectionState::Disconnected = self.slots[i].state {
                assert(first_vacant(self@, i as int));
                assert(self@[i as int].wf(self.event_capacity()));
                proof {
                    lemma_index_of(self@, self.event_capacity(), handle@);
                }
                self.slots[i].state = ConnectionState::Connected;
                self.slots[i].handle = Some(handle);
                self.slots[i].role = Some(role);
                self.slots[i].peer = Some(peer);
                proof {
                    assert(self@ =~= old(self)@.update(
                        i as int,
                        ConnectionView::fresh(handle@, role, peer),
                    ));
                }
                return Ok(i);
            }
            assert(!(self@[i as int].state is Disconnected));
            i += 1;
        }
        Err(Error::ConnectionLimitReached)
    }

    /// Tears down the connection of `handle`: its slot becomes free, its
    /// queued events are dropped, and the buffers of its reassembly record
    /// and of its queued outbound fragments go back to their pools. Returns
    /// whether a slot was torn down.
    ///
    /// A disconnection of a handle that occupies no slot changes nothing:
    /// controllers may report a disconnection twice.
    pub fn on_disconnected(&mut self, handle: ConnHandle, rx: &mut PacketPool, tx: &mut PacketPool) -> (r:
        bool)
        requires
            old(self).wf(),
            old(rx).wf(),
            old(tx).wf(),
        ensures
            final(self).wf(),
            final(rx).wf(),
            final(tx).wf(),
            final(self).event_capacity() == old(self).event_capacity(),
            final(self)@ == after_disconnect(old(self)@, handle@),
            r == index_of(old(self)@, handle@) is Some,
            match index_of(old(self)@, handle@) {
                Some(i) => final(rx)@ == sar::pool_without(old(self)@[i].sar, old(rx)@) && final(tx)@
                    == released_all(old(tx)@, old(self)@[i].outbound),
                None => final(rx)@ == old(rx)@ && final(tx)@ == old(tx)@,
            },
    {
        let i = match self.lookup(handle) {
            Some(i) => i,
            None => {
                return false;
            },
        };
        sar::abort(&mut self.slots[i].sar, rx);
        release_all(tx, &mut self.slots[i].outbound);
        self.slots[i].events.clear();
        self.slots[i].state = ConnectionState::Disconnected;
        self.slots[i].handle = None;
        self.slots[i].role = None;
        self.slots[i].peer = None;
        proof {
            assert(self.slots@[i as int].events@ =~= Seq::<ConnectionEvent>::empty());
            assert(self.slots@[i as int].outbound@ =~= Seq::<Fragment>::empty());
            assert(self@[i as int] == ConnectionView::vacant());
            assert(self@ =~= old(self)@.update(i as int, ConnectionView::vacant()));
            lemma_disconnect_idempotent(old(self)@, old(self).event_capacity(), handle@);
        }
        true
    }

    /// Asks for the connection of `handle` to be closed: a connected slot
    /// becomes disconnecting and stays so until the controller confirms the
    /// disconnection. Fails with `NotFound` when the handle occupies no slot.
    pub fn request_disconnect(&mut self, handle: ConnHandle) -> (r: Result<(), Error>)
        requires
            old(self).wf(),
        ensures
            final(self).wf(),
            final(self).event_capacity() == old(self).event_capacity(),
            match r {
                Ok(_) => index_of(old(self)@, handle@) matches Some(i) && final(self)@ == old(self)@.update(
                    i,
                    ConnectionView { state: ConnectionState::Disconnecting, ..old(self)@[i] },
                ),
                Err(e) => e == Error::NotFound && index_of(old(self)@, handle@) is None && final(self)@
                    == old(self)@,
            },
    {
        let i = match self.lookup(handle) {
            Some(i) => i,
            None => {
                return Err(Error::NotFound);
            },
        };
        self.slots[i].state = ConnectionState::Disconnecting;
        proof {
            assert(self@ =~= old(self)@.update(
                i as int,
                ConnectionView { state: ConnectionState::Disconnecting, ..old(self)@[i as int] },
            ));
            assert(old(self)@[i as int].wf(self.event_capacity()));
        }
        Ok(())
    }

    /// The state of the connection of `handle`; disconnected when the handle
    /// occupies no slot.
    pub fn state(&self, handle: ConnHandle) -> (r: ConnectionState)
        requires
            self.wf(),
        ensures
            r == match index_of(self@, handle@) {
                Some(i) => self@[i].state,
                None => ConnectionState::Disconnected,
            },
    {
        match self.lookup(handle) {
            Some(i) => self.slots[i].state,
            None => ConnectionState::Disconnected,
        }
    }

    /// The role of the local device in the connection of `handle`.
    pub fn role(&self, handle: ConnHandle) -> (r: Option<LeConnRole>)
        requires
            self.wf(),
        ensures
            r == match index_of(self@, handle@) {
                Some(i) => self@[i].role,
                None => None,
            },
    {
        match self.lookup(handle) {
            Some(i) => self.slots[i].role,
            None => None,
        }
    }

    /// The address of the peer of the connection of `handle`.
    pub fn peer_address(&self, handle: ConnHandle) -> (r: Option<Address>)
        requires
            self.wf(),
        ensures
            r == match index_of(self@, handle@) {
                Some(i) => self@[i].peer,
                None => None,
            },
    {
        match self.lookup(handle) {
            Some(i) => self.slots[i].peer,
            None => None,
        }
    }

    /// Number of slots that a connection occupies.
    pub fn active(&self) -> (r: usize)
        ensures
            r == occupied_among(self@, self@.len() as int),
    {
        let mut n: usize = 0;
        let mut i: usize = 0;
        while i < self.slots.len()
            invariant
                i <= self.slots@.len(),
                n <= i,
                n == occupied_among(self@, i as int),
            decreases self.slots@.len() - i,
        {
            match self.slots[i].state {
                ConnectionState::Disconnected => {},
                _ => {
                    n += 1;
                },
            }
            i += 1;
        }
        n
    }

    /// Queues an event for the consumer of the connection of `handle`.
    ///
    /// Never waits: fails with `OutOfMemory` when the queue is full, and with
    /// `NotFound` when the handle occupies no slot.
    pub fn post_event(&mut self, handle: ConnHandle, event: ConnectionEvent) -> (r: Result<(), Error>)
        requires
            old(self).wf(),
        ensures
            final(self).wf(),
            final(self).event_capacity() == old(self).event_capacity(),
            match r {
                Ok(_) => index_of(old(self)@, handle@) matches Some(i) && old(self)@[i].events.len() < old(
                    self,
                ).event_capacity() && final(self)@ == old(self)@.update(
                    i,
                    ConnectionView { events: old(self)@[i].events.push(event), ..old(self)@[i] },
                ),
                Err(e) => final(self)@ == old(self)@ && match index_of(old(self)@, handle@) {
                    Some(i) => e == Error::OutOfMemory && old(self)@[i].events.len() >= old(
                        self,
                    ).event_capacity(),
                    None => e == Error::NotFound,
                },
            },
    {
        let i = match self.lookup(handle) {
            Some(i) => i,
            None => {
                return Err(Error::NotFound);
            },
        };
        if self.slots[i].events.len() >= self.event_capacity {
            return Err(Error::OutOfMemory);
        }
        self.slots[i].events.push(event);
        proof {
            assert(self@ =~= old(self)@.update(
                i as int,
                ConnectionView {
                    events: old(self)@[i as int].events.push(event),
                    ..old(self)@[i as int]
                },
            ));
            assert(old(self)@[i as int].wf(self.event_capacity()));
        }
        Ok(())
    }

    /// Takes the oldest queued event of the connection of `handle`, or `None`
    /// when its queue is empty or the handle occupies no slot.
    pub fn next_event(&mut self, handle: ConnHandle) -> (r: Option<ConnectionEvent>)
        requires
            old(self).wf(),
        ensures
            final(self).wf(),
            final(self).event_capacity() == old(self).event_capacity(),
            match r {
                Some(event) => index_of(old(self)@, handle@) matches Some(i) && old(self)@[i].events.len()
                    > 0 && event == old(self)@[i].events[0] && final(self)@ == old(self)@.update(
                    i,
                    ConnectionView { events: old(self)@[i].events.skip(1), ..old(self)@[i] },
                ),
                None => final(self)@ == old(self)@ && match index_of(old(self)@, handle@) {
                    Some(i) => old(self)@[i].events.len() == 0,
                    None => true,
                },
            },
    {
        let i = match self.lookup(handle) {
            Some(i) => i,
            None => {
                return None;
            },
        };
        if self.slots[i].events.len() == 0 {
            return None;
        }
        let event = self.slots[i].events.remove(0);
        proof {
            assert(self.slots@[i as int].events@ =~= old(self)@[i as int].events.skip(1));
            assert(self@ =~= old(self)@.update(
                i as int,
                ConnectionView { events: old(self)@[i as int].events.skip(1), ..old(self)@[i as int] },
            ));
            assert(old(self)@[i as int].wf(self.event_capacity()));
        }
        Some(event)
    }

    /// The queued events of the connection of `handle`, oldest first.
    pub fn event_queue(&self, handle: ConnHandle) -> (r: Option<&Vec<ConnectionEvent>>)
        requires
            self.wf(),
        ensures
            match r {
                Some(queue) => index_of(self@, handle@) matches Some(i) && queue@ == self@[i].events,
                None => index_of(self@, handle@) is None,
            },
    {
        match self.lookup(handle) {
            Some(i) => Some(&self.slots[i].events),
            None => None,
        }
    }

    /// Takes in the initial fragment of a PDU that arrived on the connection
    /// of `handle`, as `sar::begin` does on the reassembly record of its slot.
    /// Fails with `NotFound`, changing nothing, when the handle occupies no
    /// slot.
    pub fn begin_pdu(
        &mut self,
        handle: ConnHandle,
        rx: &mut PacketPool,
        header: L2capHeader,
        payload: &[u8],
        max_len: usize,
    ) -> (r: Result<Option<Pdu>, Error>)
        requires
            old(self).wf(),
            old(rx).wf(),
        ensures
            final(self).wf(),
            final(rx).wf(),
            final(self).event_capacity() == old(self).event_capacity(),
            match index_of(old(self)@, handle@) {
                Some(i) => {
                    &&& (final(self)@[i].sar, final(rx)@, r) == sar::begin_model(
                        old(self)@[i].sar,
                        old(rx)@,
                        header,
                        payload@,
                        max_len as int,
                    )
                    &&& final(self)@ == old(self)@.update(
                        i,
                        ConnectionView { sar: final(self)@[i].sar, ..old(self)@[i] },
                    )
                },
                None => r == Err::<Option<Pdu>, Error>(Error::NotFound) && final(self)@ == old(self)@
                    && final(rx)@ == old(rx)@,
            },
    {
        let i = match self.lookup(handle) {
            Some(i) => i,
            None => {
                return Err(Error::NotFound);
            },
        };
        let r = sar::begin(&mut self.slots[i].sar, rx, header, payload, max_len);
        proof {
            assert(self@ =~= old(self)@.update(
                i as int,
                ConnectionView { sar: self@[i as int].sar, ..old(self)@[i as int] },
            ));
            assert(old(self)@[i as int].wf(self.event_capacity()));
        }
        r
    }

    /// Takes in a continuation fragment that arrived on the connection of
    /// `handle`, as `sar::update` does on the reassembly record of its slot.
    /// Fails with `NotFound`, changing nothing, when the handle occupies no
    /// slot.
    pub fn continue_pdu(&mut self, handle: ConnHandle, rx: &mut PacketPool, payload: &[u8]) -> (r: Result<
        Option<Pdu>,
        Error,
    >)
        requires
            old(self).wf(),
            old(rx).wf(),
        ensures
            final(self).wf(),
            final(rx).wf(),
            final(self).event_capacity() == old(self).event_capacity(),
            match index_of(old(self)@, handle@) {
                Some(i) => {
                    &&& (final(self)@[i].sar, final(rx)@, r) == sar::update_model(
                        old(self)@[i].sar,
                        old(rx)@,
                        payload@,
                    )
                    &&& final(self)@ == old(self)@.update(
                        i,
                        ConnectionView { sar: final(self)@[i].sar, ..old(self)@[i] },
                    )
                },
                None => r == Err::<Option<Pdu>, Error>(Error::NotFound) && final(self)@ == old(self)@
                    && final(rx)@ == old(rx)@,
            },
    {
        let i = match self.lookup(handle) {
            Some(i) => i,
            None => {
                return Err(Error::NotFound);
            },
        };
        let r = sar::update(&mut self.slots[i].sar, rx, payload);
        proof {
            assert(self@ =~= old(self)@.update(
                i as int,
                ConnectionView { sar: self@[i as int].sar, ..old(self)@[i as int] },
            ));
            assert(old(self)@[i as int].wf(self.event_capacity()));
        }
        r
    }

    /// Queues a fragment for transmission on the connection of `handle`.
    ///
    /// Fails when the connection is not in the connected state, with
    /// `NotFound` for a handle that occupies no slot and `Disconnected`
    /// otherwise, and hands the fragment back.
    pub fn enqueue_outbound(&mut self, handle: ConnHandle, fragment: Fragment) -> (r: Result<
        (),
        (Error, Fragment),
    >)
        requires
            old(self).wf(),
        ensures
            final(self).wf(),
            final(self).event_capacity() == old(self).event_capacity(),
            match r {
                Ok(_) => index_of(old(self)@, handle@) matches Some(i) && old(self)@[i].state
                    is Connected && final(self)@ == old(self)@.update(
                    i,
                    ConnectionView { outbound: old(self)@[i].outbound.push(fragment), ..old(self)@[i] },
                ),
                Err(e) => e.1 == fragment && final(self)@ == old(self)@ && match index_of(
                    old(self)@,
                    handle@,
                ) {
                    Some(i) => e.0 == Error::Disconnected && !(old(self)@[i].state is Connected),
                    None => e.0 == Error::NotFound,
                },
            },
    {
        let i = match self.lookup(handle) {
            Some(i) => i,
            None => {
                return Err((Error::NotFound, fragment));
            },
        };
        match self.slots[i].state {
            ConnectionState::Connected => {},
            _ => {
                return Err((Error::Disconnected, fragment));
            },
        }
        self.slots[i].outbound.push(fragment);
        proof {
            assert(self@ =~= old(self)@.update(
                i as int,
                ConnectionView {
                    outbound: old(self)@[i as int].outbound.push(fragment),
                    ..old(self)@[i as int]
                },
            ));
            assert(old(self)@[i as int].wf(self.event_capacity()));
        }
        Ok(())
    }

    /// The first slot at or after `start` whose connection is connected and
    /// has a fragment queued.
    pub fn next_ready(&self, start: usize) -> (r: Option<usize>)
        ensures
            match r {
                Some(i) => start <= i && ready(self@, i as int) && forall|j: int|
                    start <= j < i ==> !ready(self@, j),
                None => forall|j: int| start <= j < self@.len() ==> !ready(self@, j),
            },
    {
        let mut i: usize = start;
        while i < self.slots.len()
            invariant
                start <= i,
                forall|j: int| start <= j < i && j < self@.len() ==> !ready(self@, j),
            decreases self.slots@.len() - i,
        {
            if let ConnectionState::Connected = self.slots[i].state {
                if self.slots[i].outbound.len() > 0 {
                    return Some(i);
                }
            }
            i += 1;
        }
        None
    }

    /// Takes the oldest queued fragment of slot `index`, with the handle of
    /// its connection, or `None` when the slot is not ready to transmit.
    pub fn pop_outbound(&mut self, index: usize) -> (r: Option<(ConnHandle, Fragment)>)
        requires
            old(self).wf(),
        ensures
            final(self).wf(),
            final(self).event_capacity() == old(self).event_capacity(),
            match r {
                Some(out) => ready(old(self)@, index as int) && Some(out.0@) == old(self)@[index as int].handle
                    && out.1 == old(self)@[index as int].outbound[0] && final(self)@ == old(self)@.update(
                    index as int,
                    ConnectionView {
                        outbound: old(self)@[index as int].outbound.skip(1),
                        ..old(self)@[index as int]
                    },
                ),
                None => !ready(old(self)@, index as int) && final(self)@ == old(self)@,
            },
    {
        if index >= self.slots.len() {
            return None;
        }
        match self.slots[index].state {
            ConnectionState::Connected => {},
            _ => {
                return None;
            },
        }
        if self.slots[index].outbound.len() == 0 {
            return None;
        }
        let handle = match self.slots[index].handle {
            Some(h) => h,
            None => {
                assert(old(self)@[index as int].wf(self.event_capacity()));
                return None;
            },
        };
        let fragment = self.slots[index].outbound.remove(0);
        proof {
            assert(self.slots@[index as int].outbound@ =~= old(self)@[index as int].outbound.skip(1));
            assert(self@ =~= old(self)@.update(
                index as int,
                ConnectionView {
                    outbound: old(self)@[index as int].outbound.skip(1),
                    ..old(self)@[index as int]
                },
            ));
            assert(old(self)@[index as int].wf(self.event_capacity()));
        }
        Some((handle, fragment))
    }
}

} // verus!
