//! The host state and the decisions of its runner.
//!
//! The runner has three duties. The receive duty hands each unit that the
//! controller delivered to the host and carries out what the host answers;
//! the transmit duty asks the host for the next fragment to send; the control
//! duty issues commands and matches their completions. The host itself never
//! waits: where something is not ready it says so, and the runner comes back.

use crate::channel_manager;
use crate::channel_manager::{ChannelManager, ChannelParams, ChannelView};
use crate::connection_manager;
use crate::connection_manager::{
    ConnectionEvent, ConnectionManager, ConnectionState, ConnectionView, Fragment,
};
use crate::hci::{ConnHandle, HciError, LeConnRole};
use crate::l2cap;
use crate::l2cap::sar;
use crate::l2cap::sar::Pdu;
use crate::l2cap::L2capHeader;
use crate::packet_pool::{Packet, PacketPool, PoolView};
use crate::security_manager::SecurityManager;
use crate::{Address, Error};
use vstd::prelude::*;

verus! {

/// Counters of what the host has seen since it was created.
#[derive(Debug, Clone, Copy, PartialEq, Eq, Structural)]
pub struct Counters {
    /// Connections taken into the table.
    pub connect_events: u32,
    /// Connections torn down.
    pub disconnect_events: u32,
    /// Inbound units discarded because they could not be decoded.
    pub rx_errors: u32,
    /// Requests for a buffer that found a pool exhausted.
    pub alloc_failures: u32,
}

/// A snapshot of the host's counters and of what is active.
#[derive(Debug, Clone, Copy, PartialEq, Eq, Structural)]
pub struct HostMetrics {
    /// Connections taken into the table.
    pub connect_events: u32,
    /// Connections torn down.
    pub disconnect_events: u32,
    /// Inbound units discarded because they could not be decoded.
    pub rx_errors: u32,
    /// Requests for a buffer that found a pool exhausted.
    pub alloc_failures: u32,
    /// Connections that occupy a slot now.
    pub connections: usize,
    /// Channels that are open now.
    pub channels: usize,
}

/// One more than `n`, or `n` where the counter is at its largest value.
pub open spec fn bump(n: u32) -> u32 {
    if n < u32::MAX {
        (n + 1) as u32
    } else {
        n
    }
}

fn bumped(n: u32) -> (r: u32)
    ensures
        r == bump(n),
{
    if n < u32::MAX {
        n + 1
    } else {
        n
    }
}

/// The state of one advertising set.
#[derive(Debug, Clone, Copy, PartialEq, Eq, Structural)]
pub enum AdvHandleState {
    /// The set is not in use.
    Unused,
    /// The set advertises under the given handle.
    Advertising(u8),
    /// The controller ended the advertising of the given handle.
    Terminated(u8),
}

/// The host as a mathematical value.
pub struct HostView {
    /// The random address of the local device.
    pub address: Option<Address>,
    /// The connection table.
    pub connections: Seq<ConnectionView>,
    /// The channel table.
    pub channels: Seq<ChannelView>,
    /// The pool of inbound buffers.
    pub rx: PoolView,
    /// The pool of outbound buffers.
    pub tx: PoolView,
    /// Fragments that the controller has room for now.
    pub credits: nat,
    /// Fragments that the controller has room for in all.
    pub total_credits: nat,
    /// Largest fragment that the controller takes.
    pub acl_max: nat,
    /// The slot at which the transmit duty looks first.
    pub cursor: nat,
    /// The counters.
    pub counters: Counters,
    /// Opcode of the command whose completion is awaited.
    pub pending: Option<u16>,
    /// The advertising sets.
    pub advertise_handles: Seq<AdvHandleState>,
}

/// Every channel is bound to a connection that occupies a slot.
pub open spec fn bound_ok(channels: Seq<ChannelView>, connections: Seq<ConnectionView>) -> bool {
    forall|i: int|
        0 <= i < channels.len() ==> ((#[trigger] channels[i]).conn matches Some(h)
            ==> connection_manager::index_of(connections, h) is Some)
}

/// The host after the connection `handle` was torn down: its channels are
/// closed, its slot is free, the buffers that they held are released, and
/// the teardown is counted. A handle that occupies no slot changes nothing.
pub open spec fn torn_down(host: HostView, handle: u16) -> HostView {
    match connection_manager::index_of(host.connections, handle) {
        Some(i) => HostView {
            connections: connection_manager::after_disconnect(host.connections, handle),
            channels: channel_manager::after_close_all(host.channels, handle),
            rx: sar::pool_without(
                host.connections[i].sar,
                channel_manager::pool_after_close_all(host.channels, handle, host.rx, host.channels.len() as int),
            ),
            tx: connection_manager::released_all(host.tx, host.connections[i].outbound),
            counters: Counters {
                disconnect_events: bump(host.counters.disconnect_events),
                ..host.counters
            },
            ..host
        },
        None => host,
    }
}

/// Tearing down is idempotent: after a teardown the handle occupies no slot,
/// so a second teardown of the same handle right after the first changes
/// nothing, and no channel is left without its connection.
pub proof fn lemma_teardown_idempotent(host: HostView, event_capacity: nat, handle: u16)
    requires
        connection_manager::table_wf(host.connections, event_capacity),
        bound_ok(host.channels, host.connections),
    ensures
        connection_manager::table_wf(torn_down(host, handle).connections, event_capacity),
        bound_ok(torn_down(host, handle).channels, torn_down(host, handle).connections),
        connection_manager::index_of(torn_down(host, handle).connections, handle) is None,
        torn_down(torn_down(host, handle), handle) == torn_down(host, handle),
{
    connection_manager::lemma_disconnect_idempotent(host.connections, event_capacity, handle);
    connection_manager::lemma_index_of(host.connections, event_capacity, handle);
    lemma_torn_down_bound(host.channels, host.connections, event_capacity, handle);
}

/// What the receive duty made of one inbound data unit.
#[derive(Debug, PartialEq)]
pub enum AclOutcome {
    /// The unit was discarded, for the reason given. Nothing but a counter
    /// changed, and the connection goes on.
    Discarded(Error),
    /// The fragment was taken in; its PDU is not complete yet.
    Pending,
    /// The fragment completed a PDU, which is queued on the channel `cid`.
    Delivered { cid: u16 },
    /// The fragment completed a PDU that the channel `cid` could not take;
    /// its buffer went back to the pool.
    Dropped { cid: u16, error: Error },
    /// The channel `cid` failed and was closed.
    ChannelFailed { cid: u16, error: Error },
    /// A protocol error tore the connection down; the runner disconnects its
    /// handle at the controller.
    Teardown { error: Error },
    /// No buffer was free; the runner offers the same unit again later.
    Retry,
}

/// The host with one more undecodable unit counted.
pub open spec fn with_rx_error(host: HostView) -> HostView {
    HostView { counters: Counters { rx_errors: bump(host.counters.rx_errors), ..host.counters }, ..host }
}

/// The host with one more exhausted pool counted.
pub open spec fn with_alloc_failure(host: HostView) -> HostView {
    HostView {
        counters: Counters { alloc_failures: bump(host.counters.alloc_failures), ..host.counters },
        ..host
    }
}

/// The host after the channel `cid` failed: the channel is closed and the
/// buffers of its queue are released.
pub open spec fn channel_failed(host: HostView, cid: u16) -> HostView {
    HostView {
        channels: channel_manager::after_close(host.channels, cid),
        rx: channel_manager::pool_after_close(host.channels, cid, host.rx),
        ..host
    }
}

/// The host with the reassembly record of slot `i` and the inbound pool
/// replaced.
pub open spec fn stored(host: HostView, i: int, record: Option<sar::Reassembly>, rx: PoolView) -> HostView {
    HostView {
        connections: host.connections.update(i, ConnectionView { sar: record, ..host.connections[i] }),
        rx,
        ..host
    }
}

/// What becomes of a complete PDU that arrived on the connection `handle`:
/// it is queued on its channel if the channel is open, bound to that
/// connection and able to take it, and its buffer is released otherwise.
pub open spec fn deliver_model(host: HostView, queue_capacity: nat, handle: u16, pdu: Pdu) -> (
    HostView,
    AclOutcome,
) {
    let cid = pdu.channel;
    let dropped = HostView { rx: host.rx.released(pdu.packet.slot()), ..host };
    if !channel_manager::bound_to(host.channels, cid, handle) {
        (dropped, AclOutcome::Dropped { cid, error: Error::ChannelClosed })
    } else {
        match channel_manager::enqueue_refusal(host.channels, cid, queue_capacity) {
            Some(error) => (dropped, AclOutcome::Dropped { cid, error }),
            None => (
                HostView {
                    channels: host.channels.update(
                        channel_manager::slot_index(cid),
                        host.channels[channel_manager::slot_index(cid)].delivered(pdu.packet),
                    ),
                    ..host
                },
                AclOutcome::Delivered { cid },
            ),
        }
    }
}

/// What the initial fragment `payload` makes of the host, where the
/// connection `handle` occupies slot `i`.
///
/// A fragment too short for a header is discarded and counted. A header for
/// a channel that is not open on this connection tears the connection down.
/// A declared length above what the channel negotiated, or above what a
/// buffer holds, fails the channel before any buffer is taken. An exhausted
/// pool is counted and asks for a retry. Any other refusal tears the
/// connection down.
pub open spec fn first_model(host: HostView, queue_capacity: nat, handle: u16, i: int, payload: Seq<u8>) -> (
    HostView,
    AclOutcome,
) {
    if payload.len() < 4 {
        (with_rx_error(host), AclOutcome::Discarded(Error::InsufficientSpace))
    } else {
        let header = L2capHeader::parse(payload);
        let cid = header.channel;
        if !channel_manager::bound_to(host.channels, cid, handle) {
            (torn_down(host, handle), AclOutcome::Teardown { error: Error::InvalidChannelId })
        } else {
            let mtu = host.channels[channel_manager::slot_index(cid)].params.mtu;
            if header.length > mtu {
                (channel_failed(host, cid), AclOutcome::ChannelFailed { cid, error: Error::InvalidValue })
            } else {
                let taken = sar::begin_model(
                    host.connections[i].sar,
                    host.rx,
                    header,
                    payload.skip(4),
                    mtu as int,
                );
                match taken.2 {
                    Ok(Some(pdu)) => deliver_model(stored(host, i, taken.0, taken.1), queue_capacity, handle, pdu),
                    Ok(None) => (stored(host, i, taken.0, taken.1), AclOutcome::Pending),
                    Err(Error::OutOfMemory) => (with_alloc_failure(host), AclOutcome::Retry),
                    Err(Error::InvalidValue) => (
                        channel_failed(host, cid),
                        AclOutcome::ChannelFailed { cid, error: Error::InvalidValue },
                    ),
                    Err(error) => (torn_down(host, handle), AclOutcome::Teardown { error }),
                }
            }
        }
    }
}

/// What the continuation fragment `payload` makes of the host, where the
/// connection `handle` occupies slot `i`. A refusal, as of a fragment that
/// arrives while no reassembly is in progress, tears the connection down.
pub open spec fn continuation_model(
    host: HostView,
    queue_capacity: nat,
    handle: u16,
    i: int,
    payload: Seq<u8>,
) -> (HostView, AclOutcome) {
    let taken = sar::update_model(host.connections[i].sar, host.rx, payload);
    let after = stored(host, i, taken.0, taken.1);
    match taken.2 {
        Ok(Some(pdu)) => deliver_model(after, queue_capacity, handle, pdu),
        Ok(None) => (after, AclOutcome::Pending),
        Err(error) => (torn_down(after, handle), AclOutcome::Teardown { error }),
    }
}

/// What an inbound data unit makes of the host. A unit for a handle that
/// occupies no slot, or whose connection is not in the connected state, is
/// discarded.
pub open spec fn acl_model(host: HostView, queue_capacity: nat, handle: u16, first: bool, payload: Seq<u8>) -> (
    HostView,
    AclOutcome,
) {
    match connection_manager::index_of(host.connections, handle) {
        None => (host, AclOutcome::Discarded(Error::NotFound)),
        Some(i) => if !(host.connections[i].state is Connected) {
            (host, AclOutcome::Discarded(Error::Disconnected))
        } else if first {
            first_model(host, queue_capacity, handle, i, payload)
        } else {
            continuation_model(host, queue_capacity, handle, i, payload)
        },
    }
}

/// A continuation fragment that arrives on a connected connection while no
/// reassembly is in progress is a protocol error: the connection is torn
/// down and its handle occupies no slot afterwards.
pub proof fn lemma_orphan_continuation_tears_down(
    host: HostView,
    event_capacity: nat,
    queue_capacity: nat,
    handle: u16,
    payload: Seq<u8>,
)
    requires
        connection_manager::table_wf(host.connections, event_capacity),
        connection_manager::index_of(host.connections, handle) matches Some(i) && host.connections[i].state
            is Connected && host.connections[i].sar is None,
    ensures
        acl_model(host, queue_capacity, handle, false, payload).1 == (AclOutcome::Teardown {
            error: Error::InvalidState,
        }),
        connection_manager::index_of(
            acl_model(host, queue_capacity, handle, false, payload).0.connections,
            handle,
        ) is None,
{
    let i = connection_manager::index_of(host.connections, handle)->0;
    let taken = sar::update_model(host.connections[i].sar, host.rx, payload);
    let after = stored(host, i, taken.0, taken.1);
    connection_manager::lemma_index_of(host.connections, event_capacity, handle);
    assert(after.connections =~= host.connections);
    connection_manager::lemma_disconnect_idempotent(host.connections, event_capacity, handle);
}

/// What the controller's report of a complete connection makes of the host,
/// and what taking it in returns.
///
/// A report with a failure status fails with that status. Otherwise the
/// connection occupies the first free slot of the table and is counted,
/// unless its handle already occupies a slot or no slot is free. Nothing
/// changes on failure.
pub open spec fn connect_post(
    host: HostView,
    status: u8,
    handle: u16,
    role: LeConnRole,
    peer: Address,
    after: HostView,
    r: Result<usize, Error>,
) -> bool {
    match r {
        Ok(i) => {
            &&& status == 0
            &&& connection_manager::index_of(host.connections, handle) is None
            &&& connection_manager::first_vacant(host.connections, i as int)
            &&& after == (HostView {
                connections: host.connections.update(i as int, ConnectionView::fresh(handle, role, peer)),
                counters: Counters { connect_events: bump(host.counters.connect_events), ..host.counters },
                ..host
            })
        },
        Err(e) => {
            &&& after == host
            &&& if status != 0 {
                e matches Error::Hci(h) && h.code() == status
            } else if connection_manager::index_of(host.connections, handle) is Some {
                e == Error::InvalidState
            } else {
                e == Error::ConnectionLimitReached && connection_manager::all_occupied(host.connections)
            }
        },
    }
}

/// The host with `n` of the controller's credits given back, up to the room
/// that the controller has in all.
pub open spec fn credited(host: HostView, n: u16) -> HostView {
    HostView {
        credits: if host.credits + n <= host.total_credits {
            (host.credits + n) as nat
        } else {
            host.total_credits
        },
        ..host
    }
}

/// The sum of the given counts.
pub open spec fn sum_of(counts: Seq<u16>) -> nat
    decreases counts.len(),
{
    if counts.len() == 0 {
        0
    } else {
        sum_of(counts.drop_last()) + counts.last() as nat
    }
}

/// The number of fragments that a report of the controller gives back in
/// all, where the report names a count for each of several connections: the
/// sum of the counts, or the largest number that a count holds where the
/// sum is beyond it.
pub fn completed_total(counts: &[u16]) -> (total: u16)
    ensures
        total == if sum_of(counts@) <= u16::MAX {
            sum_of(counts@)
        } else {
            u16::MAX as nat
        },
{
    let mut total: u16 = 0;
    let mut i: usize = 0;
    while i < counts.len()
        invariant
            i <= counts@.len(),
            total == if sum_of(counts@.take(i as int)) <= u16::MAX {
                sum_of(counts@.take(i as int))
            } else {
                u16::MAX as nat
            },
        decreases counts@.len() - i,
    {
        proof {
            assert(counts@.take(i + 1).drop_last() =~= counts@.take(i as int));
        }
        let n = counts[i];
        if n > u16::MAX - total {
            total = u16::MAX;
        } else {
            total = total + n;
        }
        i += 1;
    }
    proof {
        assert(counts@.take(counts@.len() as int) =~= counts@);
    }
    total
}

/// What noting the command `opcode` as in flight makes of the host, and what
/// it returns: the command is awaited, unless another one is; then the call
/// fails with `Busy` and nothing changes.
pub open spec fn begin_post(host: HostView, opcode: u16, after: HostView, r: Result<(), Error>) -> bool {
    match r {
        Ok(_) => host.pending is None && after == (HostView { pending: Some(opcode), ..host }),
        Err(e) => e == Error::Busy && host.pending is Some && after == host,
    }
}

/// What the completion of the command `opcode` with `status` makes of the
/// host, and what matching it returns: the wait ends if that command was
/// awaited, and nothing changes otherwise.
pub open spec fn command_post(
    host: HostView,
    opcode: u16,
    status: u8,
    after: HostView,
    r: Option<Result<(), Error>>,
) -> bool {
    match r {
        Some(result) => {
            &&& host.pending == Some(opcode)
            &&& after == (HostView { pending: None, ..host })
            &&& match result {
                Ok(_) => status == 0,
                Err(e) => status != 0 && (e matches Error::Hci(h) && h.code() == status),
            }
        },
        None => host.pending != Some(opcode) && after == host,
    }
}

/// What queueing `event` for the consumer of the connection `handle` makes of
/// the host, and what it returns: the event joins the queue of the
/// connection, unless the handle occupies no slot or the queue is full; then
/// the event is dropped and nothing changes.
pub open spec fn event_post(
    host: HostView,
    event_capacity: nat,
    handle: u16,
    event: ConnectionEvent,
    after: HostView,
    r: Result<(), Error>,
) -> bool {
    match r {
        Ok(_) => connection_manager::index_of(host.connections, handle) matches Some(i)
            && host.connections[i].events.len() < event_capacity && after == (HostView {
            connections: host.connections.update(
                i,
                ConnectionView { events: host.connections[i].events.push(event), ..host.connections[i] },
            ),
            ..host
        }),
        Err(e) => after == host && match connection_manager::index_of(host.connections, handle) {
            Some(i) => e == Error::OutOfMemory && host.connections[i].events.len() >= event_capacity,
            None => e == Error::NotFound,
        },
    }
}

/// One unit that the receive duty pulled from the controller, decoded.
#[derive(Debug, PartialEq)]
pub enum ControllerUnit {
    /// A connection was established, or failed to be.
    ConnectionComplete { status: u8, handle: ConnHandle, role: LeConnRole, peer: Address },
    /// A connection ended.
    DisconnectionComplete { status: u8, handle: ConnHandle, reason: u8 },
    /// The controller has sent fragments and has room for as many again.
    CompletedPackets { count: u16 },
    /// A fragment of a PDU arrived.
    Acl { handle: ConnHandle, first: bool, payload: Vec<u8> },
    /// A command completed.
    CommandComplete { opcode: u16, status: u8 },
    /// Something happened on a connection that its consumer is told of.
    Event { handle: ConnHandle, event: ConnectionEvent },
    /// The unit could not be decoded.
    Malformed,
}

/// What the receive duty made of a unit.
#[derive(Debug, PartialEq)]
pub enum UnitOutcome {
    /// A connection report: the slot that the connection occupies, or why it
    /// was not taken in.
    Connection { handle: ConnHandle, result: Result<usize, Error> },
    /// A disconnection report, and whether it tore a connection down.
    Disconnection { handle: ConnHandle, found: bool },
    /// Credits of the controller were given back.
    Credits,
    /// A fragment, and what became of it.
    Data { handle: ConnHandle, outcome: AclOutcome },
    /// A command completion: the result of the awaited command, or `None` if
    /// that command was not awaited.
    Command { opcode: u16, completion: Option<Result<(), Error>> },
    /// An event for the consumer of a connection, and whether it was queued
    /// or why it was dropped.
    Event { handle: ConnHandle, queued: Result<(), Error> },
    /// The unit could not be decoded and was discarded.
    Malformed,
}

/// What the runner has to do after a unit.
#[derive(Debug, PartialEq)]
pub enum RxAction {
    /// Nothing: it pulls the next unit.
    Idle,
    /// It disconnects the handle at the controller: the connection was not
    /// taken in, or a protocol error tore it down.
    Disconnect { handle: ConnHandle },
    /// It offers the same unit again once a buffer has been released.
    Retry,
    /// It hands the result to the issuer of the command.
    Complete { opcode: u16, result: Result<(), Error> },
}

/// What a unit makes of the host, and what taking it in returns. Each kind
/// of unit is routed to the part of the host that it concerns; a unit that
/// could not be decoded is counted and discarded, and a disconnection that
/// the controller reports as failed changes nothing.
pub open spec fn unit_post(
    host: HostView,
    event_capacity: nat,
    queue_capacity: nat,
    unit: ControllerUnit,
    after: HostView,
    r: UnitOutcome,
) -> bool {
    match unit {
        ControllerUnit::ConnectionComplete { status, handle, role, peer } => r matches UnitOutcome::Connection {
            handle: h,
            result,
        } && h == handle && connect_post(host, status, handle@, role, peer, after, result),
        ControllerUnit::DisconnectionComplete { status, handle, reason } => if status == 0 {
            after == torn_down(host, handle@) && r == (UnitOutcome::Disconnection {
                handle,
                found: connection_manager::index_of(host.connections, handle@) is Some,
            })
        } else {
            after == host && r == (UnitOutcome::Disconnection { handle, found: false })
        },
        ControllerUnit::CompletedPackets { count } => after == credited(host, count) && r
            == UnitOutcome::Credits,
        ControllerUnit::Acl { handle, first, payload } => r matches UnitOutcome::Data { handle: h, outcome }
            && h == handle && (after, outcome) == acl_model(host, queue_capacity, handle@, first, payload@),
        ControllerUnit::CommandComplete { opcode, status } => r matches UnitOutcome::Command {
            opcode: o,
            completion,
        } && o == opcode && command_post(host, opcode, status, after, completion),
        ControllerUnit::Event { handle, event } => r matches UnitOutcome::Event { handle: h, queued } && h
            == handle && event_post(host, event_capacity, handle@, event, after, queued),
        ControllerUnit::Malformed => after == with_rx_error(host) && r == UnitOutcome::Malformed,
    }
}

/// The action that an outcome asks of the runner.
pub open spec fn action_of(outcome: UnitOutcome) -> RxAction {
    match outcome {
        UnitOutcome::Connection { handle, result } => match result {
            Err(Error::ConnectionLimitReached) => RxAction::Disconnect { handle },
            Err(Error::InvalidState) => RxAction::Disconnect { handle },
            _ => RxAction::Idle,
        },
        UnitOutcome::Data { handle, outcome } => match outcome {
            AclOutcome::Teardown { error } => RxAction::Disconnect { handle },
            AclOutcome::Retry => RxAction::Retry,
            _ => RxAction::Idle,
        },
        UnitOutcome::Command { opcode, completion } => match completion {
            Some(result) => RxAction::Complete { opcode, result },
            None => RxAction::Idle,
        },
        _ => RxAction::Idle,
    }
}

/// The action that an outcome asks of the runner.
pub fn next_action(outcome: UnitOutcome) -> (r: RxAction)
    ensures
        r == action_of(outcome),
{
    match outcome {
        UnitOutcome::Connection { handle, result } => match result {
            Err(Error::ConnectionLimitReached) => RxAction::Disconnect { handle },
            Err(Error::InvalidState) => RxAction::Disconnect { handle },
            _ => RxAction::Idle,
        },
        UnitOutcome::Data { handle, outcome } => match outcome {
            AclOutcome::Teardown { error } => RxAction::Disconnect { handle },
            AclOutcome::Retry => RxAction::Retry,
            _ => RxAction::Idle,
        },
        UnitOutcome::Command { opcode, completion } => match completion {
            Some(result) => RxAction::Complete { opcode, result },
            None => RxAction::Idle,
        },
        _ => RxAction::Idle,
    }
}

/// The largest fragment that fits both the controller and an outbound
/// buffer.
pub open spec fn fragment_size(host: HostView) -> int {
    if host.acl_max <= host.tx.mtu {
        host.acl_max as int
    } else {
        host.tx.mtu as int
    }
}

/// The fragments into which the host cuts `pdu` for the channel `cid`.
pub open spec fn fragments_of(host: HostView, cid: u16, pdu: Seq<u8>) -> Seq<Seq<u8>> {
    l2cap::split(
        l2cap::frame(host.channels[channel_manager::slot_index(cid)].params.peer_cid, pdu),
        fragment_size(host),
    )
}

/// Why `pdu` cannot be sent on the channel `cid` now, if it cannot. The
/// checks are made in this order: the channel is open; its connection is in
/// the connected state; the PDU is no longer than the peer accepts; a
/// fragment can hold a header; the outbound pool has a buffer for every
/// fragment; the peer has granted a credit; a buffer for every fragment is
/// free.
///
/// The last two refusals, `NoPermits` and `OutOfMemory`, pass: the same call
/// can succeed later. A PDU with more fragments than the outbound pool has
/// buffers, free or not, can never be sent and is refused with
/// `InsufficientSpace`, as one that is longer than the peer accepts.
pub open spec fn send_refusal(host: HostView, cid: u16, pdu: Seq<u8>) -> Option<Error> {
    if !channel_manager::is_open(host.channels, cid) {
        Some(Error::ChannelClosed)
    } else {
        let channel = host.channels[channel_manager::slot_index(cid)];
        if !(connection_manager::index_of(host.connections, channel.conn->0) matches Some(i)
            && host.connections[i].state is Connected) {
            Some(Error::Disconnected)
        } else if pdu.len() > channel.params.peer_mtu {
            Some(Error::InsufficientSpace)
        } else if fragment_size(host) < 4 {
            Some(Error::InvalidValue)
        } else if fragments_of(host, cid, pdu).len() > host.tx.slots.len() {
            Some(Error::InsufficientSpace)
        } else if !channel.can_send(1) {
            Some(Error::NoPermits)
        } else if host.tx.free_count() < fragments_of(host, cid, pdu).len() {
            Some(Error::OutOfMemory)
        } else {
            None
        }
    }
}

/// The pool after each of `fragments`, in order, was written to the buffer
/// that was the first free one at its turn.
pub open spec fn loaded(pool: PoolView, fragments: Seq<Seq<u8>>) -> PoolView
    decreases fragments.len(),
{
    if fragments.len() == 0 {
        pool
    } else {
        let before = loaded(pool, fragments.drop_last());
        let slot = before.free_slot()->0;
        before.allocated(slot).appended(slot, fragments.last())
    }
}

/// The queue entries for `fragments` once they are written to the pool: the
/// first one is marked as initial, and each refers to the buffer that holds
/// its fragment.
pub open spec fn queued(pool: PoolView, fragments: Seq<Seq<u8>>) -> Seq<Fragment>
    decreases fragments.len(),
{
    if fragments.len() == 0 {
        Seq::empty()
    } else {
        let rest = fragments.drop_last();
        queued(pool, rest).push(
            Fragment { first: rest.len() == 0, packet: Packet::at(loaded(pool, rest).free_slot()->0) },
        )
    }
}

/// The host after `pdu` was accepted for sending on the channel `cid`: one
/// of the peer's credits is spent, and the fragments of the PDU stand in
/// outbound buffers at the end of the queue of the channel's connection.
pub open spec fn sent(host: HostView, cid: u16, pdu: Seq<u8>) -> HostView {
    let channel = host.channels[channel_manager::slot_index(cid)];
    let i = connection_manager::index_of(host.connections, channel.conn->0)->0;
    let fragments = fragments_of(host, cid, pdu);
    HostView {
        connections: host.connections.update(
            i,
            ConnectionView {
                outbound: host.connections[i].outbound + queued(host.tx, fragments),
                ..host.connections[i]
            },
        ),
        channels: host.channels.update(channel_manager::slot_index(cid), channel.spent(1)),
        tx: loaded(host.tx, fragments),
        ..host
    }
}

/// A fragment on its way to the controller.
#[derive(Debug, PartialEq)]
pub struct Outbound {
    /// Handle of the connection that the fragment belongs to.
    pub handle: ConnHandle,
    /// Whether this is the initial fragment of its PDU.
    pub first: bool,
    /// The bytes of the fragment.
    pub data: Vec<u8>,
}

/// The slot that follows slot `j` in a round over `n` slots.
pub open spec fn turn_after(j: int, n: int) -> nat {
    if j + 1 < n {
        (j + 1) as nat
    } else {
        0
    }
}

/// The host after the transmit duty took the oldest fragment of slot `j`:
/// the fragment has left the queue and its buffer the pool, one of the
/// controller's credits is spent, and the next round starts behind `j`.
pub open spec fn transmitted(host: HostView, j: int) -> HostView {
    HostView {
        connections: host.connections.update(
            j,
            ConnectionView { outbound: host.connections[j].outbound.skip(1), ..host.connections[j] },
        ),
        tx: host.tx.released(host.connections[j].outbound[0].packet.slot()),
        credits: (host.credits - 1) as nat,
        cursor: turn_after(j, host.connections.len() as int),
        ..host
    }
}

/// What the transmit duty makes of the host, and what it returns.
///
/// While the controller has no room, or no connected connection has a
/// fragment queued, it returns `None` and changes nothing. Otherwise it takes
/// the oldest fragment of the connection whose turn it is.
pub open spec fn poll_post(host: HostView, after: HostView, r: Option<Outbound>) -> bool {
    match r {
        Some(out) => {
            &&& host.credits > 0
            &&& connection_manager::next_turn(host.connections, host.cursor as int) matches Some(j) && {
                let fragment = host.connections[j].outbound[0];
                &&& Some(out.handle@) == host.connections[j].handle
                &&& out.first == fragment.first
                &&& out.data@ == bytes_at(host.tx, fragment.packet.slot())
                &&& after == transmitted(host, j)
            }
        },
        None => after == host && (host.credits == 0 || connection_manager::next_turn(
            host.connections,
            host.cursor as int,
        ) is None),
    }
}

/// The bytes that the buffer in `slot` holds, or none if the slot is not
/// live.
pub open spec fn bytes_at(pool: PoolView, slot: int) -> Seq<u8> {
    if pool.live(slot) {
        pool.slots[slot].bytes
    } else {
        Seq::empty()
    }
}

/// A table in which every occupied slot kept its handle serves the channels
/// that the table before served.
pub proof fn lemma_handles_kept(
    before: Seq<ConnectionView>,
    after: Seq<ConnectionView>,
    channels: Seq<ChannelView>,
)
    requires
        before.len() == after.len(),
        forall|j: int|
            0 <= j < before.len() && (#[trigger] before[j]).handle is Some ==> after[j].handle
                == before[j].handle,
        bound_ok(channels, before),
    ensures
        bound_ok(channels, after),
{
    assert forall|i: int| 0 <= i < channels.len() implies ((#[trigger] channels[i]).conn matches Some(h)
        ==> connection_manager::index_of(after, h) is Some) by {
        if channels[i].conn is Some {
            let h = channels[i].conn->0;
            assert(connection_manager::index_of(before, h) is Some);
            let k = choose|k: int| connection_manager::slot_of(before, h, k);
            assert(connection_manager::slot_of(after, h, k));
        }
    }
}

/// Channels that kept their connection or became free are served by the
/// table that served them before.
pub proof fn lemma_channels_kept(
    before: Seq<ChannelView>,
    after: Seq<ChannelView>,
    connections: Seq<ConnectionView>,
)
    requires
        before.len() == after.len(),
        forall|j: int|
            0 <= j < after.len() && (#[trigger] after[j]).conn is Some ==> after[j].conn == before[j].conn,
        bound_ok(before, connections),
    ensures
        bound_ok(after, connections),
{
    assert forall|i: int| 0 <= i < after.len() implies ((#[trigger] after[i]).conn matches Some(h)
        ==> connection_manager::index_of(connections, h) is Some) by {
        if after[i].conn is Some {
            assert(before[i].conn == after[i].conn);
        }
    }
}

/// After a connection was torn down, no channel is left without its
/// connection.
pub proof fn lemma_torn_down_bound(
    channels: Seq<ChannelView>,
    connections: Seq<ConnectionView>,
    capacity: nat,
    handle: u16,
)
    requires
        bound_ok(channels, connections),
        connection_manager::table_wf(connections, capacity),
    ensures
        bound_ok(
            channel_manager::after_close_all(channels, handle),
            connection_manager::after_disconnect(connections, handle),
        ),
{
    let after = channel_manager::after_close_all(channels, handle);
    let table = connection_manager::after_disconnect(connections, handle);
    connection_manager::lemma_index_of(connections, capacity, handle);
    assert forall|i: int| 0 <= i < after.len() implies ((#[trigger] after[i]).conn matches Some(h)
        ==> connection_manager::index_of(table, h) is Some) by {
        if after[i].conn is Some {
            let h = after[i].conn->0;
            assert(channels[i].conn == Some(h));
            assert(h != handle);
            assert(connection_manager::index_of(connections, h) is Some);
            let k = choose|k: int| connection_manager::slot_of(connections, h, k);
            assert(connection_manager::slot_of(table, h, k));
        }
    }
}

proof fn lemma_take_step(fragments: Seq<Seq<u8>>, k: int)
    requires
        0 <= k < fragments.len(),
    ensures
        fragments.take(k + 1).drop_last() == fragments.take(k),
        fragments.take(k + 1).last() == fragments[k],
        fragments.take(k + 1).len() == k + 1,
        fragments.take(k).len() == k,
{
    assert(fragments.take(k + 1).drop_last() =~= fragments.take(k));
}

/// Writes each fragment to a buffer of the outbound pool and queues it on the
/// connection of `handle`.
fn enqueue_fragments(
    connections: &mut ConnectionManager,
    tx: &mut PacketPool,
    handle: ConnHandle,
    fragments: &Vec<Vec<u8>>,
)
    requires
        old(connections).wf(),
        old(tx).wf(),
        connected(old(connections)@, handle@),
        old(tx)@.free_count() >= fragments@.len(),
        forall|k: int| 0 <= k < fragments@.len() ==> (#[trigger] fragments@[k])@.len() <= old(tx)@.mtu,
    ensures
        final(connections).wf(),
        final(tx).wf(),
        final(connections).event_capacity() == old(connections).event_capacity(),
        final(tx)@ == loaded(old(tx)@, l2cap::contents(fragments@)),
        final(connections)@ == old(connections)@.update(
            connection_manager::index_of(old(connections)@, handle@)->0,
            ConnectionView {
                outbound: old(connections)@[connection_manager::index_of(
                    old(connections)@,
                    handle@,
                )->0].outbound + queued(old(tx)@, l2cap::contents(fragments@)),
                ..old(connections)@[connection_manager::index_of(old(connections)@, handle@)->0]
            },
        ),
{
    let ghost i = connection_manager::index_of(connections@, handle@)->0;
    let ghost all = l2cap::contents(fragments@);
    let ghost start = connections@[i];
    let n = fragments.len();
    let mut k: usize = 0;
    proof {
        connection_manager::lemma_index_of(connections@, connections.event_capacity(), handle@);
        assert(start.outbound + queued(tx@, all.take(0)) =~= start.outbound);
        assert(connections@ =~= old(connections)@.update(
            i,
            ConnectionView { outbound: start.outbound + queued(tx@, all.take(0)), ..start },
        ));
    }
    while k < n
        invariant
            k <= n,
            n == fragments@.len(),
            all == l2cap::contents(fragments@),
            connections.wf(),
            tx.wf(),
            tx@.mtu == old(tx)@.mtu,
            connections.event_capacity() == old(connections).event_capacity(),
            start == old(connections)@[i],
            connection_manager::slot_of(old(connections)@, handle@, i),
            start.state is Connected,
            forall|j: int| 0 <= j < fragments@.len() ==> (#[trigger] fragments@[j])@.len() <= old(tx)@.mtu,
            tx@.free_count() >= n - k,
            tx@ == loaded(old(tx)@, all.take(k as int)),
            connections@ == old(connections)@.update(
                i,
                ConnectionView {
                    outbound: start.outbound + queued(old(tx)@, all.take(k as int)),
                    ..start
                },
            ),
        decreases n - k,
    {
        let ghost before = tx@;
        proof {
            crate::packet_pool::lemma_free_count(before, 0, Seq::empty());
            crate::packet_pool::lemma_free_slot(before);
            lemma_take_step(all, k as int);
            connection_manager::lemma_index_of(connections@, connections.event_capacity(), handle@);
            assert(connection_manager::slot_of(connections@, handle@, i));
        }
        let packet = match tx.allocate() {
            Some(p) => p,
            None => {
                assert(false);
                return ;
            },
        };
        proof {
            crate::packet_pool::lemma_free_count(before, packet.slot(), fragments@[k as int]@);
            crate::packet_pool::lemma_free_count(
                before.allocated(packet.slot()),
                packet.slot(),
                fragments@[k as int]@,
            );
            packet.lemma_at();
            assert(fragments@[k as int]@.len() <= old(tx)@.mtu);
        }
        let written = tx.append(&packet, fragments[k].as_slice());
        assert(written is Ok);
        let ghost entry = Fragment { first: k == 0, packet };
        let r = connections.enqueue_outbound(handle, Fragment { first: k == 0, packet });
        proof {
            assert(r is Ok);
            assert(all[k as int] == fragments@[k as int]@);
            assert(queued(old(tx)@, all.take(k + 1)) == queued(old(tx)@, all.take(k as int)).push(entry));
            assert(start.outbound + queued(old(tx)@, all.take(k + 1)) =~= (start.outbound + queued(
                old(tx)@,
                all.take(k as int),
            )).push(entry));
            assert(connections@ =~= old(connections)@.update(
                i,
                ConnectionView { outbound: start.outbound + queued(old(tx)@, all.take(k + 1)), ..start },
            ));
        }
        k += 1;
    }
    proof {
        assert(all.take(n as int) =~= all);
    }
}

/// The connection `handle` occupies a slot and is in the connected state.
pub open spec fn connected(connections: Seq<ConnectionView>, handle: u16) -> bool {
    connection_manager::index_of(connections, handle) matches Some(i) && connections[i].state
        is Connected
}

/// The host state that the runner's duties share.
pub struct BleHost {
    address: Option<Address>,
    security_manager: SecurityManager,
    rx_pool: PacketPool,
    tx_pool: PacketPool,
    connections: ConnectionManager,
    channels: ChannelManager,
    credits: usize,
    total_credits: usize,
    acl_max: usize,
    cursor: usize,
    counters: Counters,
    pending: Option<u16>,
    advertise_handles: Vec<AdvHandleState>,
}

impl View for BleHost {
    type V = HostView;

    closed spec fn view(&self) -> HostView {
        HostView {
            address: self.address,
            connections: self.connections@,
            channels: self.channels@,
            rx: self.rx_pool@,
            tx: self.tx_pool@,
            credits: self.credits as nat,
            total_credits: self.total_credits as nat,
            acl_max: self.acl_max as nat,
            cursor: self.cursor as nat,
            counters: self.counters,
            pending: self.pending,
            advertise_handles: self.advertise_handles@,
        }
    }
}

impl BleHost {
    /// The security manager of the host.
    pub closed spec fn security(&self) -> SecurityManager {
        self.security_manager
    }

    /// Number of events that the queue of one connection holds at most.
    pub closed spec fn event_capacity(&self) -> nat {
        self.connections.event_capacity()
    }

    /// Number of PDUs that the inbound queue of one channel holds at most.
    pub closed spec fn queue_capacity(&self) -> nat {
        self.channels.queue_capacity()
    }

    /// The invariant of the host: its tables and pools are well formed, the
    /// controller is never credited with more room than it has, and every
    /// channel is bound to a connection that occupies a slot.
    pub closed spec fn wf(&self) -> bool {
        &&& self.connections.wf()
        &&& self.channels.wf()
        &&& self.rx_pool.wf()
        &&& self.tx_pool.wf()
        &&& self.security_manager.wf()
        &&& self.credits <= self.total_credits
        &&& bound_ok(self.channels@, self.connections@)
    }

    /// What the invariant of the host says of its view.
    pub proof fn lemma_wf(&self)
        requires
            self.wf(),
        ensures
            connection_manager::table_wf(self@.connections, self.event_capacity()),
            channel_manager::table_wf(self@.channels, self.queue_capacity()),
            self@.credits <= self@.total_credits,
            bound_ok(self@.channels, self@.connections),
            self.security().wf(),
    {
    }

    /// A host that uses the given pools, tables and advertising sets, with no
    /// channel open yet. The controller is credited with no room until its
    /// buffer size is known.
    pub fn new(
        rx_pool: PacketPool,
        tx_pool: PacketPool,
        connections: ConnectionManager,
        channels: ChannelManager,
        advertise_handles: Vec<AdvHandleState>,
    ) -> (host: Self)
        requires
            rx_pool.wf(),
            tx_pool.wf(),
            connections.wf(),
            channels.wf(),
            forall|i: int| 0 <= i < channels@.len() ==> channels@[i] == ChannelView::vacant(),
        ensures
            host.wf(),
            host.event_capacity() == connections.event_capacity(),
            host.queue_capacity() == channels.queue_capacity(),
            host@ == (HostView {
                address: None,
                connections: connections@,
                channels: channels@,
                rx: rx_pool@,
                tx: tx_pool@,
                credits: 0,
                total_credits: 0,
                acl_max: 0,
                cursor: 0,
                counters: Counters { connect_events: 0, disconnect_events: 0, rx_errors: 0, alloc_failures: 0 },
                pending: None,
                advertise_handles: advertise_handles@,
            }),
            host.security().records() == Seq::<crate::security_manager::BondInformation>::empty(),
            host.security().seed() is None,
            host.security().local_address() is None,
    {
        BleHost {
            address: None,
            security_manager: SecurityManager::new(),
            rx_pool,
            tx_pool,
            connections,
            channels,
            credits: 0,
            total_credits: 0,
            acl_max: 0,
            cursor: 0,
            counters: Counters { connect_events: 0, disconnect_events: 0, rx_errors: 0, alloc_failures: 0 },
            pending: None,
            advertise_handles,
        }
    }

    /// Records the buffer size that the controller reported: the largest
    /// fragment it takes and how many it has room for. All of that room is
    /// free at this point.
    pub fn set_buffer_size(&mut self, acl_max: usize, total: usize)
        requires
            old(self).wf(),
        ensures
            final(self).wf(),
            final(self).security() == old(self).security(),
            final(self).event_capacity() == old(self).event_capacity(),
            final(self).queue_capacity() == old(self).queue_capacity(),
            final(self)@ == (HostView {
                acl_max: acl_max as nat,
                total_credits: total as nat,
                credits: total as nat,
                ..old(self)@
            }),
    {
        self.acl_max = acl_max;
        self.total_credits = total;
        self.credits = total;
    }

    /// Takes a connection that the controller reported as complete into the
    /// table, and returns its slot.
    ///
    /// A report with a failure status fails with that status as `Hci`. When
    /// the table has no free slot the call fails with
    /// `ConnectionLimitReached`, and when the handle already occupies a slot
    /// with `InvalidState`; the runner then has to disconnect the handle at
    /// the controller. Nothing changes on failure.
    pub fn on_connection_complete(&mut self, status: u8, handle: ConnHandle, role: LeConnRole, peer: Address) -> (r:
        Result<usize, Error>)
        requires
            old(self).wf(),
        ensures
            final(self).wf(),
            final(self).security() == old(self).security(),
            final(self).event_capacity() == old(self).event_capacity(),
            final(self).queue_capacity() == old(self).queue_capacity(),
            connect_post(old(self)@, status, handle@, role, peer, final(self)@, r),
    {
        match HciError::from_status(status) {
            Some(e) => {
                return Err(Error::Hci(e));
            },
            None => {},
        }
        match self.connections.on_connected(handle, role, peer) {
            Ok(i) => {
                self.counters.connect_events = bumped(self.counters.connect_events);
                proof {
                    lemma_handles_kept(old(self)@.connections, self@.connections, self@.channels);
                }
                Ok(i)
            },
            Err(e) => Err(e),
        }
    }

    /// Tears down the connection of `handle`, on the controller's report of a
    /// disconnection or after a protocol error: every channel bound to it is
    /// closed, its slot becomes free, and the buffers that the channels and
    /// the slot held go back to their pools. Returns whether the handle
    /// occupied a slot.
    ///
    /// For a handle that occupies no slot nothing changes, so a repeated
    /// report is harmless.
    pub fn on_disconnected(&mut self, handle: ConnHandle) -> (r: bool)
        requires
            old(self).wf(),
        ensures
            final(self).wf(),
            final(self).security() == old(self).security(),
            final(self).event_capacity() == old(self).event_capacity(),
            final(self).queue_capacity() == old(self).queue_capacity(),
            r == connection_manager::index_of(old(self)@.connections, handle@) is Some,
            final(self)@ == torn_down(old(self)@, handle@),
    {
        if self.connections.lookup(handle).is_none() {
            return false;
        }
        let _ = self.channels.close_all(handle, &mut self.rx_pool);
        let _ = self.connections.on_disconnected(handle, &mut self.rx_pool, &mut self.tx_pool);
        self.counters.disconnect_events = bumped(self.counters.disconnect_events);
        proof {
            lemma_torn_down_bound(old(self)@.channels, old(self)@.connections, self.event_capacity(), handle@);
        }
        true
    }

    /// Asks for the connection of `handle` to be closed. The slot becomes
    /// disconnecting; the runner disconnects the handle at the controller,
    /// whose report then tears the connection down. Fails with `NotFound`
    /// when the handle occupies no slot.
    pub fn request_disconnect(&mut self, handle: ConnHandle) -> (r: Result<(), Error>)
        requires
            old(self).wf(),
        ensures
            final(self).wf(),
            final(self).security() == old(self).security(),
            final(self).event_capacity() == old(self).event_capacity(),
            final(self).queue_capacity() == old(self).queue_capacity(),
            match r {
                Ok(_) => connection_manager::index_of(old(self)@.connections, handle@) matches Some(i)
                    && final(self)@ == (HostView {
                    connections: old(self)@.connections.update(
                        i,
                        ConnectionView {
                            state: ConnectionState::Disconnecting,
                            ..old(self)@.connections[i]
                        },
                    ),
                    ..old(self)@
                }),
                Err(e) => e == Error::NotFound && connection_manager::index_of(
                    old(self)@.connections,
                    handle@,
                ) is None && final(self)@ == old(self)@,
            },
    {
        let r = self.connections.request_disconnect(handle);
        proof {
            connection_manager::lemma_index_of(old(self)@.connections, self.event_capacity(), handle@);
            lemma_handles_kept(old(self)@.connections, self@.connections, self@.channels);
        }
        r
    }

    /// A snapshot of the counters and of the numbers of active connections
    /// and open channels.
    pub fn metrics(&self) -> (r: HostMetrics)
        ensures
            r == (HostMetrics {
                connect_events: self@.counters.connect_events,
                disconnect_events: self@.counters.disconnect_events,
                rx_errors: self@.counters.rx_errors,
                alloc_failures: self@.counters.alloc_failures,
                connections: connection_manager::occupied_among(
                    self@.connections,
                    self@.connections.len() as int,
                ) as usize,
                channels: channel_manager::open_among(self@.channels, self@.channels.len() as int) as usize,
            }),
    {
        HostMetrics {
            connect_events: self.counters.connect_events,
            disconnect_events: self.counters.disconnect_events,
            rx_errors: self.counters.rx_errors,
            alloc_failures: self.counters.alloc_failures,
            connections: self.connections.active(),
            channels: self.channels.active(),
        }
    }

    /// Queues a complete PDU on its channel, or releases its buffer.
    fn deliver(&mut self, handle: ConnHandle, pdu: Pdu) -> (r: AclOutcome)
        requires
            old(self).wf(),
        ensures
            final(self).wf(),
            final(self).security() == old(self).security(),
            final(self).event_capacity() == old(self).event_capacity(),
            final(self).queue_capacity() == old(self).queue_capacity(),
            (final(self)@, r) == deliver_model(old(self)@, old(self).queue_capacity(), handle@, pdu),
    {
        let cid = pdu.channel;
        if self.channels.bind_check(cid, handle).is_err() {
            let _ = self.rx_pool.release(pdu.packet);
            return AclOutcome::Dropped { cid, error: Error::ChannelClosed };
        }
        let r = self.channels.enqueue_inbound(cid, pdu.packet, &mut self.rx_pool);
        proof {
            lemma_channels_kept(old(self)@.channels, self@.channels, self@.connections);
        }
        match r {
            Ok(_) => AclOutcome::Delivered { cid },
            Err(error) => AclOutcome::Dropped { cid, error },
        }
    }

    /// Takes in one inbound data unit: a fragment of a PDU that arrived on
    /// the connection of `handle`, initial if `first` is set and a
    /// continuation otherwise.
    pub fn on_acl(&mut self, handle: ConnHandle, first: bool, payload: &[u8]) -> (r: AclOutcome)
        requires
            old(self).wf(),
        ensures
            final(self).wf(),
            final(self).security() == old(self).security(),
            final(self).event_capacity() == old(self).event_capacity(),
            final(self).queue_capacity() == old(self).queue_capacity(),
            (final(self)@, r) == acl_model(old(self)@, old(self).queue_capacity(), handle@, first, payload@),
    {
        if self.connections.lookup(handle).is_none() {
            return AclOutcome::Discarded(Error::NotFound);
        }
        match self.connections.state(handle) {
            ConnectionState::Connected => {},
            _ => {
                return AclOutcome::Discarded(Error::Disconnected);
            },
        }
        if first {
            self.first_fragment(handle, payload)
        } else {
            self.continuation(handle, payload)
        }
    }

    fn first_fragment(&mut self, handle: ConnHandle, payload: &[u8]) -> (r: AclOutcome)
        requires
            old(self).wf(),
            connection_manager::index_of(old(self)@.connections, handle@) is Some,
        ensures
            final(self).wf(),
            final(self).security() == old(self).security(),
            final(self).event_capacity() == old(self).event_capacity(),
            final(self).queue_capacity() == old(self).queue_capacity(),
            (final(self)@, r) == first_model(
                old(self)@,
                old(self).queue_capacity(),
                handle@,
                connection_manager::index_of(old(self)@.connections, handle@)->0,
                payload@,
            ),
    {
        let header = match L2capHeader::decode(payload) {
            Ok(h) => h,
            Err(_) => {
                self.counters.rx_errors = bumped(self.counters.rx_errors);
                return AclOutcome::Discarded(Error::InsufficientSpace);
            },
        };
        let cid = header.channel;
        if self.channels.bind_check(cid, handle).is_err() {
            let _ = self.on_disconnected(handle);
            return AclOutcome::Teardown { error: Error::InvalidChannelId };
        }
        let mtu = match self.channels.accept_length(cid, header.length, &mut self.rx_pool) {
            Ok(mtu) => mtu,
            Err(error) => {
                proof {
                    lemma_channels_kept(old(self)@.channels, self@.channels, self@.connections);
                }
                return AclOutcome::ChannelFailed { cid, error };
            },
        };
        let body = vstd::slice::slice_subrange(payload, l2cap::HEADER_LEN, payload.len());
        assert(body@ == payload@.skip(4));
        let taken = self.connections.begin_pdu(handle, &mut self.rx_pool, header, body, mtu as usize);
        proof {
            lemma_handles_kept(old(self)@.connections, self@.connections, self@.channels);
            if taken is Err {
                assert(self@.connections =~= old(self)@.connections);
            }
        }
        match taken {
            Ok(Some(pdu)) => self.deliver(handle, pdu),
            Ok(None) => AclOutcome::Pending,
            Err(Error::OutOfMemory) => {
                self.counters.alloc_failures = bumped(self.counters.alloc_failures);
                AclOutcome::Retry
            },
            Err(Error::InvalidValue) => {
                let _ = self.channels.close(cid, &mut self.rx_pool);
                proof {
                    lemma_channels_kept(old(self)@.channels, self@.channels, self@.connections);
                }
                AclOutcome::ChannelFailed { cid, error: Error::InvalidValue }
            },
            Err(error) => {
                let _ = self.on_disconnected(handle);
                AclOutcome::Teardown { error }
            },
        }
    }

    fn continuation(&mut self, handle: ConnHandle, payload: &[u8]) -> (r: AclOutcome)
        requires
            old(self).wf(),
            connection_manager::index_of(old(self)@.connections, handle@) is Some,
        ensures
            final(self).wf(),
            final(self).security() == old(self).security(),
            final(self).event_capacity() == old(self).event_capacity(),
            final(self).queue_capacity() == old(self).queue_capacity(),
            (final(self)@, r) == continuation_model(
                old(self)@,
                old(self).queue_capacity(),
                handle@,
                connection_manager::index_of(old(self)@.connections, handle@)->0,
                payload@,
            ),
    {
        let taken = self.connections.continue_pdu(handle, &mut self.rx_pool, payload);
        proof {
            lemma_handles_kept(old(self)@.connections, self@.connections, self@.channels);
        }
        match taken {
            Ok(Some(pdu)) => self.deliver(handle, pdu),
            Ok(None) => AclOutcome::Pending,
            Err(error) => {
                let _ = self.on_disconnected(handle);
                AclOutcome::Teardown { error }
            },
        }
    }

    /// Opens a channel on the connection of `handle` once the opening
    /// handshake has completed, and returns its id.
    ///
    /// Fails, changing nothing, with `Disconnected` when the connection is
    /// not in the connected state, and with `NoChannelAvailable` when the
    /// channel table has no free slot that a channel id can name.
    pub fn open_channel(&mut self, handle: ConnHandle, params: ChannelParams) -> (r: Result<u16, Error>)
        requires
            old(self).wf(),
        ensures
            final(self).wf(),
            final(self).security() == old(self).security(),
            final(self).event_capacity() == old(self).event_capacity(),
            final(self).queue_capacity() == old(self).queue_capacity(),
            match r {
                Ok(cid) => {
                    &&& connected(old(self)@.connections, handle@)
                    &&& channel_manager::first_free(old(self)@.channels, channel_manager::slot_index(cid))
                    &&& final(self)@ == (HostView {
                        channels: old(self)@.channels.update(
                            channel_manager::slot_index(cid),
                            ChannelView::fresh(handle@, params),
                        ),
                        ..old(self)@
                    })
                },
                Err(e) => final(self)@ == old(self)@ && if !connected(old(self)@.connections, handle@) {
                    e == Error::Disconnected
                } else {
                    e == Error::NoChannelAvailable && channel_manager::no_free_slot(old(self)@.channels)
                },
            },
    {
        match self.connections.state(handle) {
            ConnectionState::Connected => {},
            _ => {
                return Err(Error::Disconnected);
            },
        }
        match self.channels.open(&self.connections, handle, params) {
            Some(cid) => {
                proof {
                    let i = channel_manager::slot_index(cid);
                    assert forall|k: int| 0 <= k < self@.channels.len() implies ((
                    #[trigger] self@.channels[k]).conn matches Some(h) ==> connection_manager::index_of(
                        self@.connections,
                        h,
                    ) is Some) by {
                        if k != i {
                            assert(self@.channels[k] == old(self)@.channels[k]);
                        }
                    }
                }
                Ok(cid)
            },
            None => Err(Error::NoChannelAvailable),
        }
    }

    /// Closes the channel `cid` and releases what its queue held. Returns
    /// whether the channel was open.
    pub fn close_channel(&mut self, cid: u16) -> (r: bool)
        requires
            old(self).wf(),
        ensures
            final(self).wf(),
            final(self).security() == old(self).security(),
            final(self).event_capacity() == old(self).event_capacity(),
            final(self).queue_capacity() == old(self).queue_capacity(),
            r == channel_manager::is_open(old(self)@.channels, cid),
            final(self)@ == channel_failed(old(self)@, cid),
    {
        let r = self.channels.close(cid, &mut self.rx_pool);
        proof {
            lemma_channels_kept(old(self)@.channels, self@.channels, self@.connections);
        }
        r
    }

    /// Takes the oldest inbound PDU of the channel `cid` out of its queue and
    /// its buffer, which goes back to the pool.
    ///
    /// Returns `Ok(None)` when no PDU is queued, and fails with
    /// `ChannelClosed` when the channel is not open.
    pub fn receive(&mut self, cid: u16) -> (r: Result<Option<Vec<u8>>, Error>)
        requires
            old(self).wf(),
        ensures
            final(self).wf(),
            final(self).security() == old(self).security(),
            final(self).event_capacity() == old(self).event_capacity(),
            final(self).queue_capacity() == old(self).queue_capacity(),
            match r {
                Ok(Some(pdu)) => {
                    let i = channel_manager::slot_index(cid);
                    let slot = old(self)@.channels[i].inbound[0].slot();
                    &&& channel_manager::is_open(old(self)@.channels, cid)
                    &&& old(self)@.channels[i].inbound.len() > 0
                    &&& pdu@ == bytes_at(old(self)@.rx, slot)
                    &&& final(self)@ == (HostView {
                        channels: old(self)@.channels.update(
                            i,
                            ChannelView {
                                inbound: old(self)@.channels[i].inbound.skip(1),
                                ..old(self)@.channels[i]
                            },
                        ),
                        rx: old(self)@.rx.released(slot),
                        ..old(self)@
                    })
                },
                Ok(None) => channel_manager::is_open(old(self)@.channels, cid) && old(
                    self,
                )@.channels[channel_manager::slot_index(cid)].inbound.len() == 0 && final(self)@ == old(
                    self,
                )@,
                Err(e) => e == Error::ChannelClosed && !channel_manager::is_open(old(self)@.channels, cid)
                    && final(self)@ == old(self)@,
            },
    {
        let packet = match self.channels.receive(cid) {
            Ok(Some(p)) => p,
            Ok(None) => {
                return Ok(None);
            },
            Err(e) => {
                return Err(e);
            },
        };
        proof {
            lemma_channels_kept(old(self)@.channels, self@.channels, self@.connections);
        }
        let pdu = match self.rx_pool.data(&packet) {
            Some(bytes) => vstd::slice::slice_to_vec(bytes),
            None => Vec::new(),
        };
        let _ = self.rx_pool.release(packet);
        Ok(Some(pdu))
    }

    /// Adds `n` credits that the peer granted on the channel `cid`, as
    /// `ChannelManager::on_credits` does.
    pub fn on_channel_credits(&mut self, cid: u16, n: u16) -> (r: Result<u16, Error>)
        requires
            old(self).wf(),
        ensures
            final(self).wf(),
            final(self).security() == old(self).security(),
            final(self).event_capacity() == old(self).event_capacity(),
            final(self).queue_capacity() == old(self).queue_capacity(),
            match r {
                Ok(total) => {
                    let i = channel_manager::slot_index(cid);
                    &&& channel_manager::is_open(old(self)@.channels, cid)
                    &&& total == old(self)@.channels[i].params.peer_credits + n
                    &&& final(self)@ == (HostView {
                        channels: old(self)@.channels.update(
                            i,
                            ChannelView {
                                params: ChannelParams { peer_credits: total, ..old(self)@.channels[i].params },
                                ..old(self)@.channels[i]
                            },
                        ),
                        ..old(self)@
                    })
                },
                Err(e) => final(self)@ == old(self)@ && if channel_manager::is_open(
                    old(self)@.channels,
                    cid,
                ) {
                    e == Error::InvalidValue && old(self)@.channels[channel_manager::slot_index(
                        cid,
                    )].params.peer_credits + n > u16::MAX
                } else {
                    e == Error::InvalidChannelId
                },
            },
    {
        let r = self.channels.on_credits(cid, n);
        proof {
            lemma_channels_kept(old(self)@.channels, self@.channels, self@.connections);
        }
        r
    }

    /// Grants the peer `n` more credits on the channel `cid`, as
    /// `ChannelManager::grant_credits` does.
    pub fn grant_credits(&mut self, cid: u16, n: u16) -> (r: Result<u16, Error>)
        requires
            old(self).wf(),
        ensures
            final(self).wf(),
            final(self).security() == old(self).security(),
            final(self).event_capacity() == old(self).event_capacity(),
            final(self).queue_capacity() == old(self).queue_capacity(),
            match r {
                Ok(total) => {
                    let i = channel_manager::slot_index(cid);
                    &&& channel_manager::is_open(old(self)@.channels, cid)
                    &&& total == old(self)@.channels[i].params.credits + n
                    &&& final(self)@ == (HostView {
                        channels: old(self)@.channels.update(
                            i,
                            ChannelView {
                                params: ChannelParams { credits: total, ..old(self)@.channels[i].params },
                                ..old(self)@.channels[i]
                            },
                        ),
                        ..old(self)@
                    })
                },
                Err(e) => final(self)@ == old(self)@ && if channel_manager::is_open(
                    old(self)@.channels,
                    cid,
                ) {
                    e == Error::InvalidValue && old(self)@.channels[channel_manager::slot_index(
                        cid,
                    )].params.credits + n > u16::MAX
                } else {
                    e == Error::InvalidChannelId
                },
            },
    {
        let r = self.channels.grant_credits(cid, n);
        proof {
            lemma_channels_kept(old(self)@.channels, self@.channels, self@.connections);
        }
        r
    }

    /// Gives back `n` of the controller's credits, on its report that it has
    /// sent as many fragments. The credits never exceed the room that the
    /// controller has in all.
    pub fn on_completed_packets(&mut self, n: u16)
        requires
            old(self).wf(),
        ensures
            final(self).wf(),
            final(self).security() == old(self).security(),
            final(self).event_capacity() == old(self).event_capacity(),
            final(self).queue_capacity() == old(self).queue_capacity(),
            final(self)@ == credited(old(self)@, n),
    {
        let room = self.total_credits - self.credits;
        if n as usize <= room {
            self.credits = self.credits + n as usize;
        } else {
            self.credits = self.total_credits;
        }
    }

    /// The transmit duty: takes the next fragment to hand to the controller.
    ///
    /// Returns `None`, changing nothing, while the controller has no room or
    /// no connected connection has a fragment queued. Otherwise the
    /// connections are served in turn, and the fragments of one connection
    /// leave in the order in which they were queued.
    pub fn poll_tx(&mut self) -> (r: Option<Outbound>)
        requires
            old(self).wf(),
        ensures
            final(self).wf(),
            final(self).security() == old(self).security(),
            final(self).event_capacity() == old(self).event_capacity(),
            final(self).queue_capacity() == old(self).queue_capacity(),
            poll_post(old(self)@, final(self)@, r),
    {
        if self.credits == 0 {
            return None;
        }
        proof {
            connection_manager::lemma_next_turn(self@.connections, self@.cursor as int);
        }
        let j = match self.connections.next_ready(self.cursor) {
            Some(j) => {
                assert(connection_manager::first_ready(self@.connections, self@.cursor as int, j as int));
                j
            },
            None => {
                assert(connection_manager::none_ready(self@.connections, self@.cursor as int));
                match self.connections.next_ready(0) {
                    Some(j) => {
                        assert(connection_manager::first_ready(self@.connections, 0, j as int));
                        j
                    },
                    None => {
                        assert(connection_manager::none_ready(self@.connections, 0));
                        return None;
                    },
                }
            },
        };
        let (handle, fragment) = match self.connections.pop_outbound(j) {
            Some(out) => out,
            None => {
                return None;
            },
        };
        proof {
            lemma_handles_kept(old(self)@.connections, self@.connections, self@.channels);
        }
        let data = match self.tx_pool.data(&fragment.packet) {
            Some(bytes) => vstd::slice::slice_to_vec(bytes),
            None => Vec::new(),
        };
        let first = fragment.first;
        let _ = self.tx_pool.release(fragment.packet);
        self.credits = self.credits - 1;
        let slots = self.connections.capacity();
        self.cursor = if slots > 0 && j < slots - 1 {
            j + 1
        } else {
            0
        };
        Some(Outbound { handle, first, data })
    }

    /// Accepts `pdu` for sending on the channel `cid`: spends one of the
    /// peer's credits, cuts the PDU into fragments, writes each to a buffer of
    /// the outbound pool and queues them on the channel's connection. Returns
    /// the number of fragments.
    ///
    /// Never waits. `NoPermits` means that the peer has granted no credit and
    /// `OutOfMemory` that the outbound pool lacks free buffers, which is
    /// counted; in both cases the caller tries again later. Every other
    /// failure is final for this PDU. Nothing else changes on failure.
    pub fn send(&mut self, cid: u16, pdu: &[u8]) -> (r: Result<usize, Error>)
        requires
            old(self).wf(),
        ensures
            final(self).wf(),
            final(self).security() == old(self).security(),
            final(self).event_capacity() == old(self).event_capacity(),
            final(self).queue_capacity() == old(self).queue_capacity(),
            match r {
                Ok(n) => {
                    &&& send_refusal(old(self)@, cid, pdu@) is None
                    &&& n == fragments_of(old(self)@, cid, pdu@).len()
                    &&& final(self)@ == sent(old(self)@, cid, pdu@)
                },
                Err(e) => {
                    &&& send_refusal(old(self)@, cid, pdu@) == Some(e)
                    &&& final(self)@ == if e == Error::OutOfMemory {
                        with_alloc_failure(old(self)@)
                    } else {
                        old(self)@
                    }
                },
            },
    {
        let handle = match self.channels.connection(cid) {
            Some(h) => h,
            None => {
                return Err(Error::ChannelClosed);
            },
        };
        let params = match self.channels.params(cid) {
            Some(p) => p,
            None => {
                return Err(Error::ChannelClosed);
            },
        };
        match self.connections.state(handle) {
            ConnectionState::Connected => {},
            _ => {
                return Err(Error::Disconnected);
            },
        }
        if pdu.len() > params.peer_mtu as usize {
            return Err(Error::InsufficientSpace);
        }
        let size = if self.acl_max <= self.tx_pool.mtu() {
            self.acl_max
        } else {
            self.tx_pool.mtu()
        };
        if size < l2cap::HEADER_LEN {
            return Err(Error::InvalidValue);
        }
        let fragments = match l2cap::segment(params.peer_cid, pdu, size) {
            Ok(f) => f,
            Err(_) => {
                return Err(Error::InvalidValue);
            },
        };
        let n = fragments.len();
        proof {
            l2cap::lemma_split(l2cap::frame(params.peer_cid, pdu@), size as int);
            assert(l2cap::contents(fragments@) == fragments_of(old(self)@, cid, pdu@));
            assert forall|k: int| 0 <= k < fragments@.len() implies (#[trigger] fragments@[k])@.len()
                <= self.tx_pool@.mtu by {
                assert(l2cap::contents(fragments@)[k] == fragments@[k]@);
            }
        }
        if n > self.tx_pool.capacity() {
            return Err(Error::InsufficientSpace);
        }
        if params.credit_based && params.peer_credits == 0 {
            return Err(Error::NoPermits);
        }
        if self.tx_pool.available() < n {
            self.counters.alloc_failures = bumped(self.counters.alloc_failures);
            return Err(Error::OutOfMemory);
        }
        let took = self.channels.take_outbound_credit(cid, 1);
        assert(took);
        proof {
            lemma_channels_kept(old(self)@.channels, self@.channels, self@.connections);
        }
        enqueue_fragments(&mut self.connections, &mut self.tx_pool, handle, &fragments);
        proof {
            lemma_handles_kept(old(self)@.connections, self@.connections, self@.channels);
        }
        Ok(n)
    }

    /// The control duty: notes that the command `opcode` is about to be
    /// issued and that its completion is awaited. One command is in flight at
    /// a time: the call fails with `Busy`, changing nothing, while another
    /// completion is awaited.
    pub fn begin_command(&mut self, opcode: u16) -> (r: Result<(), Error>)
        requires
            old(self).wf(),
        ensures
            final(self).wf(),
            final(self).security() == old(self).security(),
            final(self).event_capacity() == old(self).event_capacity(),
            final(self).queue_capacity() == old(self).queue_capacity(),
            begin_post(old(self)@, opcode, final(self)@, r),
    {
        if self.pending.is_some() {
            return Err(Error::Busy);
        }
        self.pending = Some(opcode);
        Ok(())
    }

    /// The control duty: matches the completion of the command `opcode`,
    /// reported with `status`, against the command in flight.
    ///
    /// A completion of the awaited command ends the wait and yields the
    /// command's result: `Ok`, or the failure status as `Hci`. Any other
    /// completion yields `None` and changes nothing.
    pub fn on_command_complete(&mut self, opcode: u16, status: u8) -> (r: Option<Result<(), Error>>)
        requires
            old(self).wf(),
        ensures
            final(self).wf(),
            final(self).security() == old(self).security(),
            final(self).event_capacity() == old(self).event_capacity(),
            final(self).queue_capacity() == old(self).queue_capacity(),
            command_post(old(self)@, opcode, status, final(self)@, r),
    {
        match self.pending {
            Some(awaited) => {
                if awaited != opcode {
                    return None;
                }
            },
            None => {
                return None;
            },
        }
        self.pending = None;
        match HciError::from_status(status) {
            Some(e) => Some(Err(Error::Hci(e))),
            None => Some(Ok(())),
        }
    }

    /// The control duty: gives up the wait for the command in flight, whose
    /// completion will not come, and returns its opcode. Without a command in
    /// flight nothing changes.
    pub fn cancel_command(&mut self) -> (r: Option<u16>)
        requires
            old(self).wf(),
        ensures
            final(self).wf(),
            final(self).security() == old(self).security(),
            final(self).event_capacity() == old(self).event_capacity(),
            final(self).queue_capacity() == old(self).queue_capacity(),
            r == old(self)@.pending,
            final(self)@ == (HostView { pending: None, ..old(self)@ }),
    {
        self.pending.take()
    }

    /// Queues an event for the consumer of the connection of `handle`, as
    /// `ConnectionManager::post_event` does.
    pub fn post_event(&mut self, handle: ConnHandle, event: ConnectionEvent) -> (r: Result<(), Error>)
        requires
            old(self).wf(),
        ensures
            final(self).wf(),
            final(self).security() == old(self).security(),
            final(self).event_capacity() == old(self).event_capacity(),
            final(self).queue_capacity() == old(self).queue_capacity(),
            event_post(old(self)@, old(self).event_capacity(), handle@, event, final(self)@, r),
    {
        let r = self.connections.post_event(handle, event);
        proof {
            connection_manager::lemma_index_of(old(self)@.connections, self.event_capacity(), handle@);
            lemma_handles_kept(old(self)@.connections, self@.connections, self@.channels);
        }
        r
    }

    /// Takes the oldest queued event of the connection of `handle`, as
    /// `ConnectionManager::next_event` does.
    pub fn next_event(&mut self, handle: ConnHandle) -> (r: Option<ConnectionEvent>)
        requires
            old(self).wf(),
        ensures
            final(self).wf(),
            final(self).security() == old(self).security(),
            final(self).event_capacity() == old(self).event_capacity(),
            final(self).queue_capacity() == old(self).queue_capacity(),
            match r {
                Some(event) => connection_manager::index_of(old(self)@.connections, handle@) matches Some(
                    i,
                ) && old(self)@.connections[i].events.len() > 0 && event == old(
                    self,
                )@.connections[i].events[0] && final(self)@ == (HostView {
                    connections: old(self)@.connections.update(
                        i,
                        ConnectionView {
                            events: old(self)@.connections[i].events.skip(1),
                            ..old(self)@.connections[i]
                        },
                    ),
                    ..old(self)@
                }),
                None => final(self)@ == old(self)@ && match connection_manager::index_of(
                    old(self)@.connections,
                    handle@,
                ) {
                    Some(i) => old(self)@.connections[i].events.len() == 0,
                    None => true,
                },
            },
    {
        let r = self.connections.next_event(handle);
        proof {
            connection_manager::lemma_index_of(old(self)@.connections, self.event_capacity(), handle@);
            lemma_handles_kept(old(self)@.connections, self@.connections, self@.channels);
        }
        r
    }

    /// The state of the connection of `handle`; disconnected when the handle
    /// occupies no slot.
    pub fn connection_state(&self, handle: ConnHandle) -> (r: ConnectionState)
        requires
            self.wf(),
        ensures
            r == match connection_manager::index_of(self@.connections, handle@) {
                Some(i) => self@.connections[i].state,
                None => ConnectionState::Disconnected,
            },
    {
        self.connections.state(handle)
    }

    /// The role of the local device in the connection of `handle`.
    pub fn connection_role(&self, handle: ConnHandle) -> (r: Option<LeConnRole>)
        requires
            self.wf(),
        ensures
            r == match connection_manager::index_of(self@.connections, handle@) {
                Some(i) => self@.connections[i].role,
                None => None,
            },
    {
        self.connections.role(handle)
    }

    /// The address of the peer of the connection of `handle`.
    pub fn peer_address(&self, handle: ConnHandle) -> (r: Option<Address>)
        requires
            self.wf(),
        ensures
            r == match connection_manager::index_of(self@.connections, handle@) {
                Some(i) => self@.connections[i].peer,
                None => None,
            },
    {
        self.connections.peer_address(handle)
    }

    /// The state of the advertising set `index`, or `None` when the host has
    /// no such set.
    pub fn advertise_handle(&self, index: usize) -> (r: Option<AdvHandleState>)
        ensures
            r == if index < self@.advertise_handles.len() {
                Some(self@.advertise_handles[index as int])
            } else {
                None
            },
    {
        if index < self.advertise_handles.len() {
            Some(self.advertise_handles[index])
        } else {
            None
        }
    }

    /// Number of connection slots.
    pub fn connection_capacity(&self) -> (r: usize)
        ensures
            r == self@.connections.len(),
    {
        self.connections.capacity()
    }

    /// Number of channel slots.
    pub fn channel_capacity(&self) -> (r: usize)
        ensures
            r == self@.channels.len(),
    {
        self.channels.capacity()
    }

    /// The parameters of the open channel `cid`, with its current credits.
    pub fn channel_params(&self, cid: u16) -> (r: Option<ChannelParams>)
        ensures
            match r {
                Some(p) => channel_manager::is_open(self@.channels, cid) && p
                    == self@.channels[channel_manager::slot_index(cid)].params,
                None => !channel_manager::is_open(self@.channels, cid),
            },
    {
        self.channels.params(cid)
    }

    /// Sets the random address of the local device, for the host and for its
    /// security manager.
    pub fn set_address(&mut self, address: Address)
        requires
            old(self).wf(),
        ensures
            final(self).wf(),
            final(self).event_capacity() == old(self).event_capacity(),
            final(self).queue_capacity() == old(self).queue_capacity(),
            final(self)@ == (HostView { address: Some(address), ..old(self)@ }),
            final(self).security().local_address() == Some(address),
            final(self).security().seed() == old(self).security().seed(),
            final(self).security().records() == old(self).security().records(),
    {
        self.address = Some(address);
        self.security_manager.set_local_address(address);
    }

    /// Seeds the random number generator of the security manager.
    pub fn set_random_generator_seed(&mut self, random_seed: [u8; 32])
        requires
            old(self).wf(),
        ensures
            final(self).wf(),
            final(self).event_capacity() == old(self).event_capacity(),
            final(self).queue_capacity() == old(self).queue_capacity(),
            final(self)@ == old(self)@,
            final(self).security().seed() == Some(random_seed),
            final(self).security().local_address() == old(self).security().local_address(),
            final(self).security().records() == old(self).security().records(),
    {
        self.security_manager.set_random_generator_seed(random_seed);
    }

    /// Whether the random number generator of the security manager was
    /// seeded.
    pub fn seeded(&self) -> (r: bool)
        ensures
            r == self.security().seed() is Some,
    {
        self.security_manager.get_random_generator_seeded()
    }

    /// The security manager, to read its bonds.
    pub fn security_manager(&self) -> (r: &SecurityManager)
        ensures
            *r == self.security(),
    {
        &self.security_manager
    }

    /// Stores a bond, as `SecurityManager::add_bond_information` does.
    pub fn add_bond_information(&mut self, bond_information: crate::security_manager::BondInformation) -> (r:
        Result<(), Error>)
        requires
            old(self).wf(),
        ensures
            final(self).wf(),
            final(self).event_capacity() == old(self).event_capacity(),
            final(self).queue_capacity() == old(self).queue_capacity(),
            final(self)@ == old(self)@,
            crate::security_manager::added(old(self).security(), bond_information, final(self).security(), r),
    {
        self.security_manager.add_bond_information(bond_information)
    }

    /// Removes a bond, as `SecurityManager::remove_bond_information` does.
    pub fn remove_bond_information(&mut self, address: crate::hci::BdAddr) -> (r: Result<(), Error>)
        requires
            old(self).wf(),
        ensures
            final(self).wf(),
            final(self).event_capacity() == old(self).event_capacity(),
            final(self).queue_capacity() == old(self).queue_capacity(),
            final(self)@ == old(self)@,
            crate::security_manager::removed(old(self).security(), address, final(self).security(), r),
    {
        self.security_manager.remove_bond_information(address)
    }

    /// The receive duty: takes in one unit that the controller delivered and
    /// routes it to the part of the host that it concerns.
    pub fn on_unit(&mut self, unit: &ControllerUnit) -> (r: UnitOutcome)
        requires
            old(self).wf(),
        ensures
            final(self).wf(),
            final(self).security() == old(self).security(),
            final(self).event_capacity() == old(self).event_capacity(),
            final(self).queue_capacity() == old(self).queue_capacity(),
            unit_post(
                old(self)@,
                old(self).event_capacity(),
                old(self).queue_capacity(),
                *unit,
                final(self)@,
                r,
            ),
    {
        match unit {
            ControllerUnit::ConnectionComplete { status, handle, role, peer } => {
                let result = self.on_connection_complete(*status, *handle, *role, *peer);
                UnitOutcome::Connection { handle: *handle, result }
            },
            ControllerUnit::DisconnectionComplete { status, handle, reason } => {
                if *status == 0 {
                    let found = self.on_disconnected(*handle);
                    UnitOutcome::Disconnection { handle: *handle, found }
                } else {
                    UnitOutcome::Disconnection { handle: *handle, found: false }
                }
            },
            ControllerUnit::CompletedPackets { count } => {
                self.on_completed_packets(*count);
                UnitOutcome::Credits
            },
            ControllerUnit::Acl { handle, first, payload } => {
                let outcome = self.on_acl(*handle, *first, payload.as_slice());
                UnitOutcome::Data { handle: *handle, outcome }
            },
            ControllerUnit::CommandComplete { opcode, status } => {
                let completion = self.on_command_complete(*opcode, *status);
                UnitOutcome::Command { opcode: *opcode, completion }
            },
            ControllerUnit::Event { handle, event } => {
                let queued = self.post_event(*handle, *event);
                UnitOutcome::Event { handle: *handle, queued }
            },
            ControllerUnit::Malformed => {
                self.counters.rx_errors = bumped(self.counters.rx_errors);
                UnitOutcome::Malformed
            },
        }
    }
}

/// The runner of the host: the state that its three duties share, and the
/// decision that each duty asks of it.
pub struct Runner {
    /// The host state.
    pub host: BleHost,
}

impl Runner {
    /// The receive duty: takes in one unit that the controller delivered, and
    /// says what the runner has to do next.
    pub fn rx(&mut self, unit: &ControllerUnit) -> (r: RxAction)
        requires
            old(self).host.wf(),
        ensures
            final(self).host.wf(),
            final(self).host.security() == old(self).host.security(),
            final(self).host.event_capacity() == old(self).host.event_capacity(),
            final(self).host.queue_capacity() == old(self).host.queue_capacity(),
            exists|outcome: UnitOutcome|
                unit_post(
                    old(self).host@,
                    old(self).host.event_capacity(),
                    old(self).host.queue_capacity(),
                    *unit,
                    final(self).host@,
                    outcome,
                ) && r == action_of(outcome),
    {
        let outcome = self.host.on_unit(unit);
        next_action(outcome)
    }

    /// The transmit duty: takes the next fragment to hand to the controller,
    /// as `BleHost::poll_tx` does.
    pub fn tx(&mut self) -> (r: Option<Outbound>)
        requires
            old(self).host.wf(),
        ensures
            final(self).host.wf(),
            final(self).host.security() == old(self).host.security(),
            final(self).host.event_capacity() == old(self).host.event_capacity(),
            final(self).host.queue_capacity() == old(self).host.queue_capacity(),
            poll_post(old(self).host@, final(self).host@, r),
    {
        self.host.poll_tx()
    }

    /// The control duty: notes that the command `opcode` is about to be
    /// issued, as `BleHost::begin_command` does.
    pub fn control(&mut self, opcode: u16) -> (r: Result<(), Error>)
        requires
            old(self).host.wf(),
        ensures
            final(self).host.wf(),
            final(self).host.security() == old(self).host.security(),
            final(self).host.event_capacity() == old(self).host.event_capacity(),
            final(self).host.queue_capacity() == old(self).host.queue_capacity(),
            begin_post(old(self).host@, opcode, final(self).host@, r),
    {
        self.host.begin_command(opcode)
    }
}

} // verus!
