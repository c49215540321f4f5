//! Resource and transport multiplexing core of a Bluetooth Low Energy host.
//!
//! The crate keeps the fixed-capacity connection and channel tables, the packet
//! pools behind all inbound and outbound data, and the segmentation and
//! reassembly of channel PDUs. It performs no I/O: a runner feeds it the units
//! a controller delivered and carries out the actions it answers with.

pub mod advertise;
pub mod att;
pub mod channel_manager;
pub mod codec;
pub mod config;
pub mod connection_manager;
pub mod hci;
pub mod host;
pub mod l2cap;
pub mod packet_pool;
pub mod security_manager;

use crate::advertise::AdvertisementDataError;
use crate::att::AttErrorCode;
use crate::channel_manager::{ChannelManager, ChannelView};
use crate::connection_manager::{ConnectionManager, ConnectionView};
use crate::hci::{AddrKind, BdAddr, HciError};
use crate::host::{AdvHandleState, BleHost, Counters, HostMetrics, HostView, Runner};
use crate::packet_pool::PacketPool;
use crate::security_manager::{BondInformation, Reason};
use vstd::prelude::*;

verus! {

/// `bt_hci::FromHciBytesError`, the error of decoding a value from the
/// controller's bytes. The host carries it and never looks inside.
#[verifier::external_type_specification]
#[verifier::external_body]
pub struct ExFromHciBytesError(bt_hci::FromHciBytesError);

/// The upper-case hexadecimal digit for a value below sixteen.
pub open spec fn hex_digit(n: int) -> char {
    if n == 0 {
        '0'
    } else if n == 1 {
        '1'
    } else if n == 2 {
        '2'
    } else if n == 3 {
        '3'
    } else if n == 4 {
        '4'
    } else if n == 5 {
        '5'
    } else if n == 6 {
        '6'
    } else if n == 7 {
        '7'
    } else if n == 8 {
        '8'
    } else if n == 9 {
        '9'
    } else if n == 10 {
        'A'
    } else if n == 11 {
        'B'
    } else if n == 12 {
        'C'
    } else if n == 13 {
        'D'
    } else if n == 14 {
        'E'
    } else {
        'F'
    }
}

/// The two hexadecimal digits of a byte.
pub open spec fn hex_byte(b: u8) -> Seq<char> {
    seq![hex_digit(b as int / 16), hex_digit(b as int % 16)]
}

/// The text of the address value `a`, which holds the least significant byte
/// first.
pub open spec fn address_text(a: Seq<u8>) -> Seq<char> {
    hex_byte(a[5]) + seq![':'] + hex_byte(a[4]) + seq![':'] + hex_byte(a[3]) + seq![':'] + hex_byte(a[2])
        + seq![':'] + hex_byte(a[1]) + seq![':'] + hex_byte(a[0])
}

/// `String::push`: appends one character.
#[verifier::external_body]
fn push_char(text: &mut String, c: char)
    ensures
        final(text)@ == old(text)@.push(c),
{
    text.push(c)
}

fn digit(n: u8) -> (c: char)
    requires
        n < 16,
    ensures
        c == hex_digit(n as int),
{
    if n == 0 {
        '0'
    } else if n == 1 {
        '1'
    } else if n == 2 {
        '2'
    } else if n == 3 {
        '3'
    } else if n == 4 {
        '4'
    } else if n == 5 {
        '5'
    } else if n == 6 {
        '6'
    } else if n == 7 {
        '7'
    } else if n == 8 {
        '8'
    } else if n == 9 {
        '9'
    } else if n == 10 {
        'A'
    } else if n == 11 {
        'B'
    } else if n == 12 {
        'C'
    } else if n == 13 {
        'D'
    } else if n == 14 {
        'E'
    } else {
        'F'
    }
}

fn push_byte(text: &mut String, b: u8)
    ensures
        final(text)@ == old(text)@ + hex_byte(b),
{
    push_char(text, digit(b / 16));
    push_char(text, digit(b % 16));
    assert(text@ =~= old(text)@ + hex_byte(b));
}

/// A BLE address.
///
/// Every BLE device is identified by a 48-bit device address, which is either
/// public, assigned by the IEEE and constant, or random: static until the
/// device restarts, or private and changing over time.
#[derive(Debug, Clone, Copy, PartialEq)]
pub struct Address {
    /// Address type.
    pub kind: AddrKind,
    /// Address value.
    pub addr: BdAddr,
}

impl Address {
    /// The seven bytes of an address: its kind, then its value with the most
    /// significant byte first.
    pub open spec fn spec_bytes(self) -> Seq<u8> {
        seq![self.kind.0] + self.addr@.reverse()
    }

    /// Create a new random address.
    pub fn random(val: [u8; 6]) -> (r: Self)
        ensures
            r.kind == AddrKind(1),
            r.addr.0 == val,
    {
        Address { kind: AddrKind::random(), addr: BdAddr::new(val) }
    }

    /// To bytes
    pub fn to_bytes(&self) -> (r: [u8; 7])
        ensures
            r@ == self.spec_bytes(),
    {
        let mut bytes = [0u8; 7];
        bytes[0] = self.kind.into_inner();
        let addr_bytes = self.addr.into_inner();
        let mut i: usize = 0;
        while i < 6
            invariant
                i <= 6,
                bytes@.len() == 7,
                bytes@[0] == self.kind.0,
                addr_bytes == self.addr.0,
                forall|j: int| 1 <= j < 1 + i ==> bytes@[j] == addr_bytes@[6 - j],
            decreases 6 - i,
        {
            bytes[1 + i] = addr_bytes[5 - i];
            i += 1;
        }
        assert(bytes@ =~= self.spec_bytes());
        bytes
    }

    /// The address value as text: its six bytes as two upper-case hexadecimal
    /// digits each, the most significant byte first, with colons between.
    pub fn format(&self) -> (r: String)
        ensures
            r@ == address_text(self.addr@),
    {
        let a = self.addr.into_inner();
        let mut text = String::new();
        push_byte(&mut text, a[5]);
        push_char(&mut text, ':');
        push_byte(&mut text, a[4]);
        push_char(&mut text, ':');
        push_byte(&mut text, a[3]);
        push_char(&mut text, ':');
        push_byte(&mut text, a[2]);
        push_char(&mut text, ':');
        push_byte(&mut text, a[1]);
        push_char(&mut text, ':');
        push_byte(&mut text, a[0]);
        assert(text@ =~= address_text(self.addr@));
        text
    }

    /// Whether two addresses are of the same kind and value.
    pub fn same(&self, other: &Address) -> (r: bool)
        ensures
            r == (self.kind == other.kind && self.addr@ == other.addr@),
    {
        self.kind.into_inner() == other.kind.into_inner() && self.addr.same(&other.addr)
    }
}

/// Errors returned by the host.
#[derive(Debug)]
pub enum BleHostError<E> {
    /// Error from the controller.
    Controller(E),
    /// Error from the host.
    BleHost(Error),
}

/// Errors related to the host.
#[derive(Debug, PartialEq)]
pub enum Error {
    /// Error encoding parameters for HCI commands.
    Hci(HciError),
    /// Error decoding responses from HCI commands.
    HciDecode(bt_hci::FromHciBytesError),
    /// Error from the Attribute Protocol.
    Att(AttErrorCode),
    /// Error from the security manager
    Security(Reason),
    /// Insufficient space in the buffer.
    InsufficientSpace,
    /// Invalid value.
    InvalidValue,
    /// Error decoding advertisement data.
    Advertisement(AdvertisementDataError),
    /// Invalid l2cap channel id provided.
    InvalidChannelId,
    /// No l2cap channel available.
    NoChannelAvailable,
    /// Resource not found.
    NotFound,
    /// Invalid state.
    InvalidState,
    /// Out of memory.
    OutOfMemory,
    /// Unsupported operation.
    NotSupported,
    /// L2cap channel closed.
    ChannelClosed,
    /// Operation timed out.
    Timeout,
    /// Controller is busy.
    Busy,
    /// No send permits available.
    NoPermits,
    /// Connection is disconnected.
    Disconnected,
    /// Connection limit has been reached.
    ConnectionLimitReached,
    /// Other error.
    Other,
}

impl<E> From<Error> for BleHostError<E> {
    fn from(value: Error) -> (r: Self) {
        BleHostError::BleHost(value)
    }
}

impl<E> vstd::std_specs::convert::FromSpecImpl<Error> for BleHostError<E> {
    open spec fn obeys_from_spec() -> bool {
        true
    }

    open spec fn from_spec(value: Error) -> Self {
        BleHostError::BleHost(value)
    }
}

impl From<bt_hci::FromHciBytesError> for Error {
    fn from(error: bt_hci::FromHciBytesError) -> (r: Self) {
        Error::HciDecode(error)
    }
}

impl vstd::std_specs::convert::FromSpecImpl<bt_hci::FromHciBytesError> for Error {
    open spec fn obeys_from_spec() -> bool {
        true
    }

    open spec fn from_spec(error: bt_hci::FromHciBytesError) -> Self {
        Error::HciDecode(error)
    }
}

impl From<AttErrorCode> for Error {
    fn from(error: AttErrorCode) -> (r: Self) {
        Error::Att(error)
    }
}

impl vstd::std_specs::convert::FromSpecImpl<AttErrorCode> for Error {
    open spec fn obeys_from_spec() -> bool {
        true
    }

    open spec fn from_spec(error: AttErrorCode) -> Self {
        Error::Att(error)
    }
}

impl<E> From<HciError> for BleHostError<E> {
    fn from(error: HciError) -> (r: Self) {
        BleHostError::BleHost(Error::Hci(error))
    }
}

impl<E> vstd::std_specs::convert::FromSpecImpl<HciError> for BleHostError<E> {
    open spec fn obeys_from_spec() -> bool {
        true
    }

    open spec fn from_spec(error: HciError) -> Self {
        BleHostError::BleHost(Error::Hci(error))
    }
}

impl From<codec::Error> for Error {
    fn from(error: codec::Error) -> (r: Self) {
        match error {
            codec::Error::InsufficientSpace => Error::InsufficientSpace,
            codec::Error::InvalidValue => Error::InvalidValue,
        }
    }
}

impl vstd::std_specs::convert::FromSpecImpl<codec::Error> for Error {
    open spec fn obeys_from_spec() -> bool {
        true
    }

    open spec fn from_spec(error: codec::Error) -> Self {
        match error {
            codec::Error::InsufficientSpace => Error::InsufficientSpace,
            codec::Error::InvalidValue => Error::InvalidValue,
        }
    }
}

impl<E> From<codec::Error> for BleHostError<E> {
    fn from(error: codec::Error) -> (r: Self) {
        match error {
            codec::Error::InsufficientSpace => BleHostError::BleHost(Error::InsufficientSpace),
            codec::Error::InvalidValue => BleHostError::BleHost(Error::InvalidValue),
        }
    }
}

impl<E> vstd::std_specs::convert::FromSpecImpl<codec::Error> for BleHostError<E> {
    open spec fn obeys_from_spec() -> bool {
        true
    }

    open spec fn from_spec(error: codec::Error) -> Self {
        match error {
            codec::Error::InsufficientSpace => BleHostError::BleHost(Error::InsufficientSpace),
            codec::Error::InvalidValue => BleHostError::BleHost(Error::InvalidValue),
        }
    }
}


/// HostResources holds the resources used by the host.
///
/// The inbound packet pool backs the PDUs that arrive, which the host
/// dispatches to the appropriate connection and channel; the outbound pool
/// backs the fragments that wait for the controller. `CONNS` and `CHANNELS`
/// fix the numbers of connection and channel slots, `L2CAP_MTU` the size of
/// a buffer, and `ADV_SETS` the number of advertising sets.
pub struct HostResources<
    const CONNS: usize,
    const CHANNELS: usize,
    const L2CAP_MTU: usize,
    const ADV_SETS: usize,
> {
    rx_pool: PacketPool,
    tx_pool: PacketPool,
    connections: ConnectionManager,
    channels: ChannelManager,
    advertise_handles: Vec<AdvHandleState>,
}

/// The host that a stack built from resources of the given capacities starts
/// with: free tables, unused pools, unused advertising sets, no address, no
/// credits.
pub open spec fn initial_host(
    host: HostView,
    conns: usize,
    channels: usize,
    mtu: usize,
    adv_sets: usize,
) -> bool {
    &&& host.address is None
    &&& host.connections.len() == conns
    &&& forall|i: int| 0 <= i < host.connections.len() ==> host.connections[i] == ConnectionView::vacant()
    &&& host.channels.len() == channels
    &&& forall|i: int| 0 <= i < host.channels.len() ==> host.channels[i] == ChannelView::vacant()
    &&& host.advertise_handles.len() == adv_sets
    &&& forall|i: int| 0 <= i < host.advertise_handles.len() ==> host.advertise_handles[i] == AdvHandleState::Unused
    &&& host.rx.mtu == mtu && host.rx.slots.len() == config::L2CAP_RX_PACKET_POOL_SIZE && host.rx.unused()
    &&& host.tx.mtu == mtu && host.tx.slots.len() == config::L2CAP_TX_PACKET_POOL_SIZE && host.tx.unused()
    &&& host.credits == 0 && host.total_credits == 0 && host.acl_max == 0 && host.cursor == 0
    &&& host.counters == (Counters { connect_events: 0, disconnect_events: 0, rx_errors: 0, alloc_failures: 0 })
    &&& host.pending is None
}

impl<
    const CONNS: usize,
    const CHANNELS: usize,
    const L2CAP_MTU: usize,
    const ADV_SETS: usize,
> HostResources<CONNS, CHANNELS, L2CAP_MTU, ADV_SETS> {
    /// The invariant of resources: they have the configured sizes and
    /// nothing of them is in use.
    #[verifier::type_invariant]
    spec fn unused(&self) -> bool {
        &&& self.rx_pool.wf()
        &&& self.tx_pool.wf()
        &&& self.connections.wf()
        &&& self.channels.wf()
        &&& self.connections.event_capacity() == config::CONNECTION_EVENT_QUEUE_SIZE
        &&& self.channels.queue_capacity() == config::L2CAP_RX_QUEUE_SIZE
        &&& self.connections@.len() == CONNS
        &&& forall|i: int| 0 <= i < CONNS ==> self.connections@[i] == ConnectionView::vacant()
        &&& self.channels@.len() == CHANNELS
        &&& forall|i: int| 0 <= i < self.channels@.len() ==> self.channels@[i] == ChannelView::vacant()
        &&& self.advertise_handles@.len() == ADV_SETS
        &&& forall|i: int|
            0 <= i < self.advertise_handles@.len() ==> self.advertise_handles@[i] == AdvHandleState::Unused
        &&& self.rx_pool@.mtu == L2CAP_MTU && self.rx_pool@.slots.len() == config::L2CAP_RX_PACKET_POOL_SIZE
            && self.rx_pool@.unused()
        &&& self.tx_pool@.mtu == L2CAP_MTU && self.tx_pool@.slots.len() == config::L2CAP_TX_PACKET_POOL_SIZE
            && self.tx_pool@.unused()
    }

    /// The host that a stack starts with when it is built from these
    /// resources.
    pub closed spec fn initial(&self) -> HostView {
        HostView {
            address: None,
            connections: self.connections@,
            channels: self.channels@,
            rx: self.rx_pool@,
            tx: self.tx_pool@,
            credits: 0,
            total_credits: 0,
            acl_max: 0,
            cursor: 0,
            counters: Counters { connect_events: 0, disconnect_events: 0, rx_errors: 0, alloc_failures: 0 },
            pending: None,
            advertise_handles: self.advertise_handles@,
        }
    }

    /// Create a new instance of host resources.
    pub fn new() -> (r: Self)
        ensures
            initial_host(r.initial(), CONNS, CHANNELS, L2CAP_MTU, ADV_SETS),
    {
        let mut advertise_handles: Vec<AdvHandleState> = Vec::new();
        let mut i: usize = 0;
        while i < ADV_SETS
            invariant
                i <= ADV_SETS,
                advertise_handles@.len() == i,
                forall|j: int| 0 <= j < i ==> advertise_handles@[j] == AdvHandleState::Unused,
            decreases ADV_SETS - i,
        {
            advertise_handles.push(AdvHandleState::Unused);
            i += 1;
        }
        HostResources {
            rx_pool: PacketPool::new(L2CAP_MTU, config::L2CAP_RX_PACKET_POOL_SIZE),
            tx_pool: PacketPool::new(L2CAP_MTU, config::L2CAP_TX_PACKET_POOL_SIZE),
            connections: ConnectionManager::new(CONNS, config::CONNECTION_EVENT_QUEUE_SIZE),
            channels: ChannelManager::new(CHANNELS, config::L2CAP_RX_QUEUE_SIZE),
            advertise_handles,
        }
    }
}

impl<
    const CONNS: usize,
    const CHANNELS: usize,
    const L2CAP_MTU: usize,
    const ADV_SETS: usize,
> Default for HostResources<CONNS, CHANNELS, L2CAP_MTU, ADV_SETS> {
    fn default() -> (r: Self)
        ensures
            initial_host(r.initial(), CONNS, CHANNELS, L2CAP_MTU, ADV_SETS),
    {
        Self::new()
    }
}

/// Create a new instance of the BLE host using the resource configuration.
///
/// Whatever resources are given, the stack has exactly `CONNS` connection
/// slots, `CHANNELS` channel slots and `ADV_SETS` advertising sets, all of
/// them unused, and pools of unused buffers of `L2CAP_MTU` bytes.
pub fn new<const CONNS: usize, const CHANNELS: usize, const L2CAP_MTU: usize, const ADV_SETS: usize>(
    resources: HostResources<CONNS, CHANNELS, L2CAP_MTU, ADV_SETS>,
) -> (stack: Stack)
    ensures
        stack.wf(),
        stack@ == resources.initial(),
        initial_host(stack@, CONNS, CHANNELS, L2CAP_MTU, ADV_SETS),
        stack.host().event_capacity() == config::CONNECTION_EVENT_QUEUE_SIZE,
        stack.host().queue_capacity() == config::L2CAP_RX_QUEUE_SIZE,
        stack.host().security().records() == Seq::<BondInformation>::empty(),
        stack.host().security().seed() is None,
        stack.host().security().local_address() is None,
{
    proof {
        use_type_invariant(&resources);
    }
    let HostResources { rx_pool, tx_pool, connections, channels, advertise_handles } = resources;
    Stack { host: BleHost::new(rx_pool, tx_pool, connections, channels, advertise_handles) }
}

/// Contains the host stack while it is set up.
pub struct Stack {
    host: BleHost,
}

/// Host components.
#[non_exhaustive]
pub struct Host {
    /// Host runner
    pub runner: Runner,
}

impl View for Stack {
    type V = HostView;

    closed spec fn view(&self) -> HostView {
        self.host@
    }
}

impl Stack {
    /// The host state of the stack.
    pub closed spec fn host(&self) -> BleHost {
        self.host
    }

    /// The invariant of the stack: that of its host.
    pub open spec fn wf(&self) -> bool {
        self.host().wf()
    }

    /// Set the random address used by this host.
    pub fn set_random_address(self, address: Address) -> (r: Self)
        requires
            self.wf(),
        ensures
            r.wf(),
            r@ == (HostView { address: Some(address), ..self@ }),
            r.host().event_capacity() == self.host().event_capacity(),
            r.host().queue_capacity() == self.host().queue_capacity(),
            r.host().security().local_address() == Some(address),
            r.host().security().seed() == self.host().security().seed(),
            r.host().security().records() == self.host().security().records(),
    {
        let mut stack = self;
        stack.host.set_address(address);
        stack
    }

    /// Set the seed of the random generator used by the security manager.
    /// The seed is to come from a cryptographically secure random number
    /// generator.
    pub fn set_random_generator_seed(self, random_seed: [u8; 32]) -> (r: Self)
        requires
            self.wf(),
        ensures
            r.wf(),
            r@ == self@,
            r.host().event_capacity() == self.host().event_capacity(),
            r.host().queue_capacity() == self.host().queue_capacity(),
            r.host().security().seed() == Some(random_seed),
            r.host().security().local_address() == self.host().security().local_address(),
            r.host().security().records() == self.host().security().records(),
    {
        let mut stack = self;
        stack.host.set_random_generator_seed(random_seed);
        stack
    }

    /// Whether the random generator of the security manager has been seeded.
    pub fn seeded(&self) -> (r: bool)
        ensures
            r == self.host().security().seed() is Some,
    {
        self.host.seeded()
    }

    /// Build the stack. The random generator of the security manager must
    /// have been seeded.
    pub fn build(self) -> (r: Host)
        requires
            self.wf(),
            self.host().security().seed() is Some,
        ensures
            r.runner.host == self.host(),
            r.runner.host@ == self@,
    {
        Host { runner: Runner { host: self.host } }
    }

    /// Notes that the command `opcode` is about to be issued, as
    /// `BleHost::begin_command` does: one command is in flight at a time.
    pub fn begin_command(&mut self, opcode: u16) -> (r: Result<(), Error>)
        requires
            old(self).wf(),
        ensures
            final(self).wf(),
            final(self).host().security() == old(self).host().security(),
            final(self).host().event_capacity() == old(self).host().event_capacity(),
            final(self).host().queue_capacity() == old(self).host().queue_capacity(),
            host::begin_post(old(self)@, opcode, final(self)@, r),
    {
        self.host.begin_command(opcode)
    }

    /// Matches the completion of the command `opcode` against the command in
    /// flight, as `BleHost::on_command_complete` does.
    pub fn on_command_complete(&mut self, opcode: u16, status: u8) -> (r: Option<Result<(), Error>>)
        requires
            old(self).wf(),
        ensures
            final(self).wf(),
            final(self).host().security() == old(self).host().security(),
            final(self).host().event_capacity() == old(self).host().event_capacity(),
            final(self).host().queue_capacity() == old(self).host().queue_capacity(),
            host::command_post(old(self)@, opcode, status, final(self)@, r),
    {
        self.host.on_command_complete(opcode, status)
    }

    /// Gives up the wait for the command in flight, as
    /// `BleHost::cancel_command` does.
    pub fn cancel_command(&mut self) -> (r: Option<u16>)
        requires
            old(self).wf(),
        ensures
            final(self).wf(),
            final(self).host().security() == old(self).host().security(),
            final(self).host().event_capacity() == old(self).host().event_capacity(),
            final(self).host().queue_capacity() == old(self).host().queue_capacity(),
            r == old(self)@.pending,
            final(self)@ == (HostView { pending: None, ..old(self)@ }),
    {
        self.host.cancel_command()
    }

    /// Read current host metrics
    pub fn metrics(&self) -> (r: HostMetrics)
        ensures
            r == (HostMetrics {
                connect_events: self@.counters.connect_events,
                disconnect_events: self@.counters.disconnect_events,
                rx_errors: self@.counters.rx_errors,
                alloc_failures: self@.counters.alloc_failures,
                connections: connection_manager::occupied_among(
                    self@.connections,
                    self@.connections.len() as int,
                ) as usize,
                channels: channel_manager::open_among(self@.channels, self@.channels.len() as int) as usize,
            }),
    {
        self.host.metrics()
    }

    /// Store a bonded device
    pub fn add_bond_information(&mut self, bond_information: BondInformation) -> (r: Result<(), Error>)
        requires
            old(self).wf(),
        ensures
            final(self).wf(),
            final(self)@ == old(self)@,
            final(self).host().event_capacity() == old(self).host().event_capacity(),
            final(self).host().queue_capacity() == old(self).host().queue_capacity(),
            security_manager::added(old(self).host().security(), bond_information, final(self).host().security(), r),
    {
        self.host.add_bond_information(bond_information)
    }

    /// Remove a bonded device
    pub fn remove_bond_information(&mut self, address: BdAddr) -> (r: Result<(), Error>)
        requires
            old(self).wf(),
        ensures
            final(self).wf(),
            final(self)@ == old(self)@,
            final(self).host().event_capacity() == old(self).host().event_capacity(),
            final(self).host().queue_capacity() == old(self).host().queue_capacity(),
            security_manager::removed(old(self).host().security(), address, final(self).host().security(), r),
    {
        self.host.remove_bond_information(address)
    }

    /// Get bonded devices
    pub fn get_bond_information(&self) -> (r: heapless::Vec<BondInformation, 10>)
        requires
            self.wf(),
        ensures
            security_manager::bond_records(r) == self.host().security().records(),
    {
        proof {
            self.host.lemma_wf();
        }
        self.host.security_manager().get_bond_information()
    }
}

} // verus!
