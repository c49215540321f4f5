use trouble_host::advertise::AdvertisementDataError;
use trouble_host::att::AttErrorCode;
use trouble_host::codec;
use trouble_host::hci::{AddrKind, BdAddr, ConnHandle, HciError, MAX_CONN_HANDLE};
use trouble_host::host::AdvHandleState;
use trouble_host::security_manager::{BondInformation, LongTermKey, Reason, SecurityManager, BI_COUNT};
use trouble_host::{new, Address, BleHostError, Error, HostResources};

fn bond(n: u8, key: u128) -> BondInformation {
    BondInformation { ltk: LongTermKey(key), address: BdAddr::new([n, 0, 0, 0, 0, 0xc0]) }
}

#[test]
fn random_address_has_the_random_kind() {
    let address = Address::random([1, 2, 3, 4, 5, 6]);
    assert_eq!(address.kind, AddrKind::random());
    assert_eq!(address.kind.into_inner(), 1);
    assert_eq!(address.addr, BdAddr::new([1, 2, 3, 4, 5, 6]));
    assert_eq!(address.addr.into_inner(), [1, 2, 3, 4, 5, 6]);
    assert_eq!(AddrKind::public().into_inner(), 0);
}

#[test]
fn address_bytes_are_kind_then_value_reversed() {
    let address = Address::random([0x11, 0x22, 0x33, 0x44, 0x55, 0x66]);
    assert_eq!(address.to_bytes(), [1, 0x66, 0x55, 0x44, 0x33, 0x22, 0x11]);
    let public = Address { kind: AddrKind::public(), addr: BdAddr::new([0, 1, 2, 3, 4, 0xff]) };
    assert_eq!(public.to_bytes(), [0, 0xff, 4, 3, 2, 1, 0]);
}

#[test]
fn address_text_is_upper_case_hex_most_significant_first() {
    let address = Address::random([0x0a, 0x1b, 0x2c, 0x3d, 0x4e, 0xf5]);
    assert_eq!(address.format(), "F5:4E:3D:2C:1B:0A");
    let zero = Address::random([0; 6]);
    assert_eq!(zero.format(), "00:00:00:00:00:00");
    let high = Address::random([0x99, 0xff, 0x10, 0x01, 0x67, 0x89]);
    assert_eq!(high.format(), "89:67:01:10:FF:99");
}

#[test]
fn addresses_compare_by_kind_and_value() {
    let a = Address::random([1, 2, 3, 4, 5, 6]);
    let b = Address { kind: AddrKind::public(), addr: BdAddr::new([1, 2, 3, 4, 5, 6]) };
    let c = Address::random([1, 2, 3, 4, 5, 7]);
    assert!(a.same(&a));
    assert!(!a.same(&b));
    assert!(!a.same(&c));
    assert!(a.addr.same(&b.addr));
    assert!(!a.addr.same(&c.addr));
    assert_eq!(a, a);
    assert_ne!(a, b);
}

#[test]
fn errors_convert_from_their_sources() {
    assert_eq!(Error::from(codec::Error::InsufficientSpace), Error::InsufficientSpace);
    assert_eq!(Error::from(codec::Error::InvalidValue), Error::InvalidValue);
    assert_eq!(Error::from(AttErrorCode::new(0x0a)), Error::Att(AttErrorCode::new(0x0a)));
    assert_eq!(AttErrorCode::new(0x0a).to_u8(), 0x0a);
    assert_eq!(
        Error::from(bt_hci::FromHciBytesError::InvalidSize),
        Error::HciDecode(bt_hci::FromHciBytesError::InvalidSize)
    );
    assert_ne!(
        Error::from(bt_hci::FromHciBytesError::InvalidValue),
        Error::HciDecode(bt_hci::FromHciBytesError::InvalidSize)
    );
    assert_ne!(Error::Advertisement(AdvertisementDataError::TooLong), Error::Other);
}

#[test]
fn host_errors_convert_from_their_sources() {
    let e: BleHostError<u8> = Error::Timeout.into();
    assert!(matches!(e, BleHostError::BleHost(Error::Timeout)));
    let e: BleHostError<u8> = codec::Error::InvalidValue.into();
    assert!(matches!(e, BleHostError::BleHost(Error::InvalidValue)));
    let e: BleHostError<u8> = codec::Error::InsufficientSpace.into();
    assert!(matches!(e, BleHostError::BleHost(Error::InsufficientSpace)));
    let status = HciError::from_status(0x07).unwrap();
    let e: BleHostError<u8> = status.into();
    match e {
        BleHostError::BleHost(Error::Hci(h)) => assert_eq!(h.to_status(), 0x07),
        other => panic!("unexpected error {:?}", other),
    }
    let e: BleHostError<u8> = BleHostError::Controller(3);
    assert!(matches!(e, BleHostError::Controller(3)));
}

#[test]
fn success_status_is_no_error() {
    assert_eq!(HciError::from_status(0), None);
    assert_eq!(HciError::from_status(1).map(|e| e.to_status()), Some(1));
    assert_eq!(HciError::from_status(0xff).map(|e| e.to_status()), Some(0xff));
}

#[test]
fn connection_handles_keep_their_number() {
    assert_eq!(ConnHandle::new(0).raw(), 0);
    assert_eq!(ConnHandle::new(MAX_CONN_HANDLE).raw(), 0x0eff);
    assert_eq!(ConnHandle::new(5), ConnHandle::new(5));
    assert_ne!(ConnHandle::new(5), ConnHandle::new(6));
}

#[test]
fn new_stack_starts_empty() {
    let resources: HostResources<3, 5, 27, 2> = HostResources::default();
    let stack = new(resources);
    let metrics = stack.metrics();
    assert_eq!(metrics.connections, 0);
    assert_eq!(metrics.channels, 0);
    assert_eq!(metrics.connect_events, 0);
    assert_eq!(metrics.disconnect_events, 0);
    assert_eq!(metrics.rx_errors, 0);
    assert_eq!(metrics.alloc_failures, 0);
    assert!(!stack.seeded());
    assert_eq!(stack.get_bond_information().len(), 0);
}

#[test]
fn stack_is_built_once_seeded() {
    let address = Address::random([1, 2, 3, 4, 5, 0xc6]);
    let stack = new(HostResources::<1, 1, 27, 1>::new()).set_random_address(address);
    assert!(!stack.seeded());
    let stack = stack.set_random_generator_seed([0x5a; 32]);
    assert!(stack.seeded());
    let host = stack.build();
    assert!(host.runner.host.seeded());
    assert_eq!(host.runner.host.metrics().connections, 0);
}

#[test]
fn bonds_are_kept_in_order_of_bonding() {
    let mut stack = new(HostResources::<1, 1, 27, 1>::new());
    assert_eq!(stack.add_bond_information(bond(1, 11)), Ok(()));
    assert_eq!(stack.add_bond_information(bond(2, 22)), Ok(()));
    assert_eq!(stack.add_bond_information(bond(3, 33)), Ok(()));
    let bonds = stack.get_bond_information();
    assert_eq!(bonds.as_slice(), &[bond(1, 11), bond(2, 22), bond(3, 33)]);
    assert_eq!(bonds.capacity(), BI_COUNT);
}

#[test]
fn bond_for_a_known_peer_is_replaced_in_place() {
    let mut stack = new(HostResources::<1, 1, 27, 1>::new());
    assert_eq!(stack.add_bond_information(bond(1, 11)), Ok(()));
    assert_eq!(stack.add_bond_information(bond(2, 22)), Ok(()));
    assert_eq!(stack.add_bond_information(bond(1, 99)), Ok(()));
    assert_eq!(stack.get_bond_information().as_slice(), &[bond(1, 99), bond(2, 22)]);
}

#[test]
fn bond_store_holds_ten_records() {
    let mut stack = new(HostResources::<1, 1, 27, 1>::new());
    for n in 0..10u8 {
        assert_eq!(stack.add_bond_information(bond(n, n as u128)), Ok(()));
    }
    assert_eq!(stack.add_bond_information(bond(10, 10)), Err(Error::OutOfMemory));
    assert_eq!(stack.get_bond_information().len(), 10);
    assert_eq!(stack.add_bond_information(bond(4, 44)), Ok(()));
    assert_eq!(stack.get_bond_information()[4], bond(4, 44));
    assert_eq!(stack.remove_bond_information(bond(0, 0).address), Ok(()));
    assert_eq!(stack.add_bond_information(bond(10, 10)), Ok(()));
    let bonds = stack.get_bond_information();
    assert_eq!(bonds[0], bond(1, 1));
    assert_eq!(bonds[9], bond(10, 10));
}

#[test]
fn removing_a_bond_keeps_the_order_of_the_others() {
    let mut stack = new(HostResources::<1, 1, 27, 1>::new());
    for n in 1..=4u8 {
        assert_eq!(stack.add_bond_information(bond(n, n as u128)), Ok(()));
    }
    assert_eq!(stack.remove_bond_information(bond(2, 0).address), Ok(()));
    assert_eq!(stack.get_bond_information().as_slice(), &[bond(1, 1), bond(3, 3), bond(4, 4)]);
    assert_eq!(stack.remove_bond_information(bond(2, 0).address), Err(Error::NotFound));
    assert_eq!(stack.remove_bond_information(bond(4, 0).address), Ok(()));
    assert_eq!(stack.remove_bond_information(bond(1, 0).address), Ok(()));
    assert_eq!(stack.get_bond_information().as_slice(), &[bond(3, 3)]);
}

#[test]
fn security_manager_keeps_identity_and_seed() {
    let mut manager = SecurityManager::new();
    assert!(!manager.get_random_generator_seeded());
    manager.set_local_address(Address::random([1; 6]));
    assert!(!manager.get_random_generator_seeded());
    manager.set_random_generator_seed([3; 32]);
    assert!(manager.get_random_generator_seeded());
    assert_eq!(manager.remove_bond_information(BdAddr::new([0; 6])), Err(Error::NotFound));
    assert_eq!(manager.add_bond_information(bond(7, 7)), Ok(()));
    assert_eq!(manager.get_bond_information().as_slice(), &[bond(7, 7)]);
    assert!(manager.get_random_generator_seeded());
}

#[test]
fn stack_has_the_configured_numbers_of_slots() {
    let stack = new(HostResources::<1, 0x10000, 27, 1>::new());
    let runner = stack.set_random_generator_seed([0; 32]).build().runner;
    assert_eq!(runner.host.channel_capacity(), 0x10000);
    assert_eq!(runner.host.connection_capacity(), 1);
    let stack = new(HostResources::<3, 7, 27, 2>::new());
    let runner = stack.set_random_generator_seed([0; 32]).build().runner;
    assert_eq!(runner.host.channel_capacity(), 7);
    assert_eq!(runner.host.connection_capacity(), 3);
    let stack = new(HostResources::<0, 0, 0, 0>::new());
    let runner = stack.set_random_generator_seed([0; 32]).build().runner;
    assert_eq!(runner.host.channel_capacity(), 0);
    assert_eq!(runner.host.connection_capacity(), 0);
    assert_eq!(runner.host.advertise_handle(0), None);
}

#[test]
fn advertising_sets_start_unused() {
    let stack = new(HostResources::<1, 1, 27, 3>::new());
    let runner = stack.set_random_generator_seed([0; 32]).build().runner;
    for index in 0..3 {
        assert_eq!(runner.host.advertise_handle(index), Some(AdvHandleState::Unused));
    }
    assert_eq!(runner.host.advertise_handle(3), None);
    assert_eq!(runner.host.advertise_handle(usize::MAX), None);
}

#[test]
fn stack_admits_one_command_at_a_time() {
    let mut stack = new(HostResources::<1, 1, 27, 1>::new());
    assert_eq!(stack.cancel_command(), None);
    assert_eq!(stack.begin_command(0x0c03), Ok(()));
    assert_eq!(stack.begin_command(0x2002), Err(Error::Busy));
    assert_eq!(stack.on_command_complete(0x2002, 0), None);
    assert_eq!(stack.on_command_complete(0x0c03, 0), Some(Ok(())));
    assert_eq!(stack.on_command_complete(0x0c03, 0), None);
    assert_eq!(stack.begin_command(0x2002), Ok(()));
    assert_eq!(stack.cancel_command(), Some(0x2002));
    assert_eq!(stack.cancel_command(), None);
    assert_eq!(stack.begin_command(0x2003), Ok(()));
    match stack.on_command_complete(0x2003, 0x12) {
        Some(Err(Error::Hci(e))) => assert_eq!(e.to_status(), 0x12),
        other => panic!("unexpected completion {:?}", other),
    }
}

#[test]
fn security_errors_carry_their_reason() {
    let error = Error::Security(Reason::ConfirmValueFailed);
    assert_eq!(error, Error::Security(Reason::ConfirmValueFailed));
    assert_ne!(error, Error::Security(Reason::KeyRejected));
    assert_ne!(error, Error::Other);
}
