use trouble_host::channel_manager::{ChannelParams, BASE_ID};
use trouble_host::connection_manager::{ConnectionEvent, ConnectionState};
use trouble_host::hci::{AddrKind, BdAddr, ConnHandle, LeConnRole};
use trouble_host::host::{
    completed_total, next_action, AclOutcome, BleHost, ControllerUnit, Outbound, Runner, RxAction,
    UnitOutcome,
};
use trouble_host::l2cap::segment;
use trouble_host::{new, Address, Error, HostResources};

fn peer(n: u8) -> Address {
    Address { kind: AddrKind::public(), addr: BdAddr::new([n, 1, 2, 3, 4, 5]) }
}

fn seeded<const CONNS: usize, const CHANNELS: usize, const MTU: usize>() -> Runner {
    let stack = new(HostResources::<CONNS, CHANNELS, MTU, 1>::new());
    stack.set_random_generator_seed([7; 32]).build().runner
}

fn params(mtu: u16, peer_credits: u16) -> ChannelParams {
    ChannelParams { peer_cid: 0x0060, mtu, peer_mtu: 200, credit_based: true, credits: 8, peer_credits }
}

fn connect(host: &mut BleHost, handle: u16) -> ConnHandle {
    let handle = ConnHandle::new(handle);
    assert!(host.on_connection_complete(0, handle, LeConnRole::Central, peer(handle.raw() as u8)).is_ok());
    handle
}

#[test]
fn five_connections_on_a_table_of_four() {
    let mut runner = seeded::<4, 4, 64>();
    for n in 0..4u16 {
        let unit = ControllerUnit::ConnectionComplete {
            status: 0,
            handle: ConnHandle::new(0x40 + n),
            role: LeConnRole::Peripheral,
            peer: peer(n as u8),
        };
        assert_eq!(
            runner.host.on_unit(&unit),
            UnitOutcome::Connection { handle: ConnHandle::new(0x40 + n), result: Ok(n as usize) }
        );
    }
    let fifth = ControllerUnit::ConnectionComplete {
        status: 0,
        handle: ConnHandle::new(0x44),
        role: LeConnRole::Peripheral,
        peer: peer(4),
    };
    assert_eq!(runner.rx(&fifth), RxAction::Disconnect { handle: ConnHandle::new(0x44) });
    let metrics = runner.host.metrics();
    assert_eq!(metrics.connections, 4);
    assert_eq!(metrics.connect_events, 4);
    assert_eq!(runner.host.connection_state(ConnHandle::new(0x44)), ConnectionState::Disconnected);
    assert_eq!(runner.host.connection_state(ConnHandle::new(0x43)), ConnectionState::Connected);
}

#[test]
fn failed_connection_report_is_not_taken_in() {
    let mut runner = seeded::<2, 2, 64>();
    let unit = ControllerUnit::ConnectionComplete {
        status: 0x3e,
        handle: ConnHandle::new(1),
        role: LeConnRole::Central,
        peer: peer(1),
    };
    let outcome = runner.host.on_unit(&unit);
    match &outcome {
        UnitOutcome::Connection { result: Err(Error::Hci(e)), .. } => assert_eq!(e.to_status(), 0x3e),
        other => panic!("unexpected outcome {:?}", other),
    }
    assert_eq!(next_action(outcome), RxAction::Idle);
    assert_eq!(runner.host.metrics().connections, 0);
    assert_eq!(runner.host.metrics().connect_events, 0);
}

#[test]
fn duplicate_connection_report_is_rejected() {
    let mut runner = seeded::<2, 2, 64>();
    let handle = connect(&mut runner.host, 1);
    let r = runner.host.on_connection_complete(0, handle, LeConnRole::Central, peer(1));
    assert_eq!(r, Err(Error::InvalidState));
    assert_eq!(runner.host.metrics().connections, 1);
}

#[test]
fn fragments_are_reassembled_and_delivered() {
    let mut runner = seeded::<2, 2, 64>();
    let host = &mut runner.host;
    let handle = connect(host, 1);
    let cid = host.open_channel(handle, params(40, 1)).unwrap();
    assert_eq!(cid, BASE_ID);
    let pdu: Vec<u8> = (0..30).collect();
    let fragments = segment(cid, &pdu, 10).unwrap();
    assert_eq!(fragments.len(), 4);
    assert_eq!(host.on_acl(handle, true, &fragments[0]), AclOutcome::Pending);
    assert_eq!(host.on_acl(handle, false, &fragments[1]), AclOutcome::Pending);
    assert_eq!(host.on_acl(handle, false, &fragments[2]), AclOutcome::Pending);
    assert_eq!(host.receive(cid), Ok(None));
    assert_eq!(host.on_acl(handle, false, &fragments[3]), AclOutcome::Delivered { cid });
    assert_eq!(host.channel_params(cid).unwrap().credits, 7);
    assert_eq!(host.receive(cid), Ok(Some(pdu)));
    assert_eq!(host.receive(cid), Ok(None));
}

#[test]
fn continuation_without_initial_fragment_tears_the_connection_down() {
    let mut runner = seeded::<2, 2, 64>();
    let handle = connect(&mut runner.host, 5);
    let cid = runner.host.open_channel(handle, params(40, 1)).unwrap();
    let unit = ControllerUnit::Acl { handle, first: false, payload: vec![1, 2, 3] };
    assert_eq!(runner.rx(&unit), RxAction::Disconnect { handle });
    assert_eq!(runner.host.connection_state(handle), ConnectionState::Disconnected);
    assert_eq!(runner.host.channel_params(cid), None);
    let metrics = runner.host.metrics();
    assert_eq!((metrics.connections, metrics.channels, metrics.disconnect_events), (0, 0, 1));
    assert_eq!(runner.host.on_acl(handle, false, &[1]), AclOutcome::Discarded(Error::NotFound));
    let report = ControllerUnit::DisconnectionComplete { status: 0, handle, reason: 0x16 };
    assert_eq!(runner.host.on_unit(&report), UnitOutcome::Disconnection { handle, found: false });
    assert_eq!(runner.host.metrics().disconnect_events, 1);
}

#[test]
fn continuation_without_initial_fragment_names_the_protocol_error() {
    let mut runner = seeded::<1, 1, 64>();
    let handle = connect(&mut runner.host, 5);
    assert_eq!(
        runner.host.on_acl(handle, false, &[]),
        AclOutcome::Teardown { error: Error::InvalidState }
    );
}

#[test]
fn oversized_pdu_closes_the_channel_and_keeps_no_buffer() {
    let mut runner = seeded::<2, 2, 600>();
    let host = &mut runner.host;
    let handle = connect(host, 1);
    let cid = host.open_channel(handle, params(23, 1)).unwrap();
    let mut first = vec![0xf4, 0x01, cid as u8, (cid >> 8) as u8];
    first.extend_from_slice(&[0u8; 19]);
    assert_eq!(
        host.on_acl(handle, true, &first),
        AclOutcome::ChannelFailed { cid, error: Error::InvalidValue }
    );
    assert_eq!(host.channel_params(cid), None);
    assert_eq!(host.receive(cid), Err(Error::ChannelClosed));
    assert_eq!(host.connection_state(handle), ConnectionState::Connected);
    assert_eq!(host.metrics().channels, 0);
    let again = host.open_channel(handle, params(600, 1)).unwrap();
    assert_eq!(again, cid);
    for _ in 0..trouble_host::config::L2CAP_RX_QUEUE_SIZE {
        let small = segment(cid, &[9], 27).unwrap();
        assert_eq!(host.on_acl(handle, true, &small[0]), AclOutcome::Delivered { cid });
    }
}

#[test]
fn pdu_above_the_buffer_size_fails_the_channel() {
    let mut runner = seeded::<1, 1, 32>();
    let host = &mut runner.host;
    let handle = connect(host, 1);
    let cid = host.open_channel(handle, params(100, 1)).unwrap();
    let first = vec![33, 0, cid as u8, 0, 1, 2, 3];
    assert_eq!(
        host.on_acl(handle, true, &first),
        AclOutcome::ChannelFailed { cid, error: Error::InvalidValue }
    );
    assert_eq!(host.metrics().channels, 0);
}

#[test]
fn pdu_for_unknown_channel_tears_the_connection_down() {
    let mut runner = seeded::<2, 2, 64>();
    let host = &mut runner.host;
    let a = connect(host, 1);
    let b = connect(host, 2);
    let cid = host.open_channel(a, params(40, 1)).unwrap();
    let fragment = segment(cid, &[1, 2, 3], 27).unwrap();
    assert_eq!(
        host.on_acl(b, true, &fragment[0]),
        AclOutcome::Teardown { error: Error::InvalidChannelId }
    );
    assert_eq!(host.connection_state(b), ConnectionState::Disconnected);
    assert_eq!(host.connection_state(a), ConnectionState::Connected);
    assert_eq!(host.on_acl(a, true, &fragment[0]), AclOutcome::Delivered { cid });
}

#[test]
fn undecodable_units_are_counted_and_discarded() {
    let mut runner = seeded::<1, 1, 64>();
    let handle = connect(&mut runner.host, 1);
    assert_eq!(runner.rx(&ControllerUnit::Malformed), RxAction::Idle);
    assert_eq!(runner.host.metrics().rx_errors, 1);
    assert_eq!(
        runner.host.on_acl(handle, true, &[1, 0, 0x40]),
        AclOutcome::Discarded(Error::InsufficientSpace)
    );
    assert_eq!(runner.host.metrics().rx_errors, 2);
    assert_eq!(runner.host.connection_state(handle), ConnectionState::Connected);
}

#[test]
fn exhausted_inbound_pool_asks_for_a_retry() {
    let mut runner = seeded::<1, 1, 64>();
    let host = &mut runner.host;
    let handle = connect(host, 1);
    let mut p = params(40, 1);
    p.credits = 100;
    let cid = host.open_channel(handle, p).unwrap();
    let one = segment(cid, &[1], 27).unwrap();
    let queue = trouble_host::config::L2CAP_RX_QUEUE_SIZE;
    let pool = trouble_host::config::L2CAP_RX_PACKET_POOL_SIZE;
    let mut received = 0;
    for _ in 0..pool {
        if host.on_acl(handle, true, &one[0]) != (AclOutcome::Delivered { cid }) {
            break;
        }
        received += 1;
    }
    assert_eq!(received, queue);
    assert_eq!(
        host.on_acl(handle, true, &one[0]),
        AclOutcome::Dropped { cid, error: Error::OutOfMemory }
    );
    assert_eq!(host.metrics().alloc_failures, 0);
    assert_eq!(host.receive(cid), Ok(Some(vec![1])));
    assert_eq!(host.on_acl(handle, true, &one[0]), AclOutcome::Delivered { cid });
}

#[test]
fn retry_leaves_the_unit_to_be_offered_again() {
    let stack = new(HostResources::<2, 8, 64, 1>::new());
    let mut runner = stack.set_random_generator_seed([1; 32]).build().runner;
    let handle = connect(&mut runner.host, 1);
    let pool = trouble_host::config::L2CAP_RX_PACKET_POOL_SIZE;
    let queue = trouble_host::config::L2CAP_RX_QUEUE_SIZE;
    let mut channels = Vec::new();
    for _ in 0..(pool / queue) {
        channels.push(runner.host.open_channel(handle, params(40, 1)).unwrap());
    }
    let last = runner.host.open_channel(handle, params(40, 1)).unwrap();
    for cid in &channels {
        for _ in 0..queue {
            let one = segment(*cid, &[1], 27).unwrap();
            assert_eq!(runner.host.on_acl(handle, true, &one[0]), AclOutcome::Delivered { cid: *cid });
        }
    }
    let one = segment(last, &[2, 3], 27).unwrap();
    let unit = ControllerUnit::Acl { handle, first: true, payload: one[0].clone() };
    assert_eq!(runner.rx(&unit), RxAction::Retry);
    assert_eq!(runner.host.metrics().alloc_failures, 1);
    assert_eq!(runner.host.receive(channels[0]), Ok(Some(vec![1])));
    assert_eq!(runner.rx(&unit), RxAction::Idle);
    assert_eq!(runner.host.receive(last), Ok(Some(vec![2, 3])));
}

#[test]
fn send_without_credits_is_not_ready_until_credits_return() {
    let mut runner = seeded::<1, 1, 64>();
    let host = &mut runner.host;
    host.set_buffer_size(27, 4);
    let handle = connect(host, 1);
    let cid = host.open_channel(handle, params(40, 0)).unwrap();
    assert_eq!(host.send(cid, &[1, 2, 3]), Err(Error::NoPermits));
    assert!(host.poll_tx().is_none());
    assert_eq!(host.on_channel_credits(cid, 1), Ok(1));
    assert_eq!(host.send(cid, &[1, 2, 3]), Ok(1));
    assert_eq!(host.channel_params(cid).unwrap().peer_credits, 0);
    assert_eq!(host.send(cid, &[1, 2, 3]), Err(Error::NoPermits));
    assert_eq!(
        host.poll_tx(),
        Some(Outbound { handle, first: true, data: vec![3, 0, 0x60, 0, 1, 2, 3] })
    );
}

#[test]
fn send_refusals_come_in_order() {
    let mut runner = seeded::<1, 2, 64>();
    let host = &mut runner.host;
    let handle = connect(host, 1);
    assert_eq!(host.send(BASE_ID, &[1]), Err(Error::ChannelClosed));
    let cid = host.open_channel(handle, params(40, 0)).unwrap();
    assert_eq!(host.send(cid, &[0; 201]), Err(Error::InsufficientSpace));
    assert_eq!(host.send(cid, &[1]), Err(Error::InvalidValue));
    host.set_buffer_size(5, 4);
    let tx = trouble_host::config::L2CAP_TX_PACKET_POOL_SIZE;
    let too_big = vec![0u8; 5 * tx - 3];
    assert_eq!(host.send(cid, &too_big), Err(Error::InsufficientSpace));
    assert_eq!(host.send(cid, &[1]), Err(Error::NoPermits));
    assert_eq!(host.on_channel_credits(cid, 3), Ok(3));
    assert_eq!(host.send(cid, &too_big), Err(Error::InsufficientSpace));
    assert_eq!(host.metrics().alloc_failures, 0);
    assert_eq!(host.channel_params(cid).unwrap().peer_credits, 3);
    assert_eq!(host.send(cid, &[1, 2]), Ok(2));
    assert_eq!(host.request_disconnect(handle), Ok(()));
    assert_eq!(host.send(cid, &[1, 2]), Err(Error::Disconnected));
}

#[test]
fn pdu_that_fills_the_outbound_pool_waits_for_free_buffers() {
    let mut runner = seeded::<1, 1, 64>();
    let host = &mut runner.host;
    host.set_buffer_size(5, 1);
    let handle = connect(host, 1);
    let cid = host.open_channel(handle, params(40, 9)).unwrap();
    let tx = trouble_host::config::L2CAP_TX_PACKET_POOL_SIZE;
    let whole = vec![7u8; 5 * tx - 4];
    assert_eq!(host.send(cid, &[1]), Ok(1));
    assert_eq!(host.send(cid, &whole), Err(Error::OutOfMemory));
    assert_eq!(host.metrics().alloc_failures, 1);
    assert_eq!(host.channel_params(cid).unwrap().peer_credits, 8);
    assert!(host.poll_tx().is_some());
    assert_eq!(host.send(cid, &whole), Ok(tx));
    assert_eq!(host.channel_params(cid).unwrap().peer_credits, 7);
    let longer = vec![7u8; 5 * tx - 3];
    assert_eq!(host.send(cid, &longer), Err(Error::InsufficientSpace));
    assert_eq!(host.metrics().alloc_failures, 1);
}

#[test]
fn completed_packet_counts_add_up_to_the_largest_count() {
    assert_eq!(completed_total(&[]), 0);
    assert_eq!(completed_total(&[7]), 7);
    assert_eq!(completed_total(&[1, 2, 3, 0, 4]), 10);
    assert_eq!(completed_total(&[0xffff]), 0xffff);
    assert_eq!(completed_total(&[0xfffe, 1]), 0xffff);
    assert_eq!(completed_total(&[0xfffe, 2]), 0xffff);
    assert_eq!(completed_total(&[0x8000, 0x8000, 5]), 0xffff);
}

#[test]
fn abandoned_command_frees_the_control_duty() {
    let mut runner = seeded::<1, 1, 64>();
    assert_eq!(runner.host.cancel_command(), None);
    assert_eq!(runner.control(0x0406), Ok(()));
    assert_eq!(runner.host.cancel_command(), Some(0x0406));
    let late = ControllerUnit::CommandComplete { opcode: 0x0406, status: 0 };
    assert_eq!(runner.rx(&late), RxAction::Idle);
    assert_eq!(runner.control(0x0406), Ok(()));
}

#[test]
fn transmit_duty_is_gated_by_controller_credits() {
    let mut runner = seeded::<1, 1, 64>();
    runner.host.set_buffer_size(8, 2);
    let handle = connect(&mut runner.host, 3);
    let cid = runner.host.open_channel(handle, params(40, 5)).unwrap();
    let pdu: Vec<u8> = (10..30).collect();
    assert_eq!(runner.host.send(cid, &pdu), Ok(3));
    let expected = segment(0x0060, &pdu, 8).unwrap();
    assert_eq!(runner.tx(), Some(Outbound { handle, first: true, data: expected[0].clone() }));
    assert_eq!(runner.tx(), Some(Outbound { handle, first: false, data: expected[1].clone() }));
    assert_eq!(runner.tx(), None);
    assert_eq!(runner.rx(&ControllerUnit::CompletedPackets { count: 1 }), RxAction::Idle);
    assert_eq!(runner.tx(), Some(Outbound { handle, first: false, data: expected[2].clone() }));
    assert_eq!(runner.tx(), None);
    runner.host.on_completed_packets(100);
    assert_eq!(runner.host.send(cid, &pdu), Ok(3));
    assert!(runner.tx().is_some());
    assert!(runner.tx().is_some());
    assert!(runner.tx().is_none());
}

#[test]
fn transmit_duty_serves_connections_in_turn() {
    let mut runner = seeded::<3, 3, 64>();
    let host = &mut runner.host;
    host.set_buffer_size(6, 10);
    let a = connect(host, 1);
    let b = connect(host, 2);
    let c = connect(host, 3);
    let ca = host.open_channel(a, params(40, 5)).unwrap();
    let cc = host.open_channel(c, params(40, 5)).unwrap();
    assert_eq!(host.send(cc, &[1, 2, 3, 4]), Ok(2));
    assert_eq!(host.send(ca, &[5, 6, 7, 8]), Ok(2));
    let order: Vec<(ConnHandle, bool)> =
        (0..4).map(|_| host.poll_tx().map(|o| (o.handle, o.first)).unwrap()).collect();
    assert_eq!(order, vec![(a, true), (c, true), (a, false), (c, false)]);
    assert!(host.poll_tx().is_none());
    assert_eq!(host.connection_state(b), ConnectionState::Connected);
}

#[test]
fn sent_pdu_arrives_unchanged_at_the_peer() {
    let mut left = seeded::<1, 1, 251>();
    let mut right = seeded::<1, 1, 251>();
    left.host.set_buffer_size(27, 8);
    let lh = connect(&mut left.host, 1);
    let rh = connect(&mut right.host, 9);
    let rcid = right.host.open_channel(rh, ChannelParams { peer_cid: 0, ..params(200, 0) }).unwrap();
    let lcid = left.host.open_channel(lh, ChannelParams { peer_cid: rcid, ..params(200, 50) }).unwrap();
    for len in [1usize, 22, 23, 24, 46, 47, 100, 200] {
        let pdu: Vec<u8> = (0..len).map(|i| (i ^ len) as u8).collect();
        let count = left.host.send(lcid, &pdu).unwrap();
        assert_eq!(count, (len + 4 + 26) / 27);
        for k in 0..count {
            let out = left.tx().unwrap();
            assert_eq!(out.first, k == 0);
            let outcome = right.host.on_acl(rh, out.first, &out.data);
            if k + 1 == count {
                assert_eq!(outcome, AclOutcome::Delivered { cid: rcid });
            } else {
                assert_eq!(outcome, AclOutcome::Pending);
            }
            left.host.on_completed_packets(1);
        }
        assert_eq!(right.host.receive(rcid), Ok(Some(pdu)));
        assert_eq!(right.host.grant_credits(rcid, 1), Ok(8));
    }
}

#[test]
fn disconnection_frees_everything_the_connection_held() {
    let mut runner = seeded::<2, 2, 64>();
    let host = &mut runner.host;
    host.set_buffer_size(8, 4);
    let handle = connect(host, 1);
    let cid = host.open_channel(handle, params(40, 5)).unwrap();
    assert_eq!(host.send(cid, &[0; 20]), Ok(3));
    let whole = segment(cid, &[1, 2, 3], 27).unwrap();
    assert_eq!(host.on_acl(handle, true, &whole[0]), AclOutcome::Delivered { cid });
    let part = segment(cid, &[0; 30], 10).unwrap();
    assert_eq!(host.on_acl(handle, true, &part[0]), AclOutcome::Pending);
    assert_eq!(host.post_event(handle, ConnectionEvent::Disconnected { reason: 0x13 }), Ok(()));
    assert!(host.on_disconnected(handle));
    assert!(!host.on_disconnected(handle));
    let metrics = host.metrics();
    assert_eq!((metrics.connections, metrics.channels, metrics.disconnect_events), (0, 0, 1));
    assert!(host.poll_tx().is_none());
    assert_eq!(host.receive(cid), Err(Error::ChannelClosed));
    assert_eq!(host.next_event(handle), None);
    let handle = connect(host, 1);
    let cid = host.open_channel(handle, params(40, 50)).unwrap();
    let tx = trouble_host::config::L2CAP_TX_PACKET_POOL_SIZE;
    assert_eq!(host.send(cid, &vec![0u8; 8 * tx - 4]), Ok(tx));
    let rx = trouble_host::config::L2CAP_RX_PACKET_POOL_SIZE;
    for k in 0..rx {
        let outcome = host.on_acl(handle, true, &whole[0]);
        if k < trouble_host::config::L2CAP_RX_QUEUE_SIZE {
            assert_eq!(outcome, AclOutcome::Delivered { cid });
        } else {
            assert_eq!(outcome, AclOutcome::Dropped { cid, error: Error::OutOfMemory });
        }
    }
}

#[test]
fn data_for_a_disconnecting_connection_is_discarded() {
    let mut runner = seeded::<1, 1, 64>();
    let host = &mut runner.host;
    let handle = connect(host, 1);
    let cid = host.open_channel(handle, params(40, 5)).unwrap();
    assert_eq!(host.request_disconnect(handle), Ok(()));
    let whole = segment(cid, &[1, 2, 3], 27).unwrap();
    assert_eq!(host.on_acl(handle, true, &whole[0]), AclOutcome::Discarded(Error::Disconnected));
    assert_eq!(host.request_disconnect(ConnHandle::new(9)), Err(Error::NotFound));
    assert_eq!(host.open_channel(handle, params(40, 5)), Err(Error::Disconnected));
}

#[test]
fn channel_table_can_run_out() {
    let mut runner = seeded::<1, 2, 64>();
    let host = &mut runner.host;
    let handle = connect(host, 1);
    assert_eq!(host.open_channel(handle, params(40, 5)), Ok(BASE_ID));
    assert_eq!(host.open_channel(handle, params(40, 5)), Ok(BASE_ID + 1));
    assert_eq!(host.open_channel(handle, params(40, 5)), Err(Error::NoChannelAvailable));
    assert!(host.close_channel(BASE_ID));
    assert!(!host.close_channel(BASE_ID));
    assert_eq!(host.open_channel(handle, params(40, 5)), Ok(BASE_ID));
    assert_eq!(host.connection_role(handle), Some(LeConnRole::Central));
    assert_eq!(host.peer_address(handle), Some(peer(1)));
}

#[test]
fn one_command_is_in_flight_at_a_time() {
    let mut runner = seeded::<1, 1, 64>();
    assert_eq!(runner.control(0x2002), Ok(()));
    assert_eq!(runner.control(0x0c03), Err(Error::Busy));
    let other = ControllerUnit::CommandComplete { opcode: 0x0c03, status: 0 };
    assert_eq!(runner.rx(&other), RxAction::Idle);
    let done = ControllerUnit::CommandComplete { opcode: 0x2002, status: 0 };
    assert_eq!(runner.rx(&done), RxAction::Complete { opcode: 0x2002, result: Ok(()) });
    assert_eq!(runner.rx(&done), RxAction::Idle);
    assert_eq!(runner.control(0x0c03), Ok(()));
    match runner.host.on_command_complete(0x0c03, 0x0c) {
        Some(Err(Error::Hci(e))) => assert_eq!(e.to_status(), 0x0c),
        other => panic!("unexpected completion {:?}", other),
    }
}

#[test]
fn failed_disconnection_report_changes_nothing() {
    let mut runner = seeded::<1, 1, 64>();
    let handle = connect(&mut runner.host, 1);
    let report = ControllerUnit::DisconnectionComplete { status: 0x0c, handle, reason: 0 };
    assert_eq!(runner.host.on_unit(&report), UnitOutcome::Disconnection { handle, found: false });
    assert_eq!(runner.host.connection_state(handle), ConnectionState::Connected);
    let report = ControllerUnit::DisconnectionComplete { status: 0, handle, reason: 0x13 };
    assert_eq!(runner.host.on_unit(&report), UnitOutcome::Disconnection { handle, found: true });
    assert_eq!(runner.host.connection_state(handle), ConnectionState::Disconnected);
}

#[test]
fn events_reach_the_consumer_in_order() {
    let mut runner = seeded::<1, 1, 64>();
    let host = &mut runner.host;
    let handle = connect(host, 1);
    let e1 = ConnectionEvent::PhyUpdated { tx_phy: 1, rx_phy: 1 };
    let e2 = ConnectionEvent::Disconnected { reason: 5 };
    assert_eq!(host.post_event(ConnHandle::new(2), e1), Err(Error::NotFound));
    assert_eq!(host.post_event(handle, e1), Ok(()));
    assert_eq!(host.post_event(handle, e2), Ok(()));
    for _ in 2..trouble_host::config::CONNECTION_EVENT_QUEUE_SIZE {
        assert_eq!(host.post_event(handle, e1), Ok(()));
    }
    assert_eq!(host.post_event(handle, e1), Err(Error::OutOfMemory));
    assert_eq!(host.next_event(handle), Some(e1));
    assert_eq!(host.next_event(handle), Some(e2));
}

#[test]
fn connection_events_are_routed_to_the_queue_of_their_connection() {
    let mut runner = seeded::<2, 1, 64>();
    let a = connect(&mut runner.host, 1);
    let b = connect(&mut runner.host, 2);
    let event = ConnectionEvent::PhyUpdated { tx_phy: 2, rx_phy: 1 };
    assert_eq!(runner.rx(&ControllerUnit::Event { handle: b, event }), RxAction::Idle);
    assert_eq!(runner.host.next_event(a), None);
    assert_eq!(runner.host.next_event(b), Some(event));
    let unknown = ControllerUnit::Event { handle: ConnHandle::new(9), event };
    assert_eq!(
        runner.host.on_unit(&unknown),
        UnitOutcome::Event { handle: ConnHandle::new(9), queued: Err(Error::NotFound) }
    );
    for _ in 0..trouble_host::config::CONNECTION_EVENT_QUEUE_SIZE {
        let unit = ControllerUnit::Event { handle: a, event };
        assert_eq!(runner.host.on_unit(&unit), UnitOutcome::Event { handle: a, queued: Ok(()) });
    }
    let unit = ControllerUnit::Event { handle: a, event };
    assert_eq!(
        runner.host.on_unit(&unit),
        UnitOutcome::Event { handle: a, queued: Err(Error::OutOfMemory) }
    );
}
