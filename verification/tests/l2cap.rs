use trouble_host::codec;
use trouble_host::l2cap::sar::{abort, begin, update, Reassembly};
use trouble_host::l2cap::{segment, L2capHeader, HEADER_LEN, MAX_PDU_LEN};
use trouble_host::packet_pool::PacketPool;
use trouble_host::Error;

fn reassemble(fragments: &[Vec<u8>], pool: &mut PacketPool, max_len: usize) -> Result<(u16, Vec<u8>), Error> {
    let mut record: Option<Reassembly> = None;
    let header = L2capHeader::decode(&fragments[0]).map_err(Error::from)?;
    let mut done = begin(&mut record, pool, header, &fragments[0][HEADER_LEN..], max_len)?;
    let mut next = 1;
    while done.is_none() {
        assert!(next < fragments.len());
        done = update(&mut record, pool, &fragments[next])?;
        next += 1;
    }
    assert_eq!(next, fragments.len());
    assert!(record.is_none());
    let pdu = done.unwrap();
    let bytes = pool.data(&pdu.packet).unwrap().to_vec();
    assert!(pool.release(pdu.packet));
    Ok((pdu.channel, bytes))
}

#[test]
fn header_is_length_then_channel_little_endian() {
    let header = L2capHeader { length: 0x0102, channel: 0x0040 };
    let mut out = vec![0xaa];
    header.encode(&mut out);
    assert_eq!(out, vec![0xaa, 0x02, 0x01, 0x40, 0x00]);
    assert_eq!(L2capHeader::decode(&out[1..]), Ok(header));
    assert_eq!(L2capHeader::decode(&[0x02, 0x01, 0x40]), Err(codec::Error::InsufficientSpace));
    assert_eq!(L2capHeader::decode(&[]), Err(codec::Error::InsufficientSpace));
    assert_eq!(
        L2capHeader::decode(&[0xff, 0xff, 0x34, 0x12, 9, 9]),
        Ok(L2capHeader { length: 0xffff, channel: 0x1234 })
    );
}

#[test]
fn u16_codec_round_trip() {
    let mut out = Vec::new();
    codec::encode_u16(&mut out, 0xbeef);
    assert_eq!(out, vec![0xef, 0xbe]);
    assert_eq!(codec::decode_u16(&out, 0), Ok(0xbeef));
    assert_eq!(codec::decode_u16(&out, 1), Err(codec::Error::InsufficientSpace));
    assert_eq!(codec::decode_u16(&[1], 0), Err(codec::Error::InsufficientSpace));
    assert_eq!(codec::decode_u16(&[0, 1, 2, 3], 2), Ok(0x0302));
    assert_eq!(codec::decode_u16(&[0, 1], usize::MAX), Err(codec::Error::InsufficientSpace));
}

#[test]
fn segment_cuts_frame_into_fragments_of_the_given_size() {
    let pdu: Vec<u8> = (1..=10).collect();
    let fragments = segment(0x0040, &pdu, 6).unwrap();
    assert_eq!(
        fragments,
        vec![vec![10, 0, 0x40, 0, 1, 2], vec![3, 4, 5, 6, 7, 8], vec![9, 10]]
    );
}

#[test]
fn segment_of_exact_multiple_has_no_empty_fragment() {
    let pdu = vec![7u8; 8];
    let fragments = segment(0x0041, &pdu, 4).unwrap();
    assert_eq!(fragments.len(), 3);
    assert_eq!(fragments[0], vec![8, 0, 0x41, 0]);
    assert_eq!(fragments[1], vec![7; 4]);
    assert_eq!(fragments[2], vec![7; 4]);
}

#[test]
fn segment_of_small_pdu_is_one_fragment() {
    assert_eq!(segment(0x0040, &[], 27).unwrap(), vec![vec![0, 0, 0x40, 0]]);
    assert_eq!(segment(0x0040, &[5], 27).unwrap(), vec![vec![1, 0, 0x40, 0, 5]]);
    assert_eq!(segment(0x0040, &[5; 23], 27).unwrap().len(), 1);
    assert_eq!(segment(0x0040, &[5; 24], 27).unwrap().len(), 2);
}

#[test]
fn segment_refuses_sizes_that_cannot_hold_a_header() {
    assert_eq!(segment(0x0040, &[1, 2, 3], 3), Err(Error::InvalidValue));
    assert_eq!(segment(0x0040, &[1, 2, 3], 0), Err(Error::InvalidValue));
    assert!(segment(0x0040, &[1, 2, 3], 4).is_ok());
}

#[test]
fn segment_refuses_pdu_longer_than_a_header_declares() {
    let pdu = vec![0u8; MAX_PDU_LEN + 1];
    assert_eq!(segment(0x0040, &pdu, 27), Err(Error::InvalidValue));
    let pdu = vec![0u8; MAX_PDU_LEN];
    let fragments = segment(0x0040, &pdu, 251).unwrap();
    assert_eq!(fragments[0][..4], [0xff, 0xff, 0x40, 0x00]);
    assert_eq!(fragments.iter().map(|f| f.len()).sum::<usize>(), MAX_PDU_LEN + 4);
}

#[test]
fn segmenting_then_reassembling_gives_the_pdu_back() {
    let max = 120usize;
    let mut pool = PacketPool::new(max, 2);
    for size in [4usize, 5, 7, 23, 27, 64, 251] {
        for len in 1..=max {
            let pdu: Vec<u8> = (0..len).map(|i| (i * 7 + len) as u8).collect();
            let fragments = segment(0x0042, &pdu, size).unwrap();
            assert!(fragments.iter().all(|f| f.len() <= size));
            let (channel, bytes) = reassemble(&fragments, &mut pool, max).unwrap();
            assert_eq!(channel, 0x0042);
            assert_eq!(bytes, pdu);
            assert_eq!(pool.available(), 2);
        }
    }
}

#[test]
fn reassembly_of_multi_fragment_pdu_reports_completion_at_the_last_fragment() {
    let mut pool = PacketPool::new(64, 1);
    let mut record = None;
    let header = L2capHeader { length: 5, channel: 0x0040 };
    assert_eq!(begin(&mut record, &mut pool, header, &[1, 2], 64), Ok(None));
    assert!(record.is_some());
    assert_eq!(update(&mut record, &mut pool, &[3, 4]), Ok(None));
    let done = update(&mut record, &mut pool, &[5]).unwrap().unwrap();
    assert!(record.is_none());
    assert_eq!(done.channel, 0x0040);
    assert_eq!(pool.data(&done.packet).unwrap(), &[1, 2, 3, 4, 5]);
}

#[test]
fn continuation_without_initial_fragment_is_a_protocol_error() {
    let mut pool = PacketPool::new(64, 1);
    let mut record = None;
    assert_eq!(update(&mut record, &mut pool, &[1, 2, 3]), Err(Error::InvalidState));
    assert_eq!(update(&mut record, &mut pool, &[]), Err(Error::InvalidState));
    assert!(record.is_none());
    assert_eq!(pool.available(), 1);
}

#[test]
fn continuation_beyond_declared_length_ends_the_reassembly() {
    let mut pool = PacketPool::new(64, 1);
    let mut record = None;
    let header = L2capHeader { length: 4, channel: 0x0040 };
    assert_eq!(begin(&mut record, &mut pool, header, &[1, 2], 64), Ok(None));
    assert_eq!(pool.available(), 0);
    assert_eq!(update(&mut record, &mut pool, &[3, 4, 5]), Err(Error::InsufficientSpace));
    assert!(record.is_none());
    assert_eq!(pool.available(), 1);
    assert_eq!(update(&mut record, &mut pool, &[3, 4]), Err(Error::InvalidState));
}

#[test]
fn initial_fragment_while_reassembling_is_refused() {
    let mut pool = PacketPool::new(64, 2);
    let mut record = None;
    let header = L2capHeader { length: 4, channel: 0x0040 };
    assert_eq!(begin(&mut record, &mut pool, header, &[1], 64), Ok(None));
    assert_eq!(begin(&mut record, &mut pool, header, &[1], 64), Err(Error::InvalidState));
    assert_eq!(pool.available(), 1);
    assert_eq!(update(&mut record, &mut pool, &[2, 3, 4]).map(|d| d.is_some()), Ok(true));
}

#[test]
fn oversized_pdu_is_refused_before_any_buffer_is_taken() {
    let mut pool = PacketPool::new(64, 1);
    let mut record = None;
    let header = L2capHeader { length: 500, channel: 0x0040 };
    assert_eq!(begin(&mut record, &mut pool, header, &[1, 2, 3], 23), Err(Error::InvalidValue));
    assert!(record.is_none());
    assert_eq!(pool.available(), 1);
    let header = L2capHeader { length: 65, channel: 0x0040 };
    assert_eq!(begin(&mut record, &mut pool, header, &[1, 2, 3], 500), Err(Error::InvalidValue));
    assert_eq!(pool.available(), 1);
    let header = L2capHeader { length: 64, channel: 0x0040 };
    assert_eq!(begin(&mut record, &mut pool, header, &[1, 2, 3], 64), Ok(None));
}

#[test]
fn initial_fragment_longer_than_declared_is_refused() {
    let mut pool = PacketPool::new(64, 1);
    let mut record = None;
    let header = L2capHeader { length: 2, channel: 0x0040 };
    assert_eq!(begin(&mut record, &mut pool, header, &[1, 2, 3], 64), Err(Error::InsufficientSpace));
    assert_eq!(pool.available(), 1);
}

#[test]
fn exhausted_pool_asks_for_a_retry() {
    let mut pool = PacketPool::new(64, 1);
    let held = pool.allocate().unwrap();
    let mut record = None;
    let header = L2capHeader { length: 3, channel: 0x0040 };
    assert_eq!(begin(&mut record, &mut pool, header, &[1, 2, 3], 64), Err(Error::OutOfMemory));
    assert!(record.is_none());
    assert!(pool.release(held));
    let done = begin(&mut record, &mut pool, header, &[1, 2, 3], 64).unwrap().unwrap();
    assert_eq!(pool.data(&done.packet).unwrap(), &[1, 2, 3]);
}

#[test]
fn empty_pdu_completes_at_once() {
    let mut pool = PacketPool::new(64, 1);
    let mut record = None;
    let header = L2capHeader { length: 0, channel: 0x0044 };
    let done = begin(&mut record, &mut pool, header, &[], 64).unwrap().unwrap();
    assert_eq!(done.channel, 0x0044);
    assert_eq!(pool.data(&done.packet).unwrap().len(), 0);
}

#[test]
fn abort_gives_the_buffer_back() {
    let mut pool = PacketPool::new(64, 1);
    let mut record = None;
    let header = L2capHeader { length: 9, channel: 0x0040 };
    assert_eq!(begin(&mut record, &mut pool, header, &[1], 64), Ok(None));
    assert_eq!(pool.available(), 0);
    abort(&mut record, &mut pool);
    assert!(record.is_none());
    assert_eq!(pool.available(), 1);
    abort(&mut record, &mut pool);
    assert_eq!(pool.available(), 1);
}
