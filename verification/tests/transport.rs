use matter::error::Error;
use matter::transport::exchange::{Exchange, ExchangeRole};
use matter::transport::plain_hdr::{max_plain_hdr_len, PlainHdr, SessionType};
use matter::transport::session::{PeerAddr, Session, SessionMgr};
use matter::utils::parsebuf::ParseBuf;
use matter::utils::writebuf::WriteBuf;

#[test]
fn exchange_matches_by_id_and_role() {
    let mut e = Exchange::new(7, ExchangeRole::Responder);
    assert!(e.is_match(7, ExchangeRole::Responder));
    assert!(!e.is_match(7, ExchangeRole::Initiator));
    assert!(!e.is_match(8, ExchangeRole::Responder));
    assert_eq!(e.pending_ack, None);
    e.ack_pending(99);
    assert_eq!(e.pending_ack, Some(99));
    e.ack_pending(100);
    assert_eq!(e.pending_ack, Some(100));
}

#[test]
fn plain_header_round_trip() {
    let mut hdr = PlainHdr { flags: 0x04, sess_type: SessionType::Plain, sess_id: 0x1234, ctr: 0xa1b2c3d4 };
    let mut wb = WriteBuf::new(8);
    hdr.encode(&mut wb).unwrap();
    assert_eq!(wb.as_slice(), &[0x04, 0x34, 0x12, 0x00, 0xd4, 0xc3, 0xb2, 0xa1]);
    let mut pb = ParseBuf::new(wb.as_slice());
    let mut back = PlainHdr::default();
    back.decode(&mut pb).unwrap();
    assert_eq!(back.flags, 0x04);
    assert_eq!(back.sess_id, 0x1234);
    assert_eq!(back.ctr, 0xa1b2c3d4);
    assert_eq!(back.sess_type, SessionType::Encrypted);
    assert!(back.is_encrypted());
    assert_eq!(pb.left(), 0);
}

#[test]
fn plain_header_without_session_is_not_encrypted() {
    let mut pb = ParseBuf::new(&[1, 0, 0, 9, 5, 0, 0, 0, 0xff]);
    let mut hdr = PlainHdr::default();
    hdr.decode(&mut pb).unwrap();
    assert_eq!(hdr.sess_type, SessionType::Plain);
    assert!(!hdr.is_encrypted());
    assert_eq!(hdr.ctr, 5);
    assert_eq!(pb.as_slice(), &[0xff]);
}

#[test]
fn plain_header_truncated_or_without_space() {
    // the counter is cut short: what stands before it was read
    let mut pb = ParseBuf::new(&[1, 2, 3, 4, 5, 6, 7]);
    let mut hdr = PlainHdr::default();
    assert_eq!(hdr.decode(&mut pb), Err(Error::TruncatedPacket));
    assert_eq!(pb.as_slice(), &[5, 6, 7]);
    assert_eq!(hdr.flags, 1);
    assert_eq!(hdr.sess_id, 0x0302);
    assert_eq!(hdr.sess_type, SessionType::Encrypted);
    assert_eq!(hdr.ctr, 0);
    // the session identifier is cut short
    let mut pb = ParseBuf::new(&[9, 2]);
    let mut hdr = PlainHdr::default();
    assert_eq!(hdr.decode(&mut pb), Err(Error::TruncatedPacket));
    assert_eq!(pb.as_slice(), &[2]);
    assert_eq!(hdr.flags, 9);
    assert_eq!(hdr.sess_id, 0);
    assert_eq!(hdr.sess_type, SessionType::Plain);
    // the security flags are missing
    let mut pb = ParseBuf::new(&[9, 2, 1]);
    let mut hdr = PlainHdr::default();
    assert_eq!(hdr.decode(&mut pb), Err(Error::TruncatedPacket));
    assert_eq!(pb.left(), 0);
    assert_eq!(hdr.sess_id, 0x0102);
    assert_eq!(hdr.sess_type, SessionType::Plain);
    // nothing at all
    let mut pb = ParseBuf::new(&[]);
    let mut hdr = PlainHdr::default();
    assert_eq!(hdr.decode(&mut pb), Err(Error::TruncatedPacket));
    assert_eq!(hdr.flags, 0);
    // the counter does not fit: what stands before it was written
    let mut hdr = PlainHdr { flags: 7, sess_type: SessionType::Encrypted, sess_id: 0x0102, ctr: 3 };
    let mut wb = WriteBuf::new(7);
    assert_eq!(hdr.encode(&mut wb), Err(Error::NoSpace));
    assert_eq!(wb.as_slice(), &[7, 2, 1, 0]);
    let mut wb = WriteBuf::new(2);
    assert_eq!(hdr.encode(&mut wb), Err(Error::NoSpace));
    assert_eq!(wb.as_slice(), &[7]);
    let mut wb = WriteBuf::new(0);
    assert_eq!(hdr.encode(&mut wb), Err(Error::NoSpace));
    assert_eq!(wb.as_slice().len(), 0);
    assert_eq!(max_plain_hdr_len(), 26);
}

#[test]
fn session_opens_exchanges_for_the_peer_only() {
    let mut s = Session::new(1, [1; 16], [2; 16], PeerAddr::V4(0x7f000001));
    // we are the initiator and know no such exchange
    assert!(s.get_exchange(10, false).is_none());
    assert_eq!(s.exchange_count(), 0);
    // the peer opens one
    {
        let e = s.get_exchange(10, true).unwrap();
        assert!(e.is_match(10, ExchangeRole::Responder));
        e.ack_pending(5);
    }
    assert_eq!(s.exchange_count(), 1);
    // it is found again, with what was written to it
    assert_eq!(s.get_exchange(10, true).unwrap().pending_ack, Some(5));
    assert_eq!(s.exchange_count(), 1);
    // the same identifier in the other role is another exchange
    assert!(s.get_exchange(10, false).is_none());
}

#[test]
fn session_holds_at_most_four_exchanges() {
    let mut s = Session::new(1, [0; 16], [0; 16], PeerAddr::V6(1));
    for id in 0..4 {
        assert!(s.get_exchange(id, true).is_some());
    }
    assert!(s.get_exchange(4, true).is_none());
    assert_eq!(s.exchange_count(), 4);
    assert!(s.get_exchange(3, true).is_some());
}

#[test]
fn session_table_finds_by_id_and_peer_and_is_bounded() {
    let mut m = SessionMgr::new();
    let a = PeerAddr::V4(0x0a000001);
    let b = PeerAddr::V4(0x0a000002);
    m.add(1, [1; 16], [2; 16], a).unwrap();
    m.add(1, [3; 16], [4; 16], b).unwrap();
    assert_eq!(m.get(1, b).unwrap().dec_key, [3; 16]);
    assert_eq!(m.get(1, a).unwrap().enc_key, [2; 16]);
    assert!(m.get(2, a).is_none());
    m.get(1, a).unwrap().enc_key = [9; 16];
    assert_eq!(m.get(1, a).unwrap().enc_key, [9; 16]);
    for i in 2..16 {
        m.add(i, [0; 16], [0; 16], a).unwrap();
    }
    assert_eq!(m.len(), 16);
    assert_eq!(m.add(99, [0; 16], [0; 16], a), Err(Error::NoSpace));
    assert_eq!(m.len(), 16);
}

#[test]
fn write_buffer_keeps_its_capacity() {
    let mut wb = WriteBuf::new(9);
    assert_eq!(wb.get_capacity(), 9);
    assert_eq!(wb.le_u64(0x0102030405060708), Ok(()));
    assert_eq!(wb.as_slice(), &[8, 7, 6, 5, 4, 3, 2, 1]);
    assert_eq!(wb.le_u64(1), Err(Error::NoSpace));
    assert_eq!(wb.get_tail(), 8);
    assert_eq!(wb.get_capacity(), 9);
    let s = Session::new(0x2a, [0; 16], [0; 16], PeerAddr::V6(1));
    assert_eq!(s.get_session_id(), 0x2a);
}
