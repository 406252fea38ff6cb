use torrent_bootstrap::connector::validate_handshake;
use torrent_bootstrap::tracker::{decode_dict_peers, decode_peers};
use torrent_bootstrap::{Handshake, HandshakeDecodeError, Peer, PeerAction, PeerEvent, PeerFault, PeerSession, PeerState, TrackerError};

fn ids(a: u8, b: u8) -> (Vec<u8>, Vec<u8>) {
    (vec![a; 20], vec![b; 20])
}

#[test]
fn handshake_round_trip() {
    let (hash, id) = ids(0xAB, 0x42);
    let h = Handshake::new(&hash, &id);
    let bytes = h.to_bytes();
    assert_eq!(bytes.len(), 68);
    assert_eq!(bytes[0], 19);
    assert_eq!(&bytes[1..20], b"BitTorrent protocol");
    assert_eq!(&bytes[20..28], &[0u8; 8]);
    let back = Handshake::from_bytes(&bytes).unwrap();
    assert_eq!(back.protocol_string_length, h.protocol_string_length);
    assert_eq!(back.protocol, h.protocol);
    assert_eq!(back.reserved, h.reserved);
    assert_eq!(back.info_hash, hash);
    assert_eq!(back.peer_id, id);
}

#[test]
fn handshake_round_trip_other_protocol_length() {
    let h = Handshake {
        protocol_string_length: 3,
        protocol: b"xyz".to_vec(),
        reserved: [1, 2, 3, 4, 5, 6, 7, 8],
        info_hash: vec![9; 20],
        peer_id: vec![10; 20],
    };
    let bytes = h.to_bytes();
    assert_eq!(bytes.len(), 1 + 3 + 48);
    let back = Handshake::from_bytes(&bytes).unwrap();
    assert_eq!(back.protocol, b"xyz".to_vec());
    assert_eq!(back.reserved, [1, 2, 3, 4, 5, 6, 7, 8]);
    assert_eq!(back.info_hash, vec![9; 20]);
    assert_eq!(back.peer_id, vec![10; 20]);
}

#[test]
fn handshake_decode_ignores_bytes_after_frame() {
    let (hash, id) = ids(1, 2);
    let mut bytes = Handshake::new(&hash, &id).to_bytes();
    bytes.extend_from_slice(&[0xFF; 10]);
    let back = Handshake::from_bytes(&bytes).unwrap();
    assert_eq!(back.peer_id, id);
}

#[test]
fn handshake_decode_short_buffer() {
    let (hash, id) = ids(1, 2);
    let bytes = Handshake::new(&hash, &id).to_bytes();
    assert_eq!(
        Handshake::from_bytes(&bytes[..67]).unwrap_err(),
        HandshakeDecodeError { needed: 68, available: 67 }
    );
    assert_eq!(
        Handshake::from_bytes(&[]).unwrap_err(),
        HandshakeDecodeError { needed: 1, available: 0 }
    );
}

#[test]
fn compact_peer_decode() {
    let peers = decode_peers(&[192, 0, 2, 1, 0x1A, 0xE1]).unwrap();
    assert_eq!(peers.len(), 1);
    assert_eq!(peers[0].ip, "192.0.2.1");
    assert_eq!(peers[0].port, 6881);
    assert!(peers[0].id.is_empty());
    assert_eq!(peers[0].address(), "192.0.2.1:6881");
}

#[test]
fn compact_peer_decode_two_entries() {
    let peers = decode_peers(&[10, 0, 0, 1, 0, 80, 255, 255, 255, 255, 255, 255]).unwrap();
    assert_eq!(peers.len(), 2);
    assert_eq!(peers[0].address(), "10.0.0.1:80");
    assert_eq!(peers[1].address(), "255.255.255.255:65535");
}

#[test]
fn compact_empty_list() {
    assert!(decode_peers(&[]).unwrap().is_empty());
}

#[test]
fn malformed_compact_peers() {
    let err = decode_peers(&[1, 2, 3, 4, 5, 6, 7]).unwrap_err();
    assert_eq!(err, TrackerError::MalformedPeers);
    assert!(err.is_protocol_error());
}

#[test]
fn dictionary_peer_decode() {
    let raw = b"ld7:peer id20:AAAAAAAAAAAAAAAAAAAA2:ip8:10.0.0.54:port5:51413ee";
    let peers = decode_peers(raw).unwrap();
    assert_eq!(peers.len(), 1);
    assert_eq!(peers[0].id, b"AAAAAAAAAAAAAAAAAAAA".to_vec());
    assert_eq!(peers[0].ip, "10.0.0.5");
    assert_eq!(peers[0].port, 51413);
}

#[test]
fn dictionary_peer_decode_integer_port() {
    let raw = b"ld2:ip9:127.0.0.17:peer id20:BBBBBBBBBBBBBBBBBBBB4:porti6882eee";
    let peers = decode_dict_peers(raw).unwrap();
    assert_eq!(peers.len(), 1);
    assert_eq!(peers[0].address(), "127.0.0.1:6882");
}

#[test]
fn dictionary_peer_port_out_of_range_is_not_dictionary_model() {
    let raw = b"ld7:peer id20:AAAAAAAAAAAAAAAAAAAA2:ip8:10.0.0.54:port5:65536ee";
    assert!(decode_dict_peers(raw).is_none());
}

#[test]
fn peer_address_format() {
    let p = Peer { id: Vec::new(), ip: String::from("example.org"), port: 0 };
    assert_eq!(p.address(), "example.org:0");
}

#[test]
fn validate_handshake_checks() {
    let (hash, id) = ids(3, 4);
    let h = Handshake::new(&hash, &id);
    assert_eq!(validate_handshake(&hash, &id, &h), Ok(()));
    assert_eq!(validate_handshake(&hash, &[], &h), Ok(()));
    assert_eq!(validate_handshake(&[0; 20], &id, &h), Err(PeerFault::InfoHashMismatch));
    assert_eq!(validate_handshake(&hash, &[5; 20], &h), Err(PeerFault::PeerIdMismatch));
}

fn connected_session(info_hash: &Vec<u8>, expected: &Vec<u8>) -> PeerSession {
    let local = vec![b'L'; 20];
    let mut s = PeerSession::new(info_hash, &local, expected);
    assert_eq!(s.state(), PeerState::Disconnected);
    assert_eq!(s.step(PeerEvent::Start), PeerAction::Connect);
    assert_eq!(s.state(), PeerState::Connecting);
    let sent = s.step(PeerEvent::Connected);
    assert_eq!(sent, PeerAction::Send(Handshake::new(info_hash, &local).to_bytes()));
    assert_eq!(s.state(), PeerState::HandshakeSent);
    assert_eq!(s.step(PeerEvent::Sent), PeerAction::Read(1));
    s
}

#[test]
fn handshake_validation_rejects_info_hash() {
    let expected_hash = vec![0u8; 20];
    let mut s = connected_session(&expected_hash, &Vec::new());
    let received = Handshake::new(&vec![1u8; 20], &vec![b'R'; 20]).to_bytes();
    assert_eq!(s.step(PeerEvent::Received(received)), PeerAction::Close);
    assert_eq!(s.state(), PeerState::Rejected(PeerFault::InfoHashMismatch));
    assert!(s.is_finished());
    assert_eq!(s.step(PeerEvent::Start), PeerAction::Nothing);
    assert_eq!(s.state(), PeerState::Rejected(PeerFault::InfoHashMismatch));
}

#[test]
fn handshake_validation_rejects_peer_id() {
    let hash = vec![7u8; 20];
    let mut s = connected_session(&hash, &vec![b'E'; 20]);
    let received = Handshake::new(&hash, &vec![b'R'; 20]).to_bytes();
    assert_eq!(s.step(PeerEvent::Received(received)), PeerAction::Close);
    assert_eq!(s.state(), PeerState::Rejected(PeerFault::PeerIdMismatch));
}

#[test]
fn handshake_read_in_pieces_then_validated() {
    let hash = vec![7u8; 20];
    let remote = vec![b'R'; 20];
    let mut s = connected_session(&hash, &remote);
    let frame = Handshake::new(&hash, &remote).to_bytes();
    assert_eq!(s.step(PeerEvent::Received(frame[..1].to_vec())), PeerAction::Read(67));
    assert_eq!(s.step(PeerEvent::Received(frame[1..30].to_vec())), PeerAction::Read(38));
    assert_eq!(s.state(), PeerState::HandshakeSent);
    assert_eq!(s.step(PeerEvent::Received(frame[30..].to_vec())), PeerAction::HandOver);
    assert_eq!(s.state(), PeerState::Validated);
}

#[test]
fn handshake_truncated_and_failures() {
    let hash = vec![7u8; 20];
    let mut s = connected_session(&hash, &Vec::new());
    assert_eq!(s.step(PeerEvent::Received(Vec::new())), PeerAction::Close);
    assert_eq!(s.state(), PeerState::Rejected(PeerFault::Truncated));

    let mut c = PeerSession::new(&hash, &hash, &Vec::new());
    c.step(PeerEvent::Start);
    assert_eq!(c.step(PeerEvent::ConnectFailed), PeerAction::Nothing);
    assert_eq!(c.state(), PeerState::Rejected(PeerFault::ConnectFailed));
    assert!(!PeerFault::ConnectFailed.is_rejection());

    let mut r = connected_session(&hash, &Vec::new());
    assert_eq!(r.step(PeerEvent::ReadFailed), PeerAction::Close);
    assert_eq!(r.state(), PeerState::Rejected(PeerFault::ReadFailed));
}

#[test]
fn session_ignores_events_out_of_order() {
    let hash = vec![7u8; 20];
    let mut s = PeerSession::new(&hash, &hash, &Vec::new());
    assert_eq!(s.step(PeerEvent::Sent), PeerAction::Nothing);
    assert_eq!(s.state(), PeerState::Disconnected);
}
