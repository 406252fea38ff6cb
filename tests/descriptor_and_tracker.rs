use torrent_bootstrap::bencode::{decode, encode};
use torrent_bootstrap::metainfo::build_announce_url;
use torrent_bootstrap::{generate_peer_id, Bencode, DescriptorError, File, Info, MetaInfo, TrackerError, TrackerResponse};

fn hex(b: &[u8]) -> String {
    b.iter().map(|x| format!("{:02x}", x)).collect()
}

fn single_file_info() -> Info {
    Info {
        name: String::from("a"),
        piece_length: 16384,
        pieces: vec![0; 20],
        length: Some(5),
        files: None,
    }
}

fn multi_file_info() -> Info {
    Info {
        name: String::from("dir"),
        piece_length: 32768,
        pieces: vec![7; 20],
        length: None,
        files: Some(vec![
            File { length: 100, path: vec![String::from("a"), String::from("b")] },
            File { length: 250, path: vec![String::from("c")] },
        ]),
    }
}

#[test]
fn total_size_multi_file() {
    assert_eq!(multi_file_info().size(), Ok(350));
    assert_eq!(single_file_info().size(), Ok(5));
}

#[test]
fn total_size_both_or_neither() {
    let mut both = multi_file_info();
    both.length = Some(1);
    assert_eq!(both.size(), Err(DescriptorError::LengthAndFiles));
    let mut neither = single_file_info();
    neither.length = None;
    assert_eq!(neither.size(), Err(DescriptorError::NoLengthOrFiles));
}

#[test]
fn total_size_empty_file_list_and_overflow() {
    let mut empty = multi_file_info();
    empty.files = Some(Vec::new());
    assert_eq!(empty.size(), Ok(0));
    let mut huge = multi_file_info();
    huge.files = Some(vec![
        File { length: usize::MAX, path: vec![String::from("x")] },
        File { length: 1, path: vec![String::from("y")] },
    ]);
    assert_eq!(huge.size(), Err(DescriptorError::SizeOverflow));
}

#[test]
fn canonical_encoding_sorts_keys() {
    let mut expected = b"d6:lengthi5e4:name1:a12:piece lengthi16384e6:pieces20:".to_vec();
    expected.extend_from_slice(&[0; 20]);
    expected.push(b'e');
    assert_eq!(single_file_info().bencode(), expected);
    let multi = multi_file_info().bencode();
    assert!(multi.starts_with(b"d5:filesld6:lengthi100e4:pathl1:a1:beed6:lengthi250e4:pathl1:ceee4:name3:dir"));
}

#[test]
fn info_hash_values() {
    assert_eq!(hex(&single_file_info().hash()), "777b0e126050a4ad440176d56f45a3fdad52a06c");
    assert_eq!(hex(&multi_file_info().hash()), "a184b4992dd80966b77cbc1493e9a815962a7025");
}

#[test]
fn hash_encoded_matches_raw() {
    let info = single_file_info();
    let raw = info.hash();
    let encoded = info.hash_encoded();
    assert_eq!(encoded.len(), 60);
    let expected: String = raw.iter().map(|b| format!("%{:02X}", b)).collect();
    assert_eq!(encoded, expected);
    let id = info.content_id();
    assert_eq!(id.raw(), raw);
    assert_eq!(id.url_encoded(), encoded);
}

#[test]
fn percent_encoding_all_bytes() {
    let all: Vec<u8> = (0..=255u8).collect();
    let id = single_file_info().content_id();
    let url = build_announce_url(&String::from("http://t"), &id, &all, 1, 2, 3, false, 4);
    let prefix = format!("http://t?info_hash={}&peer_id=", id.url_encoded());
    assert!(url.starts_with(&prefix));
    let escaped = &url[prefix.len()..prefix.len() + 3 * 256];
    for (i, chunk) in escaped.as_bytes().chunks(3).enumerate() {
        assert_eq!(chunk[0], b'%');
        let text = std::str::from_utf8(&chunk[1..]).unwrap();
        assert_eq!(text, text.to_uppercase());
        assert_eq!(u8::from_str_radix(text, 16).unwrap() as usize, i);
    }
    assert!(url.ends_with("&port=1&uploaded=2&downloaded=3&compact=0&left=4"));
}

#[test]
fn tracker_url_exact() {
    let meta = MetaInfo { announce: String::from("http://tracker.example/announce"), info: single_file_info() };
    let peer_id = b"-CN0000-abcdefghijkl".to_vec();
    let url = meta.build_tracker_url(&peer_id).unwrap();
    let hash: String = single_file_info().hash().iter().map(|b| format!("%{:02X}", b)).collect();
    let id: String = peer_id.iter().map(|b| format!("%{:02X}", b)).collect();
    assert_eq!(
        url,
        format!(
            "http://tracker.example/announce?info_hash={}&peer_id={}&port=6881&uploaded=0&downloaded=0&compact=1&left=5",
            hash, id
        )
    );
    let id = meta.info.content_id();
    assert_eq!(meta.tracker_url_for(&id, &peer_id).unwrap(), url);
    assert_eq!(meta.announce_request(&id, &peer_id).unwrap(), url);
}

#[test]
fn tracker_url_needs_a_size() {
    let mut info = single_file_info();
    info.length = None;
    let meta = MetaInfo { announce: String::from("http://t"), info };
    assert_eq!(meta.build_tracker_url(&vec![0; 20]), Err(DescriptorError::NoLengthOrFiles));
    assert_eq!(
        meta.announce_request(&meta.info.content_id(), &vec![0; 20]),
        Err(TrackerError::Descriptor(DescriptorError::NoLengthOrFiles))
    );
}

#[test]
fn udp_tracker_is_unsupported() {
    let meta = MetaInfo { announce: String::from("udp://tracker.example:80"), info: single_file_info() };
    let id = meta.info.content_id();
    assert_eq!(
        meta.announce_request(&id, &vec![0; 20]),
        Err(TrackerError::UnsupportedProtocol(String::from("udp://tracker.example:80")))
    );
    let https = MetaInfo { announce: String::from("https://t/a"), info: single_file_info() };
    assert!(https.announce_request(&id, &vec![0; 20]).is_ok());
    let httpx = MetaInfo { announce: String::from("httpx://t/a"), info: single_file_info() };
    assert!(matches!(httpx.announce_request(&id, &vec![0; 20]), Err(TrackerError::UnsupportedProtocol(_))));
}

fn torrent_bytes(info_dict: &[u8]) -> Vec<u8> {
    let mut b = b"d8:announce20:http://t.example/ann4:info".to_vec();
    b.extend_from_slice(info_dict);
    b.push(b'e');
    b
}

fn info_dict(body: &str, pieces: usize) -> Vec<u8> {
    let mut d = b"d".to_vec();
    d.extend_from_slice(body.as_bytes());
    d.extend_from_slice(format!("6:pieces{}:", pieces).as_bytes());
    d.extend_from_slice(&vec![0u8; pieces]);
    d.push(b'e');
    d
}

#[test]
fn descriptor_parse_and_field_order() {
    let sorted = torrent_bytes(&info_dict("6:lengthi5e4:name1:a12:piece lengthi16384e", 20));
    let shuffled = torrent_bytes(&info_dict("12:piece lengthi16384e4:name1:a6:lengthi5e", 20));
    let a = MetaInfo::from_bytes(&sorted).unwrap();
    let b = MetaInfo::from_bytes(&shuffled).unwrap();
    assert_eq!(a.announce, "http://t.example/ann");
    assert_eq!(a.info.name, "a");
    assert_eq!(a.info.piece_length, 16384);
    assert_eq!(a.info.length, Some(5));
    assert!(a.info.files.is_none());
    assert_eq!(a.info.hash(), b.info.hash());
    assert_eq!(hex(&b.info.hash()), "777b0e126050a4ad440176d56f45a3fdad52a06c");
}

#[test]
fn descriptor_multi_file() {
    let body = "5:filesld6:lengthi100e4:pathl1:a1:beed6:lengthi250e4:pathl1:ceee4:name3:dir12:piece lengthi32768e";
    let mut d = b"d".to_vec();
    d.extend_from_slice(body.as_bytes());
    d.extend_from_slice(b"6:pieces20:");
    d.extend_from_slice(&[7u8; 20]);
    d.push(b'e');
    let m = MetaInfo::from_bytes(&torrent_bytes(&d)).unwrap();
    assert_eq!(m.info.size(), Ok(350));
    let files = m.info.files.as_ref().unwrap();
    assert_eq!(files[0].path, vec![String::from("a"), String::from("b")]);
    assert_eq!(hex(&m.info.hash()), "a184b4992dd80966b77cbc1493e9a815962a7025");
}

#[test]
fn descriptor_errors() {
    let pieces_bad = torrent_bytes(&info_dict("6:lengthi5e4:name1:a12:piece lengthi16384e", 19));
    assert_eq!(MetaInfo::from_bytes(&pieces_bad).err(), Some(DescriptorError::PiecesLength));
    let both = torrent_bytes(&info_dict(
        "5:filesld6:lengthi1e4:pathl1:xeee6:lengthi5e4:name1:a12:piece lengthi16384e",
        20,
    ));
    assert_eq!(MetaInfo::from_bytes(&both).err(), Some(DescriptorError::LengthAndFiles));
    let neither = torrent_bytes(&info_dict("4:name1:a12:piece lengthi16384e", 20));
    assert_eq!(MetaInfo::from_bytes(&neither).err(), Some(DescriptorError::NoLengthOrFiles));
    assert_eq!(MetaInfo::from_bytes(b"d8:announce").err(), Some(DescriptorError::Malformed));
    assert_eq!(MetaInfo::from_bytes(b"li1ee").err(), Some(DescriptorError::BadField));
    let no_info = b"d8:announce1:xe";
    assert_eq!(MetaInfo::from_bytes(no_info).err(), Some(DescriptorError::BadField));
    let negative = torrent_bytes(&info_dict("6:lengthi-5e4:name1:a12:piece lengthi16384e", 20));
    assert_eq!(MetaInfo::from_bytes(&negative).err(), Some(DescriptorError::BadField));
}

#[test]
fn bencode_round_trip_and_rejections() {
    let text = b"d3:keyli-12ei0e4:spame1:zdee";
    let v = decode(text).unwrap();
    assert_eq!(encode(&v), text.to_vec());
    match &v {
        Bencode::Dict(entries) => assert_eq!(entries.len(), 2),
        _ => panic!("expected a dictionary"),
    }
    assert!(decode(b"i-0e").is_none());
    assert!(decode(b"i03e").is_none());
    assert!(decode(b"03:abc").is_none());
    assert!(decode(b"4:abc").is_none());
    assert!(decode(b"i1ei2e").is_none());
    assert!(decode(b"l").is_none());
    let deep = format!("{}{}", "l".repeat(100), "e".repeat(100));
    assert!(decode(deep.as_bytes()).is_none());
}

#[test]
fn tracker_response_compact() {
    let mut body = b"d8:completei3e10:incompletei4e8:intervali1800e5:peers12:".to_vec();
    body.extend_from_slice(&[192, 0, 2, 1, 0x1A, 0xE1, 10, 0, 0, 2, 0, 80]);
    body.push(b'e');
    let r = TrackerResponse::from_bencode(&body).unwrap();
    assert_eq!(r.interval, 1800);
    assert_eq!(r.complete, 3);
    assert_eq!(r.incomplete, 4);
    assert!(r.failure_reason.is_none());
    assert!(r.min_interval.is_none());
    assert_eq!(r.peers.len(), 2);
    assert_eq!(r.peers[1].address(), "10.0.0.2:80");
}

#[test]
fn tracker_response_failure_reason() {
    let body = b"d14:failure reason11:not allowede";
    assert_eq!(
        TrackerResponse::from_bencode(body).err(),
        Some(TrackerError::Failure(String::from("not allowed")))
    );
}

#[test]
fn tracker_response_malformed() {
    assert_eq!(TrackerResponse::from_bencode(b"garbage").err(), Some(TrackerError::MalformedResponse));
    assert_eq!(
        TrackerResponse::from_bencode(b"d8:intervali10e5:peers7:abcdefge").err(),
        Some(TrackerError::MalformedPeers)
    );
    assert_eq!(
        TrackerResponse::from_bencode(b"d8:interval3:abce").err(),
        Some(TrackerError::MalformedResponse)
    );
}

#[test]
fn tracker_response_peer_list_and_defaults() {
    let body = b"d15:warning message4:slow5:peersld7:peer id20:AAAAAAAAAAAAAAAAAAAA2:ip8:10.0.0.54:port5:51413eee";
    let r = TrackerResponse::from_bencode(body).unwrap();
    assert_eq!(r.warning_message, Some(String::from("slow")));
    assert_eq!(r.interval, 0);
    assert_eq!(r.peers.len(), 1);
    assert_eq!(r.peers[0].port, 51413);
    let empty = TrackerResponse::from_bencode(b"de").unwrap();
    assert!(empty.peers.is_empty());
}

#[test]
fn peer_id_shape() {
    let id = generate_peer_id();
    assert_eq!(id.len(), 20);
    assert_eq!(&id[..8], b"-CN0000-");
    assert!(id[8..].iter().all(|c| c.is_ascii_alphanumeric()));
}
