use bit_rev::peer::PeerAddr;
use bit_rev::tracker::{
    all_trackers, build_tracker_url, parse_compact_peers, tcp_trackers, url_encode_bytes, ErrorPeers,
};

#[test]
fn url_encoding() {
    assert_eq!(url_encode_bytes(b"aZ9.-_~"), "aZ9.-_~");
    assert_eq!(url_encode_bytes(&[0x00, 0xff, b' ', b'a']), "%00%FF%20a");
    assert_eq!(url_encode_bytes(&[]), "");
}

#[test]
fn tracker_url() {
    let url = build_tracker_url("http://t.example/announce", &[0x41; 20], &[0x12, b'x'], 6881, 1_048_577);
    assert_eq!(
        url,
        "http://t.example/announce?info_hash=AAAAAAAAAAAAAAAAAAAA&peer_id=%12x&port=6881&uploaded=0&downloaded=0&compact=1&left=1048577"
    );
}

#[test]
fn compact_peers() {
    let v4 = [127, 0, 0, 1, 0x1a, 0xe1, 10, 0, 0, 2, 0, 80];
    let mut v6 = vec![0u8; 16];
    v6[15] = 1;
    v6.extend_from_slice(&[0x1a, 0xe1]);
    let peers = parse_compact_peers(&v4, &v6).unwrap();
    assert_eq!(
        peers,
        vec![
            PeerAddr::V4(0x7f00_0001, 6881),
            PeerAddr::V4(0x0a00_0002, 80),
            PeerAddr::V6(1, 6881),
        ]
    );
    assert_eq!(parse_compact_peers(&v4[0..5], &[]), Err(ErrorPeers::InvalidPeerList));
    assert_eq!(parse_compact_peers(&[], &v6[0..17]), Err(ErrorPeers::InvalidPeerList));
    assert_eq!(parse_compact_peers(&[], &[]), Ok(vec![]));
}

#[test]
fn trackers_and_udp_filter() {
    let list = Some(vec![
        vec!["udp://a:80".to_string(), "http://b/announce".to_string()],
        vec!["https://c/announce".to_string()],
    ]);
    let main = Some("http://b/announce".to_string());
    let all = all_trackers(&main, &list);
    assert_eq!(all, vec!["udp://a:80", "http://b/announce", "https://c/announce"]);
    assert_eq!(tcp_trackers(all), vec!["http://b/announce", "https://c/announce"]);
    let other = Some("http://d/announce".to_string());
    assert_eq!(all_trackers(&other, &list).last().unwrap(), "http://d/announce");
    assert_eq!(all_trackers(&other, &None), vec!["http://d/announce"]);
    assert!(all_trackers(&None, &None).is_empty());
    assert_eq!(all_trackers(&None, &list).len(), 3);
}
