use cbc::cipher::{block_padding::Pkcs7, BlockEncryptMut, KeyIvInit};
use onedm::hls::download::{
    concat_names, segment_name, Action, Event, HlsDownload, WorkerEnd,
};
use onedm::hls::error::HlsError;
use onedm::hls::iv::parse_iv;
use onedm::hls::keys::{accept_key, decrypt_segment, key_urls, segment_data, KeyCache};
use onedm::hls::listing::{Encryption, ListedKey, ListedSegment, ListedVariant, MediaList};
use onedm::hls::playlist::{
    build_media_playlist, follow_variant, playlist_base, playlist_step, variant_playlist,
    PlaylistStep, Segment, SegmentKey,
};
use onedm::hls::variants::{
    raw_is_drm, variant_height, variants_from_body, variants_from_master,
};
use url::Url;

const MEDIA: &str = "#EXTM3U\n#EXT-X-VERSION:3\n#EXT-X-TARGETDURATION:10\n\
#EXT-X-MEDIA-SEQUENCE:5\n#EXTINF:10.0,\nseg5.ts\n#EXT-X-KEY:METHOD=AES-128,URI=\"key.bin\"\n\
#EXTINF:10.0,\nsub/seg6.ts\n#EXT-X-ENDLIST\n";

const MASTER: &str = "#EXTM3U\n\
#EXT-X-STREAM-INF:BANDWIDTH=800000,RESOLUTION=640x360\nlow.m3u8\n\
#EXT-X-STREAM-INF:BANDWIDTH=2500000\naudio.m3u8\n\
#EXT-X-STREAM-INF:BANDWIDTH=2500000,RESOLUTION=1920x1080\nhigh.m3u8\n";

fn base() -> Url {
    Url::parse("https://h/p/list.m3u8").unwrap()
}

fn ready(body: &str) -> onedm::hls::playlist::HlsPlaylist {
    match playlist_step(&base(), body.as_bytes()) {
        Some(Ok(PlaylistStep::Ready(p))) => p,
        _ => panic!("no playlist"),
    }
}

#[test]
fn media_playlist_is_resolved() {
    let p = ready(MEDIA);
    assert!(!p.is_live);
    assert_eq!(p.segments.len(), 2);
    assert_eq!(p.segments[0].url, "https://h/p/seg5.ts");
    assert!(p.segments[0].key.is_none());
    assert_eq!(p.segments[1].url, "https://h/p/sub/seg6.ts");
    let key = p.segments[1].key.as_ref().unwrap();
    assert_eq!(key.key_url, "https://h/p/key.bin");
    assert_eq!(key.iv, [0, 0, 0, 0, 0, 0, 0, 0, 0, 0, 0, 0, 0, 0, 0, 6]);
}

#[test]
fn open_playlist_is_live() {
    assert!(ready(&MEDIA.replace("#EXT-X-ENDLIST\n", "")).is_live);
}

#[test]
fn master_playlist_is_followed_to_its_best_variant() {
    match playlist_step(&base(), MASTER.as_bytes()) {
        Some(Ok(PlaylistStep::Follow(url))) => assert_eq!(url.as_str(), "https://h/p/high.m3u8"),
        _ => panic!("not followed"),
    }
    let variant = Url::parse("https://h/v/high.m3u8").unwrap();
    let p = variant_playlist(&variant, MEDIA.as_bytes()).unwrap().unwrap();
    assert_eq!(p.segments[0].url, "https://h/v/seg5.ts");
}

#[test]
fn best_variant_is_the_last_of_the_highest_bandwidth() {
    let v = |uri: &str, bandwidth: u64| ListedVariant { uri: uri.into(), bandwidth, height: None };
    let list = vec![v("a", 1), v("b", 9), v("c", 9), v("d", 3)];
    assert_eq!(follow_variant(&base(), &list).unwrap().as_str(), "https://h/p/c");
    match follow_variant(&base(), &Vec::new()) {
        Err(HlsError::Playlist(m)) => assert_eq!(m, "master playlist has no variants"),
        _ => panic!("followed"),
    }
    assert!(matches!(
        follow_variant(&base(), &vec![v("https://[bad", 1)]),
        Err(HlsError::Playlist(_))
    ));
}

#[test]
fn sample_aes_is_refused() {
    let drm = MEDIA.replace("METHOD=AES-128", "METHOD=SAMPLE-AES");
    match playlist_step(&base(), drm.as_bytes()) {
        Some(Err(HlsError::UnsupportedEncryption)) => {}
        _ => panic!("accepted"),
    }
    assert!(raw_is_drm(drm.as_bytes()));
    assert!(raw_is_drm(drm.to_lowercase().as_bytes()));
    assert!(!raw_is_drm(MEDIA.as_bytes()));
}

#[test]
fn unreadable_playlists() {
    match playlist_step(&base(), b"hello") {
        Some(Err(HlsError::Playlist(m))) => assert!(m.contains("Error")),
        _ => panic!("accepted"),
    }
    assert!(matches!(variant_playlist(&base(), b"hello"), Some(Err(HlsError::Playlist(_)))));
    match playlist_base("no url") {
        Err(HlsError::Playlist(m)) => assert_eq!(m, "relative URL without a base"),
        _ => panic!("accepted"),
    }
    assert_eq!(playlist_base("https://h/a b").unwrap().as_str(), "https://h/a%20b");
}

#[test]
fn sequence_numbers_beyond_64_bits_are_noticed() {
    let huge = MEDIA.replace("SEQUENCE:5", "SEQUENCE:18446744073709551615");
    assert!(playlist_step(&base(), huge.as_bytes()).is_none());
    assert!(variant_playlist(&base(), huge.as_bytes()).is_none());
}

fn list(key: Option<ListedKey>) -> MediaList {
    MediaList {
        media_sequence: 300,
        end_list: true,
        segments: vec![ListedSegment { uri: "a.ts".into(), key }],
    }
}

#[test]
fn keys_of_listed_segments() {
    let key = |method, uri: Option<&str>, iv: Option<&str>| ListedKey {
        method,
        uri: uri.map(|s| s.to_string()),
        iv: iv.map(|s| s.to_string()),
    };
    let ok = list(Some(key(Encryption::Aes128, Some("k"), None)));
    let p = build_media_playlist(&base(), &ok).unwrap();
    assert_eq!(p.segments[0].key.as_ref().unwrap().iv[14..], [1, 44]);
    for bad in [
        key(Encryption::Off, Some("k"), None),
        key(Encryption::SampleAes, Some("k"), None),
        key(Encryption::Other("X".into()), Some("k"), None),
        key(Encryption::Aes128, None, None),
    ] {
        assert!(matches!(
            build_media_playlist(&base(), &list(Some(bad))),
            Err(HlsError::UnsupportedEncryption)
        ));
    }
    let bad_iv = list(Some(key(Encryption::Aes128, Some("k"), Some("0xzz"))));
    match build_media_playlist(&base(), &bad_iv) {
        Err(HlsError::Playlist(m)) => assert_eq!(m, "bad IV"),
        _ => panic!("accepted"),
    }
    let mut bad_uri = list(None);
    bad_uri.segments[0].uri = "https://[bad".into();
    assert!(matches!(build_media_playlist(&base(), &bad_uri), Err(HlsError::Playlist(_))));
}

#[test]
fn initialization_vectors() {
    let iv = |s: &str| parse_iv(&Some(s.to_string()), 258);
    assert_eq!(
        iv("0x000102030405060708090A0B0c0d0e0f").unwrap(),
        [0, 1, 2, 3, 4, 5, 6, 7, 8, 9, 10, 11, 12, 13, 14, 15]
    );
    assert_eq!(iv("ffffffffffffffffffffffffffffffff").unwrap(), [255; 16]);
    let mut by_sequence = [0u8; 16];
    by_sequence[14] = 1;
    by_sequence[15] = 2;
    assert_eq!(iv("0x0102").unwrap(), by_sequence);
    assert_eq!(iv("").unwrap(), by_sequence);
    assert_eq!(iv("0x").unwrap(), by_sequence);
    assert_eq!(parse_iv(&None, 258).unwrap(), by_sequence);
    let mut largest = [0u8; 16];
    largest[8..].copy_from_slice(&u64::MAX.to_be_bytes());
    assert_eq!(parse_iv(&None, u64::MAX).unwrap(), largest);
    assert!(matches!(iv("0x123"), Err(HlsError::Playlist(_))));
    assert!(matches!(iv("0X00"), Err(HlsError::Playlist(_))));
}

#[test]
fn qualities_of_a_master_playlist() {
    let v = variants_from_body("https://h/p/list.m3u8", MASTER.as_bytes()).unwrap();
    assert!(!v.is_drm);
    let got: Vec<(&str, &str)> =
        v.variants.iter().map(|v| (v.label.as_str(), v.url.as_str())).collect();
    assert_eq!(
        got,
        vec![
            ("1080p", "https://h/p/high.m3u8"),
            ("360p", "https://h/p/low.m3u8"),
            ("2500 kbps", "https://h/p/audio.m3u8"),
        ]
    );
}

#[test]
fn media_playlist_is_its_own_quality() {
    let v = variants_from_body("any", MEDIA.as_bytes()).unwrap();
    assert_eq!(v.variants.len(), 1);
    assert_eq!(v.variants[0].label, "source");
    assert_eq!(v.variants[0].url, "any");
}

#[test]
fn quality_errors() {
    assert!(matches!(variants_from_body("https://h/", b"x"), Err(HlsError::Playlist(_))));
    assert!(matches!(
        variants_from_body("not a url", MASTER.as_bytes()),
        Err(HlsError::Playlist(_))
    ));
    match variants_from_master("https://h/", &Vec::new()) {
        Err(HlsError::Playlist(m)) => assert_eq!(m, "master playlist has no variants"),
        _ => panic!("accepted"),
    }
}

#[test]
fn heights_of_labels() {
    assert_eq!(variant_height("1080p"), 1080);
    assert_eq!(variant_height("2500 kbps"), 0);
    assert_eq!(variant_height("p"), 0);
    assert_eq!(variant_height(""), 0);
}

fn encrypt(data: &[u8], key: &[u8; 16], iv: &[u8; 16]) -> Vec<u8> {
    cbc::Encryptor::<aes::Aes128>::new(key.into(), iv.into()).encrypt_padded_vec_mut::<Pkcs7>(data)
}

#[test]
fn segments_are_decrypted() {
    let key = [7u8; 16];
    let iv = [9u8; 16];
    let data = encrypt(b"some transport stream", &key, &iv);
    assert_eq!(data.len(), 32);
    assert_eq!(decrypt_segment(&data, &key, &iv).unwrap(), b"some transport stream".to_vec());
    assert!(matches!(decrypt_segment(&data[..20], &key, &iv), Err(HlsError::Decrypt)));
    assert!(matches!(decrypt_segment(&[], &key, &iv), Err(HlsError::Decrypt)));
    assert_ne!(
        decrypt_segment(&data, &key, &[8u8; 16]).unwrap_or_default(),
        b"some transport stream".to_vec()
    );
}

fn segment(key_url: Option<&str>) -> Segment {
    Segment {
        url: "u".into(),
        key: key_url.map(|k| SegmentKey { key_url: k.into(), iv: [0; 16] }),
    }
}

#[test]
fn each_key_is_listed_once() {
    let list = vec![segment(Some("a")), segment(None), segment(Some("b")), segment(Some("a"))];
    assert_eq!(key_urls(&list), vec!["a", "b"]);
}

#[test]
fn keys_have_sixteen_bytes() {
    assert_eq!(accept_key(&[3; 16]).unwrap(), [3; 16]);
    match accept_key(&[3; 15]) {
        Err(HlsError::Playlist(m)) => assert_eq!(m, "key is not 16 bytes"),
        _ => panic!("accepted"),
    }
}

#[test]
fn stored_data_of_segments() {
    let key = [1u8; 16];
    let mut cache = KeyCache::new();
    let with_key = segment(Some("k"));
    match segment_data(b"x", &with_key.key, &cache) {
        Err(HlsError::Playlist(m)) => assert_eq!(m, "key not cached"),
        _ => panic!("decrypted"),
    }
    cache.insert("k".into(), [0; 16]);
    cache.insert("k".into(), key);
    assert_eq!(cache.get("k"), Some(key));
    assert_eq!(cache.get("j"), None);
    let data = encrypt(b"abc", &key, &[0; 16]);
    assert_eq!(segment_data(&data, &with_key.key, &cache).unwrap(), b"abc".to_vec());
    assert_eq!(segment_data(b"abc", &None, &cache).unwrap(), b"abc".to_vec());
}

#[test]
fn hls_download_runs_to_its_end() {
    let list = vec![segment(Some("a")), segment(None), segment(Some("b"))];
    let mut d = HlsDownload::new(&list, 8);
    assert_eq!(d.total(), 3);
    let first = d.step(Event::Ready { cancelled: false });
    assert!(matches!(first, Action::FetchKey(url) if url == "a"));
    let second = d.step(Event::Key { body: vec![1; 16], cancelled: false });
    assert!(matches!(second, Action::FetchKey(url) if url == "b"));
    let third = d.step(Event::Key { body: vec![2; 16], cancelled: false });
    assert!(matches!(third, Action::LookAtFiles));
    let data = encrypt(b"abc", &[1; 16], &[0; 16]);
    assert_eq!(segment_data(&data, &list[0].key, &d.keys()).unwrap(), b"abc".to_vec());
    match d.step(Event::Files { present: vec![false, true, false] }) {
        Action::Launch { pending, limit, done } => {
            assert_eq!((pending, limit, done), (vec![0, 2], 8, 1))
        }
        _ => panic!("not launched"),
    }
    let stored = || Event::Worker { end: WorkerEnd::Stored, cancelled: false };
    assert!(matches!(d.step(stored()), Action::Report { done: 2 }));
    assert!(matches!(d.step(stored()), Action::Report { done: 3 }));
    assert!(matches!(
        d.step(Event::Idle { cancelled: false }),
        Action::Finish { result: Ok(()), report: Some(3) }
    ));
}

#[test]
fn hls_download_stops() {
    let mut d = HlsDownload::new(&Vec::new(), 8);
    match d.step(Event::Ready { cancelled: true }) {
        Action::Finish { result: Err(HlsError::Playlist(m)), .. } => {
            assert_eq!(m, "playlist has no segments")
        }
        _ => panic!("went on"),
    }
    let list = vec![segment(Some("a"))];
    let mut d = HlsDownload::new(&list, 8);
    assert!(matches!(
        d.step(Event::Ready { cancelled: true }),
        Action::Finish { result: Err(HlsError::Cancelled), report: None }
    ));
    let mut d = HlsDownload::new(&list, 8);
    d.step(Event::Ready { cancelled: false });
    assert!(matches!(
        d.step(Event::Key { body: vec![1; 3], cancelled: false }),
        Action::Finish { result: Err(HlsError::Playlist(_)), .. }
    ));
    let running = || {
        let mut d = HlsDownload::new(&vec![segment(None)], 8);
        d.step(Event::Ready { cancelled: false });
        d.step(Event::Files { present: vec![false] });
        d
    };
    let failed = |cancelled| Event::Worker { end: WorkerEnd::Failed(HlsError::Decrypt), cancelled };
    assert!(matches!(
        running().step(failed(false)),
        Action::Finish { result: Err(HlsError::Decrypt), report: None }
    ));
    assert!(matches!(
        running().step(failed(true)),
        Action::Finish { result: Err(HlsError::Cancelled), report: Some(0) }
    ));
    match running().step(Event::Worker { end: WorkerEnd::Lost("boom".into()), cancelled: true }) {
        Action::Finish { result: Err(HlsError::Playlist(m)), .. } => {
            assert_eq!(m, "worker panic: boom")
        }
        _ => panic!("went on"),
    }
    assert!(matches!(
        running().step(Event::Idle { cancelled: true }),
        Action::Finish { result: Err(HlsError::Cancelled), report: Some(0) }
    ));
    assert!(matches!(
        running().step(Event::Trouble(HlsError::Io("disk".into()))),
        Action::Finish { result: Err(HlsError::Io(_)), report: None }
    ));
    assert!(matches!(
        running().step(Event::Ready { cancelled: false }),
        Action::Finish { result: Err(HlsError::Playlist(_)), .. }
    ));
}

#[test]
fn hls_files_on_disk() {
    assert_eq!(segment_name(0), "segment_00001.ts");
    assert_eq!(segment_name(99_999), "segment_100000.ts");
    assert_ne!(segment_name(8), segment_name(9));
    assert_eq!(concat_names(&vec![false, true]), vec!["segment_00002.ts"]);
}

#[test]
fn hls_error_messages() {
    assert_eq!(HlsError::Http("x".into()).message(), "network error: x");
    assert_eq!(HlsError::Io("x".into()).message(), "io error: x");
    assert_eq!(HlsError::Playlist("x".into()).message(), "invalid playlist: x");
    assert_eq!(
        HlsError::UnsupportedEncryption.message(),
        "segment uses an unsupported encryption method"
    );
    assert_eq!(HlsError::Decrypt.message(), "decryption failed");
    assert_eq!(HlsError::Cancelled.message(), "cancelled");
}
