use onedm::dash::manifest::{DashError, DashManifest, Representation};
use onedm::hls::error::HlsError;
use onedm::hls::variants::{HlsVariants, Variant};
use onedm::model::Quality;
use onedm::sniffer::{
    capture_headers, dash_analysis, hls_analysis, is_ad, is_manifest_url, judge, page_of,
    title_for, Sniffer, Verdict,
};

fn quality(label: &str, url: &str) -> Quality {
    Quality { label: label.into(), url: url.into() }
}

#[test]
fn requests_are_judged() {
    assert!(matches!(judge("https://x.DoubleClick.net/a.m3u8"), Verdict::Block));
    assert!(matches!(judge("https://h/a.m3u8"), Verdict::Capture("hls")));
    assert!(matches!(judge("https://h/a.MPD?x"), Verdict::Capture("dash")));
    assert!(matches!(judge("https://h/a.html"), Verdict::Pass));
    assert!(matches!(judge("data:doubleclick.net"), Verdict::Pass));
    assert!(is_ad("https://an.yandex.ru/x"));
    assert!(is_ad("https://h/bing.com/bat.js"));
    assert!(!is_ad("https://example.org/"));
    assert_eq!(is_manifest_url("x.m3u8.mpd"), Some("hls"));
    assert_eq!(is_manifest_url("x"), None);
    assert_eq!(page_of("", "u"), "u");
    assert_eq!(page_of("r", "u"), "r");
}

#[test]
fn session_headers_are_captured() {
    let h = |n: &str, v: Option<&str>| (n.to_string(), v.map(|v| v.to_string()));
    let got = capture_headers(&vec![
        h("Authorization", Some("t")),
        h("Accept", Some("x")),
        h("X-Any", Some("1")),
        h("x-any", Some("2")),
        h("Cookie", None),
        h("security-token", Some("s")),
    ]);
    let want: Vec<(String, String)> = vec![
        ("authorization".into(), "t".into()),
        ("x-any".into(), "2".into()),
        ("security-token".into(), "s".into()),
    ];
    assert_eq!(got, want);
    let got = capture_headers(&vec![
        h("authorization", Some("A")),
        h("security_token", Some("T")),
        h("X-Playback-Session-Id", Some("P")),
        h("accept", Some("*/*")),
    ]);
    let want: Vec<(String, String)> = vec![
        ("authorization".into(), "A".into()),
        ("security_token".into(), "T".into()),
        ("x-playback-session-id".into(), "P".into()),
    ];
    assert_eq!(got, want);
}

#[test]
fn titles_of_streams() {
    assert_eq!(title_for("https://site.tv/p", "https://c/x/list.m3u8?a=/b"), "site.tv — list.m3u8");
    assert_eq!(title_for("nothing", "list"), "stream — list");
    assert_eq!(title_for("data:x", "a/"), "stream — ");
}

#[test]
fn streams_are_listed_newest_first() {
    let mut s = Sniffer::new();
    assert!(s.has_ids_left());
    assert_eq!(s.observe("https://p/", "https://h/a.m3u8"), Some(1));
    assert_eq!(s.observe("https://p/", "https://h/b.mpd"), Some(2));
    assert_eq!(s.observe("https://q/", "https://h/a.m3u8"), None);
    let list = s.list();
    assert_eq!(list.iter().map(|i| i.id).collect::<Vec<u64>>(), vec![2, 1]);
    assert_eq!(list[1].kind, "hls");
    assert_eq!(list[1].title, "p — a.m3u8");
    assert_eq!(list[1].qualities[0].label, "best");
    assert_eq!(list[1].qualities[0].url, "https://h/a.m3u8");
    s.clear();
    assert!(s.list().is_empty());
    assert_eq!(s.observe("https://p/", "https://h/a.m3u8"), Some(3));
}

#[test]
fn streams_are_updated() {
    let mut s = Sniffer::new();
    s.observe("https://p/", "https://h/b.mpd");
    s.update(1, "dash", false, Vec::new());
    assert_eq!(s.stream(1).unwrap().qualities[0].label, "best");
    s.update(1, "dash", true, vec![quality("1080p", "u#rep=1")]);
    let info = s.stream(1).unwrap();
    assert!(info.is_drm);
    assert_eq!(info.kind, "dash");
    assert_eq!(info.qualities[0].url, "u#rep=1");
    s.update(9, "hls", false, Vec::new());
    assert!(s.stream(9).is_none());
    assert!(s.stream(1).unwrap().is_drm);
}

#[test]
fn streams_are_downloaded() {
    let mut s = Sniffer::new();
    s.observe("https://p/", "https://h/b.mpd");
    s.keep_headers(1, vec![("cookie".into(), "c".into())]);
    s.update(1, "dash", false, vec![quality("1080p", "u1"), quality("360p", "u2")]);
    let cookie: Vec<(String, String)> = vec![("cookie".into(), "c".into())];
    assert_eq!(s.download_stream(1, Some(1)), Ok(("u2".to_string(), cookie.clone())));
    assert_eq!(s.download_stream(1, Some(5)), Ok(("https://h/b.mpd".to_string(), cookie.clone())));
    assert_eq!(s.download_stream(1, None), Ok(("https://h/b.mpd".to_string(), cookie)));
    assert_eq!(s.download_stream(2, None), Err("stream not found".to_string()));
    s.update(1, "dash", true, Vec::new());
    assert_eq!(
        s.download_stream(1, Some(0)),
        Err("DRM-protected streams cannot be downloaded — they can only be played".to_string())
    );
}

#[test]
fn manifests_are_analyzed() {
    let found = hls_analysis(Ok(HlsVariants {
        is_drm: true,
        variants: vec![Variant { label: "source".into(), url: "u".into() }],
    }));
    assert!(found.is_drm);
    assert_eq!(found.qualities[0].url, "u");
    let none = hls_analysis(Err(HlsError::Cancelled));
    assert!(!none.is_drm && none.qualities.is_empty());
    let found = dash_analysis(
        "m",
        Ok(DashManifest {
            is_drm: false,
            duration: None,
            video: vec![Representation { id: "v".into(), label: "l".into(), bandwidth: 3 }],
            audio: None,
        }),
    );
    assert_eq!((found.qualities[0].label.as_str(), found.qualities[0].url.as_str()), ("l", "m#rep=v"));
    let none = dash_analysis("m", Err(DashError::NoRepresentation));
    assert!(!none.is_drm && none.qualities.is_empty());
}
