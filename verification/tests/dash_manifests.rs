use onedm::dash::duration::parse_iso_duration;
use onedm::dash::element::local_name;
use onedm::dash::manifest::{manifest_from_events, parse_manifest, variants_from_body, DashError};
use onedm::xml::{read_events, XmlAttribute, XmlEvent, XmlTag};

const MPD: &str = r#"<?xml version="1.0"?>
<MPD xmlns="urn:mpeg:dash:schema:mpd:2011" mediaPresentationDuration="PT1H2M3.5S">
  <Period>
    <AdaptationSet mimeType="video/mp4">
      <SegmentTemplate initialization="init-$RepresentationID$.mp4" media="$RepresentationID$/$Number%05d$.m4s" startNumber="3" timescale="1000" duration="2000"/>
      <Representation id="low" bandwidth="500000" width="640" height="360"></Representation>
      <Representation id="high" bandwidth="3000000" width="1920" height="1080"></Representation>
      <Representation id="mid" bandwidth="3000000"></Representation>
    </AdaptationSet>
    <AdaptationSet contentType="audio" mimeType="audio/mp4">
      <SegmentTemplate initialization="a-init.mp4" media="a-$Number$.m4s" timescale="1" duration="2"/>
      <Representation id="a1" bandwidth="64000"></Representation>
      <Representation id="a2" bandwidth="128000"></Representation>
    </AdaptationSet>
  </Period>
</MPD>"#;

#[test]
fn videos_come_by_bandwidth_and_the_best_audio_is_picked() {
    let m = parse_manifest(MPD).unwrap();
    assert!(!m.is_drm);
    let video: Vec<(String, String, u64)> =
        m.video.iter().map(|r| (r.id.clone(), r.label.clone(), r.bandwidth)).collect();
    assert_eq!(
        video,
        vec![
            ("high".to_string(), "1080p".to_string(), 3_000_000),
            ("mid".to_string(), "3000 kbps".to_string(), 3_000_000),
            ("low".to_string(), "360p".to_string(), 500_000),
        ]
    );
    let audio = m.audio.unwrap();
    assert_eq!((audio.id.as_str(), audio.label.as_str(), audio.bandwidth), ("a2", "audio", 128_000));
}

#[test]
fn duration_is_kept_as_terms() {
    let d = parse_manifest(MPD).unwrap().duration.unwrap();
    assert!(d.date.is_empty());
    let terms: Vec<(String, u64)> =
        d.time.unwrap().into_iter().map(|t| (t.number, t.scale)).collect();
    assert_eq!(
        terms,
        vec![("1".to_string(), 3600), ("2".to_string(), 60), ("3.5".to_string(), 1)]
    );
}

#[test]
fn body_bytes_are_read_like_text() {
    let m = variants_from_body(MPD.as_bytes()).unwrap();
    assert_eq!(m.video.len(), 3);
    let mut bytes = MPD.as_bytes().to_vec();
    let at = MPD.find("low").unwrap();
    bytes[at] = 0xff;
    let m = variants_from_body(&bytes).unwrap();
    assert!(m.video.iter().any(|r| r.id == "\u{fffd}ow"));
}

#[test]
fn protection_is_found_anywhere() {
    let open = MPD.replace("<Period>", "<Period><cenc:ContentProtection></cenc:ContentProtection>");
    assert!(parse_manifest(&open).unwrap().is_drm);
    let closed = MPD.replace("</Period>", "<ContentProtection/></Period>");
    assert!(parse_manifest(&closed).unwrap().is_drm);
}

#[test]
fn manifest_without_video_is_refused() {
    assert!(matches!(parse_manifest("<MPD></MPD>"), Err(DashError::NoRepresentation)));
    let audio_only = MPD.replace("video/mp4", "text/vtt").replace("width=\"640\"", "")
        .replace("width=\"1920\"", "");
    assert!(matches!(parse_manifest(&audio_only), Err(DashError::NoRepresentation)));
}

#[test]
fn broken_xml_is_an_invalid_manifest() {
    match parse_manifest("<MPD></Period>") {
        Err(DashError::Manifest(m)) => assert!(!m.is_empty()),
        _ => panic!("accepted"),
    }
}

#[test]
fn self_closing_representations_are_listed() {
    let mpd = MPD.replace("height=\"360\"></Representation>", "height=\"360\"/>");
    let m = parse_manifest(&mpd).unwrap();
    assert!(m.video.iter().any(|r| r.id == "low"));
    let bare = "<MPD><AdaptationSet contentType='video'><SegmentTemplate media='$Number$.m4s' duration='2'/><Representation id='v' bandwidth='1000' height='720'/></AdaptationSet></MPD>";
    let m = parse_manifest(bare).unwrap();
    assert_eq!(m.video.len(), 1);
    assert_eq!(m.video[0].id, "v");
    assert_eq!(m.video[0].label, "720p");
    assert_eq!(m.video[0].bandwidth, 1000);
    assert!(m.audio.is_none());
    assert!(!m.is_drm);
    assert!(m.duration.is_none());
}

fn tag(name: &str, attributes: &[(&str, &str)]) -> XmlTag {
    XmlTag {
        name: name.as_bytes().to_vec(),
        attributes: attributes
            .iter()
            .map(|(k, v)| {
                Some(XmlAttribute { key: k.as_bytes().to_vec(), value: Some(v.to_string()) })
            })
            .collect(),
    }
}

#[test]
fn manifest_from_given_events() {
    let events = vec![
        XmlEvent::Start(tag("AdaptationSet", &[("contentType", "video")])),
        XmlEvent::Start(tag("Representation", &[("id", "v"), ("bandwidth", "2500"), ("bandwidth", "x")])),
        XmlEvent::Empty(tag("x:SegmentTemplate", &[("media", "m")])),
        XmlEvent::End(b"Representation".to_vec()),
        XmlEvent::Eof,
    ];
    let m = manifest_from_events(&events).unwrap();
    assert_eq!(m.video.len(), 1);
    assert_eq!(m.video[0].label, "0 kbps");
    let failed = vec![XmlEvent::Failed("bad".to_string())];
    match manifest_from_events(&failed) {
        Err(DashError::Manifest(m)) => assert_eq!(m, "bad"),
        _ => panic!("accepted"),
    }
}

#[test]
fn events_of_a_document() {
    let events = read_events("<a x:k='1 &amp; 2' bad><b/>text</a>");
    assert_eq!(events.len(), 5);
    match &events[0] {
        XmlEvent::Start(t) => {
            assert_eq!(t.name, b"a".to_vec());
            let a = t.attributes[0].as_ref().unwrap();
            assert_eq!(a.key, b"x:k".to_vec());
            assert_eq!(a.value.as_deref(), Some("1 & 2"));
            assert!(t.attributes[1].is_none());
        }
        _ => panic!("no start"),
    }
    assert!(matches!(events[1], XmlEvent::Empty(_)));
    assert!(matches!(events[2], XmlEvent::Other));
    assert!(matches!(events[3], XmlEvent::End(_)));
    assert!(matches!(events[4], XmlEvent::Eof));
    let broken = read_events("<a></b>");
    assert!(matches!(broken.last().unwrap(), XmlEvent::Failed(_)));
}

#[test]
fn names_lose_their_prefix() {
    assert_eq!(local_name(b"cenc:pssh"), "pssh");
    assert_eq!(local_name(b"MPD"), "MPD");
    assert_eq!(local_name(b"a:b:c"), "c");
    assert_eq!(local_name(&[0xff, b':', b'x']), "x");
}

#[test]
fn iso_durations() {
    let d = parse_iso_duration(" P1Y2M3W4DT5H6M7.25S ").unwrap();
    let date: Vec<(&str, u64)> = d.date.iter().map(|t| (t.number.as_str(), t.scale)).collect();
    assert_eq!(date, vec![("1", 31_536_000), ("2", 2_592_000), ("3", 604_800), ("4", 86_400)]);
    let time = d.time.unwrap();
    let time: Vec<(&str, u64)> = time.iter().map(|t| (t.number.as_str(), t.scale)).collect();
    assert_eq!(time, vec![("5", 3600), ("6", 60), ("7.25", 1)]);
    assert!(parse_iso_duration("1H").is_none());
    assert!(parse_iso_duration("").is_none());
    let bare = parse_iso_duration("P3D").unwrap();
    assert!(bare.time.is_none());
    let odd = parse_iso_duration("PT1x2S").unwrap();
    assert_eq!(odd.time.unwrap()[0].number, "12");
}

#[test]
fn dash_error_messages() {
    assert_eq!(DashError::Http("x".into()).message(), "network error: x");
    assert_eq!(DashError::Io("x".into()).message(), "io error: x");
    assert_eq!(DashError::Manifest("x".into()).message(), "invalid manifest: x");
    assert_eq!(DashError::NoRepresentation.message(), "no downloadable representation");
    assert_eq!(
        DashError::NoSegmentCount.message(),
        "cannot determine segment count (no duration or timeline)"
    );
    assert_eq!(DashError::Cancelled.message(), "cancelled");
}
