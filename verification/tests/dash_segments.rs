use onedm::dash::download::{
    concat_names, init_name, segment_name, turn_of, Action, DashDownload, Event, Turn, WorkerEnd,
};
use onedm::dash::element::RawRep;
use onedm::dash::manifest::{parse_manifest, DashError};
use onedm::dash::segments::{
    checked_segment_urls, collect_raw_reps, expand_template, numbers_fit_in, pad, parse_tag,
    plan_segments, segment_timescale, segment_urls,
};

fn rep() -> RawRep {
    RawRep {
        id: "v1".to_string(),
        width: 0,
        height: 0,
        bandwidth: 800_000,
        content_type: String::new(),
        initialization: String::new(),
        media: String::new(),
        start_number: 0,
        timescale: 0,
        duration: 0,
        timeline: None,
    }
}

fn tag(s: &str) -> Option<(String, usize, usize)> {
    let chars: Vec<char> = s.chars().collect();
    parse_tag(&chars)
}

#[test]
fn marks_of_a_template() {
    assert_eq!(tag("$Number$x"), Some(("Number".to_string(), 0, 8)));
    assert_eq!(tag("$Number%05d$"), Some(("Number".to_string(), 5, 12)));
    assert_eq!(tag("$Number%5d$"), None);
    assert_eq!(tag("$Number%05x$"), None);
    assert_eq!(tag("$Number%0d$"), None);
    assert_eq!(tag("$Number"), None);
    assert_eq!(tag("$$"), Some((String::new(), 0, 2)));
}

#[test]
fn templates_are_expanded() {
    let r = rep();
    let full = "$RepresentationID$/$Bandwidth$/$Number%04d$-$Time$-$$-$Other$.m4s";
    assert_eq!(expand_template(full, &r, 7, Some(90)), "v1/800000/0007-90-$-.m4s");
    assert_eq!(expand_template("$Time%03d$", &r, 7, None), "000");
    assert_eq!(expand_template("a$b", &r, 7, None), "a$b");
    assert_eq!(expand_template("plain", &r, 7, None), "plain");
    assert_eq!(expand_template("$Number%5d$", &r, 7, None), "$Number%5d$");
}

#[test]
fn padding_of_numbers() {
    assert_eq!(pad(7, 0), "7");
    assert_eq!(pad(7, 1), "7");
    assert_eq!(pad(7, 3), "007");
    assert_eq!(pad(12345, 3), "12345");
}

#[test]
fn segments_of_a_duration() {
    let mut r = rep();
    r.duration = 2000;
    r.start_number = 3;
    let pairs = plan_segments(&r, Some(5000)).unwrap();
    assert_eq!(pairs, vec![(3, Some(0)), (4, Some(2000)), (5, Some(4000))]);
    let pairs = plan_segments(&r, Some(4000)).unwrap();
    assert_eq!(pairs, vec![(3, Some(0)), (4, Some(2000))]);
    assert!(matches!(plan_segments(&r, None), Err(DashError::NoSegmentCount)));
    assert!(matches!(plan_segments(&r, Some(0)), Err(DashError::NoSegmentCount)));
    assert!(matches!(plan_segments(&r, Some(2000 * 100_001)), Err(DashError::NoSegmentCount)));
    assert_eq!(plan_segments(&r, Some(2000 * 100_000)).unwrap().len(), 100_000);
    r.duration = 0;
    assert!(matches!(plan_segments(&r, Some(5000)), Err(DashError::NoSegmentCount)));
}

#[test]
fn times_of_even_segments() {
    let mpd = r#"<MPD><AdaptationSet contentType="video">
<SegmentTemplate media="$Time$.m4s" timescale="1" duration="2"/>
<Representation id="v" bandwidth="1"></Representation></AdaptationSet></MPD>"#;
    let (_, urls) = segment_urls("https://h/m.mpd", mpd, "v", Some(4)).unwrap();
    assert_eq!(urls, vec!["https://h/0.m4s", "https://h/2.m4s"]);
    let mut r = rep();
    r.duration = u64::MAX - 1;
    let pairs = plan_segments(&r, Some(u64::MAX)).unwrap();
    assert_eq!(pairs, vec![(1, Some(0)), (2, Some(u64::MAX - 1))]);
}

#[test]
fn timeline_of_an_adaptation_set() {
    let mpd = r#"<MPD><AdaptationSet contentType="video">
<SegmentTemplate media="$Time$.m4s"><SegmentTimeline><S t='0' d='2' r='1'></S></SegmentTimeline></SegmentTemplate>
<Representation id="v" bandwidth="1"></Representation>
<Representation id="w" bandwidth="2"><SegmentTemplate><SegmentTimeline><S t='7' d='3'/><S d='4'/></SegmentTimeline></SegmentTemplate></Representation>
<Representation id="x" bandwidth="3"/></AdaptationSet><S t='1' d='1'/></MPD>"#;
    let reps = collect_raw_reps(mpd);
    assert_eq!(reps.len(), 3);
    assert_eq!(reps[0].timeline, Some(vec![(Some(0), 2, 1)]));
    assert_eq!(reps[1].timeline, Some(vec![(Some(7), 3, 0), (None, 4, 0)]));
    assert_eq!(reps[2].timeline, Some(vec![(Some(0), 2, 1)]));
    let (_, urls) = segment_urls("https://h/m.mpd", mpd, "v", None).unwrap();
    assert_eq!(urls, vec!["https://h/0.m4s", "https://h/2.m4s"]);
}

#[test]
fn self_closing_timeline_entries() {
    let mpd = r#"<MPD><AdaptationSet contentType="video"><Representation id="v" bandwidth="1">
<SegmentTemplate initialization="i.mp4" media="$Time$.m4s"><SegmentTimeline><S t='10' d='2' r='1'/></SegmentTimeline></SegmentTemplate>
</Representation></AdaptationSet></MPD>"#;
    let (init, urls) = segment_urls("https://h.com/d/m.mpd", mpd, "v", None).unwrap();
    assert_eq!(init, "https://h.com/d/i.mp4");
    assert_eq!(urls, vec!["https://h.com/d/10.m4s", "https://h.com/d/12.m4s"]);
}

#[test]
fn segments_of_a_timeline() {
    let mut r = rep();
    r.timeline = Some(vec![(Some(100), 10, 2), (None, 5, 0), (Some(1000), 1, 1)]);
    let pairs = plan_segments(&r, None).unwrap();
    assert_eq!(
        pairs,
        vec![
            (1, Some(100)),
            (2, Some(110)),
            (3, Some(120)),
            (4, Some(130)),
            (5, Some(1000)),
            (6, Some(1001)),
        ]
    );
}

#[test]
fn numbers_beyond_64_bits_are_noticed() {
    let mut r = rep();
    r.timeline = Some(vec![(Some(u64::MAX), 1, 0)]);
    assert!(!numbers_fit_in(&r, None));
    r.timeline = Some(vec![(Some(0), 0, u64::MAX)]);
    assert!(!numbers_fit_in(&r, None));
    r.timeline = Some(vec![(Some(0), 1, 5)]);
    r.start_number = u64::MAX - 3;
    assert!(!numbers_fit_in(&r, None));
    r.timeline = None;
    r.duration = 1;
    assert!(!numbers_fit_in(&r, Some(9)));
    assert!(numbers_fit_in(&r, Some(2)));
    assert!(numbers_fit_in(&r, None));
    assert!(numbers_fit_in(&r, Some(0)));
}

const MPD: &str = r#"<MPD><Period><AdaptationSet mimeType="video/mp4">
<SegmentTemplate initialization="$RepresentationID$/init.mp4" media="$RepresentationID$/$Number%03d$.m4s" timescale="1000" duration="2000"/>
<Representation id="a" bandwidth="1"></Representation>
<Representation id="b" bandwidth="2"><SegmentTemplate media="t/$Time$.m4s" startNumber="5"><SegmentTimeline><S t="7" d="3" r="1"></S><S d="4"></S></SegmentTimeline></SegmentTemplate></Representation>
</AdaptationSet></Period></MPD>"#;

#[test]
fn urls_of_numbered_segments() {
    let (init, urls) =
        segment_urls("https://h/x/m.mpd?q=1", MPD, "a", Some(5000)).unwrap();
    assert_eq!(init, "https://h/x/a/init.mp4");
    assert_eq!(
        urls,
        vec!["https://h/x/a/001.m4s", "https://h/x/a/002.m4s", "https://h/x/a/003.m4s"]
    );
}

#[test]
fn urls_of_timed_segments() {
    let (init, urls) = segment_urls("https://h/x/m.mpd", MPD, "b", None).unwrap();
    assert_eq!(init, "https://h/x/b/init.mp4");
    assert_eq!(urls, vec!["https://h/x/t/7.m4s", "https://h/x/t/10.m4s", "https://h/x/t/13.m4s"]);
}

#[test]
fn segment_url_errors() {
    assert!(matches!(
        segment_urls("https://h/m.mpd", MPD, "zz", Some(1)),
        Err(DashError::NoRepresentation)
    ));
    match segment_urls("not a url", MPD, "a", Some(1)) {
        Err(DashError::Manifest(m)) => assert_eq!(m, "relative URL without a base"),
        _ => panic!("accepted"),
    }
    assert!(matches!(
        segment_urls("https://h/m.mpd", MPD, "a", None),
        Err(DashError::NoSegmentCount)
    ));
}

#[test]
fn checked_urls_notice_overflow() {
    assert!(checked_segment_urls("https://h/m.mpd", MPD, "a", Some(5000)).is_some());
    let huge = MPD.replace("t=\"7\"", "t=\"18446744073709551615\"");
    assert!(checked_segment_urls("https://h/m.mpd", &huge, "b", None).is_none());
    assert!(matches!(
        checked_segment_urls("nope", &huge, "b", None),
        Some(Err(DashError::Manifest(_)))
    ));
}

#[test]
fn every_quality_leads_to_segments() {
    let m = parse_manifest(MPD).unwrap();
    assert_eq!(m.video.len(), 2);
    for r in &m.video {
        assert!(segment_urls("https://h/m.mpd", MPD, &r.id, Some(2000)).is_ok());
    }
    let sound = r#"<AdaptationSet contentType="audio"><SegmentTemplate media="s.m4s" duration="2"/>
<Representation id="s" bandwidth="9"/></AdaptationSet></Period>"#;
    let both = MPD.replace("</Period>", sound);
    let audio = parse_manifest(&both).unwrap().audio.unwrap();
    assert_eq!(audio.id, "s");
    assert!(segment_urls("https://h/m.mpd", &both, &audio.id, Some(2)).is_ok());
}

#[test]
fn timescale_of_a_representation() {
    assert_eq!(segment_timescale(MPD, "a"), Some(1000));
    assert_eq!(segment_timescale(MPD, "none"), None);
    let bare = MPD.replace("timescale=\"1000\"", "");
    assert_eq!(segment_timescale(&bare, "a"), Some(1));
}

#[test]
fn raw_representations_survive_broken_ends() {
    let cut = format!("{}</oops>", MPD.split("</AdaptationSet>").next().unwrap());
    let reps = collect_raw_reps(&cut);
    assert_eq!(reps.len(), 2);
    assert_eq!(reps[1].timeline, Some(vec![(Some(7), 3, 1), (None, 4, 0)]));
    assert_eq!(reps[1].initialization, "$RepresentationID$/init.mp4");
}

#[test]
fn dash_files_on_disk() {
    assert_eq!(init_name(), "init.mp4");
    assert_eq!(segment_name(0), "segment_00001.m4s");
    assert_eq!(segment_name(123_455), "segment_123456.m4s");
    assert_eq!(
        concat_names(true, &vec![true, false, true]),
        vec!["init.mp4", "segment_00001.m4s", "segment_00003.m4s"]
    );
    assert_eq!(concat_names(false, &vec![true]), vec!["segment_00001.m4s"]);
}

#[test]
fn dash_download_runs_to_its_end() {
    let mut d = DashDownload::new(2, 100);
    assert_eq!(d.total(), 3);
    assert!(matches!(d.step(Event::Ready { present: false }), Action::FetchInit));
    assert!(matches!(d.step(Event::InitStored), Action::Launch { limit: 64, done: 1 }));
    let stored = |c| Event::Worker { end: WorkerEnd::Stored, cancelled: c };
    assert!(matches!(d.step(stored(false)), Action::Report { done: 2 }));
    assert!(matches!(d.step(stored(false)), Action::Report { done: 3 }));
    assert!(matches!(
        d.step(Event::Idle { cancelled: false }),
        Action::Finish { result: Ok(()), report: Some(3) }
    ));
}

#[test]
fn dash_download_resumes_and_stops() {
    let mut d = DashDownload::new(2, 0);
    assert!(matches!(d.step(Event::Ready { present: true }), Action::Launch { limit: 1, done: 1 }));
    assert!(matches!(
        d.step(Event::Worker { end: WorkerEnd::Failed(DashError::Cancelled), cancelled: true }),
        Action::Finish { result: Err(DashError::Cancelled), report: Some(1) }
    ));
    let mut d = DashDownload::new(2, 8);
    d.step(Event::Ready { present: true });
    assert!(matches!(
        d.step(Event::Worker { end: WorkerEnd::Failed(DashError::Io("x".into())), cancelled: true }),
        Action::Finish { result: Err(DashError::Io(_)), report: None }
    ));
    let mut d = DashDownload::new(2, 8);
    d.step(Event::Ready { present: true });
    match d.step(Event::Worker { end: WorkerEnd::Lost("boom".into()), cancelled: false }) {
        Action::Finish { result: Err(DashError::Manifest(m)), .. } => {
            assert_eq!(m, "worker panic: boom")
        }
        _ => panic!("went on"),
    }
    let mut d = DashDownload::new(2, 8);
    assert!(matches!(
        d.step(Event::Trouble(DashError::Http("x".into()))),
        Action::Finish { result: Err(DashError::Http(_)), report: None }
    ));
    let mut d = DashDownload::new(2, 8);
    assert!(matches!(
        d.step(Event::Idle { cancelled: false }),
        Action::Finish { result: Err(DashError::Manifest(_)), .. }
    ));
}

#[test]
fn dash_worker_turns() {
    assert!(matches!(turn_of(true, true), Turn::Cancelled));
    assert!(matches!(turn_of(false, true), Turn::Skip));
    assert!(matches!(turn_of(false, false), Turn::Fetch));
}
