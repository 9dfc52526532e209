use onedm::download::{
    next_action, plan_ranges, plan_transfer, probe_step, range_header, size_from_length,
    size_from_range, ProbeEvent, ProbeStep,
    Action, DownloadError, Event, Transfer, WorkerEnd, DEFAULT_CONNECTIONS,
};
use onedm::http::{session_headers, set_header, DEFAULT_USER_AGENT};
use onedm::torrent::{outcome, TorrentError, WaitEnd};
use onedm::workers::{leading_count, segment_file, split_pending, worker_limit};

#[test]
fn ranges_cut_a_file_up() {
    assert_eq!(plan_ranges(10, 4), vec![(0, 1), (2, 3), (4, 5), (6, 9)]);
    assert_eq!(plan_ranges(3, 16), vec![(0, 2)]);
    assert_eq!(plan_ranges(1, 1), vec![(0, 0)]);
    assert_eq!(plan_ranges(100, 0), vec![(0, 99)]);
    assert_eq!(plan_ranges(64, 1000).len(), 32);
    assert_eq!(DEFAULT_CONNECTIONS, 16);
}

#[test]
fn ranges_cover_every_byte_once() {
    for total in [1u64, 31, 32, 33, 1000, u64::MAX] {
        for conns in [1usize, 2, 7, 32, 33] {
            let ranges = plan_ranges(total, conns);
            assert_eq!(ranges[0].0, 0);
            assert_eq!(ranges.last().unwrap().1, total - 1);
            for w in ranges.windows(2) {
                assert_eq!(w[0].1 + 1, w[1].0);
            }
            assert!(ranges.iter().all(|r| r.0 <= r.1));
        }
    }
}

#[test]
fn transfers_are_planned() {
    assert!(matches!(plan_transfer(0, 4, true), Ok(Transfer::Single)));
    assert!(matches!(plan_transfer(9, 4, true), Err(DownloadError::Cancelled)));
    match plan_transfer(9, 2, false) {
        Ok(Transfer::Ranges(r)) => assert_eq!(r, vec![(0, 3), (4, 8)]),
        _ => panic!("no ranges"),
    }
}

#[test]
fn range_headers_and_sizes() {
    assert_eq!(range_header(5, 17), "bytes=5-17");
    assert_eq!(size_from_length("1234"), Some(1234));
    assert_eq!(size_from_length("x"), None);
    assert_eq!(size_from_range(&Some("bytes 0-0/5000".into())), 5000);
    assert_eq!(size_from_range(&Some("bytes 0-0/*".into())), 0);
    assert_eq!(size_from_range(&None), 0);
}

#[test]
fn asking_for_the_size() {
    let head = |v: Option<&str>| ProbeEvent::Head { length: v.map(|v| v.to_string()) };
    let range = |v: Option<&str>| ProbeEvent::Range { value: v.map(|v| v.to_string()) };
    assert!(matches!(probe_step(&ProbeEvent::Start { cancelled: true }), ProbeStep::Cancelled));
    assert!(matches!(probe_step(&ProbeEvent::Start { cancelled: false }), ProbeStep::SendHead));
    assert!(matches!(probe_step(&head(Some("12"))), ProbeStep::Size(12)));
    assert!(matches!(probe_step(&head(Some("0"))), ProbeStep::Size(0)));
    assert!(matches!(probe_step(&head(Some("x"))), ProbeStep::SendGet));
    assert!(matches!(probe_step(&head(None)), ProbeStep::SendGet));
    assert!(matches!(probe_step(&range(Some("bytes 0-0/77"))), ProbeStep::Size(77)));
    assert!(matches!(probe_step(&range(Some("bytes 0-0/*"))), ProbeStep::Size(0)));
    assert!(matches!(probe_step(&range(None)), ProbeStep::Size(0)));
}

#[test]
fn transfer_loop_actions() {
    assert!(matches!(next_action(Event::Tick { done: 7 }), Action::Report { done: 7 }));
    assert!(matches!(
        next_action(Event::CancelSeen),
        Action::Stop(DownloadError::Cancelled)
    ));
    assert!(matches!(next_action(Event::Worker(WorkerEnd::Stored)), Action::Wait));
    assert!(matches!(
        next_action(Event::Worker(WorkerEnd::Failed(DownloadError::Http("x".into())))),
        Action::Stop(DownloadError::Http(_))
    ));
    match next_action(Event::Worker(WorkerEnd::Lost("gone".into()))) {
        Action::Stop(DownloadError::Io(m)) => assert_eq!(m, "gone"),
        _ => panic!("went on"),
    }
    assert!(matches!(next_action(Event::Idle), Action::Complete));
}

#[test]
fn download_error_messages() {
    assert_eq!(DownloadError::Http("x".into()).message(), "network error: x");
    assert_eq!(DownloadError::Io("x".into()).message(), "io error: x");
    assert_eq!(DownloadError::Cancelled.message(), "cancelled");
}

fn pair(a: &str, b: &str) -> (String, String) {
    (a.to_string(), b.to_string())
}

#[test]
fn client_headers_are_normalized() {
    let extra = vec![
        pair("Authorization", "Bearer t"),
        pair("bad name", "x"),
        pair("", "x"),
        pair("x-bad", "line\nbreak"),
        pair("COOKIE", "a=1"),
        pair("cookie", "a=2\tb=é"),
    ];
    assert_eq!(
        session_headers(&extra),
        vec![
            pair("user-agent", DEFAULT_USER_AGENT),
            pair("authorization", "Bearer t"),
            pair("cookie", "a=2\tb=é"),
        ]
    );
    let own = vec![pair("User-Agent", "me")];
    assert_eq!(session_headers(&own), vec![pair("user-agent", "me")]);
    let long = vec![pair(&"a".repeat(65_536), "v"), pair(&"b".repeat(65_535), "v")];
    assert_eq!(session_headers(&long).len(), 2);
}

#[test]
fn setting_a_header_replaces_it() {
    let mut headers = vec![pair("a", "1"), pair("b", "2")];
    set_header(&mut headers, "a".into(), "3".into());
    set_header(&mut headers, "c".into(), "4".into());
    assert_eq!(headers, vec![pair("a", "3"), pair("b", "2"), pair("c", "4")]);
}

#[test]
fn worker_bookkeeping() {
    assert_eq!(worker_limit(0), 1);
    assert_eq!(worker_limit(8), 8);
    assert_eq!(worker_limit(1000), 64);
    assert_eq!(segment_file(41, ".x"), "segment_00042.x");
    assert_eq!(split_pending(&vec![true, false, true, false]), (2, vec![1, 3]));
    assert_eq!(leading_count(&vec![true, true, false, true]), 2);
    assert_eq!(leading_count(&Vec::new()), 0);
}

#[test]
fn torrent_outcomes() {
    assert!(outcome(WaitEnd::Completed, false).is_ok());
    assert!(matches!(outcome(WaitEnd::Completed, true), Err(TorrentError::Cancelled)));
    assert!(matches!(outcome(WaitEnd::CancelSeen, false), Err(TorrentError::Cancelled)));
    match outcome(WaitEnd::Failed("peers".into()), true) {
        Err(e) => assert_eq!(e.message(), "torrent error: peers"),
        Ok(()) => panic!("done"),
    }
    assert_eq!(TorrentError::Cancelled.message(), "cancelled");
}
