use onedm::downloader::names::{
    detect_kind, file_name_for, resolve_destination, sanitize_name, with_ext,
};
use onedm::downloader::queue::{accept_url, DownloadManager, Persisted};
use onedm::downloader::run::{
    after_audio, choose_representation, check_live, dash_qualities, dash_steps, dash_streams,
    drm_friendly, ending_of, hls_steps, http_steps, part_path, route_of, split_fragment, FileStep,
    Route, StreamStep,
};
use onedm::downloader::settings::Settings;
use onedm::dash::manifest::{DashManifest, Representation};
use onedm::hls::error::HlsError;
use onedm::model::DownloadTask;

fn add(m: &mut DownloadManager, url: &str, start_at: Option<i64>) -> u64 {
    m.enqueue(url, "/d/f".to_string(), None, start_at, None, Vec::new(), 100).unwrap()
}

fn statuses(m: &DownloadManager) -> Vec<String> {
    m.list_downloads().into_iter().map(|t| t.status).collect()
}

#[test]
fn kinds_of_urls() {
    assert_eq!(detect_kind("MAGNET:?x"), "torrent");
    assert_eq!(detect_kind("https://h/a.Torrent"), "torrent");
    assert_eq!(detect_kind("https://h/a.M3U8?x"), "hls");
    assert_eq!(detect_kind("https://h/a.mpd"), "dash");
    assert_eq!(detect_kind("https://h/a.mpd.m3u8"), "hls");
    assert_eq!(detect_kind("https://h/a.zip"), "http");
}

#[test]
fn file_names() {
    assert_eq!(sanitize_name("a<b>:c\"/\\|?*.txt"), "a_b__c______.txt");
    assert_eq!(sanitize_name("  ..name.. "), "name");
    assert_eq!(sanitize_name(" ... "), "download");
    assert_eq!(sanitize_name("a .b"), "a .b");
    assert_eq!(sanitize_name(". a ."), " a ");
    assert_eq!(file_name_for("https://h/dir/movie.mp4?x=/y", "http"), "movie.mp4");
    assert_eq!(file_name_for("https://h/dir/", "http"), "download");
    assert_eq!(file_name_for("magnet:?x", "torrent"), "torrent-download");
    assert_eq!(file_name_for("c:\\x\\y.bin", "http"), "y.bin");
    assert_eq!(with_ext("a", "ts"), "a.ts");
    assert_eq!(with_ext("a.TS", "ts"), "a.TS");
    assert_eq!(with_ext("ΑΣ.Ts", "ts"), "ΑΣ.Ts");
    assert_eq!(with_ext("İx.Σ", "ts"), "İx.Σ.ts");
    assert_eq!(with_ext(&with_ext("İx.Σ", "ts"), "ts"), "İx.Σ.ts");
    assert_eq!(with_ext("", "ts"), ".ts");
    assert_eq!(with_ext(&with_ext("a.m3u8", "mp4"), "mp4"), "a.m3u8.mp4");
}

#[test]
fn destinations() {
    let d = resolve_destination(&Some(" /mine ".into()), "/set", "https://h/a.m3u8", "hls");
    assert_eq!(d.dir.as_deref(), Some("/mine"));
    assert_eq!(d.file.as_deref(), Some("a.m3u8.ts"));
    let d = resolve_destination(&Some("  ".into()), "/set", "https://h/a.mpd", "dash");
    assert_eq!(d.dir.as_deref(), Some("/set"));
    assert_eq!(d.file.as_deref(), Some("a.mpd.mp4"));
    let d = resolve_destination(&None, "", "magnet:?x", "torrent");
    assert!(d.dir.is_none() && d.file.is_none());
    let d = resolve_destination(&None, "", "https://h/a.zip", "http");
    assert_eq!(d.file.as_deref(), Some("a.zip"));
}

#[test]
fn new_tasks_wait_their_turn() {
    let mut m = DownloadManager::new();
    assert_eq!(add(&mut m, "  https://h/a.zip ", None), 1);
    assert_eq!(add(&mut m, "https://h/b.mpd", Some(200)), 2);
    assert_eq!(add(&mut m, "https://h/c.mpd", Some(100)), 3);
    let list = m.list_downloads();
    assert_eq!(list[0].url, "https://h/a.zip");
    assert_eq!(list[0].kind, "http");
    assert_eq!(list[0].connections, 16);
    assert_eq!(list[0].destination, "/d/f");
    assert_eq!(statuses(&m), vec!["queued", "scheduled", "queued"]);
    assert_eq!(
        m.enqueue(" ", String::new(), None, None, None, Vec::new(), 0).unwrap_err(),
        "URL is empty"
    );
    assert_eq!(accept_url("").unwrap_err(), "URL is empty");
    assert_eq!(accept_url(" https://h/x.mpd ").unwrap(), ("https://h/x.mpd".to_string(), "dash"));
    assert!(m.has_ids_left());
}

#[test]
fn queue_starts_the_oldest_due_tasks() {
    let mut m = DownloadManager::new();
    m.set_settings(Some(2), None, None, None);
    add(&mut m, "https://h/a", None);
    add(&mut m, "https://h/b", Some(500));
    add(&mut m, "https://h/c", None);
    add(&mut m, "https://h/d", None);
    assert_eq!(m.pump_queue(400), vec![1, 3]);
    assert_eq!(m.pump_queue(600), Vec::<u64>::new());
    assert_eq!(statuses(&m), vec!["downloading", "scheduled", "downloading", "queued"]);
    let event = m.finalize(1, "done", None);
    assert!(event.ok && event.id == 1 && event.error.is_none());
    assert_eq!(m.pump_queue(600), vec![2]);
    let event = m.finalize(9, "failed", Some("x".into()));
    assert!(!event.ok);
    assert_eq!(m.list_downloads().len(), 4);
}

#[test]
fn pausing_resuming_cancelling() {
    let mut m = DownloadManager::new();
    add(&mut m, "https://h/a", None);
    assert_eq!(m.pause_download(1), Ok(false));
    m.pump_queue(0);
    assert!(!m.stop_requested(1, 0));
    assert_eq!(m.pause_download(1), Ok(true));
    assert!(m.stop_requested(1, 0));
    assert_eq!(statuses(&m), vec!["paused"]);
    assert!(m.pump_queue(0).is_empty());
    assert_eq!(m.resume_download(1), Ok(true));
    assert_eq!(m.resume_download(1), Ok(false));
    assert!(!m.stop_requested(1, 1));
    assert_eq!(m.pump_queue(0), vec![1]);
    assert_eq!(m.cancel_download(1), Ok(()));
    assert_eq!(statuses(&m), vec!["cancelled"]);
    assert!(m.pump_queue(0).is_empty());
    for err in [
        m.pause_download(7).unwrap_err(),
        m.resume_download(7).unwrap_err(),
        m.cancel_download(7).unwrap_err(),
    ] {
        assert_eq!(err, "no such task");
    }
}

#[test]
fn orders_to_stop_stay() {
    let mut m = DownloadManager::new();
    add(&mut m, "https://h/a", None);
    add(&mut m, "https://h/b", None);
    m.pump_queue(0);
    assert_eq!(m.snapshot(1).unwrap().run, 0);
    m.pause_download(1).unwrap();
    m.resume_download(1).unwrap();
    m.pump_queue(0);
    assert_eq!(m.snapshot(1).unwrap().run, 1);
    assert_eq!(m.snapshot(2).unwrap().run, 0);
    assert!(m.stop_requested(1, 0));
    assert!(!m.stop_requested(1, 1));
    assert!(m.stop_requested(1, 2));
    assert!(!m.stop_requested(2, 0));
    m.update_destination(1, "/d/g");
    m.cancel_download(1).unwrap();
    assert!(m.stop_requested(1, 0) && m.stop_requested(1, 1));
    assert!(!m.stop_requested(2, 0));
    m.clear_finished();
    assert!(m.stop_requested(1, 0) && m.stop_requested(1, 1));
    assert!(m.stop_requested(7, 0));
}

#[test]
fn finished_tasks_are_cleared() {
    let mut m = DownloadManager::new();
    for i in 0..5 {
        add(&mut m, &format!("https://h/{}", i), None);
    }
    m.finalize(1, "done", None);
    m.finalize(3, "failed", Some("why".into()));
    m.cancel_download(5).unwrap();
    assert_eq!(m.list_downloads()[2].error.as_deref(), Some("why"));
    m.clear_finished();
    let ids: Vec<u64> = m.list_downloads().iter().map(|t| t.id).collect();
    assert_eq!(ids, vec![2, 4]);
    assert_eq!(add(&mut m, "https://h/new", None), 6);
}

#[test]
fn snapshots_of_tasks() {
    let mut m = DownloadManager::new();
    let headers = vec![("cookie".to_string(), "a=1".to_string())];
    m.enqueue("https://h/a.mpd", "/d".into(), Some(4), None, Some("r".into()), headers, 0).unwrap();
    let s = m.snapshot(1).unwrap();
    assert_eq!((s.id, s.connections), (1, 4));
    assert_eq!((s.url.as_str(), s.dest.as_str(), s.kind.as_str()), ("https://h/a.mpd", "/d", "dash"));
    assert_eq!(s.rep_id.as_deref(), Some("r"));
    assert_eq!(s.headers, vec![("cookie".to_string(), "a=1".to_string())]);
    assert!(m.snapshot(2).is_none());
    m.update_destination(1, "/e.mp4");
    m.update_destination(2, "/nothing");
    assert_eq!(m.snapshot(1).unwrap().dest, "/e.mp4");
}

#[test]
fn settings_are_kept_in_bounds() {
    let mut m = DownloadManager::new();
    let s = m.get_settings();
    assert_eq!((s.max_concurrent, s.clipboard_enabled, s.mp4_output), (3, true, true));
    assert_eq!(s.default_dir, "");
    assert_eq!(Settings::default().max_concurrent, 3);
    m.set_settings(Some(0), Some(false), None, Some("/x".into()));
    let s = m.settings_snapshot();
    assert_eq!((s.max_concurrent, s.clipboard_enabled, s.mp4_output), (1, false, true));
    assert_eq!(s.default_dir, "/x");
    m.set_settings(Some(99), None, Some(false), None);
    assert_eq!(m.get_settings().max_concurrent, 16);
    assert!(!m.get_settings().mp4_output);
}

#[test]
fn queue_survives_a_restart() {
    let mut m = DownloadManager::new();
    for i in 0..3 {
        add(&mut m, &format!("https://h/{}", i), None);
    }
    m.set_settings(Some(2), Some(false), Some(false), Some("/x".into()));
    m.pump_queue(0);
    m.pause_download(2).unwrap();
    let kept = m.save_state();
    assert_eq!(kept.next_id, 3);
    let mut again = DownloadManager::new();
    again.load_state(kept);
    assert_eq!(statuses(&again), vec!["queued", "paused", "queued"]);
    assert_eq!(again.get_settings().max_concurrent, 2);
    assert_eq!(again.get_settings().default_dir, "/x");
    assert_eq!(add(&mut again, "https://h/n", None), 4);
}

fn task(id: u64, status: &str) -> DownloadTask {
    DownloadTask {
        id,
        url: "u".into(),
        destination: "d".into(),
        status: status.into(),
        done_bytes: 0,
        total_bytes: 0,
        kind: "http".into(),
        connections: 1,
        start_at: None,
        rep_id: None,
        error: None,
    }
}

#[test]
fn loading_mends_what_it_can() {
    let mut m = DownloadManager::new();
    m.set_settings(None, None, None, Some("/mine".into()));
    m.load_state(Persisted {
        next_id: 1,
        tasks: vec![task(9, "starting"), task(2, "done"), task(2, "failed")],
        max_concurrent: 0,
        clipboard_enabled: false,
        mp4_output: false,
        default_dir: String::new(),
    });
    let ids: Vec<(u64, String)> = m.list_downloads().into_iter().map(|t| (t.id, t.status)).collect();
    assert_eq!(ids, vec![(2, "failed".to_string()), (9, "queued".to_string())]);
    assert_eq!(m.get_settings().max_concurrent, 1);
    assert_eq!(m.get_settings().default_dir, "/mine");
    assert_eq!(add(&mut m, "https://h/n", None), 2);
    assert_eq!(m.list_downloads().len(), 2);
}

#[test]
fn endings_of_tasks() {
    let done = ending_of(Ok(()), true).unwrap();
    assert!(done.status == "done" && done.error.is_none());
    assert!(ending_of(Err("x".into()), true).is_none());
    let failed = ending_of(Err("x".into()), false).unwrap();
    assert_eq!((failed.status, failed.error.as_deref()), ("failed", Some("x")));
    let drm = ending_of(Err(HlsError::UnsupportedEncryption.message()), false).unwrap();
    assert_eq!(drm.error.as_deref(), Some("DRM-protected stream cannot be downloaded"));
    assert_eq!(drm_friendly("uses SAMPLE-AES"), "DRM-protected stream cannot be downloaded");
    assert_eq!(drm_friendly("Timeout"), "Timeout");
}

#[test]
fn routes_of_kinds() {
    assert!(matches!(route_of("http"), Ok(Route::Http)));
    assert!(matches!(route_of("hls"), Ok(Route::Hls)));
    assert!(matches!(route_of("dash"), Ok(Route::Dash)));
    assert!(matches!(route_of("torrent"), Ok(Route::Torrent)));
    assert_eq!(route_of("ftp").unwrap_err(), "unknown kind: ftp");
    assert!(check_live(false).is_ok());
    assert_eq!(check_live(true).unwrap_err(), "live streams are not supported");
}

#[test]
fn fragments_name_representations() {
    let split = |s: &str| split_fragment(s);
    assert_eq!(split("https://h/m.mpd#rep=v1"), ("https://h/m.mpd".into(), Some("v1".into())));
    assert_eq!(split("https://h/m.mpd#t=1"), ("https://h/m.mpd".into(), None));
    assert_eq!(split("https://h/m.mpd"), ("https://h/m.mpd".into(), None));
    assert_eq!(split("a#rep=b#c"), ("a".into(), Some("b#c".into())));
}

fn manifest(is_drm: bool, ids: &[&str]) -> DashManifest {
    DashManifest {
        is_drm,
        duration: None,
        video: ids
            .iter()
            .map(|id| Representation { id: id.to_string(), label: format!("L{}", id), bandwidth: 1 })
            .collect(),
        audio: None,
    }
}

#[test]
fn representation_to_download() {
    let m = manifest(false, &["x", "y"]);
    let named = Some("n".to_string());
    let own = Some("o".to_string());
    assert_eq!(choose_representation(&named, &own, &m).unwrap(), "n");
    assert_eq!(choose_representation(&None, &own, &m).unwrap(), "o");
    assert_eq!(choose_representation(&None, &None, &m).unwrap(), "x");
    let empty = manifest(false, &[]);
    assert_eq!(
        choose_representation(&None, &None, &empty).unwrap_err(),
        "no video representation"
    );
    assert_eq!(
        choose_representation(&named, &None, &manifest(true, &["x"])).unwrap_err(),
        "DRM-protected stream cannot be downloaded"
    );
}

#[test]
fn sound_goes_with_the_picture() {
    let mut m = manifest(false, &["x"]);
    assert_eq!(dash_streams("x", &m, true), vec!["x"]);
    m.audio =
        Some(Representation { id: "s".into(), label: "audio".into(), bandwidth: 1 });
    assert_eq!(dash_streams("x", &m, true), vec!["x", "s"]);
    assert_eq!(dash_streams("x", &m, false), vec!["x"]);
    for cancelled in [false, true] {
        assert!(matches!(after_audio(Ok("f".into()), cancelled), StreamStep::Keep(f) if f == "f"));
    }
    assert!(matches!(after_audio(Err("e".into()), false), StreamStep::Skip));
    assert!(matches!(after_audio(Err("e".into()), true), StreamStep::Stop(e) if e == "e"));
}

#[test]
fn qualities_lead_back_to_representations() {
    let q = dash_qualities("https://h/m.mpd", &manifest(false, &["x", "y"]));
    assert_eq!(q[0].label, "Lx");
    assert_eq!(q[1].url, "https://h/m.mpd#rep=y");
    assert_eq!(split_fragment(&q[1].url), ("https://h/m.mpd".into(), Some("y".into())));
}

#[test]
fn steps_into_place() {
    assert_eq!(part_path("/d/f"), "/d/f.part");
    assert_eq!(
        format!("{:?}", http_steps("/d/f", true)),
        "[Remove(\"/d/f\"), Rename { from: \"/d/f.part\", to: \"/d/f\" }]"
    );
    assert_eq!(http_steps("/d/f", false).len(), 1);
    let mp4 = hls_steps("/d/f.ts", true);
    assert!(matches!(&mp4[0], FileStep::Remux { from, to }
        if from == &vec!["/d/f.ts.concat.ts".to_string()] && to == "/d/f.ts.mp4"));
    assert!(matches!(&mp4[1], FileStep::Discard(p) if p == "/d/f.ts.concat.ts"));
    assert!(matches!(&mp4[2], FileStep::SetDestination(p) if p == "/d/f.ts.mp4"));
    assert!(matches!(&mp4[3], FileStep::DiscardDir(p) if p == "/d/f.ts.segtmp"));
    let ts = hls_steps("/d/f.ts", false);
    assert!(matches!(&ts[0], FileStep::Discard(p) if p == "/d/f.ts"));
    assert!(matches!(&ts[1], FileStep::Rename { to, .. } if to == "/d/f.ts"));
    let dash = dash_steps("/d/f.mp4", vec!["v".into(), "a".into()], true);
    assert!(matches!(&dash[0], FileStep::TryRemux { from, to } if from.len() == 2 && to == "/d/f.mp4"));
    let plain = dash_steps("/d/f.mp4", vec!["v".into(), "a".into()], false);
    assert!(matches!(&plain[1], FileStep::Rename { from, .. } if from == "v"));
    assert_eq!(plain.len(), 5);
}
