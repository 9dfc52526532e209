//! Types shared by the engine and the application.

use vstd::prelude::*;

verus! {

/// A download tracked by the application.
#[derive(Debug)]
pub struct DownloadTask {
    pub id: u64,
    pub url: String,
    pub destination: String,
    /// One of: scheduled, queued, downloading, paused, done, failed, cancelled.
    pub status: String,
    /// Progress units: bytes for HTTP, segments for HLS/DASH.
    pub done_bytes: u64,
    pub total_bytes: u64,
    /// One of: http, hls, dash, torrent.
    pub kind: String,
    /// Parallel connections for HTTP downloads.
    pub connections: usize,
    /// Unix ms when a scheduled download should start.
    pub start_at: Option<i64>,
    /// DASH representation id (`#rep=` fragment of a quality selection).
    pub rep_id: Option<String>,
    /// Last error message when status is failed.
    pub error: Option<String>,
}

/// Emitted periodically while a download runs.
#[derive(Debug, Clone, Copy)]
pub struct ProgressEvent {
    pub id: u64,
    pub done: u64,
    pub total: u64,
}

/// Emitted when a download finishes (success or failure).
#[derive(Debug)]
pub struct FinishedEvent {
    pub id: u64,
    pub ok: bool,
    pub error: Option<String>,
}

/// One selectable quality variant of a detected stream.
#[derive(Debug)]
pub struct Quality {
    pub label: String,
    /// URL to download for this quality. For DASH this is the manifest URL
    /// with a `#rep=<id>` fragment identifying the representation.
    pub url: String,
}

/// Metadata about a detected stream (from browser traffic sniffing).
#[derive(Debug)]
pub struct StreamInfo {
    pub id: u64,
    /// One of: hls, dash.
    pub kind: String,
    /// Page that produced the stream (Referer), used as session origin.
    pub page_url: String,
    pub url: String,
    pub title: String,
    /// True when the stream is Widevine/PlayReady/FairPlay protected.
    pub is_drm: bool,
    pub qualities: Vec<Quality>,
}

/// A task as a mathematical value.
pub struct TaskView {
    pub id: u64,
    pub url: Seq<char>,
    pub destination: Seq<char>,
    pub status: Seq<char>,
    pub done_bytes: u64,
    pub total_bytes: u64,
    pub kind: Seq<char>,
    pub connections: usize,
    pub start_at: Option<i64>,
    pub rep_id: Option<Seq<char>>,
    pub error: Option<Seq<char>>,
}

/// The end of a download as a mathematical value.
pub struct FinishedView {
    pub id: u64,
    pub ok: bool,
    pub error: Option<Seq<char>>,
}

/// A quality as a mathematical value.
pub struct QualityView {
    pub label: Seq<char>,
    pub url: Seq<char>,
}

/// A stream as a mathematical value.
pub struct StreamView {
    pub id: u64,
    pub kind: Seq<char>,
    pub page_url: Seq<char>,
    pub url: Seq<char>,
    pub title: Seq<char>,
    pub is_drm: bool,
    pub qualities: Seq<QualityView>,
}

/// The view of a text that may be absent.
pub open spec fn text_view(s: Option<String>) -> Option<Seq<char>> {
    match s {
        Some(s) => Some(s@),
        None => None,
    }
}

/// A copy of a text that may be absent.
pub fn copy_text(s: &Option<String>) -> (out: Option<String>)
    ensures
        text_view(out) == text_view(*s),
{
    match s {
        Some(s) => Some(s.clone()),
        None => None,
    }
}

impl View for DownloadTask {
    type V = TaskView;

    open spec fn view(&self) -> TaskView {
        TaskView {
            id: self.id,
            url: self.url@,
            destination: self.destination@,
            status: self.status@,
            done_bytes: self.done_bytes,
            total_bytes: self.total_bytes,
            kind: self.kind@,
            connections: self.connections,
            start_at: self.start_at,
            rep_id: text_view(self.rep_id),
            error: text_view(self.error),
        }
    }
}

impl View for FinishedEvent {
    type V = FinishedView;

    open spec fn view(&self) -> FinishedView {
        FinishedView { id: self.id, ok: self.ok, error: text_view(self.error) }
    }
}

impl View for Quality {
    type V = QualityView;

    open spec fn view(&self) -> QualityView {
        QualityView { label: self.label@, url: self.url@ }
    }
}

/// The views of some qualities.
pub open spec fn quality_views(list: Seq<Quality>) -> Seq<QualityView> {
    list.map_values(|q: Quality| q@)
}

impl View for StreamInfo {
    type V = StreamView;

    open spec fn view(&self) -> StreamView {
        StreamView {
            id: self.id,
            kind: self.kind@,
            page_url: self.page_url@,
            url: self.url@,
            title: self.title@,
            is_drm: self.is_drm,
            qualities: quality_views(self.qualities@),
        }
    }
}

impl Clone for DownloadTask {
    fn clone(&self) -> (out: DownloadTask)
        ensures
            out@ == self@,
    {
        DownloadTask {
            id: self.id,
            url: self.url.clone(),
            destination: self.destination.clone(),
            status: self.status.clone(),
            done_bytes: self.done_bytes,
            total_bytes: self.total_bytes,
            kind: self.kind.clone(),
            connections: self.connections,
            start_at: self.start_at,
            rep_id: copy_text(&self.rep_id),
            error: copy_text(&self.error),
        }
    }
}

impl Clone for FinishedEvent {
    fn clone(&self) -> (out: FinishedEvent)
        ensures
            out@ == self@,
    {
        FinishedEvent { id: self.id, ok: self.ok, error: copy_text(&self.error) }
    }
}

impl Clone for Quality {
    fn clone(&self) -> (out: Quality)
        ensures
            out@ == self@,
    {
        Quality { label: self.label.clone(), url: self.url.clone() }
    }
}

/// A copy of some qualities.
pub fn copy_qualities(list: &Vec<Quality>) -> (out: Vec<Quality>)
    ensures
        quality_views(out@) == quality_views(list@),
{
    let mut out: Vec<Quality> = Vec::new();
    let mut i: usize = 0;
    while i < list.len()
        invariant
            i <= list.len(),
            quality_views(out@) == quality_views(list@).take(i as int),
        decreases list.len() - i,
    {
        let ghost before = out@;
        let q = list[i].clone();
        out.push(q);
        assert(quality_views(out@) =~= quality_views(before).push(q@));
        i += 1;
    }
    assert(quality_views(list@).take(list.len() as int) =~= quality_views(list@));
    out
}

impl Clone for StreamInfo {
    fn clone(&self) -> (out: StreamInfo)
        ensures
            out@ == self@,
    {
        StreamInfo {
            id: self.id,
            kind: self.kind.clone(),
            page_url: self.page_url.clone(),
            url: self.url.clone(),
            title: self.title.clone(),
            is_drm: self.is_drm,
            qualities: copy_qualities(&self.qualities),
        }
    }
}

} // verus!
