//! What the mathematical values keep of the values that they stand for:
//! everything.

use crate::dash::download as dash_download;
use crate::dash::duration::{DurationTerm, IsoDuration};
use crate::dash::element::{RawRep, Tpl};
use crate::dash::element;
use crate::dash::manifest::{DashError, DashErrorView, DashManifest, Representation};
use crate::dash::segments;
use crate::download::DownloadError;
use crate::download;
use crate::downloader::queue::Persisted;
use crate::downloader::queue;
use crate::downloader::run::FileStep;
use crate::downloader::run;
use crate::downloader::settings::Settings;
use crate::grabber::{GrabbedLink, PageElement};
use crate::grabber;
use crate::hls::download as hls_download;
use crate::hls::error::{HlsError, HlsErrorView};
use crate::hls::keys;
use crate::hls::playlist::{HlsPlaylist, PlaylistView, Segment, SegmentKey};
use crate::hls::playlist;
use crate::hls::variants::{HlsVariants, Variant, VariantView};
use crate::hls::variants;
use crate::http;
use crate::model::{DownloadTask, FinishedEvent, Quality, StreamInfo};
use crate::model;
use crate::sniffer;
use crate::text;
use crate::torrent::TorrentError;
use vstd::prelude::*;

verus! {

/// Lists of texts and of headers stand in order, one for one.
pub proof fn lemma_lists(texts: Seq<String>, headers: Seq<(String, String)>, i: int)
    ensures
        text::string_views(texts).len() == texts.len(),
        0 <= i < texts.len() ==> text::string_views(texts)[i] == texts[i]@,
        http::header_views(headers).len() == headers.len(),
        0 <= i < headers.len() ==> http::header_views(headers)[i].0 == headers[i].0@
            && http::header_views(headers)[i].1 == headers[i].1@,
{
}

/// A text that may be absent is there where its value is.
pub proof fn lemma_optional(t: String)
    ensures
        model::text_view(Some(t)) == Some(t@),
        model::text_view(None) is None,
{
}

/// Tasks, and what tells of their end.
pub proof fn lemma_task(t: DownloadTask, e: FinishedEvent)
    ensures
        t@.id == t.id && t@.done_bytes == t.done_bytes && t@.total_bytes == t.total_bytes
            && t@.connections == t.connections && t@.start_at == t.start_at,
        t@.url == t.url@ && t@.destination == t.destination@ && t@.status == t.status@ && t@.kind
            == t.kind@,
        t.rep_id is Some ==> t@.rep_id == Some(t.rep_id->0@),
        t.rep_id is None ==> t@.rep_id is None,
        t.error is Some ==> t@.error == Some(t.error->0@),
        t.error is None ==> t@.error is None,
        e@.id == e.id && e@.ok == e.ok,
        e.error is Some ==> e@.error == Some(e.error->0@),
        e.error is None ==> e@.error is None,
{
}

/// Streams and their qualities.
pub proof fn lemma_stream(s: StreamInfo, q: Quality, i: int)
    ensures
        q@.label == q.label@ && q@.url == q.url@,
        s@.id == s.id && s@.is_drm == s.is_drm,
        s@.kind == s.kind@ && s@.page_url == s.page_url@ && s@.url == s.url@ && s@.title
            == s.title@,
        s@.qualities.len() == s.qualities.len(),
        0 <= i < s.qualities.len() ==> s@.qualities[i].label == s.qualities[i].label@
            && s@.qualities[i].url == s.qualities[i].url@,
{
}

/// Settings, and what is kept of a queue.
pub proof fn lemma_kept(s: Settings, p: Persisted, i: int)
    ensures
        s@.max_concurrent == s.max_concurrent && s@.clipboard_enabled == s.clipboard_enabled
            && s@.mp4_output == s.mp4_output && s@.default_dir == s.default_dir@,
        p@.next_id == p.next_id && p@.settings.max_concurrent == p.max_concurrent
            && p@.settings.clipboard_enabled == p.clipboard_enabled && p@.settings.mp4_output
            == p.mp4_output && p@.settings.default_dir == p.default_dir@,
        p@.tasks.len() == p.tasks.len(),
        0 <= i < p.tasks.len() ==> p@.tasks[i] == p.tasks[i]@,
{
}

/// The segments of a playlist with their keys.
pub proof fn lemma_playlist(p: HlsPlaylist, s: Segment, k: SegmentKey, i: int)
    ensures
        k@.key_url == k.key_url@ && k@.iv == k.iv@,
        s@.url == s.url@,
        s.key is Some ==> s@.key == Some(s.key->0@),
        s.key is None ==> s@.key is None,
        p@.is_live == p.is_live && p@.segments.len() == p.segments.len(),
        0 <= i < p.segments.len() ==> p@.segments[i] == p.segments[i]@,
{
}

/// The qualities of a playlist.
pub proof fn lemma_variants(v: HlsVariants, q: Variant, i: int)
    ensures
        q@.label == q.label@ && q@.url == q.url@,
        v@.is_drm == v.is_drm && v@.variants.len() == v.variants.len(),
        0 <= i < v.variants.len() ==> v@.variants[i] == v.variants[i]@,
{
}

/// Manifests and their representations.
pub proof fn lemma_manifest(m: DashManifest, r: Representation, i: int)
    ensures
        r@.id == r.id@ && r@.label == r.label@ && r@.bandwidth == r.bandwidth,
        m@.is_drm == m.is_drm && m@.video.len() == m.video.len(),
        0 <= i < m.video.len() ==> m@.video[i] == m.video[i]@,
        m.audio is Some ==> m@.audio == Some(m.audio->0@),
        m.audio is None ==> m@.audio is None,
        m.duration is Some ==> m@.duration == Some(m.duration->0@),
        m.duration is None ==> m@.duration is None,
{
}

/// Durations and their terms.
pub proof fn lemma_duration(d: IsoDuration, t: DurationTerm, i: int)
    ensures
        t@.number == t.number@ && t@.scale == t.scale,
        d@.date.len() == d.date.len(),
        0 <= i < d.date.len() ==> d@.date[i] == d.date[i]@,
        d.time is None ==> d@.time is None,
        d.time matches Some(terms) ==> (d@.time matches Some(list) && list.len() == terms.len()
            && (0 <= i < terms.len() ==> list[i] == terms[i]@)),
{
}

/// Raw representations and templates.
pub proof fn lemma_raw(r: RawRep, t: Tpl)
    ensures
        r@.id == r.id@ && r@.content_type == r.content_type@ && r@.initialization
            == r.initialization@ && r@.media == r.media@,
        r@.width == r.width && r@.height == r.height && r@.bandwidth == r.bandwidth
            && r@.start_number == r.start_number && r@.timescale == r.timescale && r@.duration
            == r.duration,
        r.timeline is Some ==> r@.timeline == Some(r.timeline->0@),
        r.timeline is None ==> r@.timeline is None,
        t@.initialization == t.initialization@ && t@.media == t.media@ && t@.start_number
            == t.start_number && t@.timescale == t.timescale && t@.duration == t.duration,
        t.timeline is Some ==> t@.timeline == Some(t.timeline->0@),
        t.timeline is None ==> t@.timeline is None,
{
}

/// The elements of a page and the links that they stand for.
pub proof fn lemma_page(l: GrabbedLink, e: PageElement)
    ensures
        l@.url == l.url@ && l@.text == l.text@ && l@.ext == l.ext@,
        e@.text == e.text@,
        e.href is Some ==> e@.href == Some(e.href->0@),
        e.href is None ==> e@.href is None,
{
}

/// The steps by which a download gets in place.
pub proof fn lemma_step(step: FileStep)
    ensures
        match step {
            FileStep::Remove(p) => step@->Remove_0 == p@ && step@ is Remove,
            FileStep::Discard(p) => step@->Discard_0 == p@ && step@ is Discard,
            FileStep::Rename { from, to } => step@->Rename_from == from@ && step@->Rename_to == to@
                && step@ is Rename,
            FileStep::Remux { from, to } => step@->Remux_from == text::string_views(from@)
                && step@->Remux_to == to@ && step@ is Remux,
            FileStep::TryRemux { from, to } => step@->TryRemux_from == text::string_views(from@)
                && step@->TryRemux_to == to@ && step@ is TryRemux,
            FileStep::SetDestination(p) => step@->SetDestination_0 == p@ && step@ is SetDestination,
            FileStep::DiscardDir(p) => step@->DiscardDir_0 == p@ && step@ is DiscardDir,
        },
{
}

/// Errors keep their kind and their reason.
pub proof fn lemma_errors(h: HlsError, d: DashError, f: DownloadError, t: TorrentError)
    ensures
        match h {
            HlsError::Http(m) => h@ is Http && h@->Http_0 == m@,
            HlsError::Io(m) => h@ is Io && h@->Io_0 == m@,
            HlsError::Playlist(m) => h@ is Playlist && h@->Playlist_0 == m@,
            HlsError::UnsupportedEncryption => h@ is UnsupportedEncryption,
            HlsError::Decrypt => h@ is Decrypt,
            HlsError::Cancelled => h@ is Cancelled,
        },
        match d {
            DashError::Http(m) => d@ is Http && d@->Http_0 == m@,
            DashError::Io(m) => d@ is Io && d@->Io_0 == m@,
            DashError::Manifest(m) => d@ is Manifest && d@->Manifest_0 == m@,
            DashError::NoRepresentation => d@ is NoRepresentation,
            DashError::NoSegmentCount => d@ is NoSegmentCount,
            DashError::Cancelled => d@ is Cancelled,
        },
        match f {
            DownloadError::Http(m) => f@ is Http && f@->Http_0 == m@,
            DownloadError::Io(m) => f@ is Io && f@->Io_0 == m@,
            DownloadError::Cancelled => f@ is Cancelled,
        },
        match t {
            TorrentError::Session(m) => t@ is Session && t@->Session_0 == m@,
            TorrentError::Cancelled => t@ is Cancelled,
        },
{
}

/// Results are good where they were, with the same value, and bad with the same
/// error.
pub proof fn lemma_results(
    built: HlsPlaylist,
    qualities: Vec<Variant>,
    data: Vec<u8>,
    list: (String, Vec<String>),
    h: HlsError,
    d: DashError,
)
    ensures
        playlist::built_view(Ok(built)) == Ok::<PlaylistView, HlsErrorView>(built@),
        playlist::built_view(Err(h)) == Err::<PlaylistView, HlsErrorView>(h@),
        variants::list_view(Ok(qualities)) == Ok::<Seq<VariantView>, HlsErrorView>(
            variants::variant_views(qualities@),
        ),
        variants::list_view(Err(h)) == Err::<Seq<VariantView>, HlsErrorView>(h@),
        keys::data_view(Ok(data)) == Ok::<Seq<u8>, HlsErrorView>(data@),
        keys::data_view(Err(h)) == Err::<Seq<u8>, HlsErrorView>(h@),
        segments::list_view(Ok(list)) == Ok::<(Seq<char>, Seq<Seq<char>>), DashErrorView>(
            (list.0@, text::string_views(list.1@)),
        ),
        segments::list_view(Err(d)) == Err::<(Seq<char>, Seq<Seq<char>>), DashErrorView>(d@),
        hls_download::result_view(Ok(())) is Ok,
        hls_download::result_view(Err(h)) == Err::<(), HlsErrorView>(h@),
        dash_download::result_view(Ok(())) is Ok,
        dash_download::result_view(Err(d)) == Err::<(), DashErrorView>(d@),
{
}

/// Lists stand in order, one for one.
pub proof fn lemma_more_lists(
    tasks: Seq<DownloadTask>,
    streams: Seq<StreamInfo>,
    steps: Seq<FileStep>,
    links: Seq<GrabbedLink>,
    elements: Seq<PageElement>,
    reps: Seq<RawRep>,
    qualities: Seq<Variant>,
    i: int,
)
    ensures
        queue::task_views(tasks).len() == tasks.len(),
        0 <= i < tasks.len() ==> queue::task_views(tasks)[i] == tasks[i]@,
        sniffer::stream_views(streams).len() == streams.len(),
        0 <= i < streams.len() ==> sniffer::stream_views(streams)[i] == streams[i]@,
        run::step_views(steps).len() == steps.len(),
        0 <= i < steps.len() ==> run::step_views(steps)[i] == steps[i]@,
        grabber::link_views(links).len() == links.len(),
        0 <= i < links.len() ==> grabber::link_views(links)[i] == links[i]@,
        grabber::element_views(elements).len() == elements.len(),
        0 <= i < elements.len() ==> grabber::element_views(elements)[i] == elements[i]@,
        element::rep_views(reps).len() == reps.len(),
        0 <= i < reps.len() ==> element::rep_views(reps)[i] == reps[i]@,
        variants::variant_views(qualities).len() == qualities.len(),
        0 <= i < qualities.len() ==> variants::variant_views(qualities)[i] == qualities[i]@,
{
}

/// What happened to a download of files, and what is to be done.
pub proof fn lemma_file_steps(e: download::Event, a: download::Action, w: download::WorkerEnd)
    ensures
        match e {
            download::Event::Tick { done } => e@ is Tick && e@->Tick_done == done,
            download::Event::CancelSeen => e@ is CancelSeen,
            download::Event::Worker(end) => e@ is Worker && e@->Worker_0 == end@,
            download::Event::Idle => e@ is Idle,
        },
        match a {
            download::Action::Report { done } => a@ is Report && a@->Report_done == done,
            download::Action::Wait => a@ is Wait,
            download::Action::Stop(why) => a@ is Stop && a@->Stop_0 == why@,
            download::Action::Complete => a@ is Complete,
        },
        match w {
            download::WorkerEnd::Stored => w@ is Stored,
            download::WorkerEnd::Failed(why) => w@ is Failed && w@->Failed_0 == why@,
            download::WorkerEnd::Lost(why) => w@ is Lost && w@->Lost_0 == why@,
        },
{
}

/// What happened to a download of an HLS stream, and what is to be done.
pub proof fn lemma_hls_steps(
    e: hls_download::Event,
    a: hls_download::Action,
    w: hls_download::WorkerEnd,
)
    ensures
        match e {
            hls_download::Event::Ready { cancelled } => e@ is Ready && e@->Ready_cancelled
                == cancelled,
            hls_download::Event::Key { body, cancelled } => e@ is Key && e@->body == body@
                && e@->Key_cancelled == cancelled,
            hls_download::Event::Files { present } => e@ is Files && e@->present == present@,
            hls_download::Event::Worker { end, cancelled } => e@ is Worker && e@->end == end@
                && e@->Worker_cancelled == cancelled,
            hls_download::Event::Idle { cancelled } => e@ is Idle && e@->Idle_cancelled
                == cancelled,
            hls_download::Event::Trouble(why) => e@ is Trouble && e@->Trouble_0 == why@,
        },
        match a {
            hls_download::Action::FetchKey(url) => a@ is FetchKey && a@->FetchKey_0 == url@,
            hls_download::Action::LookAtFiles => a@ is LookAtFiles,
            hls_download::Action::Launch { pending, limit, done } => a@ is Launch && a@->pending
                == pending@ && a@->limit == limit && a@->Launch_done == done,
            hls_download::Action::Report { done } => a@ is Report && a@->Report_done == done,
            hls_download::Action::Finish { result, report } => a@ is Finish && a@->result
                == hls_download::result_view(result) && match report {
                Some(n) => a@->report == Some(n as int),
                None => a@->report is None,
            },
        },
        match w {
            hls_download::WorkerEnd::Stored => w@ is Stored,
            hls_download::WorkerEnd::Failed(why) => w@ is Failed && w@->Failed_0 == why@,
            hls_download::WorkerEnd::Lost(why) => w@ is Lost && w@->Lost_0 == why@,
        },
{
}

/// What happened to a download of a DASH stream, and what is to be done.
pub proof fn lemma_dash_steps(
    e: dash_download::Event,
    a: dash_download::Action,
    w: dash_download::WorkerEnd,
)
    ensures
        match e {
            dash_download::Event::Ready { present } => e@ is Ready && e@->present == present,
            dash_download::Event::InitStored => e@ is InitStored,
            dash_download::Event::Worker { end, cancelled } => e@ is Worker && e@->end == end@
                && e@->Worker_cancelled == cancelled,
            dash_download::Event::Idle { cancelled } => e@ is Idle && e@->Idle_cancelled
                == cancelled,
            dash_download::Event::Trouble(why) => e@ is Trouble && e@->Trouble_0 == why@,
        },
        match a {
            dash_download::Action::FetchInit => a@ is FetchInit,
            dash_download::Action::Launch { limit, done } => a@ is Launch && a@->limit == limit
                && a@->Launch_done == done,
            dash_download::Action::Report { done } => a@ is Report && a@->Report_done == done,
            dash_download::Action::Finish { result, report } => a@ is Finish && a@->result
                == dash_download::result_view(result) && match report {
                Some(n) => a@->report == Some(n as int),
                None => a@->report is None,
            },
        },
        match w {
            dash_download::WorkerEnd::Stored => w@ is Stored,
            dash_download::WorkerEnd::Failed(why) => w@ is Failed && w@->Failed_0 == why@,
            dash_download::WorkerEnd::Lost(why) => w@ is Lost && w@->Lost_0 == why@,
        },
{
}

} // verus!
