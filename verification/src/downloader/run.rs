//! The decisions of each kind of download.

use crate::dash::manifest::{DashManifest, ManifestView, RepresentationView};
use crate::downloader::names::with_ext;
use crate::downloader::names;
use crate::hls::error::HlsErrorView;
use crate::hls::error;
use crate::model::{Quality, QualityView};
use crate::model;
use crate::text;
use vstd::prelude::*;

verus! {

/// How many segments of a stream are fetched at once.
pub const HLS_SEGMENT_CONCURRENCY: usize = 8;

// ---------------------------------------------------------------------------
// Outcomes
// ---------------------------------------------------------------------------

/// The message for a failed download: refused encryption is called DRM.
pub open spec fn friendly(err: Seq<char>) -> Seq<char> {
    let lower = text::lower(err);
    if text::contains_text(lower, "unsupported encryption"@) || text::contains_text(
        lower,
        "sample-aes"@,
    ) {
        "DRM-protected stream cannot be downloaded"@
    } else {
        err
    }
}

/// The message for a failed download.
pub fn drm_friendly(err: &str) -> (out: String)
    ensures
        out@ == friendly(err@),
{
    let lower = text::chars_of(text::to_lower(err).as_str());
    if text::has_text(&lower, "unsupported encryption") || text::has_text(&lower, "sample-aes") {
        "DRM-protected stream cannot be downloaded".to_owned()
    } else {
        err.to_owned()
    }
}

/// The status, and the error with it, that a task ends with.
pub struct Ending {
    pub status: &'static str,
    pub error: Option<String>,
}

/// How a task ends once its worker has: a failure after the worker was told to
/// stop leaves the status as it is.
pub fn ending_of(result: Result<(), String>, cancelled: bool) -> (out: Option<Ending>)
    ensures
        match result {
            Ok(()) => out matches Some(end) && end.status@ == "done"@ && end.error is None,
            Err(e) => if cancelled {
                out is None
            } else {
                out matches Some(end) && end.status@ == "failed"@ && model::text_view(end.error)
                    == Some(friendly(e@))
            },
        },
{
    match result {
        Ok(()) => Some(Ending { status: "done", error: None }),
        Err(e) => if cancelled {
            None
        } else {
            Some(Ending { status: "failed", error: Some(drm_friendly(e.as_str())) })
        },
    }
}

/// Which engine a task is for.
#[derive(Debug)]
pub enum Route {
    Http,
    Hls,
    Dash,
    Torrent,
}

/// Which engine a task is for, by its kind.
pub fn route_of(kind: &str) -> (out: Result<Route, String>)
    ensures
        match out {
            Ok(Route::Http) => kind@ == "http"@,
            Ok(Route::Hls) => kind@ == "hls"@,
            Ok(Route::Dash) => kind@ == "dash"@,
            Ok(Route::Torrent) => kind@ == "torrent"@,
            Err(message) => kind@ != "http"@ && kind@ != "hls"@ && kind@ != "dash"@ && kind@
                != "torrent"@ && message@ == "unknown kind: "@ + kind@,
        },
{
    if text::same(kind, "http") {
        Ok(Route::Http)
    } else if text::same(kind, "hls") {
        Ok(Route::Hls)
    } else if text::same(kind, "dash") {
        Ok(Route::Dash)
    } else if text::same(kind, "torrent") {
        Ok(Route::Torrent)
    } else {
        Err("unknown kind: ".to_owned().concat(kind))
    }
}

// ---------------------------------------------------------------------------
// Paths
// ---------------------------------------------------------------------------

/// Where a file grows while it is downloaded.
pub fn part_path(dest: &str) -> (out: String)
    ensures
        out@ == dest@ + ".part"@,
{
    dest.to_owned().concat(".part")
}

/// Where the segments of a stream are kept until it is complete.
pub fn segment_dir(dest: &str) -> (out: String)
    ensures
        out@ == dest@ + ".segtmp"@,
{
    dest.to_owned().concat(".segtmp")
}

/// Where the segments of a stream's sound are kept until it is complete.
pub fn audio_dir(dest: &str) -> (out: String)
    ensures
        out@ == dest@ + ".audio.segtmp"@,
{
    dest.to_owned().concat(".audio.segtmp")
}

/// Where the segments of an HLS stream are put together.
pub fn concat_path(dest: &str) -> (out: String)
    ensures
        out@ == dest@ + ".concat.ts"@,
{
    dest.to_owned().concat(".concat.ts")
}

/// Where the media segments of a DASH stream are put together, inside the
/// directory of its segments.
pub fn dash_video_name() -> (out: String)
    ensures
        out@ == "video.m4s"@,
{
    "video.m4s".to_owned()
}

/// A step by which a download is put in its final place.
#[derive(Debug)]
pub enum FileStep {
    /// Remove a file; the download fails where that fails.
    Remove(String),
    /// Remove a file if that is possible.
    Discard(String),
    /// Rename a file; the download fails where that fails.
    Rename { from: String, to: String },
    /// Write streams into an MP4 file; the download fails where that fails.
    Remux { from: Vec<String>, to: String },
    /// Write streams into an MP4 file; where that fails, discard what is at `to`
    /// and rename the first stream to it.
    TryRemux { from: Vec<String>, to: String },
    /// Keep the path in the task.
    SetDestination(String),
    /// Remove a directory if that is possible.
    DiscardDir(String),
}

/// A step as a mathematical value.
pub enum FileStepView {
    Remove(Seq<char>),
    Discard(Seq<char>),
    Rename { from: Seq<char>, to: Seq<char> },
    Remux { from: Seq<Seq<char>>, to: Seq<char> },
    TryRemux { from: Seq<Seq<char>>, to: Seq<char> },
    SetDestination(Seq<char>),
    DiscardDir(Seq<char>),
}

impl View for FileStep {
    type V = FileStepView;

    open spec fn view(&self) -> FileStepView {
        match self {
            FileStep::Remove(p) => FileStepView::Remove(p@),
            FileStep::Discard(p) => FileStepView::Discard(p@),
            FileStep::Rename { from, to } => FileStepView::Rename { from: from@, to: to@ },
            FileStep::Remux { from, to } => FileStepView::Remux {
                from: text::string_views(from@),
                to: to@,
            },
            FileStep::TryRemux { from, to } => FileStepView::TryRemux {
                from: text::string_views(from@),
                to: to@,
            },
            FileStep::SetDestination(p) => FileStepView::SetDestination(p@),
            FileStep::DiscardDir(p) => FileStepView::DiscardDir(p@),
        }
    }
}

/// The views of some steps.
pub open spec fn step_views(steps: Seq<FileStep>) -> Seq<FileStepView> {
    steps.map_values(|s: FileStep| s@)
}

/// How a downloaded file gets in place; `exists` tells whether another file is
/// there.
pub open spec fn http_steps_of(dest: Seq<char>, exists: bool) -> Seq<FileStepView> {
    let rename = FileStepView::Rename { from: dest + ".part"@, to: dest };
    if exists {
        seq![FileStepView::Remove(dest), rename]
    } else {
        seq![rename]
    }
}

/// How a downloaded file gets in place.
pub fn http_steps(dest: &str, exists: bool) -> (out: Vec<FileStep>)
    ensures
        step_views(out@) == http_steps_of(dest@, exists),
{
    let mut out: Vec<FileStep> = Vec::new();
    if exists {
        out.push(FileStep::Remove(dest.to_owned()));
    }
    out.push(FileStep::Rename { from: part_path(dest), to: dest.to_owned() });
    assert(step_views(out@) =~= http_steps_of(dest@, exists));
    out
}

/// How the segments of an HLS stream, once they are put together, get in place:
/// as an MP4 file where that is wanted, else as they are.
pub open spec fn hls_steps_of(dest: Seq<char>, mp4_wanted: bool) -> Seq<FileStepView> {
    let joined = dest + ".concat.ts"@;
    if mp4_wanted {
        let to = names::name_with_ext(dest, "mp4"@);
        seq![
            FileStepView::Remux { from: seq![joined], to },
            FileStepView::Discard(joined),
            FileStepView::SetDestination(to),
            FileStepView::DiscardDir(dest + ".segtmp"@),
        ]
    } else {
        let to = names::name_with_ext(dest, "ts"@);
        seq![
            FileStepView::Discard(to),
            FileStepView::Rename { from: joined, to },
            FileStepView::SetDestination(to),
            FileStepView::DiscardDir(dest + ".segtmp"@),
        ]
    }
}

/// How the segments of an HLS stream, once they are put together, get in place.
pub fn hls_steps(dest: &str, mp4_wanted: bool) -> (out: Vec<FileStep>)
    ensures
        step_views(out@) == hls_steps_of(dest@, mp4_wanted),
{
    let mut out: Vec<FileStep> = Vec::new();
    if mp4_wanted {
        let to = with_ext(dest, "mp4");
        let mut from: Vec<String> = Vec::new();
        from.push(concat_path(dest));
        assert(text::string_views(from@) =~= seq![dest@ + ".concat.ts"@]);
        out.push(FileStep::Remux { from, to: to.clone() });
        out.push(FileStep::Discard(concat_path(dest)));
        out.push(FileStep::SetDestination(to));
    } else {
        let to = with_ext(dest, "ts");
        out.push(FileStep::Discard(to.clone()));
        out.push(FileStep::Rename { from: concat_path(dest), to: to.clone() });
        out.push(FileStep::SetDestination(to));
    }
    out.push(FileStep::DiscardDir(segment_dir(dest)));
    assert(step_views(out@) =~= hls_steps_of(dest@, mp4_wanted));
    out
}

/// How the streams of a DASH download, of which the picture comes first, get in
/// place: muxed into an MP4 file where that is wanted, else the picture alone,
/// which is a playable MP4 file too.
pub open spec fn dash_steps_of(dest: Seq<char>, streams: Seq<Seq<char>>, mp4_wanted: bool) -> Seq<
    FileStepView,
> {
    let to = names::name_with_ext(dest, "mp4"@);
    let last = seq![
        FileStepView::SetDestination(to),
        FileStepView::DiscardDir(dest + ".segtmp"@),
        FileStepView::DiscardDir(dest + ".audio.segtmp"@),
    ];
    if mp4_wanted {
        seq![FileStepView::TryRemux { from: streams, to }] + last
    } else {
        seq![FileStepView::Discard(to), FileStepView::Rename { from: streams[0], to }] + last
    }
}

/// How the streams of a DASH download get in place.
pub fn dash_steps(dest: &str, streams: Vec<String>, mp4_wanted: bool) -> (out: Vec<FileStep>)
    requires
        streams.len() > 0,
    ensures
        step_views(out@) == dash_steps_of(dest@, text::string_views(streams@), mp4_wanted),
{
    let to = with_ext(dest, "mp4");
    let mut out: Vec<FileStep> = Vec::new();
    let ghost list = text::string_views(streams@);
    if mp4_wanted {
        out.push(FileStep::TryRemux { from: streams, to: to.clone() });
    } else {
        assert(list[0] == streams@[0]@);
        out.push(FileStep::Discard(to.clone()));
        out.push(FileStep::Rename { from: streams[0].clone(), to: to.clone() });
    }
    out.push(FileStep::SetDestination(to));
    out.push(FileStep::DiscardDir(segment_dir(dest)));
    out.push(FileStep::DiscardDir(audio_dir(dest)));
    assert(step_views(out@) =~= dash_steps_of(dest@, list, mp4_wanted));
    out
}

// ---------------------------------------------------------------------------
// Streams
// ---------------------------------------------------------------------------

/// Whether a playlist can be downloaded: a live stream has no end.
pub fn check_live(is_live: bool) -> (out: Result<(), String>)
    ensures
        out is Ok <==> !is_live,
        out matches Err(message) ==> message@ == "live streams are not supported"@,
{
    if is_live {
        Err("live streams are not supported".to_owned())
    } else {
        Ok(())
    }
}

/// A URL without its fragment, and the representation that the fragment names.
pub open spec fn fragment_split(url: Seq<char>) -> (Seq<char>, Option<Seq<char>>) {
    let at = text::find_any(url, seq!['#'], 0);
    if at >= url.len() {
        (url, None)
    } else {
        let fragment = url.skip(at + 1);
        (
            url.take(at),
            if "rep="@.is_prefix_of(fragment) {
                Some(fragment.skip("rep="@.len() as int))
            } else {
                None
            },
        )
    }
}

/// Splits a URL into what is to be fetched and the representation that its
/// fragment names.
pub fn split_fragment(url: &str) -> (out: (String, Option<String>))
    ensures
        (out.0@, model::text_view(out.1)) == fragment_split(url@),
{
    let chars = text::chars_of(url);
    let hash = vec!['#'];
    assert(hash@ =~= seq!['#']);
    let at: usize = text::position_of_any(&chars, &hash, 0);
    if at >= chars.len() {
        return (url.to_owned(), None);
    }
    let base = text::slice_of(&chars, 0, at);
    let fragment = text::slice_of(&chars, at + 1, chars.len());
    assert(base@ =~= chars@.take(at as int));
    assert(fragment@ =~= chars@.skip(at + 1));
    let rep = if text::begins_with(&fragment, "rep=") {
        proof {
            reveal_strlit("rep=");
        }
        let id = text::slice_of(&fragment, 4, fragment.len());
        assert(id@ =~= fragment@.skip(4));
        Some(text::string_of(&id))
    } else {
        None
    };
    (text::string_of(&base), rep)
}

/// The representation to download: the one that the URL names, else the one
/// that the task names, else the first video.
pub open spec fn chosen_rep(
    named: Option<Seq<char>>,
    task_rep: Option<Seq<char>>,
    video: Seq<RepresentationView>,
) -> Option<Seq<char>> {
    if named is Some {
        named
    } else if task_rep is Some {
        task_rep
    } else if video.len() > 0 {
        Some(video[0].id)
    } else {
        None
    }
}

/// The representation of a manifest to download, or why there is none.
pub open spec fn dash_choice(
    named: Option<Seq<char>>,
    task_rep: Option<Seq<char>>,
    m: ManifestView,
) -> Result<Seq<char>, Seq<char>> {
    if m.is_drm {
        Err("DRM-protected stream cannot be downloaded"@)
    } else {
        match chosen_rep(named, task_rep, m.video) {
            Some(id) => Ok(id),
            None => Err("no video representation"@),
        }
    }
}

/// The representation of a manifest to download. A protected stream is refused.
pub fn choose_representation(
    named: &Option<String>,
    task_rep: &Option<String>,
    m: &DashManifest,
) -> (out: Result<String, String>)
    ensures
        match out {
            Ok(id) => dash_choice(model::text_view(*named), model::text_view(*task_rep), m@)
                == Ok::<Seq<char>, Seq<char>>(id@),
            Err(e) => dash_choice(model::text_view(*named), model::text_view(*task_rep), m@)
                == Err::<Seq<char>, Seq<char>>(e@),
        },
{
    if m.is_drm {
        return Err("DRM-protected stream cannot be downloaded".to_owned());
    }
    match named {
        Some(id) => return Ok(id.clone()),
        None => {},
    }
    match task_rep {
        Some(id) => return Ok(id.clone()),
        None => {},
    }
    if m.video.len() > 0 {
        assert(m@.video[0] == m.video@[0]@);
        Ok(m.video[0].id.clone())
    } else {
        Err("no video representation".to_owned())
    }
}

/// The representations to download, the picture first: its sound goes with it
/// where there is one and an MP4 file is wanted, which can hold both.
pub open spec fn streams_of(
    rep_id: Seq<char>,
    audio: Option<RepresentationView>,
    mp4_wanted: bool,
) -> Seq<Seq<char>> {
    match audio {
        Some(sound) => if mp4_wanted {
            seq![rep_id, sound.id]
        } else {
            seq![rep_id]
        },
        None => seq![rep_id],
    }
}

/// The representations to download.
pub fn dash_streams(rep_id: &str, m: &DashManifest, mp4_wanted: bool) -> (out: Vec<String>)
    ensures
        text::string_views(out@) == streams_of(rep_id@, m@.audio, mp4_wanted),
{
    let mut out: Vec<String> = Vec::new();
    out.push(rep_id.to_owned());
    match &m.audio {
        Some(sound) => {
            if mp4_wanted {
                out.push(sound.id.clone());
            }
        },
        None => {},
    }
    assert(text::string_views(out@) =~= streams_of(rep_id@, m@.audio, mp4_wanted));
    out
}

/// How a download goes on once the sound has been fetched, or not.
#[derive(Debug)]
pub enum StreamStep {
    /// The sound is in this file.
    Keep(String),
    /// The picture is kept without its sound.
    Skip,
    /// The download ends with an error.
    Stop(String),
}

/// How a download goes on once the sound has been fetched, or not: the picture
/// is kept where its sound cannot be had, but a download that was told to stop
/// stops.
pub fn after_audio(fetched: Result<String, String>, cancelled: bool) -> (out: StreamStep)
    ensures
        match fetched {
            Ok(file) => out matches StreamStep::Keep(kept) && kept@ == file@,
            Err(e) => if cancelled {
                out matches StreamStep::Stop(message) && message@ == e@
            } else {
                out is Skip
            },
        },
{
    match fetched {
        Ok(file) => StreamStep::Keep(file),
        Err(e) => if cancelled {
            StreamStep::Stop(e)
        } else {
            StreamStep::Skip
        },
    }
}

/// The URL under which a representation is offered as a quality.
pub open spec fn rep_url(url: Seq<char>, id: Seq<char>) -> Seq<char> {
    url + "#rep="@ + id
}

/// The qualities of a manifest: its videos, by `#rep=` fragments of its URL.
pub open spec fn dash_qualities_of(url: Seq<char>, video: Seq<RepresentationView>) -> Seq<
    QualityView,
> {
    video.map_values(
        |r: RepresentationView| QualityView { label: r.label, url: rep_url(url, r.id) },
    )
}

/// The qualities of a manifest.
pub fn dash_qualities(url: &str, m: &DashManifest) -> (out: Vec<Quality>)
    ensures
        model::quality_views(out@) == dash_qualities_of(url@, m@.video),
{
    let ghost all = dash_qualities_of(url@, m@.video);
    let mut out: Vec<Quality> = Vec::new();
    let mut i: usize = 0;
    while i < m.video.len()
        invariant
            i <= m.video.len(),
            all == dash_qualities_of(url@, m@.video),
            model::quality_views(out@) == all.take(i as int),
        decreases m.video.len() - i,
    {
        let ghost before = out@;
        assert(m@.video[i as int] == m.video@[i as int]@);
        let rep = &m.video[i];
        let q = Quality {
            label: rep.label.clone(),
            url: url.to_owned().concat("#rep=").concat(rep.id.as_str()),
        };
        out.push(q);
        assert(model::quality_views(out@) =~= model::quality_views(before).push(q@));
        i += 1;
        assert(model::quality_views(out@) =~= all.take(i as int));
    }
    assert(all.take(all.len() as int) =~= all);
    out
}

// ---------------------------------------------------------------------------
// Laws
// ---------------------------------------------------------------------------

/// The URL of a quality leads back to the manifest and the representation that
/// it was made of, as long as the manifest URL has no fragment of its own.
pub proof fn lemma_rep_url_round_trip(url: Seq<char>, id: Seq<char>)
    requires
        !url.contains('#'),
    ensures
        fragment_split(rep_url(url, id)) == (url, Some(id)),
{
    reveal_strlit("#rep=");
    reveal_strlit("rep=");
    let full = rep_url(url, id);
    let n = url.len() as int;
    assert(full[n] == '#');
    assert forall|j: int| 0 <= j < n implies #[trigger] full[j] != '#' by {
        assert(full[j] == url[j]);
        assert(url.contains(url[j]));
    }
    text::lemma_find_any(full, seq!['#'], 0);
    let at = text::find_any(full, seq!['#'], 0);
    assert(seq!['#'].contains('#')) by {
        assert(seq!['#'][0] == '#');
    }
    if at < n {
        assert(seq!['#'].contains(full[at]));
        assert(full[at] == '#');
    }
    if at > n {
        assert(!seq!['#'].contains(full[n]));
    }
    assert(at == n);
    assert(full.take(n) =~= url);
    let fragment = full.skip(n + 1);
    assert(fragment =~= "rep="@ + id);
    assert("rep="@.is_prefix_of(fragment));
    assert(fragment.skip(4) =~= id);
}

/// A DASH stream that is protected is never downloaded.
pub proof fn lemma_dash_drm_refused(
    named: Option<Seq<char>>,
    task_rep: Option<Seq<char>>,
    m: ManifestView,
)
    requires
        m.is_drm,
    ensures
        dash_choice(named, task_rep, m) == Err::<Seq<char>, Seq<char>>(
            "DRM-protected stream cannot be downloaded"@,
        ),
{
}

/// An HLS stream that is refused for its encryption is reported as protected.
pub proof fn lemma_hls_drm_reported()
    ensures
        friendly(error::error_message(HlsErrorView::UnsupportedEncryption))
            == "DRM-protected stream cannot be downloaded"@,
{
    let message = "segment uses an unsupported encryption method"@;
    let part = "unsupported encryption"@;
    reveal_strlit("segment uses an unsupported encryption method");
    reveal_strlit("unsupported encryption");
    assert(vstd::utf8::is_ascii_chars(message));
    let lower = text::lower(message);
    assert(lower =~= message);
    assert(lower.subrange(16, 16int + part.len()) =~= part);
    assert(text::contains_text(lower, part));
}

} // verus!
