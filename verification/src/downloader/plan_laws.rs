//! What URLs, names and manifests make of a download.

use crate::dash::manifest::{ManifestView, RepresentationView};
use crate::downloader::names;
use crate::downloader::run::FileStepView;
use crate::downloader::run;
use crate::text;
use crate::text_laws;
use vstd::prelude::*;

verus! {

// ---------------------------------------------------------------------------
// Kinds
// ---------------------------------------------------------------------------

/// A URL asks for a torrent where it is a magnet link or ends in `.torrent`, else
/// for a stream where it holds `.m3u8` or else `.mpd`, and else for a file;
/// letters may be of either case.
pub proof fn lemma_kind(url: Seq<char>)
    requires
        vstd::utf8::is_ascii_chars(url),
    ensures
        ({
            let torrent = text_laws::begins_like(url, "magnet:"@) || text_laws::ends_like(
                url,
                ".torrent"@,
            );
            let hls = text_laws::holds_like(url, ".m3u8"@);
            let dash = text_laws::holds_like(url, ".mpd"@);
            &&& torrent ==> names::kind_of(url) == "torrent"@
            &&& !torrent && hls ==> names::kind_of(url) == "hls"@
            &&& !torrent && !hls && dash ==> names::kind_of(url) == "dash"@
            &&& !torrent && !hls && !dash ==> names::kind_of(url) == "http"@
        }),
{
    text_laws::lemma_either_case(url, "magnet:"@);
    text_laws::lemma_either_case(url, ".torrent"@);
    text_laws::lemma_either_case(url, ".m3u8"@);
    text_laws::lemma_either_case(url, ".mpd"@);
}

/// The same of any URL, by its lower-case form.
pub proof fn lemma_any_kind(url: Seq<char>)
    ensures
        ({
            let low = text::lower(url);
            let torrent = text_laws::begins(low, "magnet:"@) || text_laws::ends(low, ".torrent"@);
            let hls = text_laws::holds(low, ".m3u8"@);
            let dash = text_laws::holds(low, ".mpd"@);
            &&& torrent ==> names::kind_of(url) == "torrent"@
            &&& !torrent && hls ==> names::kind_of(url) == "hls"@
            &&& !torrent && !hls && dash ==> names::kind_of(url) == "dash"@
            &&& !torrent && !hls && !dash ==> names::kind_of(url) == "http"@
        }),
{
    text_laws::lemma_put_together(text::lower(url), "magnet:"@);
    text_laws::lemma_put_together(text::lower(url), ".torrent"@);
    text_laws::lemma_put_together(text::lower(url), ".m3u8"@);
    text_laws::lemma_put_together(text::lower(url), ".mpd"@);
}

/// What a URL ends in, in ASCII letters of either case, counts whatever stands
/// before it.
pub proof fn lemma_torrent_ending(front: Seq<char>, end: Seq<char>)
    requires
        end.len() == 8,
        text_laws::begins_like(end, ".torrent"@),
    ensures
        names::kind_of(front + end) == "torrent"@,
{
    reveal_strlit(".torrent");
    let url = front + end;
    let n = front.len() as int;
    assert(url.skip(n) =~= end);
    assert forall|i: int| 0 <= i < end.len() implies '\0' <= #[trigger] end[i] <= '\u{7f}' by {
        assert(text_laws::lower_code(end[0 + i]) == ".torrent"@[i] as int);
    }
    text::lemma_lower_ending(url, n);
    let low = text::ascii_lowered(end);
    assert(low =~= ".torrent"@) by {
        assert forall|i: int| 0 <= i < end.len() implies low[i] == ".torrent"@[i] by {
            assert(text_laws::lower_code(end[0 + i]) == ".torrent"@[i] as int);
            text_laws::lemma_letter_case(end[i]);
        }
    }
}

// ---------------------------------------------------------------------------
// Names
// ---------------------------------------------------------------------------

/// An underscore stands in for each character that a file name cannot have, and
/// every other character stays.
pub proof fn lemma_cleaned(name: Seq<char>, i: int)
    requires
        0 <= i < name.len(),
    ensures
        names::cleaned(name).len() == name.len(),
        ({
            let n = name[i] as int;
            names::cleaned(name)[i] == if n == 34 || n == 42 || n == 47 || n == 58 || n == 60 || n
                == 62 || n == 63 || n == 92 || n == 124 {
                '_'
            } else {
                name[i]
            }
        }),
{
}

/// A name loses the white space around it and then the dots; what is left is kept
/// as it is, and `download` stands in for nothing.
pub proof fn lemma_safe(
    name: Seq<char>,
    before: Seq<char>,
    dots: Seq<char>,
    inner: Seq<char>,
    more_dots: Seq<char>,
    after: Seq<char>,
)
    requires
        names::cleaned(name) == before + (dots + inner + more_dots) + after,
        forall|i: int| 0 <= i < before.len() ==> text::whitespace().contains(#[trigger] before[i]),
        forall|i: int| 0 <= i < after.len() ==> text::whitespace().contains(#[trigger] after[i]),
        forall|i: int| 0 <= i < dots.len() ==> #[trigger] dots[i] == '.',
        forall|i: int| 0 <= i < more_dots.len() ==> #[trigger] more_dots[i] == '.',
        inner.len() > 0 ==> inner[0] != '.' && inner.last() != '.',
        inner.len() > 0 && dots.len() == 0 ==> !text::whitespace().contains(inner[0]),
        inner.len() > 0 && more_dots.len() == 0 ==> !text::whitespace().contains(inner.last()),
    ensures
        inner.len() > 0 ==> names::safe_name(name) == inner,
        inner.len() == 0 ==> names::safe_name(name) == "download"@,
{
    let dot = seq!['.'];
    assert(dot.contains('.')) by {
        assert(dot[0] == '.');
    }
    text_laws::lemma_whitespace('.');
    let mid = dots + inner + more_dots;
    if mid.len() > 0 {
        assert(!text::whitespace().contains(mid[0])) by {
            if dots.len() > 0 {
                assert(mid[0] == dots[0]);
            } else if inner.len() > 0 {
                assert(mid[0] == inner[0]);
            } else {
                assert(mid[0] == more_dots[0]);
            }
        }
        assert(!text::whitespace().contains(mid.last())) by {
            if more_dots.len() > 0 {
                assert(mid.last() == more_dots[more_dots.len() - 1]);
            } else if inner.len() > 0 {
                assert(mid.last() == inner.last());
            } else {
                assert(mid.last() == dots[dots.len() - 1]);
            }
        }
    }
    text_laws::lemma_trimmed(before, mid, after, text::whitespace());
    text_laws::lemma_trimmed(dots, inner, more_dots, dot);
}

/// A file is called by what stands behind the last slash of its URL, query and
/// fragment left out; a magnet link has no such name.
pub proof fn lemma_url_name(
    front: Seq<char>,
    name: Seq<char>,
    rest: Seq<char>,
    kind: Seq<char>,
)
    requires
        front.len() == 0 || front.last() == '/' || front.last() == '\\',
        forall|i: int|
            0 <= i < front.len() ==> #[trigger] front[i] != '?' && front[i] != '#',
        forall|i: int|
            0 <= i < name.len() ==> #[trigger] name[i] != '?' && name[i] != '#' && name[i] != '/'
                && name[i] != '\\',
        rest.len() == 0 || rest[0] == '?' || rest[0] == '#',
    ensures
        ({
            let url = front + name + rest;
            let out = names::url_file_name(url, kind);
            if kind == "torrent"@ && "magnet:"@.is_prefix_of(url) {
                out == "torrent-download"@
            } else {
                out == names::safe_name(name)
            }
        }),
{
    let query = seq!['?', '#'];
    let slash = seq!['/', '\\'];
    assert(query[0] == '?' && query[1] == '#' && slash[0] == '/' && slash[1] == '\\');
    let head = front + name;
    assert forall|i: int| 0 <= i < head.len() implies !query.contains(#[trigger] head[i]) by {
        if i < front.len() {
            assert(head[i] == front[i]);
        } else {
            assert(head[i] == name[i - front.len()]);
        }
    }
    text_laws::lemma_until(head, query, rest);
    text_laws::lemma_after_last(front, slash, name);
}

/// Streams get the ending of what they become, `ts` or `mp4`; other files keep
/// the name of the URL.
pub proof fn lemma_task_name(url: Seq<char>, kind: Seq<char>)
    ensures
        kind == "hls"@ ==> names::task_file_name(url, kind) == names::name_with_ext(
            names::url_file_name(url, kind),
            "ts"@,
        ),
        kind == "dash"@ ==> names::task_file_name(url, kind) == names::name_with_ext(
            names::url_file_name(url, kind),
            "mp4"@,
        ),
        kind != "hls"@ && kind != "dash"@ ==> names::task_file_name(url, kind)
            == names::url_file_name(url, kind),
{
    reveal_strlit("hls");
    reveal_strlit("dash");
    assert("hls"@.len() != "dash"@.len());
}

/// An ASCII name gets an ending exactly where it does not have it, in letters of
/// either case, behind a dot.
pub proof fn lemma_ending(name: Seq<char>, ext: Seq<char>)
    requires
        vstd::utf8::is_ascii_chars(name),
    ensures
        names::name_with_ext(name, ext) == if text_laws::ends_like(name, seq!['.'] + ext) {
            name
        } else {
            name + seq!['.'] + ext
        },
{
    reveal_strlit(".");
    assert("."@ =~= seq!['.']);
    text_laws::lemma_either_case(name, seq!['.'] + ext);
}

/// The directory that is asked for wins, without white space around it; then the
/// configured one does; else there is none.
pub proof fn lemma_dir(left: Seq<char>, dir: Seq<char>, right: Seq<char>, configured: Seq<char>)
    requires
        forall|i: int| 0 <= i < left.len() ==> text::whitespace().contains(#[trigger] left[i]),
        forall|i: int| 0 <= i < right.len() ==> text::whitespace().contains(#[trigger] right[i]),
        dir.len() > 0 ==> !text::whitespace().contains(dir[0]) && !text::whitespace().contains(
            dir.last(),
        ),
    ensures
        dir.len() > 0 ==> names::task_dir(Some(left + dir + right), configured) == Some(dir),
        dir.len() == 0 ==> names::task_dir(Some(left + dir + right), configured)
            == names::task_dir(None, configured),
        configured.len() > 0 ==> names::task_dir(None, configured) == Some(configured),
        configured.len() == 0 ==> names::task_dir(None, configured) is None,
{
    text_laws::lemma_trimmed(left, dir, right, text::whitespace());
}

// ---------------------------------------------------------------------------
// Outcomes
// ---------------------------------------------------------------------------

/// A message about encryption that is not supported is replaced; any other is
/// shown as it is.
pub proof fn lemma_friendly(err: Seq<char>)
    ensures
        run::friendly(err) == err || run::friendly(err)
            == "DRM-protected stream cannot be downloaded"@,
        vstd::utf8::is_ascii_chars(err) ==> run::friendly(err) == if text_laws::holds_like(
            err,
            "unsupported encryption"@,
        ) || text_laws::holds_like(err, "sample-aes"@) {
            "DRM-protected stream cannot be downloaded"@
        } else {
            err
        },
        run::friendly(err) != err ==> text_laws::holds(text::lower(err), "unsupported encryption"@)
            || text_laws::holds(text::lower(err), "sample-aes"@),
        text_laws::holds(text::lower(err), "unsupported encryption"@) || text_laws::holds(
            text::lower(err),
            "sample-aes"@,
        ) ==> run::friendly(err) == "DRM-protected stream cannot be downloaded"@,
{
    text_laws::lemma_put_together(text::lower(err), "unsupported encryption"@);
    text_laws::lemma_put_together(text::lower(err), "sample-aes"@);
    if vstd::utf8::is_ascii_chars(err) {
        text_laws::lemma_either_case(err, "unsupported encryption"@);
        text_laws::lemma_either_case(err, "sample-aes"@);
    }
}

/// Whether a step removes, renames, writes or discards something under a path.
pub open spec fn touches(step: FileStepView, path: Seq<char>) -> bool {
    match step {
        FileStepView::Remove(p) => p == path,
        FileStepView::Discard(p) => p == path,
        FileStepView::Rename { from, to } => from == path || to == path,
        FileStepView::Remux { from, to } => from.contains(path) || to == path,
        FileStepView::TryRemux { from, to } => from.contains(path) || to == path,
        FileStepView::SetDestination(_) => false,
        FileStepView::DiscardDir(p) => p == path,
    }
}

/// A downloaded file takes the place of what is there: that is removed first, and
/// the `.part` file then gets its name.
pub proof fn lemma_http_steps(dest: Seq<char>)
    ensures
        run::http_steps_of(dest, false).len() == 1,
        run::http_steps_of(dest, true).len() == 2,
        run::http_steps_of(dest, true)[0] == FileStepView::Remove(dest),
        run::http_steps_of(dest, true)[1] == run::http_steps_of(dest, false)[0],
        run::http_steps_of(dest, false)[0] == (FileStepView::Rename {
            from: dest + ".part"@,
            to: dest,
        }),
{
}

/// A stream ends up in one file with the ending of what it became, which is the
/// destination that the task keeps: written from what was put together where an
/// MP4 file is wanted, else that file itself under its new name. What was put
/// together and the segments do not stay.
pub proof fn lemma_hls_steps(dest: Seq<char>, mp4_wanted: bool)
    ensures
        ({
            let steps = run::hls_steps_of(dest, mp4_wanted);
            let joined = dest + ".concat.ts"@;
            let to = names::name_with_ext(
                dest,
                if mp4_wanted {
                    "mp4"@
                } else {
                    "ts"@
                },
            );
            &&& steps.len() == 4
            &&& steps[2] == FileStepView::SetDestination(to)
            &&& steps[3] == FileStepView::DiscardDir(dest + ".segtmp"@)
            &&& mp4_wanted ==> steps[0] == (FileStepView::Remux { from: seq![joined], to })
                && steps[1] == FileStepView::Discard(joined)
            &&& !mp4_wanted ==> steps[0] == FileStepView::Discard(to) && steps[1] == (
            FileStepView::Rename { from: joined, to })
        }),
{
}

/// The streams of a DASH download end up in one MP4 file, which is the destination
/// that the task keeps: all of them where it is written anew, else the first
/// alone. The segments of neither stream stay.
pub proof fn lemma_dash_steps(dest: Seq<char>, streams: Seq<Seq<char>>, mp4_wanted: bool)
    requires
        streams.len() > 0,
    ensures
        ({
            let steps = run::dash_steps_of(dest, streams, mp4_wanted);
            let to = names::name_with_ext(dest, "mp4"@);
            let n = steps.len() as int;
            &&& n == if mp4_wanted {
                4int
            } else {
                5
            }
            &&& steps[n - 3] == FileStepView::SetDestination(to)
            &&& steps[n - 2] == FileStepView::DiscardDir(dest + ".segtmp"@)
            &&& steps[n - 1] == FileStepView::DiscardDir(dest + ".audio.segtmp"@)
            &&& mp4_wanted ==> steps[0] == (FileStepView::TryRemux { from: streams, to })
            &&& !mp4_wanted ==> steps[0] == FileStepView::Discard(to) && steps[1] == (
            FileStepView::Rename { from: streams[0], to })
        }),
{
}

/// Whatever the kind of download, no step touches the destination of another:
/// every path that is touched begins with the destination or is one of the
/// streams.
pub proof fn lemma_own_files(
    dest: Seq<char>,
    streams: Seq<Seq<char>>,
    exists_there: bool,
    mp4_wanted: bool,
    i: int,
    path: Seq<char>,
)
    requires
        streams.len() > 0,
    ensures
        0 <= i < run::http_steps_of(dest, exists_there).len() && touches(
            run::http_steps_of(dest, exists_there)[i],
            path,
        ) ==> dest.is_prefix_of(path),
        0 <= i < run::hls_steps_of(dest, mp4_wanted).len() && touches(
            run::hls_steps_of(dest, mp4_wanted)[i],
            path,
        ) ==> dest.is_prefix_of(path),
        0 <= i < run::dash_steps_of(dest, streams, mp4_wanted).len() && touches(
            run::dash_steps_of(dest, streams, mp4_wanted)[i],
            path,
        ) ==> dest.is_prefix_of(path) || streams.contains(path),
{
    let mp4 = names::name_with_ext(dest, "mp4"@);
    let ts = names::name_with_ext(dest, "ts"@);
    lemma_begins(dest, "."@ + "mp4"@);
    lemma_begins(dest, "."@ + "ts"@);
    assert(dest + ("."@ + "mp4"@) =~= dest + "."@ + "mp4"@);
    assert(dest + ("."@ + "ts"@) =~= dest + "."@ + "ts"@);
    lemma_begins(dest, Seq::empty());
    assert(dest + Seq::<char>::empty() =~= dest);
    lemma_begins(dest, ".part"@);
    lemma_begins(dest, ".concat.ts"@);
    lemma_begins(dest, ".segtmp"@);
    lemma_begins(dest, ".audio.segtmp"@);
    let joined = dest + ".concat.ts"@;
    assert(seq![joined].contains(path) ==> path == joined);
    assert(streams.contains(streams[0]));
}

proof fn lemma_begins(a: Seq<char>, b: Seq<char>)
    ensures
        a.is_prefix_of(a + b),
{
    assert((a + b).subrange(0, a.len() as int) =~= a);
}

// ---------------------------------------------------------------------------
// Streams
// ---------------------------------------------------------------------------

/// Eight segments of a stream are fetched at once.
pub proof fn lemma_segment_concurrency()
    ensures
        run::HLS_SEGMENT_CONCURRENCY == 8,
{
}

/// A URL is fetched without what follows its first `#`; the representation that
/// is named there is what follows `rep=`, and without it none is named.
pub proof fn lemma_fragment(base: Seq<char>, fragment: Seq<char>, id: Seq<char>)
    requires
        forall|i: int| 0 <= i < base.len() ==> #[trigger] base[i] != '#',
    ensures
        run::fragment_split(base) == (base, None::<Seq<char>>),
        run::fragment_split(base + seq!['#'] + fragment).0 == base,
        run::fragment_split(base + seq!['#'] + ("rep="@ + id)).1 == Some(id),
        !"rep="@.is_prefix_of(fragment) ==> run::fragment_split(
            base + seq!['#'] + fragment,
        ).1 is None,
{
    reveal_strlit("rep=");
    lemma_fragment_at(base, fragment);
    lemma_fragment_at(base, "rep="@ + id);
    let hash = seq!['#'];
    assert(hash.contains('#')) by {
        assert(hash[0] == '#');
    }
    assert(base + Seq::<char>::empty() =~= base);
    text_laws::lemma_until(base, hash, Seq::empty());
    assert("rep="@.is_prefix_of("rep="@ + id)) by {
        lemma_begins("rep="@, id);
    }
    assert(("rep="@ + id).skip("rep="@.len() as int) =~= id);
}

proof fn lemma_fragment_at(base: Seq<char>, fragment: Seq<char>)
    requires
        forall|i: int| 0 <= i < base.len() ==> #[trigger] base[i] != '#',
    ensures
        text::find_any(base + seq!['#'] + fragment, seq!['#'], 0) == base.len(),
        (base + seq!['#'] + fragment).take(base.len() as int) == base,
        (base + seq!['#'] + fragment).skip(base.len() as int + 1) == fragment,
{
    let hash = seq!['#'];
    let url = base + hash + fragment;
    assert(hash.contains('#')) by {
        assert(hash[0] == '#');
    }
    assert(base + (hash + fragment) =~= url);
    text_laws::lemma_until(base, hash, hash + fragment);
    assert(url.take(base.len() as int) =~= base);
    assert(url.skip(base.len() as int + 1) =~= fragment);
}

/// The representation that the URL names is taken, else the one that the task
/// names, else the first of the videos; a stream without video is refused, and a
/// protected one in any case.
pub proof fn lemma_choice(
    named: Seq<char>,
    task_rep: Option<Seq<char>>,
    other: Seq<char>,
    m: ManifestView,
)
    ensures
        !m.is_drm ==> run::dash_choice(Some(named), task_rep, m) == Ok::<Seq<char>, Seq<char>>(
            named,
        ),
        !m.is_drm ==> run::dash_choice(None, Some(other), m) == Ok::<Seq<char>, Seq<char>>(other),
        !m.is_drm && m.video.len() > 0 ==> run::dash_choice(None, None, m) == Ok::<
            Seq<char>,
            Seq<char>,
        >(m.video[0].id),
        !m.is_drm && m.video.len() == 0 ==> run::dash_choice(None, None, m) == Err::<
            Seq<char>,
            Seq<char>,
        >("no video representation"@),
        m.is_drm ==> run::dash_choice(Some(named), task_rep, m) is Err && run::dash_choice(
            None,
            task_rep,
            m,
        ) is Err,
{
}

/// The picture is always fetched, and first; its sound is fetched exactly where
/// there is one and an MP4 file is wanted.
pub proof fn lemma_streams(
    rep_id: Seq<char>,
    audio: Option<RepresentationView>,
    mp4_wanted: bool,
)
    ensures
        ({
            let out = run::streams_of(rep_id, audio, mp4_wanted);
            &&& 1 <= out.len() <= 2 && out[0] == rep_id
            &&& out.len() == 2 <==> audio is Some && mp4_wanted
            &&& out.len() == 2 ==> out[1] == audio->0.id
        }),
{
}

/// A manifest is offered as its videos, in order and under their labels, each at
/// a URL that leads back to the manifest and the video.
pub proof fn lemma_offered_videos(url: Seq<char>, video: Seq<RepresentationView>, i: int)
    requires
        !url.contains('#'),
        0 <= i < video.len(),
    ensures
        run::dash_qualities_of(url, video).len() == video.len(),
        run::dash_qualities_of(url, video)[i].label == video[i].label,
        run::dash_qualities_of(url, video)[i].url == url + "#rep="@ + video[i].id,
        run::fragment_split(run::dash_qualities_of(url, video)[i].url) == (
            url,
            Some(video[i].id),
        ),
{
    run::lemma_rep_url_round_trip(url, video[i].id);
}

} // verus!
