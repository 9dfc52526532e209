//! From a playlist to a flat, download-ready list of segments.

use crate::hls::error::{HlsError, HlsErrorView};
use crate::hls::iv::parse_iv;
use crate::hls::iv;
use crate::hls::listing::{
    looks_like_master, read_master, read_media, Encryption, EncryptionView, ListedKey,
    ListedSegmentView, ListedVariant, ListedVariantView, MediaList, MediaListView, KeyView,
};
use crate::hls::listing;
use crate::urls::{join_url, parse_url, url_string};
use crate::urls;
use url::Url;
use vstd::prelude::*;

verus! {

/// How to decrypt a segment.
#[derive(Debug, Clone)]
pub struct SegmentKey {
    pub key_url: String,
    pub iv: [u8; 16],
}

/// A single media segment and how to decrypt it, if at all.
#[derive(Debug, Clone)]
pub struct Segment {
    pub url: String,
    pub key: Option<SegmentKey>,
}

/// The segments of a playlist.
#[derive(Debug)]
pub struct HlsPlaylist {
    pub segments: Vec<Segment>,
    pub is_live: bool,
}

/// How to decrypt a segment, as a mathematical value.
pub struct SegmentKeyView {
    pub key_url: Seq<char>,
    pub iv: Seq<u8>,
}

/// A segment as a mathematical value.
pub struct SegmentView {
    pub url: Seq<char>,
    pub key: Option<SegmentKeyView>,
}

/// The segments of a playlist as a mathematical value.
pub struct PlaylistView {
    pub segments: Seq<SegmentView>,
    pub is_live: bool,
}

impl View for SegmentKey {
    type V = SegmentKeyView;

    open spec fn view(&self) -> SegmentKeyView {
        SegmentKeyView { key_url: self.key_url@, iv: self.iv@ }
    }
}

/// The view of a key that may be absent.
pub open spec fn key_view(key: Option<SegmentKey>) -> Option<SegmentKeyView> {
    match key {
        Some(key) => Some(key@),
        None => None,
    }
}

impl View for Segment {
    type V = SegmentView;

    open spec fn view(&self) -> SegmentView {
        SegmentView { url: self.url@, key: key_view(self.key) }
    }
}

/// The views of some segments.
pub open spec fn segment_views(segments: Seq<Segment>) -> Seq<SegmentView> {
    segments.map_values(|s: Segment| s@)
}

impl View for HlsPlaylist {
    type V = PlaylistView;

    open spec fn view(&self) -> PlaylistView {
        PlaylistView { segments: segment_views(self.segments@), is_live: self.is_live }
    }
}

// ---------------------------------------------------------------------------
// Media playlists
// ---------------------------------------------------------------------------

/// How a segment with a key is decrypted: only AES-128 with a key URI is
/// supported.
pub open spec fn decryption_of(base: Seq<char>, key: KeyView, sequence: u64) -> Result<
    SegmentKeyView,
    HlsErrorView,
> {
    if key.method != EncryptionView::Aes128 || key.uri is None {
        Err(HlsErrorView::UnsupportedEncryption)
    } else {
        match urls::joined(base, key.uri->0) {
            Err(message) => Err(HlsErrorView::Playlist(message)),
            Ok(key_url) => match iv::iv_of(key.iv, sequence) {
                Err(e) => Err(e),
                Ok(iv) => Ok(SegmentKeyView { key_url, iv }),
            },
        }
    }
}

/// A segment with its URL resolved; `sequence` is its media sequence number.
pub open spec fn segment_of(base: Seq<char>, listed: ListedSegmentView, sequence: u64) -> Result<
    SegmentView,
    HlsErrorView,
> {
    match urls::joined(base, listed.uri) {
        Err(message) => Err(HlsErrorView::Playlist(message)),
        Ok(url) => match listed.key {
            None => Ok(SegmentView { url, key: None }),
            Some(key) => match decryption_of(base, key, sequence) {
                Err(e) => Err(e),
                Ok(key) => Ok(SegmentView { url, key: Some(key) }),
            },
        },
    }
}

/// The segments resolved in order, or the error of the first that cannot be.
pub open spec fn segments_of(
    base: Seq<char>,
    listed: Seq<ListedSegmentView>,
    media_sequence: u64,
) -> Result<Seq<SegmentView>, HlsErrorView>
    decreases listed.len(),
{
    if listed.len() == 0 {
        Ok(Seq::empty())
    } else {
        match segments_of(base, listed.drop_last(), media_sequence) {
            Err(e) => Err(e),
            Ok(front) => match segment_of(
                base,
                listed.last(),
                (media_sequence + listed.len() - 1) as u64,
            ) {
                Err(e) => Err(e),
                Ok(segment) => Ok(front.push(segment)),
            },
        }
    }
}

/// What a media playlist comes to: a list that is not closed is live.
pub open spec fn playlist_of(base: Seq<char>, list: MediaListView) -> Result<
    PlaylistView,
    HlsErrorView,
> {
    match segments_of(base, list.segments, list.media_sequence) {
        Err(e) => Err(e),
        Ok(segments) => Ok(PlaylistView { segments, is_live: !list.end_list }),
    }
}

/// Whether the media sequence numbers of a playlist fit in 64 bits, the one
/// after the last segment included.
pub open spec fn sequence_fits(list: MediaListView) -> bool {
    list.media_sequence + list.segments.len() <= u64::MAX
}

/// The view of a built playlist.
pub open spec fn built_view(out: Result<HlsPlaylist, HlsError>) -> Result<
    PlaylistView,
    HlsErrorView,
> {
    match out {
        Ok(playlist) => Ok(playlist@),
        Err(e) => Err(e@),
    }
}

/// How a segment with a key is decrypted.
fn read_key(base: &Url, key: &ListedKey, sequence: u64) -> (out: Result<SegmentKey, HlsError>)
    ensures
        match out {
            Ok(k) => decryption_of(urls::url_text(*base), key@, sequence) == Ok::<
                SegmentKeyView,
                HlsErrorView,
            >(k@),
            Err(e) => decryption_of(urls::url_text(*base), key@, sequence) == Err::<
                SegmentKeyView,
                HlsErrorView,
            >(e@),
        },
{
    match &key.method {
        Encryption::Aes128 => {},
        _ => return Err(HlsError::UnsupportedEncryption),
    }
    let uri = match &key.uri {
        Some(uri) => uri,
        None => return Err(HlsError::UnsupportedEncryption),
    };
    let key_url = match join_url(base, uri.as_str()) {
        Ok(url) => url_string(&url),
        Err(message) => return Err(HlsError::Playlist(message)),
    };
    match parse_iv(&key.iv, sequence) {
        Ok(iv) => Ok(SegmentKey { key_url, iv }),
        Err(e) => Err(e),
    }
}

/// An error among the first segments is the error of them all.
proof fn lemma_first_error(
    base: Seq<char>,
    listed: Seq<ListedSegmentView>,
    media_sequence: u64,
    n: int,
)
    requires
        0 <= n <= listed.len(),
        segments_of(base, listed.take(n), media_sequence) is Err,
    ensures
        segments_of(base, listed, media_sequence) == segments_of(
            base,
            listed.take(n),
            media_sequence,
        ),
    decreases listed.len(),
{
    if n == listed.len() {
        assert(listed.take(n) =~= listed);
    } else {
        assert(listed.drop_last().take(n) =~= listed.take(n));
        lemma_first_error(base, listed.drop_last(), media_sequence, n);
    }
}

/// Resolves every segment URL and encryption key of a media playlist.
pub fn build_media_playlist(base: &Url, list: &MediaList) -> (out: Result<HlsPlaylist, HlsError>)
    requires
        sequence_fits(list@),
    ensures
        built_view(out) == playlist_of(urls::url_text(*base), list@),
{
    let ghost root = urls::url_text(*base);
    let ghost listed = list@.segments;
    let mut segments: Vec<Segment> = Vec::new();
    let mut i: usize = 0;
    assert(segment_views(segments@) =~= Seq::empty());
    while i < list.segments.len()
        invariant
            i <= list.segments.len(),
            root == urls::url_text(*base),
            listed == list@.segments,
            listed.len() == list.segments.len(),
            sequence_fits(list@),
            segments_of(root, listed.take(i as int), list.media_sequence) == Ok::<
                Seq<SegmentView>,
                HlsErrorView,
            >(segment_views(segments@)),
        decreases list.segments.len() - i,
    {
        let sequence: u64 = list.media_sequence + i as u64;
        let item = &list.segments[i];
        proof {
            assert(listed.take(i + 1).drop_last() =~= listed.take(i as int));
            assert(listed.take(i + 1).last() == item@);
            if segments_of(root, listed.take(i + 1), list.media_sequence) is Err {
                lemma_first_error(root, listed, list.media_sequence, i + 1);
            }
        }
        let url = match join_url(base, item.uri.as_str()) {
            Ok(url) => url_string(&url),
            Err(message) => return Err(HlsError::Playlist(message)),
        };
        let key = match &item.key {
            None => None,
            Some(key) => match read_key(base, key, sequence) {
                Ok(key) => Some(key),
                Err(e) => return Err(e),
            },
        };
        let ghost before = segments@;
        let segment = Segment { url, key };
        segments.push(segment);
        assert(segment_views(segments@) =~= segment_views(before).push(segment@));
        i += 1;
    }
    assert(listed.take(listed.len() as int) =~= listed);
    Ok(HlsPlaylist { segments, is_live: !list.end_list })
}

// ---------------------------------------------------------------------------
// Following a master playlist
// ---------------------------------------------------------------------------

/// The variant with the highest bandwidth, the last of them where there are
/// several.
pub open spec fn best_variant(list: Seq<ListedVariantView>) -> Option<ListedVariantView>
    decreases list.len(),
{
    if list.len() == 0 {
        None
    } else {
        match best_variant(list.drop_last()) {
            Some(best) => if list.last().bandwidth >= best.bandwidth {
                Some(list.last())
            } else {
                Some(best)
            },
            None => Some(list.last()),
        }
    }
}

/// The URL of the variant to follow.
pub open spec fn variant_url(base: Seq<char>, list: Seq<ListedVariantView>) -> Result<
    Seq<char>,
    HlsErrorView,
> {
    match best_variant(list) {
        None => Err(HlsErrorView::Playlist("master playlist has no variants"@)),
        Some(best) => match urls::joined(base, best.uri) {
            Err(message) => Err(HlsErrorView::Playlist(message)),
            Ok(url) => Ok(url),
        },
    }
}

/// No variant has a higher bandwidth than the one that is followed.
pub proof fn lemma_best_variant(list: Seq<ListedVariantView>)
    ensures
        best_variant(list) is Some <==> list.len() > 0,
        best_variant(list) matches Some(best) ==> list.contains(best) && forall|i: int|
            0 <= i < list.len() ==> (#[trigger] list[i]).bandwidth <= best.bandwidth,
    decreases list.len(),
{
    if list.len() > 0 {
        let front = list.drop_last();
        lemma_best_variant(front);
        let best = best_variant(list)->0;
        assert(list[list.len() - 1] == list.last());
        if front.len() > 0 && best != list.last() {
            let k = choose|k: int| 0 <= k < front.len() && front[k] == best;
            assert(list[k] == best);
        }
        assert forall|i: int| 0 <= i < list.len() implies (#[trigger] list[i]).bandwidth
            <= best.bandwidth by {
            if i < front.len() {
                assert(front[i] == list[i]);
            }
        }
    }
}

/// The variant of a master playlist to follow.
pub fn follow_variant(base: &Url, list: &Vec<ListedVariant>) -> (out: Result<Url, HlsError>)
    ensures
        match out {
            Ok(url) => variant_url(urls::url_text(*base), listing::variant_list(list@)) == Ok::<
                Seq<char>,
                HlsErrorView,
            >(urls::url_text(url)),
            Err(e) => variant_url(urls::url_text(*base), listing::variant_list(list@)) == Err::<
                Seq<char>,
                HlsErrorView,
            >(e@),
        },
{
    let ghost all = listing::variant_list(list@);
    if list.len() == 0 {
        return Err(HlsError::Playlist("master playlist has no variants".to_owned()));
    }
    let mut best: usize = 0;
    let mut i: usize = 1;
    proof {
        reveal_with_fuel(best_variant, 2);
        assert(all.take(1).last() == list@[0]@);
    }
    while i < list.len()
        invariant
            1 <= i <= list.len(),
            best < i,
            all == listing::variant_list(list@),
            best_variant(all.take(i as int)) == Some(list@[best as int]@),
        decreases list.len() - i,
    {
        assert(all.take(i + 1).drop_last() =~= all.take(i as int));
        assert(all.take(i + 1).last() == list@[i as int]@);
        if list[i].bandwidth >= list[best].bandwidth {
            best = i;
        }
        i += 1;
    }
    assert(all.take(all.len() as int) =~= all);
    match join_url(base, list[best].uri.as_str()) {
        Ok(url) => Ok(url),
        Err(message) => Err(HlsError::Playlist(message)),
    }
}

// ---------------------------------------------------------------------------
// Playlist bodies
// ---------------------------------------------------------------------------

/// What follows the body of a playlist.
pub enum PlaylistStep {
    /// The playlist lists the segments.
    Ready(HlsPlaylist),
    /// The playlist is a master playlist: fetch this variant.
    Follow(Url),
}

/// What follows the body of a playlist, as a mathematical value.
pub enum StepView {
    Ready(PlaylistView),
    Follow(Seq<char>),
}

impl View for PlaylistStep {
    type V = StepView;

    open spec fn view(&self) -> StepView {
        match self {
            PlaylistStep::Ready(playlist) => StepView::Ready(playlist@),
            PlaylistStep::Follow(url) => StepView::Follow(urls::url_text(*url)),
        }
    }
}

/// The media playlist that a body holds, unless it is a master playlist. The
/// reading of media playlists takes a master playlist for one whose segments
/// are its variants, so what kind it is has to be asked first.
pub open spec fn media_of(body: Seq<u8>) -> Option<MediaListView> {
    if listing::is_master(body) {
        None
    } else {
        match listing::media_playlist(body) {
            Ok(list) => Some(list),
            Err(_) => None,
        }
    }
}

/// What follows the body of the playlist at `base`.
pub open spec fn step_of(base: Seq<char>, body: Seq<u8>) -> Result<StepView, HlsErrorView> {
    match media_of(body) {
        Some(list) => match playlist_of(base, list) {
            Ok(playlist) => Ok(StepView::Ready(playlist)),
            Err(e) => Err(e),
        },
        None => match listing::master_playlist(body) {
            Err(message) => Err(HlsErrorView::Playlist(message)),
            Ok(list) => match variant_url(base, list) {
                Ok(url) => Ok(StepView::Follow(url)),
                Err(e) => Err(e),
            },
        },
    }
}

/// The segments that the body of a followed variant lists.
pub open spec fn variant_of(base: Seq<char>, body: Seq<u8>) -> Result<PlaylistView, HlsErrorView> {
    match listing::media_playlist(body) {
        Err(message) => Err(HlsErrorView::Playlist(message)),
        Ok(list) => playlist_of(base, list),
    }
}

/// The URL of a playlist that is to be fetched.
pub fn playlist_base(playlist_url: &str) -> (out: Result<Url, HlsError>)
    ensures
        match out {
            Ok(url) => urls::parsed(playlist_url@) == Ok::<Seq<char>, Seq<char>>(
                urls::url_text(url),
            ),
            Err(e) => urls::parsed(playlist_url@) is Err && e@ == HlsErrorView::Playlist(
                urls::parsed(playlist_url@)->Err_0,
            ),
        },
{
    match parse_url(playlist_url) {
        Ok(url) => Ok(url),
        Err(message) => Err(HlsError::Playlist(message)),
    }
}

/// The media playlist that a body holds, unless it is a master playlist.
pub(crate) fn read_media_of(body: &[u8]) -> (out: Option<MediaList>)
    ensures
        match out {
            Some(list) => media_of(body@) == Some(list@),
            None => media_of(body@) is None,
        },
{
    if looks_like_master(body) {
        None
    } else {
        match read_media(body) {
            Ok(list) => Some(list),
            Err(_) => None,
        }
    }
}

/// What follows the body of a playlist: its segments, or the variant to fetch
/// in its place. `None` where the media sequence numbers do not fit in 64 bits.
pub fn playlist_step(base: &Url, body: &[u8]) -> (out: Option<Result<PlaylistStep, HlsError>>)
    ensures
        out is None <==> media_of(body@) is Some && !sequence_fits(media_of(body@)->0),
        match out {
            Some(Ok(step)) => step_of(urls::url_text(*base), body@) == Ok::<
                StepView,
                HlsErrorView,
            >(step@),
            Some(Err(e)) => step_of(urls::url_text(*base), body@) == Err::<StepView, HlsErrorView>(
                e@,
            ),
            None => true,
        },
{
    match read_media_of(body) {
        Some(list) => {
            if list.segments.len() as u64 > u64::MAX - list.media_sequence {
                return None;
            }
            match build_media_playlist(base, &list) {
                Ok(playlist) => Some(Ok(PlaylistStep::Ready(playlist))),
                Err(e) => Some(Err(e)),
            }
        },
        None => match read_master(body) {
            Ok(list) => match follow_variant(base, &list) {
                Ok(url) => Some(Ok(PlaylistStep::Follow(url))),
                Err(e) => Some(Err(e)),
            },
            Err(message) => Some(Err(HlsError::Playlist(message))),
        },
    }
}

/// The segments that the body of a followed variant lists. `None` where the
/// media sequence numbers do not fit in 64 bits.
pub fn variant_playlist(base: &Url, body: &[u8]) -> (out: Option<Result<HlsPlaylist, HlsError>>)
    ensures
        out is None <==> listing::media_playlist(body@) is Ok && !sequence_fits(
            listing::media_playlist(body@)->Ok_0,
        ),
        out matches Some(built) ==> built_view(built) == variant_of(urls::url_text(*base), body@),
{
    match read_media(body) {
        Ok(list) => {
            if list.segments.len() as u64 > u64::MAX - list.media_sequence {
                return None;
            }
            Some(build_media_playlist(base, &list))
        },
        Err(message) => Some(Err(HlsError::Playlist(message))),
    }
}

// ---------------------------------------------------------------------------
// Laws
// ---------------------------------------------------------------------------

/// A playlist is built only where no segment is encrypted with anything but
/// AES-128; it has one segment for each that is listed, in order.
pub proof fn lemma_playlist_complete(base: Seq<char>, list: MediaListView)
    requires
        sequence_fits(list),
    ensures
        playlist_of(base, list) matches Ok(playlist) ==> playlist.segments.len()
            == list.segments.len() && forall|i: int|
            0 <= i < list.segments.len() ==> {
                &&& segment_of(base, list.segments[i], (list.media_sequence + i) as u64) == Ok::<
                    SegmentView,
                    HlsErrorView,
                >(#[trigger] playlist.segments[i])
                &&& list.segments[i].key matches Some(key) ==> key.method
                    == EncryptionView::Aes128 && playlist.segments[i].key is Some
            },
{
    lemma_segments_complete(base, list.segments, list.media_sequence);
}

/// A playlist with a segment that is encrypted with anything but AES-128, as
/// streams under DRM are, is never downloaded.
pub proof fn lemma_drm_refused(base: Seq<char>, list: MediaListView, i: int)
    requires
        sequence_fits(list),
        0 <= i < list.segments.len(),
        list.segments[i].key matches Some(key) && key.method != EncryptionView::Aes128,
    ensures
        playlist_of(base, list) is Err,
{
    lemma_playlist_complete(base, list);
    if playlist_of(base, list) is Ok {
        let segment = playlist_of(base, list)->Ok_0.segments[i];
        assert(segment.key is Some);
    }
}

proof fn lemma_segments_complete(
    base: Seq<char>,
    listed: Seq<ListedSegmentView>,
    media_sequence: u64,
)
    ensures
        segments_of(base, listed, media_sequence) matches Ok(segments) ==> segments.len()
            == listed.len() && forall|i: int|
            0 <= i < listed.len() ==> segment_of(base, listed[i], (media_sequence + i) as u64)
                == Ok::<SegmentView, HlsErrorView>(#[trigger] segments[i]),
    decreases listed.len(),
{
    if listed.len() > 0 {
        let front = listed.drop_last();
        lemma_segments_complete(base, front, media_sequence);
        if segments_of(base, listed, media_sequence) is Ok {
            let segments = segments_of(base, listed, media_sequence)->Ok_0;
            let before = segments_of(base, front, media_sequence)->Ok_0;
            assert forall|i: int| 0 <= i < listed.len() implies segment_of(
                base,
                listed[i],
                (media_sequence + i) as u64,
            ) == Ok::<SegmentView, HlsErrorView>(#[trigger] segments[i]) by {
                if i < front.len() {
                    assert(segments[i] == before[i]);
                    assert(front[i] == listed[i]);
                }
            }
        }
    }
}

} // verus!
