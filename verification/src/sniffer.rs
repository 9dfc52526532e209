//! Stream sniffing: which requests of the embedded browser are blocked, which
//! are captured, and the streams that were detected.

use crate::dash::manifest::{DashError, DashManifest};
use crate::downloader::run::dash_qualities;
use crate::downloader::run;
use crate::hls::error::HlsError;
use crate::hls::variants::{HlsVariants, VariantView};
use crate::http::{copy_headers, set_header};
use crate::http;
use crate::model::{Quality, QualityView, StreamInfo, StreamView};
use crate::model;
use crate::text;
use crate::urls::{parse_url, url_host};
use crate::urls;
use vstd::prelude::*;

verus! {

// ---------------------------------------------------------------------------
// Requests
// ---------------------------------------------------------------------------

/// Host fragments blocked in the embedded browser (ads and trackers).
pub open spec fn ad_hosts() -> Seq<Seq<char>> {
    seq![
        "doubleclick.net"@,
        "googlesyndication.com"@,
        "googleadservices.com"@,
        "googletagmanager.com"@,
        "google-analytics.com"@,
        "adservice.google."@,
        "adnxs.com"@,
        "adsystem."@,
        "amazon-adsystem.com"@,
        "taboola.com"@,
        "outbrain.com"@,
        "criteo."@,
        "scorecardresearch.com"@,
        "quantserve.com"@,
        "moatads.com"@,
        "adsrvr.org"@,
        "pubmatic.com"@,
        "rubiconproject.com"@,
        "openx.net"@,
        "casalemedia.com"@,
        "smartadserver.com"@,
        "zeotap.com"@,
        "branch.io"@,
        "appsflyer.com"@,
        "adjust.com"@,
        "kochava.com"@,
        "hotjar.com"@,
        "fullstory.com"@,
        "chartbeat."@,
        "newrelic.com"@,
        "nr-data.net"@,
        "bugsnag.com"@,
        "crashlytics.com"@,
        "sent.io"@,
        "bidsxchange"@,
        "adform.net"@,
        "yieldmo.com"@,
        "sharethrough.com"@,
        "media.net"@,
        "revcontent.com"@,
        "mgid.com"@,
        "propellerads"@,
        "popads."@,
        "adcash.com"@,
        "exoclick.com"@,
        "juicyads"@,
        "trafficjunky"@,
        "adcolony"@,
        "vungle.com"@,
        "unityads"@,
        "applovin.com"@,
        "inmobi.com"@,
        "mopub.com"@,
        "fyber.com"@,
        "adtechus"@,
        "advertising.com"@,
        "ads.yahoo.com"@,
        "bing.com/bat.js"@,
        "clarity.ms"@,
        "yandex-metrica"@,
        "mc.yandex.ru"@,
        "top-fwz1.mail.ru"@,
        "adfox.ru"@,
        "an.yandex.ru"@,
    ]
}

/// Whether a request goes to an advertiser or tracker.
pub open spec fn goes_to_ads(uri: Seq<char>) -> bool {
    exists|i: int|
        0 <= i < ad_hosts().len() && text::contains_text(text::lower(uri), #[trigger] ad_hosts()[i])
}

/// The kind of manifest that a URI asks for, by its shape.
pub open spec fn manifest_kind(uri: Seq<char>) -> Option<Seq<char>> {
    let lower = text::lower(uri);
    if text::contains_text(lower, ".m3u8"@) {
        Some("hls"@)
    } else if text::contains_text(lower, ".mpd"@) {
        Some("dash"@)
    } else {
        None
    }
}

/// The host fragments that are blocked.
fn adblock_hosts() -> (out: Vec<&'static str>)
    ensures
        out@.map_values(|h: &str| h@) == ad_hosts(),
{
    let out: Vec<&'static str> = vec![
        "doubleclick.net",
        "googlesyndication.com",
        "googleadservices.com",
        "googletagmanager.com",
        "google-analytics.com",
        "adservice.google.",
        "adnxs.com",
        "adsystem.",
        "amazon-adsystem.com",
        "taboola.com",
        "outbrain.com",
        "criteo.",
        "scorecardresearch.com",
        "quantserve.com",
        "moatads.com",
        "adsrvr.org",
        "pubmatic.com",
        "rubiconproject.com",
        "openx.net",
        "casalemedia.com",
        "smartadserver.com",
        "zeotap.com",
        "branch.io",
        "appsflyer.com",
        "adjust.com",
        "kochava.com",
        "hotjar.com",
        "fullstory.com",
        "chartbeat.",
        "newrelic.com",
        "nr-data.net",
        "bugsnag.com",
        "crashlytics.com",
        "sent.io",
        "bidsxchange",
        "adform.net",
        "yieldmo.com",
        "sharethrough.com",
        "media.net",
        "revcontent.com",
        "mgid.com",
        "propellerads",
        "popads.",
        "adcash.com",
        "exoclick.com",
        "juicyads",
        "trafficjunky",
        "adcolony",
        "vungle.com",
        "unityads",
        "applovin.com",
        "inmobi.com",
        "mopub.com",
        "fyber.com",
        "adtechus",
        "advertising.com",
        "ads.yahoo.com",
        "bing.com/bat.js",
        "clarity.ms",
        "yandex-metrica",
        "mc.yandex.ru",
        "top-fwz1.mail.ru",
        "adfox.ru",
        "an.yandex.ru",
    ];
    assert(out@.map_values(|h: &str| h@) =~= ad_hosts());
    out
}

/// Whether a request goes to an advertiser or tracker.
pub fn is_ad(uri: &str) -> (out: bool)
    ensures
        out == goes_to_ads(uri@),
{
    let lower = text::chars_of(text::to_lower(uri).as_str());
    let hosts = adblock_hosts();
    let ghost all = ad_hosts();
    let mut i: usize = 0;
    while i < hosts.len()
        invariant
            i <= hosts.len(),
            all == ad_hosts(),
            all == hosts@.map_values(|h: &str| h@),
            lower@ == text::lower(uri@),
            forall|j: int| 0 <= j < i ==> !text::contains_text(lower@, #[trigger] all[j]),
        decreases hosts.len() - i,
    {
        assert(all[i as int] == hosts@[i as int]@);
        if text::has_text(&lower, hosts[i]) {
            return true;
        }
        i += 1;
    }
    false
}

/// The kind of manifest that a URI asks for.
pub fn is_manifest_url(uri: &str) -> (out: Option<&'static str>)
    ensures
        match out {
            Some(kind) => manifest_kind(uri@) == Some(kind@),
            None => manifest_kind(uri@) is None,
        },
{
    let lower = text::chars_of(text::to_lower(uri).as_str());
    if text::has_text(&lower, ".m3u8") {
        Some("hls")
    } else if text::has_text(&lower, ".mpd") {
        Some("dash")
    } else {
        None
    }
}

/// What becomes of a request of the embedded browser.
pub enum Verdict {
    /// It goes through.
    Pass,
    /// It is answered as forbidden.
    Block,
    /// It goes through, and the manifest of this kind that it asks for is
    /// captured.
    Capture(&'static str),
}

/// What becomes of a request of the embedded browser: only HTTP requests are
/// looked at, and an advertiser is blocked before anything is captured.
pub fn judge(uri: &str) -> (out: Verdict)
    ensures
        ({
            let http = "http://"@.is_prefix_of(uri@) || "https://"@.is_prefix_of(uri@);
            match out {
                Verdict::Block => http && goes_to_ads(uri@),
                Verdict::Capture(kind) => http && !goes_to_ads(uri@) && manifest_kind(uri@)
                    == Some(kind@),
                Verdict::Pass => !http || (!goes_to_ads(uri@) && manifest_kind(uri@) is None),
            }
        }),
{
    let chars = text::chars_of(uri);
    if !text::begins_with(&chars, "http://") && !text::begins_with(&chars, "https://") {
        return Verdict::Pass;
    }
    if is_ad(uri) {
        return Verdict::Block;
    }
    match is_manifest_url(uri) {
        Some(kind) => Verdict::Capture(kind),
        None => Verdict::Pass,
    }
}

/// The page that a captured request belongs to: its referer, or the request
/// itself where it has none.
pub fn page_of(referer: &str, uri: &str) -> (out: String)
    ensures
        out@ == if referer@.len() == 0 {
            uri@
        } else {
            referer@
        },
{
    if referer.is_empty() {
        uri.to_owned()
    } else {
        referer.to_owned()
    }
}

// ---------------------------------------------------------------------------
// Session headers
// ---------------------------------------------------------------------------

/// Whether a header, by its lower-case name, is sent again when the stream is
/// fetched later.
pub open spec fn is_session_header(name: Seq<char>) -> bool {
    name == "authorization"@ || name == "cookie"@ || name == "origin"@ || name == "referer"@
        || name == "security-token"@ || name == "security_token"@ || "x-"@.is_prefix_of(name)
}

/// The session headers of a request, by lower-case name. A header whose value
/// is no text is left out; of several with one name the last counts.
pub open spec fn session_headers_of(headers: Seq<(Seq<char>, Option<Seq<char>>)>) -> Seq<
    (Seq<char>, Seq<char>),
>
    decreases headers.len(),
{
    if headers.len() == 0 {
        Seq::empty()
    } else {
        let before = session_headers_of(headers.drop_last());
        let name = http::normal_name(headers.last().0);
        match headers.last().1 {
            Some(value) => if is_session_header(name) {
                http::with_header(before, name, value)
            } else {
                before
            },
            None => before,
        }
    }
}

/// The views of the headers of a request.
pub open spec fn request_views(headers: Seq<(String, Option<String>)>) -> Seq<
    (Seq<char>, Option<Seq<char>>),
> {
    headers.map_values(|h: (String, Option<String>)| (h.0@, model::text_view(h.1)))
}

/// A header name in lower case.
fn lower_name(name: &str) -> (out: String)
    ensures
        out@ == http::normal_name(name@),
{
    let chars = text::chars_of(name);
    let mut out = String::new();
    let mut i: usize = 0;
    while i < chars.len()
        invariant
            i <= chars.len(),
            chars@ == name@,
            out@ == http::normal_name(name@).take(i as int),
        decreases chars.len() - i,
    {
        out.push(text::to_ascii_lower(chars[i]));
        i += 1;
        assert(out@ =~= http::normal_name(name@).take(i as int));
    }
    assert(http::normal_name(name@).take(chars.len() as int) =~= http::normal_name(name@));
    out
}

/// Headers worth replaying when the engine fetches the stream later.
pub fn capture_headers(headers: &Vec<(String, Option<String>)>) -> (out: Vec<(String, String)>)
    ensures
        http::header_views(out@) == session_headers_of(request_views(headers@)),
{
    let ghost all = request_views(headers@);
    let mut out: Vec<(String, String)> = Vec::new();
    let mut i: usize = 0;
    assert(http::header_views(out@) =~= Seq::empty());
    while i < headers.len()
        invariant
            i <= headers.len(),
            all == request_views(headers@),
            http::header_views(out@) == session_headers_of(all.take(i as int)),
        decreases headers.len() - i,
    {
        assert(all.take(i + 1).drop_last() =~= all.take(i as int));
        assert(all.take(i + 1).last() == (
            headers@[i as int].0@,
            model::text_view(headers@[i as int].1),
        ));
        let name = lower_name(headers[i].0.as_str());
        let kept = {
            let n = name.as_str();
            text::same(n, "authorization") || text::same(n, "cookie") || text::same(n, "origin")
                || text::same(n, "referer") || text::same(n, "security-token")
                || text::same(n, "security_token") || text::begins_with(&text::chars_of(n), "x-")
        };
        match &headers[i].1 {
            Some(value) => {
                if kept {
                    set_header(&mut out, name, value.clone());
                }
            },
            None => {},
        }
        i += 1;
    }
    assert(all.take(all.len() as int) =~= all);
    out
}

// ---------------------------------------------------------------------------
// Detected streams
// ---------------------------------------------------------------------------

/// What a stream is called: the host of its page and the end of its URL.
pub open spec fn stream_title(page_url: Seq<char>, stream_url: Seq<char>) -> Seq<char> {
    let host = match urls::parsed(page_url) {
        Ok(page) => match urls::host_of(page) {
            Some(host) => host,
            None => "stream"@,
        },
        Err(_) => "stream"@,
    };
    host + " — "@ + text::after_last(text::until_any(stream_url, seq!['?', '#']), seq!['/'])
}

/// What a stream is called.
pub fn title_for(page_url: &str, stream_url: &str) -> (out: String)
    ensures
        out@ == stream_title(page_url@, stream_url@),
{
    let found = match parse_url(page_url) {
        Ok(page) => url_host(&page),
        Err(_) => None,
    };
    let host = match found {
        Some(host) => host,
        None => "stream".to_owned(),
    };
    let query = vec!['?', '#'];
    let slash = vec!['/'];
    assert(query@ =~= seq!['?', '#']);
    assert(slash@ =~= seq!['/']);
    let chars = text::chars_of(stream_url);
    let tail = text::string_of(&text::cut_after_last(&text::cut_until(&chars, &query), &slash));
    host.concat(" — ").concat(tail.as_str())
}

/// A detected stream with the headers of the request that it was detected by.
struct Captured {
    info: StreamInfo,
    headers: Vec<(String, String)>,
}

/// Detected streams, newest first in [`Sniffer::list`].
pub struct Sniffer {
    next_id: u64,
    streams: Vec<Captured>,
}

/// A detected stream with its headers, as a mathematical value.
pub struct CapturedView {
    pub info: StreamView,
    pub headers: Seq<(Seq<char>, Seq<char>)>,
}

/// The detected streams as a mathematical value.
pub struct SnifferView {
    /// The id that was given last.
    pub next_id: u64,
    /// The streams, oldest first.
    pub streams: Seq<CapturedView>,
}

impl View for Captured {
    type V = CapturedView;

    closed spec fn view(&self) -> CapturedView {
        CapturedView { info: self.info@, headers: http::header_views(self.headers@) }
    }
}

spec fn captured_views(streams: Seq<Captured>) -> Seq<CapturedView> {
    streams.map_values(|c: Captured| c@)
}

impl View for Sniffer {
    type V = SnifferView;

    closed spec fn view(&self) -> SnifferView {
        SnifferView { next_id: self.next_id, streams: captured_views(self.streams@) }
    }
}

/// Whether a URL was detected before.
pub open spec fn is_known(streams: Seq<CapturedView>, url: Seq<char>) -> bool {
    exists|i: int| 0 <= i < streams.len() && (#[trigger] streams[i]).info.url == url
}

/// A stream as it is first detected: one quality, its own URL.
pub open spec fn new_stream(id: u64, page_url: Seq<char>, url: Seq<char>) -> CapturedView {
    CapturedView {
        info: StreamView {
            id,
            kind: "hls"@,
            page_url,
            url,
            title: stream_title(page_url, url),
            is_drm: false,
            qualities: seq![QualityView { label: "best"@, url }],
        },
        headers: Seq::empty(),
    }
}

/// The position of the first stream with an id; the number of streams where
/// there is none.
pub open spec fn position_of(streams: Seq<CapturedView>, id: u64) -> int
    decreases streams.len(),
{
    if streams.len() == 0 || streams[0].info.id == id {
        0
    } else {
        1 + position_of(streams.drop_first(), id)
    }
}

/// A stream after its manifest was looked at; an empty list of qualities leaves
/// those that it has.
pub open spec fn inspected(
    stream: CapturedView,
    kind: Seq<char>,
    is_drm: bool,
    qualities: Seq<QualityView>,
) -> CapturedView {
    CapturedView {
        info: StreamView {
            kind,
            is_drm,
            qualities: if qualities.len() > 0 {
                qualities
            } else {
                stream.info.qualities
            },
            ..stream.info
        },
        ..stream
    }
}

/// The streams with the one with an id replaced.
pub open spec fn with_stream(streams: Seq<CapturedView>, id: u64, stream: CapturedView) -> Seq<
    CapturedView,
> {
    if position_of(streams, id) < streams.len() {
        streams.update(position_of(streams, id), stream)
    } else {
        streams
    }
}

/// What is downloaded of a stream: the quality that was picked or, where none
/// was or it does not exist, the stream itself. A protected stream is refused.
pub open spec fn stream_choice(
    streams: Seq<CapturedView>,
    id: u64,
    quality: Option<usize>,
) -> Result<Seq<char>, Seq<char>> {
    let at = position_of(streams, id);
    if at >= streams.len() {
        Err("stream not found"@)
    } else if streams[at].info.is_drm {
        Err("DRM-protected streams cannot be downloaded — they can only be played"@)
    } else {
        let info = streams[at].info;
        match quality {
            Some(i) => if i < info.qualities.len() {
                Ok(info.qualities[i as int].url)
            } else {
                Ok(info.url)
            },
            None => Ok(info.url),
        }
    }
}

impl Sniffer {
    /// Whether every id was given by the sniffer, from 1 on, ids grow with each
    /// stream, no URL is there twice and every stream has a quality.
    pub open spec fn wf(self) -> bool {
        &&& forall|i: int, j: int|
            0 <= i < j < self@.streams.len() ==> (#[trigger] self@.streams[i]).info.id < (
            #[trigger] self@.streams[j]).info.id
        &&& forall|i: int|
            0 <= i < self@.streams.len() ==> 1 <= (#[trigger] self@.streams[i]).info.id
                <= self@.next_id && self@.streams[i].info.qualities.len() > 0
        &&& forall|i: int, j: int|
            0 <= i < j < self@.streams.len() ==> (#[trigger] self@.streams[i]).info.url != (
            #[trigger] self@.streams[j]).info.url
    }

    /// No streams.
    pub fn new() -> (out: Sniffer)
        ensures
            out.wf(),
            out@ == (SnifferView { next_id: 0, streams: Seq::empty() }),
    {
        let out = Sniffer { next_id: 0, streams: Vec::new() };
        assert(out@.streams =~= Seq::empty());
        out
    }

    /// Whether the sniffer can give another id.
    pub fn has_ids_left(&self) -> (out: bool)
        ensures
            out == (self@.next_id < u64::MAX),
    {
        self.next_id < u64::MAX
    }

    /// Records one captured playlist request. Returns the id of the new stream
    /// when the URL was not seen before.
    pub fn observe(&mut self, page_url: &str, url: &str) -> (out: Option<u64>)
        requires
            old(self).wf(),
            old(self)@.next_id < u64::MAX,
        ensures
            final(self).wf(),
            match out {
                Some(id) => !is_known(old(self)@.streams, url@) && id == old(self)@.next_id + 1
                    && final(self)@ == (SnifferView {
                    next_id: id,
                    streams: old(self)@.streams.push(new_stream(id, page_url@, url@)),
                }),
                None => is_known(old(self)@.streams, url@) && final(self)@ == old(self)@,
            },
    {
        let mut i: usize = 0;
        while i < self.streams.len()
            invariant
                i <= self.streams.len(),
                *self == *old(self),
                old(self).wf(),
                forall|j: int|
                    0 <= j < i ==> (#[trigger] captured_views(self.streams@)[j]).info.url != url@,
            decreases self.streams.len() - i,
        {
            if text::same(self.streams[i].info.url.as_str(), url) {
                assert(self@.streams[i as int].info.url == url@);
                return None;
            }
            i += 1;
        }
        let id: u64 = self.next_id + 1;
        self.next_id = id;
        let mut qualities: Vec<Quality> = Vec::new();
        qualities.push(Quality { label: "best".to_owned(), url: url.to_owned() });
        let stream = Captured {
            info: StreamInfo {
                id,
                kind: "hls".to_owned(),
                page_url: page_url.to_owned(),
                url: url.to_owned(),
                title: title_for(page_url, url),
                is_drm: false,
                qualities,
            },
            headers: Vec::new(),
        };
        assert(stream@.info.qualities =~= seq![QualityView { label: "best"@, url: url@ }]);
        assert(stream@.headers =~= Seq::empty());
        assert(stream@ == new_stream(id, page_url@, url@));
        self.streams.push(stream);
        assert(self@.streams =~= old(self)@.streams.push(stream@));
        Some(id)
    }

    /// The position of the stream with an id.
    fn find(&self, id: u64) -> (out: Option<usize>)
        ensures
            match out {
                Some(i) => i < self.streams.len() && i == position_of(self@.streams, id)
                    && self@.streams[i as int] == self.streams@[i as int]@
                    && self.streams@[i as int].info.id == id,
                None => position_of(self@.streams, id) >= self@.streams.len(),
            },
    {
        let ghost all = self@.streams;
        let mut i: usize = 0;
        assert(all.skip(0) =~= all);
        while i < self.streams.len()
            invariant
                i <= self.streams.len(),
                all == captured_views(self.streams@),
                position_of(all, id) == i + position_of(all.skip(i as int), id),
            decreases self.streams.len() - i,
        {
            assert(all.skip(i as int)[0] == self.streams@[i as int]@);
            assert(all.skip(i as int).drop_first() =~= all.skip(i + 1));
            if self.streams[i].info.id == id {
                return Some(i);
            }
            i += 1;
        }
        None
    }

    /// Keeps the session headers that a stream was requested with.
    pub fn keep_headers(&mut self, id: u64, headers: Vec<(String, String)>)
        requires
            old(self).wf(),
        ensures
            final(self).wf(),
            final(self)@ == (SnifferView {
                streams: with_stream(
                    old(self)@.streams,
                    id,
                    CapturedView {
                        headers: http::header_views(headers@),
                        ..old(self)@.streams[position_of(old(self)@.streams, id)]
                    },
                ),
                ..old(self)@
            }),
    {
        let ghost before = self.streams@;
        match self.find(id) {
            Some(i) => {
                self.streams[i].headers = headers;
                assert(captured_views(self.streams@) =~= captured_views(before).update(
                    i as int,
                    self.streams@[i as int]@,
                ));
            },
            None => {},
        }
    }

    /// Fills in the quality list and DRM flag after the manifest was looked at.
    pub fn update(&mut self, id: u64, kind: &str, is_drm: bool, qualities: Vec<Quality>)
        requires
            old(self).wf(),
        ensures
            final(self).wf(),
            final(self)@ == (SnifferView {
                streams: with_stream(
                    old(self)@.streams,
                    id,
                    inspected(
                        old(self)@.streams[position_of(old(self)@.streams, id)],
                        kind@,
                        is_drm,
                        model::quality_views(qualities@),
                    ),
                ),
                ..old(self)@
            }),
    {
        let ghost before = self.streams@;
        match self.find(id) {
            Some(i) => {
                self.streams[i].info.kind = kind.to_owned();
                self.streams[i].info.is_drm = is_drm;
                if qualities.len() > 0 {
                    self.streams[i].info.qualities = qualities;
                }
                assert(captured_views(self.streams@) =~= captured_views(before).update(
                    i as int,
                    self.streams@[i as int]@,
                ));
            },
            None => {},
        }
    }

    /// The detected streams, newest first.
    pub fn list(&self) -> (out: Vec<StreamInfo>)
        ensures
            stream_views(out@) == listed(self@.streams),
    {
        let ghost all = self@.streams;
        let mut out: Vec<StreamInfo> = Vec::new();
        let mut i: usize = self.streams.len();
        while i > 0
            invariant
                i <= self.streams.len(),
                all == captured_views(self.streams@),
                stream_views(out@) == listed(all).take(all.len() - i),
            decreases i,
        {
            i -= 1;
            let ghost before = out@;
            let info = self.streams[i].info.clone();
            out.push(info);
            assert(stream_views(out@) =~= stream_views(before).push(info@));
            assert(all[i as int] == self.streams@[i as int]@);
            assert(stream_views(out@) =~= listed(all).take(all.len() - i));
        }
        assert(listed(all).take(all.len() as int) =~= listed(all));
        out
    }

    /// The stream with an id.
    pub fn stream(&self, id: u64) -> (out: Option<StreamInfo>)
        ensures
            match out {
                Some(info) => position_of(self@.streams, id) < self@.streams.len() && info@
                    == self@.streams[position_of(self@.streams, id)].info,
                None => position_of(self@.streams, id) >= self@.streams.len(),
            },
    {
        match self.find(id) {
            Some(i) => Some(self.streams[i].info.clone()),
            None => None,
        }
    }

    /// Forgets the detected streams.
    pub fn clear(&mut self)
        requires
            old(self).wf(),
        ensures
            final(self).wf(),
            final(self)@ == (SnifferView { streams: Seq::empty(), ..old(self)@ }),
    {
        self.streams = Vec::new();
        assert(self@.streams =~= Seq::empty());
    }

    /// The URL to download for a detected stream, optionally at a specific
    /// quality, and the session headers to fetch it with.
    pub fn download_stream(&self, id: u64, quality_index: Option<usize>) -> (out: Result<
        (String, Vec<(String, String)>),
        String,
    >)
        ensures
            match out {
                Ok(picked) => stream_choice(self@.streams, id, quality_index) == Ok::<
                    Seq<char>,
                    Seq<char>,
                >(picked.0@) && http::header_views(picked.1@)
                    == self@.streams[position_of(self@.streams, id)].headers,
                Err(message) => stream_choice(self@.streams, id, quality_index) == Err::<
                    Seq<char>,
                    Seq<char>,
                >(message@),
            },
    {
        let at: usize = match self.find(id) {
            Some(at) => at,
            None => return Err("stream not found".to_owned()),
        };
        let info = &self.streams[at].info;
        if info.is_drm {
            return Err(
                "DRM-protected streams cannot be downloaded — they can only be played".to_owned(),
            );
        }
        let url = match quality_index {
            Some(i) => if i < info.qualities.len() {
                assert(info@.qualities[i as int] == info.qualities@[i as int]@);
                info.qualities[i].url.clone()
            } else {
                info.url.clone()
            },
            None => info.url.clone(),
        };
        Ok((url, copy_headers(&self.streams[at].headers)))
    }
}

/// The views of some streams.
pub open spec fn stream_views(streams: Seq<StreamInfo>) -> Seq<StreamView> {
    streams.map_values(|s: StreamInfo| s@)
}

/// The detected streams as they are listed: newest first.
pub open spec fn listed(streams: Seq<CapturedView>) -> Seq<StreamView> {
    Seq::new(streams.len(), |i: int| streams[streams.len() - 1 - i].info)
}

/// The qualities of a playlist.
pub open spec fn hls_qualities_of(variants: Seq<VariantView>) -> Seq<QualityView> {
    variants.map_values(|v: VariantView| QualityView { label: v.label, url: v.url })
}

/// The qualities of a playlist.
pub fn hls_qualities(v: &HlsVariants) -> (out: Vec<Quality>)
    ensures
        model::quality_views(out@) == hls_qualities_of(v@.variants),
{
    let ghost all = hls_qualities_of(v@.variants);
    let mut out: Vec<Quality> = Vec::new();
    let mut i: usize = 0;
    while i < v.variants.len()
        invariant
            i <= v.variants.len(),
            all == hls_qualities_of(v@.variants),
            model::quality_views(out@) == all.take(i as int),
        decreases v.variants.len() - i,
    {
        let ghost before = out@;
        assert(v@.variants[i as int] == v.variants@[i as int]@);
        let q = Quality { label: v.variants[i].label.clone(), url: v.variants[i].url.clone() };
        out.push(q);
        assert(model::quality_views(out@) =~= model::quality_views(before).push(q@));
        i += 1;
        assert(model::quality_views(out@) =~= all.take(i as int));
    }
    assert(all.take(all.len() as int) =~= all);
    out
}

/// What the look at a manifest brought out.
pub struct Analysis {
    pub is_drm: bool,
    pub qualities: Vec<Quality>,
}

/// What the look at a playlist brought out: nothing where it could not be had.
pub fn hls_analysis(found: Result<HlsVariants, HlsError>) -> (out: Analysis)
    ensures
        match found {
            Ok(v) => out.is_drm == v@.is_drm && model::quality_views(out.qualities@)
                == hls_qualities_of(v@.variants),
            Err(_) => !out.is_drm && out.qualities@.len() == 0,
        },
{
    match found {
        Ok(v) => Analysis { is_drm: v.is_drm, qualities: hls_qualities(&v) },
        Err(_) => Analysis { is_drm: false, qualities: Vec::new() },
    }
}

/// What the look at a manifest brought out: nothing where it could not be had.
pub fn dash_analysis(url: &str, found: Result<DashManifest, DashError>) -> (out: Analysis)
    ensures
        match found {
            Ok(m) => out.is_drm == m@.is_drm && model::quality_views(out.qualities@)
                == run::dash_qualities_of(url@, m@.video),
            Err(_) => !out.is_drm && out.qualities@.len() == 0,
        },
{
    match found {
        Ok(m) => Analysis { is_drm: m.is_drm, qualities: dash_qualities(url, &m) },
        Err(_) => Analysis { is_drm: false, qualities: Vec::new() },
    }
}

// ---------------------------------------------------------------------------
// Laws
// ---------------------------------------------------------------------------

/// A stream that is protected is never downloaded, whatever quality is picked.
pub proof fn lemma_drm_refused(streams: Seq<CapturedView>, id: u64, quality: Option<usize>)
    requires
        position_of(streams, id) < streams.len(),
        streams[position_of(streams, id)].info.is_drm,
    ensures
        stream_choice(streams, id, quality) is Err,
{
}

/// The list shows the newest stream first: ids, which are at least 1, only fall
/// down the list. No URL is shown twice, and each stream shows a quality.
pub proof fn lemma_newest_first(s: Sniffer)
    requires
        s.wf(),
    ensures
        forall|i: int, j: int|
            0 <= i < j < listed(s@.streams).len() ==> (#[trigger] listed(s@.streams)[i]).id > (
            #[trigger] listed(s@.streams)[j]).id && listed(s@.streams)[i].url != listed(
                s@.streams,
            )[j].url,
        forall|i: int|
            0 <= i < listed(s@.streams).len() ==> (#[trigger] listed(s@.streams)[i]).id >= 1
                && listed(s@.streams)[i].qualities.len() > 0,
{
    let streams = s@.streams;
    assert forall|i: int, j: int| 0 <= i < j < listed(streams).len() implies (
    #[trigger] listed(streams)[i]).id > (#[trigger] listed(streams)[j]).id && listed(streams)[i].url
        != listed(streams)[j].url by {
        let a = streams.len() - 1 - i;
        let b = streams.len() - 1 - j;
        assert(streams[b].info.id < streams[a].info.id);
        assert(streams[b].info.url != streams[a].info.url);
    }
    assert forall|i: int| 0 <= i < listed(streams).len() implies (#[trigger] listed(streams)[i]).id
        >= 1 && listed(streams)[i].qualities.len() > 0 by {
        let a = streams.len() - 1 - i;
        assert(streams[a].info.id >= 1);
    }
}

} // verus!
