//! What becomes of requests and of the streams that they lead to.

use crate::downloader::run;
use crate::dash::manifest::RepresentationView;
use crate::hls::variants::VariantView;
use crate::http;
use crate::model::QualityView;
use crate::sniffer::{CapturedView, Sniffer};
use crate::sniffer;
use crate::text;
use crate::text_laws;
use crate::urls;
use vstd::prelude::*;

verus! {

// ---------------------------------------------------------------------------
// Requests
// ---------------------------------------------------------------------------

/// Whether a host belongs to an advertiser or tracker.
pub open spec fn is_advertiser(host: Seq<char>) -> bool {
    host == "doubleclick.net"@
            || host == "googlesyndication.com"@
            || host == "googleadservices.com"@
            || host == "googletagmanager.com"@
            || host == "google-analytics.com"@
            || host == "adservice.google."@
            || host == "adnxs.com"@
            || host == "adsystem."@
            || host == "amazon-adsystem.com"@
            || host == "taboola.com"@
            || host == "outbrain.com"@
            || host == "criteo."@
            || host == "scorecardresearch.com"@
            || host == "quantserve.com"@
            || host == "moatads.com"@
            || host == "adsrvr.org"@
            || host == "pubmatic.com"@
            || host == "rubiconproject.com"@
            || host == "openx.net"@
            || host == "casalemedia.com"@
            || host == "smartadserver.com"@
            || host == "zeotap.com"@
            || host == "branch.io"@
            || host == "appsflyer.com"@
            || host == "adjust.com"@
            || host == "kochava.com"@
            || host == "hotjar.com"@
            || host == "fullstory.com"@
            || host == "chartbeat."@
            || host == "newrelic.com"@
            || host == "nr-data.net"@
            || host == "bugsnag.com"@
            || host == "crashlytics.com"@
            || host == "sent.io"@
            || host == "bidsxchange"@
            || host == "adform.net"@
            || host == "yieldmo.com"@
            || host == "sharethrough.com"@
            || host == "media.net"@
            || host == "revcontent.com"@
            || host == "mgid.com"@
            || host == "propellerads"@
            || host == "popads."@
            || host == "adcash.com"@
            || host == "exoclick.com"@
            || host == "juicyads"@
            || host == "trafficjunky"@
            || host == "adcolony"@
            || host == "vungle.com"@
            || host == "unityads"@
            || host == "applovin.com"@
            || host == "inmobi.com"@
            || host == "mopub.com"@
            || host == "fyber.com"@
            || host == "adtechus"@
            || host == "advertising.com"@
            || host == "ads.yahoo.com"@
            || host == "bing.com/bat.js"@
            || host == "clarity.ms"@
            || host == "yandex-metrica"@
            || host == "mc.yandex.ru"@
            || host == "top-fwz1.mail.ru"@
            || host == "adfox.ru"@
            || host == "an.yandex.ru"@
}

proof fn lemma_hosts()
    ensures
        forall|i: int|
            0 <= i < sniffer::ad_hosts().len() ==> is_advertiser(
                #[trigger] sniffer::ad_hosts()[i],
            ),
        forall|host: Seq<char>| #[trigger]
            is_advertiser(host) ==> sniffer::ad_hosts().contains(host),
{
    let ad = sniffer::ad_hosts();
    assert(ad.len() == 64);
    assert(ad[0] == "doubleclick.net"@);
    assert(ad[1] == "googlesyndication.com"@);
    assert(ad[2] == "googleadservices.com"@);
    assert(ad[3] == "googletagmanager.com"@);
    assert(ad[4] == "google-analytics.com"@);
    assert(ad[5] == "adservice.google."@);
    assert(ad[6] == "adnxs.com"@);
    assert(ad[7] == "adsystem."@);
    assert(ad[8] == "amazon-adsystem.com"@);
    assert(ad[9] == "taboola.com"@);
    assert(ad[10] == "outbrain.com"@);
    assert(ad[11] == "criteo."@);
    assert(ad[12] == "scorecardresearch.com"@);
    assert(ad[13] == "quantserve.com"@);
    assert(ad[14] == "moatads.com"@);
    assert(ad[15] == "adsrvr.org"@);
    assert(ad[16] == "pubmatic.com"@);
    assert(ad[17] == "rubiconproject.com"@);
    assert(ad[18] == "openx.net"@);
    assert(ad[19] == "casalemedia.com"@);
    assert(ad[20] == "smartadserver.com"@);
    assert(ad[21] == "zeotap.com"@);
    assert(ad[22] == "branch.io"@);
    assert(ad[23] == "appsflyer.com"@);
    assert(ad[24] == "adjust.com"@);
    assert(ad[25] == "kochava.com"@);
    assert(ad[26] == "hotjar.com"@);
    assert(ad[27] == "fullstory.com"@);
    assert(ad[28] == "chartbeat."@);
    assert(ad[29] == "newrelic.com"@);
    assert(ad[30] == "nr-data.net"@);
    assert(ad[31] == "bugsnag.com"@);
    assert(ad[32] == "crashlytics.com"@);
    assert(ad[33] == "sent.io"@);
    assert(ad[34] == "bidsxchange"@);
    assert(ad[35] == "adform.net"@);
    assert(ad[36] == "yieldmo.com"@);
    assert(ad[37] == "sharethrough.com"@);
    assert(ad[38] == "media.net"@);
    assert(ad[39] == "revcontent.com"@);
    assert(ad[40] == "mgid.com"@);
    assert(ad[41] == "propellerads"@);
    assert(ad[42] == "popads."@);
    assert(ad[43] == "adcash.com"@);
    assert(ad[44] == "exoclick.com"@);
    assert(ad[45] == "juicyads"@);
    assert(ad[46] == "trafficjunky"@);
    assert(ad[47] == "adcolony"@);
    assert(ad[48] == "vungle.com"@);
    assert(ad[49] == "unityads"@);
    assert(ad[50] == "applovin.com"@);
    assert(ad[51] == "inmobi.com"@);
    assert(ad[52] == "mopub.com"@);
    assert(ad[53] == "fyber.com"@);
    assert(ad[54] == "adtechus"@);
    assert(ad[55] == "advertising.com"@);
    assert(ad[56] == "ads.yahoo.com"@);
    assert(ad[57] == "bing.com/bat.js"@);
    assert(ad[58] == "clarity.ms"@);
    assert(ad[59] == "yandex-metrica"@);
    assert(ad[60] == "mc.yandex.ru"@);
    assert(ad[61] == "top-fwz1.mail.ru"@);
    assert(ad[62] == "adfox.ru"@);
    assert(ad[63] == "an.yandex.ru"@);
    assert forall|host: Seq<char>| #[trigger] is_advertiser(host) implies ad.contains(host) by {}
}

/// A request goes to an advertiser exactly where its address holds one of their
/// hosts, in letters of either case.
pub proof fn lemma_ads(uri: Seq<char>)
    requires
        vstd::utf8::is_ascii_chars(uri),
    ensures
        sniffer::goes_to_ads(uri) <==> exists|host: Seq<char>|
            #[trigger] is_advertiser(host) && text_laws::holds_like(uri, host),
{
    let ad = sniffer::ad_hosts();
    lemma_hosts();
    if sniffer::goes_to_ads(uri) {
        let i = choose|i: int|
            0 <= i < ad.len() && text::contains_text(text::lower(uri), #[trigger] ad[i]);
        assert(is_advertiser(ad[i]));
        text_laws::lemma_either_case(uri, ad[i]);
    }
    if exists|host: Seq<char>|
        #[trigger] is_advertiser(host) && text_laws::holds_like(uri, host) {
        let host = choose|host: Seq<char>|
            #[trigger] is_advertiser(host) && text_laws::holds_like(uri, host);
        text_laws::lemma_either_case(uri, host);
        assert(ad.contains(host));
        let i = choose|i: int| 0 <= i < ad.len() && ad[i] == host;
        assert(text::contains_text(text::lower(uri), ad[i]));
    }
}

/// An address asks for an HLS playlist where it holds `.m3u8`, and else for a
/// DASH manifest where it holds `.mpd`, in letters of either case.
pub proof fn lemma_manifest_kind(uri: Seq<char>)
    requires
        vstd::utf8::is_ascii_chars(uri),
    ensures
        text_laws::holds_like(uri, ".m3u8"@) ==> sniffer::manifest_kind(uri) == Some("hls"@),
        !text_laws::holds_like(uri, ".m3u8"@) && text_laws::holds_like(uri, ".mpd"@)
            ==> sniffer::manifest_kind(uri) == Some("dash"@),
        !text_laws::holds_like(uri, ".m3u8"@) && !text_laws::holds_like(uri, ".mpd"@)
            ==> sniffer::manifest_kind(uri) is None,
{
    text_laws::lemma_either_case(uri, ".m3u8"@);
    text_laws::lemma_either_case(uri, ".mpd"@);
}

// ---------------------------------------------------------------------------
// Session headers
// ---------------------------------------------------------------------------

/// Whether a header name is one that is kept with a stream, in letters of either
/// case.
pub open spec fn is_kept(name: Seq<char>) -> bool {
    ||| like(name, "authorization"@)
    ||| like(name, "cookie"@)
    ||| like(name, "origin"@)
    ||| like(name, "referer"@)
    ||| like(name, "security-token"@)
    ||| like(name, "security_token"@)
    ||| text_laws::begins_like(name, "x-"@)
}

/// Whether a text is a lower-case one in letters of either case.
pub open spec fn like(s: Seq<char>, low: Seq<char>) -> bool {
    s.len() == low.len() && text_laws::stands_at(s, low, 0)
}

proof fn lemma_like(s: Seq<char>, low: Seq<char>)
    ensures
        http::normal_name(s) == low <==> like(s, low),
        low.is_prefix_of(http::normal_name(s)) <==> text_laws::begins_like(s, low),
{
    let n = http::normal_name(s);
    assert forall|i: int| 0 <= i < s.len() implies (#[trigger] n[i]) as int
        == text_laws::lower_code(s[i]) by {
        text_laws::lemma_letter_case(s[i]);
    }
    if like(s, low) {
        assert forall|i: int| 0 <= i < low.len() implies n[i] == low[i] by {
            assert(text_laws::lower_code(s[0 + i]) == low[i] as int);
        }
        assert(n =~= low);
    }
    if text_laws::begins_like(s, low) {
        assert forall|i: int| 0 <= i < low.len() implies n.subrange(0, low.len() as int)[i]
            == low[i] by {
            assert(text_laws::lower_code(s[0 + i]) == low[i] as int);
        }
        assert(n.subrange(0, low.len() as int) =~= low);
    }
    if low.is_prefix_of(n) {
        assert forall|i: int| 0 <= i < low.len() implies text_laws::lower_code(s[0 + i]) == (
        #[trigger] low[i]) as int by {
            assert(n.subrange(0, low.len() as int)[i] == n[i]);
        }
    }
}

/// Whether a header is the last of a request that has a text and some name.
pub open spec fn is_last_of(
    headers: Seq<(Seq<char>, Option<Seq<char>>)>,
    k: int,
) -> bool {
    &&& 0 <= k < headers.len() && headers[k].1 is Some
    &&& forall|j: int|
        k < j < headers.len() && (#[trigger] headers[j]).1 is Some ==> http::normal_name(
            headers[j].0,
        ) != http::normal_name(headers[k].0)
}

/// The headers kept with a stream are, by lower-case name, the last of each name
/// of the request that is kept, and no others.
pub proof fn lemma_session_headers(headers: Seq<(Seq<char>, Option<Seq<char>>)>)
    ensures
        forall|k: int|
            #![trigger headers[k]]
            is_last_of(headers, k) && is_kept(headers[k].0) ==> sniffer::session_headers_of(
                headers,
            ).contains((http::normal_name(headers[k].0), headers[k].1->0)),
        forall|i: int|
            0 <= i < sniffer::session_headers_of(headers).len() ==> exists|k: int|
                #![trigger headers[k]]
                is_last_of(headers, k) && is_kept(headers[k].0) && (
                #[trigger] sniffer::session_headers_of(headers)[i]) == (
                    http::normal_name(headers[k].0),
                    headers[k].1->0,
                ),
        forall|i: int, j: int|
            0 <= i < j < sniffer::session_headers_of(headers).len() ==> (
            #[trigger] sniffer::session_headers_of(headers)[i]).0 != (
            #[trigger] sniffer::session_headers_of(headers)[j]).0,
    decreases headers.len(),
{
    if headers.len() > 0 {
        let front = headers.drop_last();
        let before = sniffer::session_headers_of(front);
        let out = sniffer::session_headers_of(headers);
        let last = headers.len() - 1;
        let (raw, value) = headers.last();
        let name = http::normal_name(raw);
        lemma_session_headers(front);
        lemma_kept(raw);
        assert(headers[last] == headers.last());
        assert forall|k: int| #![trigger headers[k]] is_last_of(headers, k) && k < last implies
            is_last_of(front, k) by {
            assert forall|j: int| k < j < front.len() && (#[trigger] front[j]).1 is Some implies
                http::normal_name(front[j].0) != http::normal_name(front[k].0) by {
                assert(front[j] == headers[j]);
            }
            assert(front[k] == headers[k]);
        }
        if value is Some && is_kept(raw) {
            http::lemma_set(before, name, value->0);
            assert(out == http::with_header(before, name, value->0));
        } else {
            assert(out == before);
        }
        assert forall|k: int|
            #![trigger headers[k]]
            is_last_of(headers, k) && is_kept(headers[k].0) implies out.contains(
            (http::normal_name(headers[k].0), headers[k].1->0),
        ) by {
            if k < last {
                assert(front[k] == headers[k]);
                let pair = (http::normal_name(headers[k].0), headers[k].1->0);
                assert(before.contains(pair));
                if value is Some && is_kept(raw) {
                    assert(pair.0 != name);
                    let i = choose|i: int| 0 <= i < before.len() && before[i] == pair;
                    assert(out[i] == before[i]);
                }
            }
        }
        assert forall|i: int| 0 <= i < out.len() implies exists|k: int|
            #![trigger headers[k]]
            is_last_of(headers, k) && is_kept(headers[k].0) && (#[trigger] out[i]) == (
                http::normal_name(headers[k].0),
                headers[k].1->0,
            ) by {
            if value is Some && is_kept(raw) && out[i].0 == name {
                assert(out[i] == (name, value->0));
                assert(is_last_of(headers, last) && is_kept(headers[last].0));
            } else {
                assert(before.contains(out[i])) by {
                    assert(out[i] == before[i]);
                }
                let m = choose|m: int| 0 <= m < before.len() && before[m] == out[i];
                let k = choose|k: int|
                    #![trigger front[k]]
                    is_last_of(front, k) && is_kept(front[k].0) && before[m] == (
                        http::normal_name(front[k].0),
                        front[k].1->0,
                    );
                assert(headers[k] == front[k]);
                assert forall|j: int|
                    k < j < headers.len() && (#[trigger] headers[j]).1 is Some implies
                    http::normal_name(headers[j].0) != http::normal_name(headers[k].0) by {
                    if j < last {
                        assert(front[j] == headers[j]);
                    } else if http::normal_name(raw) == http::normal_name(headers[k].0) {
                        lemma_kept(headers[k].0);
                        assert(out[i].0 == name);
                    }
                }
                assert(is_last_of(headers, k));
            }
        }
    }
}

proof fn lemma_kept(name: Seq<char>)
    ensures
        sniffer::is_session_header(http::normal_name(name)) <==> is_kept(name),
{
    lemma_like(name, "authorization"@);
    lemma_like(name, "cookie"@);
    lemma_like(name, "origin"@);
    lemma_like(name, "referer"@);
    lemma_like(name, "security-token"@);
    lemma_like(name, "security_token"@);
    lemma_like(name, "x-"@);
}

// ---------------------------------------------------------------------------
// Streams
// ---------------------------------------------------------------------------

/// A stream is found by its id where it stands, if no other before it has it.
pub proof fn lemma_position(streams: Seq<CapturedView>, k: int)
    requires
        0 <= k < streams.len(),
        forall|j: int| 0 <= j < k ==> (#[trigger] streams[j]).info.id != streams[k].info.id,
    ensures
        sniffer::position_of(streams, streams[k].info.id) == k,
    decreases k,
{
    if k > 0 {
        assert(streams[0].info.id != streams[k].info.id);
        let rest = streams.drop_first();
        assert forall|j: int| 0 <= j < k - 1 implies (#[trigger] rest[j]).info.id != rest[k
            - 1].info.id by {
            assert(rest[j] == streams[j + 1]);
        }
        lemma_position(rest, k - 1);
    }
}

/// An id that no stream has is not found.
pub proof fn lemma_no_position(streams: Seq<CapturedView>, id: u64)
    requires
        forall|j: int| 0 <= j < streams.len() ==> (#[trigger] streams[j]).info.id != id,
    ensures
        sniffer::position_of(streams, id) == streams.len(),
    decreases streams.len(),
{
    if streams.len() > 0 {
        assert(streams[0].info.id != id);
        let rest = streams.drop_first();
        assert forall|j: int| 0 <= j < rest.len() implies (#[trigger] rest[j]).info.id != id by {
            assert(rest[j] == streams[j + 1]);
        }
        lemma_no_position(rest, id);
    }
}

proof fn lemma_position_in(s: Sniffer, k: int)
    requires
        s.wf(),
        0 <= k < s@.streams.len(),
    ensures
        sniffer::position_of(s@.streams, s@.streams[k].info.id) == k,
{
    assert forall|j: int| 0 <= j < k implies (#[trigger] s@.streams[j]).info.id
        != s@.streams[k].info.id by {}
    lemma_position(s@.streams, k);
}

/// Of a stream that is not protected the quality that was picked is downloaded:
/// the URL is that of the quality at the picked place of its list. Where none was
/// picked, or there is none at the place, it is the URL of the stream.
pub proof fn lemma_picked_quality(s: Sniffer, k: int, picked: Option<usize>)
    requires
        s.wf(),
        0 <= k < s@.streams.len(),
        !s@.streams[k].info.is_drm,
    ensures
        ({
            let info = s@.streams[k].info;
            let out = sniffer::stream_choice(s@.streams, info.id, picked);
            &&& picked matches Some(i) ==> i < info.qualities.len() ==> out == Ok::<
                Seq<char>,
                Seq<char>,
            >(info.qualities[i as int].url)
            &&& picked matches Some(i) ==> i >= info.qualities.len() ==> out == Ok::<
                Seq<char>,
                Seq<char>,
            >(info.url)
            &&& picked is None ==> out == Ok::<Seq<char>, Seq<char>>(info.url)
        }),
{
    lemma_position_in(s, k);
}

/// Different picks lead to different URLs where the qualities have them.
pub proof fn lemma_picks_differ(s: Sniffer, k: int, i: usize, j: usize)
    requires
        s.wf(),
        0 <= k < s@.streams.len(),
        !s@.streams[k].info.is_drm,
        i < s@.streams[k].info.qualities.len(),
        j < s@.streams[k].info.qualities.len(),
        s@.streams[k].info.qualities[i as int].url != s@.streams[k].info.qualities[j as int].url,
    ensures
        sniffer::stream_choice(s@.streams, s@.streams[k].info.id, Some(i))
            != sniffer::stream_choice(s@.streams, s@.streams[k].info.id, Some(j)),
{
    lemma_picked_quality(s, k, Some(i));
    lemma_picked_quality(s, k, Some(j));
}

/// A protected stream and one that is not there are refused, each with its
/// message.
pub proof fn lemma_refused(s: Sniffer, k: int, id: u64, picked: Option<usize>)
    requires
        s.wf(),
        0 <= k < s@.streams.len(),
        forall|j: int| 0 <= j < s@.streams.len() ==> (#[trigger] s@.streams[j]).info.id != id,
    ensures
        s@.streams[k].info.is_drm ==> sniffer::stream_choice(
            s@.streams,
            s@.streams[k].info.id,
            picked,
        ) == Err::<Seq<char>, Seq<char>>(
            "DRM-protected streams cannot be downloaded — they can only be played"@,
        ),
        sniffer::stream_choice(s@.streams, id, picked) == Err::<Seq<char>, Seq<char>>(
            "stream not found"@,
        ),
{
    lemma_position_in(s, k);
    lemma_no_position(s@.streams, id);
}

/// A stream as it is first detected has the id that it is given, the address and
/// page that it was detected with, and itself as its one quality. It is not
/// protected and has no headers.
pub proof fn lemma_new_stream(id: u64, page_url: Seq<char>, url: Seq<char>)
    ensures
        ({
            let stream = sniffer::new_stream(id, page_url, url);
            &&& stream.info.id == id && stream.info.page_url == page_url && stream.info.url == url
            &&& stream.info.kind == "hls"@ && !stream.info.is_drm
            &&& stream.info.title == sniffer::stream_title(page_url, url)
            &&& stream.info.qualities.len() == 1 && stream.info.qualities[0].url == url
                && stream.info.qualities[0].label == "best"@
            &&& stream.headers.len() == 0
        }),
{
}

/// A stream is called by the host of its page and the last part of its path:
/// what stands behind its last slash, without query and fragment.
pub proof fn lemma_title(
    page_url: Seq<char>,
    path: Seq<char>,
    name: Seq<char>,
    rest: Seq<char>,
)
    requires
        path.len() == 0 || path.last() == '/',
        forall|i: int| 0 <= i < path.len() ==> #[trigger] path[i] != '?' && path[i] != '#',
        forall|i: int|
            0 <= i < name.len() ==> #[trigger] name[i] != '?' && name[i] != '#' && name[i] != '/',
        rest.len() == 0 || rest[0] == '?' || rest[0] == '#',
    ensures
        sniffer::stream_title(page_url, path + name + rest) == (match urls::parsed(page_url) {
            Ok(page) => match urls::host_of(page) {
                Some(host) => host,
                None => "stream"@,
            },
            Err(_) => "stream"@,
        }) + " — "@ + name,
{
    let query = seq!['?', '#'];
    let slash = seq!['/'];
    assert(query.contains('?') && query.contains('#')) by {
        assert(query[0] == '?' && query[1] == '#');
    }
    assert(slash.contains('/')) by {
        assert(slash[0] == '/');
    }
    let head = path + name;
    assert forall|i: int| 0 <= i < head.len() implies !query.contains(#[trigger] head[i]) by {
        if i < path.len() {
            assert(head[i] == path[i]);
        } else {
            assert(head[i] == name[i - path.len()]);
        }
    }
    text_laws::lemma_until(head, query, rest);
    text_laws::lemma_after_last(path, slash, name);
}

/// Looking at the manifest of a stream sets its kind, its protection and, where
/// some were found, its qualities; everything else of it stays, and so do all
/// other streams.
pub proof fn lemma_inspected(
    s: Sniffer,
    k: int,
    other: int,
    kind: Seq<char>,
    is_drm: bool,
    qualities: Seq<QualityView>,
)
    requires
        s.wf(),
        0 <= k < s@.streams.len(),
        0 <= other < s@.streams.len(),
        other != k,
    ensures
        ({
            let was = s@.streams[k];
            let out = sniffer::with_stream(
                s@.streams,
                was.info.id,
                sniffer::inspected(was, kind, is_drm, qualities),
            );
            &&& out.len() == s@.streams.len()
            &&& out[other] == s@.streams[other]
            &&& out[k].info.kind == kind && out[k].info.is_drm == is_drm
            &&& qualities.len() > 0 ==> out[k].info.qualities == qualities
            &&& qualities.len() == 0 ==> out[k].info.qualities == was.info.qualities
            &&& out[k].info.id == was.info.id && out[k].info.url == was.info.url
                && out[k].info.page_url == was.info.page_url && out[k].info.title == was.info.title
            &&& out[k].headers == was.headers
        }),
{
    lemma_position_in(s, k);
}

/// The streams are listed from the last detected to the first, each with all that
/// is known of it.
pub proof fn lemma_listed(streams: Seq<CapturedView>, last: CapturedView)
    ensures
        sniffer::listed(Seq::empty()).len() == 0,
        sniffer::listed(streams.push(last)) == seq![last.info] + sniffer::listed(streams),
{
    assert(sniffer::listed(streams.push(last)) =~= seq![last.info] + sniffer::listed(streams));
}

/// The qualities of a playlist are its variants, and those of a manifest its
/// videos, each under its label, in order. The address of a video is that of the
/// manifest with the id of the video behind `#rep=`.
pub proof fn lemma_quality_lists(
    variants: Seq<VariantView>,
    url: Seq<char>,
    video: Seq<RepresentationView>,
)
    ensures
        sniffer::hls_qualities_of(variants).len() == variants.len(),
        forall|i: int|
            0 <= i < variants.len() ==> (#[trigger] sniffer::hls_qualities_of(variants)[i]).label
                == variants[i].label && sniffer::hls_qualities_of(variants)[i].url
                == variants[i].url,
        run::dash_qualities_of(url, video).len() == video.len(),
        forall|i: int|
            0 <= i < video.len() ==> (#[trigger] run::dash_qualities_of(url, video)[i]).label
                == video[i].label && run::dash_qualities_of(url, video)[i].url == url + "#rep="@
                + video[i].id,
{
}

/// A URL is known exactly where a stream with it was detected.
pub proof fn lemma_known(streams: Seq<CapturedView>, stream: CapturedView, url: Seq<char>)
    ensures
        !sniffer::is_known(Seq::empty(), url),
        sniffer::is_known(streams.push(stream), url) <==> sniffer::is_known(streams, url)
            || stream.info.url == url,
{
    let all = streams.push(stream);
    if sniffer::is_known(streams, url) {
        let i = choose|i: int| 0 <= i < streams.len() && (#[trigger] streams[i]).info.url == url;
        assert(all[i].info.url == url);
    }
    if stream.info.url == url {
        assert(all[streams.len() as int].info.url == url);
    }
    if sniffer::is_known(all, url) {
        let i = choose|i: int| 0 <= i < all.len() && (#[trigger] all[i]).info.url == url;
        if i < streams.len() {
            assert(streams[i].info.url == url);
        }
    }
}

/// A request goes to an advertiser, and one is for a manifest, by the lower-case
/// form of its address: what it holds decides, HLS before DASH.
pub proof fn lemma_any_request(uri: Seq<char>)
    ensures
        sniffer::goes_to_ads(uri) <==> exists|host: Seq<char>|
            #[trigger] is_advertiser(host) && text_laws::holds(text::lower(uri), host),
        ({
            let hls = text_laws::holds(text::lower(uri), ".m3u8"@);
            let dash = text_laws::holds(text::lower(uri), ".mpd"@);
            &&& hls ==> sniffer::manifest_kind(uri) == Some("hls"@)
            &&& !hls && dash ==> sniffer::manifest_kind(uri) == Some("dash"@)
            &&& !hls && !dash ==> sniffer::manifest_kind(uri) is None
        }),
{
    let low = text::lower(uri);
    text_laws::lemma_put_together(low, ".m3u8"@);
    text_laws::lemma_put_together(low, ".mpd"@);
    lemma_hosts();
    if sniffer::goes_to_ads(uri) {
        let i = choose|i: int|
            0 <= i < sniffer::ad_hosts().len() && text::contains_text(
                low,
                #[trigger] sniffer::ad_hosts()[i],
            );
        text_laws::lemma_put_together(low, sniffer::ad_hosts()[i]);
        assert(is_advertiser(sniffer::ad_hosts()[i]));
    }
    if exists|host: Seq<char>| #[trigger] is_advertiser(host) && text_laws::holds(low, host) {
        let host = choose|host: Seq<char>|
            #[trigger] is_advertiser(host) && text_laws::holds(low, host);
        text_laws::lemma_put_together(low, host);
        assert(sniffer::ad_hosts().contains(host));
        let i = choose|i: int|
            0 <= i < sniffer::ad_hosts().len() && sniffer::ad_hosts()[i] == host;
        assert(text::contains_text(low, sniffer::ad_hosts()[i]));
    }
}

} // verus!
