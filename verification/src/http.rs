//! Headers of the shared HTTP client.
//!
//! The downloader sends the same headers and cookies as the embedded browser,
//! so that authenticated streams work out of the box. Callers pass the headers
//! that were captured with the stream.

use crate::text;
use reqwest::header::{HeaderName, HeaderValue};
use vstd::prelude::*;

verus! {

/// Desktop Chrome user agent; many CDNs reject bare programmatic clients.
pub const DEFAULT_USER_AGENT: &'static str =
    "Mozilla/5.0 (Windows NT 10.0; Win64; x64) AppleWebKit/537.36 (KHTML, like Gecko) Chrome/126.0.0.0 Safari/537.36";

/// The longest header name.
pub const MAX_NAME_LEN: usize = 65535;

/// Whether a character may stand in a header name.
pub open spec fn is_token_char(c: char) -> bool {
    ('a' <= c && c <= 'z') || ('A' <= c && c <= 'Z') || ('0' <= c && c <= '9') || c == '!' || c
        == '#' || c == '$' || c == '%' || c == '&' || c == '\'' || c == '*' || c == '+' || c == '-'
        || c == '.' || c == '^' || c == '_' || c == '`' || c == '|' || c == '~'
}

/// Whether a text is a header name.
pub open spec fn is_header_name(s: Seq<char>) -> bool {
    &&& 1 <= s.len() <= MAX_NAME_LEN
    &&& forall|i: int| 0 <= i < s.len() ==> is_token_char(#[trigger] s[i])
}

/// A header name as it is compared: in lower case.
pub open spec fn normal_name(s: Seq<char>) -> Seq<char> {
    s.map_values(|c: char| text::ascii_lower(c))
}

/// Whether a text is a header value: no control characters but the tab.
pub open spec fn is_header_value(s: Seq<char>) -> bool {
    forall|i: int|
        0 <= i < s.len() ==> {
            let c = #[trigger] s[i];
            (c as u32 >= 32 && c as u32 != 127) || c as u32 == 9
        }
}

/// Calls `reqwest::header::HeaderName::from_bytes` on the bytes of a text: it
/// accepts names of 1 to 65535 token characters and puts them in lower case.
#[verifier::external_body]
fn header_name(s: &str) -> (out: Option<String>)
    ensures
        match out {
            Some(name) => is_header_name(s@) && name@ == normal_name(s@),
            None => !is_header_name(s@),
        },
{
    HeaderName::from_bytes(s.as_bytes()).ok().map(|n| n.as_str().to_string())
}

/// Calls `reqwest::header::HeaderValue::from_str` and says whether it accepts
/// the text: every character but the control characters other than the tab.
#[verifier::external_body]
fn accepts_value(s: &str) -> (out: bool)
    ensures
        out == is_header_value(s@),
{
    HeaderValue::from_str(s).is_ok()
}

/// A list of headers with one added; the same name is replaced where it stands.
pub open spec fn with_header(
    headers: Seq<(Seq<char>, Seq<char>)>,
    name: Seq<char>,
    value: Seq<char>,
) -> Seq<(Seq<char>, Seq<char>)>
    decreases headers.len(),
{
    if headers.len() == 0 {
        seq![(name, value)]
    } else if headers[0].0 == name {
        seq![(name, value)] + headers.drop_first()
    } else {
        seq![headers[0]] + with_header(headers.drop_first(), name, value)
    }
}

/// The headers of a client: the user agent and, in turn, each extra header that
/// is well formed.
pub open spec fn client_headers(extra: Seq<(Seq<char>, Seq<char>)>) -> Seq<
    (Seq<char>, Seq<char>),
>
    decreases extra.len(),
{
    if extra.len() == 0 {
        seq![("user-agent"@, DEFAULT_USER_AGENT@)]
    } else {
        let before = client_headers(extra.drop_last());
        if is_header_name(extra.last().0) && is_header_value(extra.last().1) {
            with_header(before, normal_name(extra.last().0), extra.last().1)
        } else {
            before
        }
    }
}

/// The views of some headers.
pub open spec fn header_views(headers: Seq<(String, String)>) -> Seq<(Seq<char>, Seq<char>)> {
    headers.map_values(|h: (String, String)| (h.0@, h.1@))
}

/// A copy of some headers.
pub fn copy_headers(headers: &Vec<(String, String)>) -> (out: Vec<(String, String)>)
    ensures
        header_views(out@) == header_views(headers@),
{
    let mut out: Vec<(String, String)> = Vec::new();
    let mut i: usize = 0;
    while i < headers.len()
        invariant
            i <= headers.len(),
            header_views(out@) == header_views(headers@).take(i as int),
        decreases headers.len() - i,
    {
        let ghost before = out@;
        out.push((headers[i].0.clone(), headers[i].1.clone()));
        assert(header_views(out@) =~= header_views(before).push(
            (headers@[i as int].0@, headers@[i as int].1@),
        ));
        i += 1;
    }
    assert(header_views(headers@).take(headers.len() as int) =~= header_views(
        headers@,
    ));
    out
}

/// Sets a header; the same name is replaced where it stands.
pub fn set_header(headers: &mut Vec<(String, String)>, name: String, value: String)
    ensures
        header_views(final(headers)@) == with_header(
            header_views(old(headers)@),
            name@,
            value@,
        ),
{
    let ghost all = header_views(headers@);
    let mut i: usize = 0;
    assert(all.skip(0) =~= all);
    assert(all.take(0) + with_header(all.skip(0), name@, value@) =~= with_header(
        all,
        name@,
        value@,
    ));
    while i < headers.len()
        invariant
            i <= headers.len(),
            headers@ == old(headers)@,
            all == header_views(headers@),
            with_header(all, name@, value@) == all.take(i as int) + with_header(
                all.skip(i as int),
                name@,
                value@,
            ),
        decreases headers.len() - i,
    {
        let ghost rest = all.skip(i as int);
        assert(rest[0] == (headers@[i as int].0@, headers@[i as int].1@));
        assert(rest.drop_first() =~= all.skip(i + 1));
        if text::same(headers[i].0.as_str(), name.as_str()) {
            headers.set(i, (name, value));
            assert(header_views(headers@) =~= all.take(i as int) + (seq![(name@, value@)]
                + rest.drop_first()));
            return;
        }
        assert(all.take(i as int) + (seq![rest[0]] + with_header(
            rest.drop_first(),
            name@,
            value@,
        )) =~= all.take(i + 1) + with_header(all.skip(i + 1), name@, value@));
        i += 1;
    }
    headers.push((name, value));
    assert(all.skip(all.len() as int) =~= Seq::empty());
    assert(header_views(headers@) =~= all.take(all.len() as int) + seq![(name@, value@)]);
}

/// The headers of a client: the desktop user agent plus any captured session
/// headers, such as `authorization`, `security_token` or
/// `x-playback-session-id`. Headers that are not well formed are left out.
pub fn session_headers(extra: &Vec<(String, String)>) -> (out: Vec<(String, String)>)
    ensures
        header_views(out@) == client_headers(header_views(extra@)),
{
    let ghost all = header_views(extra@);
    let mut out: Vec<(String, String)> = Vec::new();
    out.push(("user-agent".to_owned(), DEFAULT_USER_AGENT.to_owned()));
    assert(header_views(out@) =~= seq![("user-agent"@, DEFAULT_USER_AGENT@)]);
    let mut i: usize = 0;
    while i < extra.len()
        invariant
            i <= extra.len(),
            all == header_views(extra@),
            header_views(out@) == client_headers(all.take(i as int)),
        decreases extra.len() - i,
    {
        assert(all.take(i + 1).drop_last() =~= all.take(i as int));
        assert(all.take(i + 1).last() == (extra@[i as int].0@, extra@[i as int].1@));
        if accepts_value(extra[i].1.as_str()) {
            match header_name(extra[i].0.as_str()) {
                Some(name) => {
                    set_header(&mut out, name, extra[i].1.clone());
                },
                None => {},
            }
        }
        i += 1;
    }
    assert(all.take(all.len() as int) =~= all);
    out
}

/// No name is sent twice, and a user agent is always sent.
pub proof fn lemma_client_headers(extra: Seq<(Seq<char>, Seq<char>)>)
    ensures
        forall|i: int, j: int|
            0 <= i < j < client_headers(extra).len() ==> (#[trigger] client_headers(extra)[i]).0
                != (#[trigger] client_headers(extra)[j]).0,
        client_headers(extra).len() > 0,
        client_headers(extra)[0].0 == "user-agent"@,
    decreases extra.len(),
{
    if extra.len() > 0 {
        lemma_client_headers(extra.drop_last());
        lemma_with_header(
            client_headers(extra.drop_last()),
            normal_name(extra.last().0),
            extra.last().1,
        );
    }
}

/// Setting a header gives the name its value, once, and changes no other header:
/// a name that is there keeps its place, and a new one goes to the end.
pub proof fn lemma_set(
    headers: Seq<(Seq<char>, Seq<char>)>,
    name: Seq<char>,
    value: Seq<char>,
)
    requires
        forall|i: int, j: int|
            0 <= i < j < headers.len() ==> (#[trigger] headers[i]).0 != (#[trigger] headers[j]).0,
    ensures
        ({
            let out = with_header(headers, name, value);
            &&& out.contains((name, value))
            &&& forall|i: int|
                0 <= i < out.len() && (#[trigger] out[i]).0 == name ==> out[i].1 == value
            &&& forall|i: int|
                0 <= i < headers.len() && (#[trigger] headers[i]).0 != name ==> out[i]
                    == headers[i]
            &&& forall|i: int|
                0 <= i < out.len() && (#[trigger] out[i]).0 != name ==> i < headers.len()
                    && out[i] == headers[i]
            &&& forall|i: int, j: int|
                0 <= i < j < out.len() ==> (#[trigger] out[i]).0 != (#[trigger] out[j]).0
            &&& headers.len() <= out.len() <= headers.len() + 1
        }),
    decreases headers.len(),
{
    lemma_with_header(headers, name, value);
    let out = with_header(headers, name, value);
    if headers.len() == 0 {
        assert(out[0] == (name, value));
    } else if headers[0].0 == name {
        assert(out[0] == (name, value));
        assert forall|i: int| 0 < i < out.len() implies #[trigger] out[i] == headers[i] by {}
        assert forall|i: int| 0 < i < headers.len() implies (#[trigger] headers[i]).0 != name by {
            assert(headers[0].0 != headers[i].0);
        }
    } else {
        let rest = headers.drop_first();
        let tail = with_header(rest, name, value);
        assert forall|i: int, j: int| 0 <= i < j < rest.len() implies (#[trigger] rest[i]).0 != (
        #[trigger] rest[j]).0 by {
            assert(headers[i + 1].0 != headers[j + 1].0);
        }
        lemma_set(rest, name, value);
        let m = choose|m: int| 0 <= m < tail.len() && tail[m] == (name, value);
        assert(out[m + 1] == (name, value));
        assert forall|i: int| 0 <= i < out.len() && (#[trigger] out[i]).0 == name implies out[i].1
            == value by {
            if i > 0 {
                assert(out[i] == tail[i - 1]);
            }
        }
        assert forall|i: int| 0 <= i < headers.len() && (#[trigger] headers[i]).0 != name implies
            out[i] == headers[i] by {
            if i > 0 {
                assert(rest[i - 1] == headers[i]);
                assert(out[i] == tail[i - 1]);
            }
        }
        assert forall|i: int| 0 <= i < out.len() && (#[trigger] out[i]).0 != name implies i
            < headers.len() && out[i] == headers[i] by {
            if i > 0 {
                assert(out[i] == tail[i - 1]);
                assert(rest[i - 1] == headers[i]);
            }
        }
    }
}

/// Setting a header keeps the names distinct and in place.
proof fn lemma_with_header(
    headers: Seq<(Seq<char>, Seq<char>)>,
    name: Seq<char>,
    value: Seq<char>,
)
    requires
        forall|i: int, j: int|
            0 <= i < j < headers.len() ==> (#[trigger] headers[i]).0 != (#[trigger] headers[j]).0,
    ensures
        forall|i: int, j: int|
            0 <= i < j < with_header(headers, name, value).len() ==> (
            #[trigger] with_header(headers, name, value)[i]).0 != (
            #[trigger] with_header(headers, name, value)[j]).0,
        forall|i: int|
            0 <= i < headers.len() ==> (#[trigger] with_header(headers, name, value)[i]).0
                == headers[i].0,
        with_header(headers, name, value).len() == headers.len() || (with_header(
            headers,
            name,
            value,
        ).len() == headers.len() + 1 && with_header(headers, name, value).last() == (name, value)
            && forall|i: int| 0 <= i < headers.len() ==> (#[trigger] headers[i]).0 != name),
    decreases headers.len(),
{
    if headers.len() > 0 && headers[0].0 != name {
        let rest = headers.drop_first();
        lemma_with_header(rest, name, value);
        let out = with_header(headers, name, value);
        let tail = with_header(rest, name, value);
        assert forall|i: int| 0 <= i < headers.len() implies (#[trigger] out[i]).0
            == headers[i].0 by {
            if i > 0 {
                assert(out[i] == tail[i - 1]);
                assert(rest[i - 1] == headers[i]);
            }
        }
        assert forall|i: int| 0 <= i < headers.len() && out.len() > headers.len() implies (
        #[trigger] headers[i]).0 != name by {
            if i > 0 {
                assert(rest[i - 1] == headers[i]);
            }
        }
    }
}

} // verus!
