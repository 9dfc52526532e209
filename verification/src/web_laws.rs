//! What the clipboard, web pages, requests and the browser come to.

use crate::browser;
use crate::clipboard;
use crate::grabber::{ElementView, GrabView};
use crate::grabber;
use crate::http;
use crate::text;
use crate::text_laws;
use crate::urls;
use vstd::prelude::*;

verus! {

// ---------------------------------------------------------------------------
// File name endings
// ---------------------------------------------------------------------------

/// Whether an ending is that of a film.
pub open spec fn is_film(ext: Seq<char>) -> bool {
    ext == "mp4"@ || ext == "mkv"@ || ext == "webm"@ || ext == "avi"@ || ext == "mov"@ || ext
        == "ts"@
}

/// Whether an ending is that of a sound recording.
pub open spec fn is_recording(ext: Seq<char>) -> bool {
    ext == "mp3"@ || ext == "flac"@ || ext == "m4a"@ || ext == "wav"@ || ext == "ogg"@ || ext
        == "opus"@
}

/// Whether an ending is that of an archive, a document or a program.
pub open spec fn is_archive(ext: Seq<char>) -> bool {
    ext == "zip"@ || ext == "rar"@ || ext == "7z"@ || ext == "pdf"@ || ext == "apk"@ || ext
        == "iso"@
}

/// Whether an ending is that of a picture.
pub open spec fn is_picture(ext: Seq<char>) -> bool {
    ext == "jpg"@ || ext == "jpeg"@ || ext == "png"@ || ext == "gif"@ || ext == "webp"@
}

/// Films, recordings and archives are offered from the clipboard; on a page
/// pictures and the manifests of streams are collected too.
pub proof fn lemma_endings(ext: Seq<char>)
    ensures
        clipboard::is_offered_ext(ext) <==> is_film(ext) || is_recording(ext) || is_archive(ext),
        grabber::is_media(ext) <==> clipboard::is_offered_ext(ext) || is_picture(ext) || ext
            == "m3u8"@ || ext == "mpd"@,
{
}

// ---------------------------------------------------------------------------
// The clipboard
// ---------------------------------------------------------------------------

proof fn lemma_lower_parts(a: Seq<char>, b: Seq<char>, c: Seq<char>)
    requires
        vstd::utf8::is_ascii_chars(a + b + c),
    ensures
        vstd::utf8::is_ascii_chars(a),
        vstd::utf8::is_ascii_chars(b),
        vstd::utf8::is_ascii_chars(c),
        text::lower(a + b + c) == text::lower(a) + text::lower(b) + text::lower(c),
{
    let s = a + b + c;
    assert forall|i: int| 0 <= i < a.len() implies '\0' <= #[trigger] a[i] <= '\u{7f}' by {
        assert(s[i] == a[i]);
    }
    assert forall|i: int| 0 <= i < b.len() implies '\0' <= #[trigger] b[i] <= '\u{7f}' by {
        assert(s[a.len() + i] == b[i]);
    }
    assert forall|i: int| 0 <= i < c.len() implies '\0' <= #[trigger] c[i] <= '\u{7f}' by {
        assert(s[a.len() + b.len() + i] == c[i]);
    }
    assert(text::lower(s) =~= text::lower(a) + text::lower(b) + text::lower(c));
}

/// A URL is worth offering where it is a magnet link, or an HTTP URL whose path
/// has an offered ending behind its last dot, that holds `.m3u8` or `.mpd`, or
/// that ends in `.torrent`; letters may be of either case.
pub proof fn lemma_worth_offering(front: Seq<char>, ext: Seq<char>, rest: Seq<char>)
    requires
        vstd::utf8::is_ascii_chars(front + ext + rest),
        front.len() == 0 || front.last() == '.',
        forall|i: int|
            0 <= i < front.len() ==> #[trigger] front[i] != '?' && front[i] != '#',
        forall|i: int|
            0 <= i < ext.len() ==> #[trigger] ext[i] != '?' && ext[i] != '#' && ext[i] != '.',
        rest.len() == 0 || rest[0] == '?' || rest[0] == '#',
    ensures
        ({
            let url = front + ext + rest;
            let web = text_laws::begins_like(url, "http://"@) || text_laws::begins_like(
                url,
                "https://"@,
            );
            clipboard::worth_offering(url) <==> {
                ||| text_laws::begins_like(url, "magnet:"@)
                ||| web && clipboard::is_offered_ext(text::lower(ext))
                ||| web && text_laws::holds_like(url, ".m3u8"@)
                ||| web && text_laws::holds_like(url, ".mpd"@)
                ||| web && text_laws::ends_like(url, ".torrent"@)
            }
        }),
{
    let url = front + ext + rest;
    let low = text::lower(url);
    text_laws::lemma_either_case(url, "magnet:"@);
    text_laws::lemma_either_case(url, "http://"@);
    text_laws::lemma_either_case(url, "https://"@);
    text_laws::lemma_either_case(url, ".m3u8"@);
    text_laws::lemma_either_case(url, ".mpd"@);
    text_laws::lemma_either_case(url, ".torrent"@);
    lemma_lower_parts(front, ext, rest);
    let (f, e, r) = (text::lower(front), text::lower(ext), text::lower(rest));
    text_laws::lemma_case_of_ascii(front);
    text_laws::lemma_case_of_ascii(ext);
    text_laws::lemma_case_of_ascii(rest);
    let query = seq!['?', '#'];
    let dot = seq!['.'];
    assert(query[0] == '?' && query[1] == '#' && dot[0] == '.');
    assert(query.contains('?') && query.contains('#') && dot.contains('.'));
    let head = f + e;
    assert forall|i: int| 0 <= i < head.len() implies !query.contains(#[trigger] head[i]) by {
        if i < f.len() {
            assert(head[i] == f[i]);
            assert(front[i] != '?' && front[i] != '#');
        } else {
            assert(head[i] == e[i - f.len()]);
            assert(ext[i - f.len()] != '?');
        }
    }
    assert(rest.len() > 0 ==> r[0] == rest[0]);
    text_laws::lemma_until(head, query, r);
    assert forall|i: int| 0 <= i < e.len() implies !dot.contains(#[trigger] e[i]) by {
        assert(ext[i] != '.');
    }
    assert(front.len() > 0 ==> f.last() == '.');
    text_laws::lemma_after_last(f, dot, e);
}

/// The same of any URL, by its lower-case form.
pub proof fn lemma_any_worth_offering(
    url: Seq<char>,
    front: Seq<char>,
    ext: Seq<char>,
    rest: Seq<char>,
)
    requires
        text::lower(url) == front + ext + rest,
        front.len() == 0 || front.last() == '.',
        forall|i: int|
            0 <= i < front.len() ==> #[trigger] front[i] != '?' && front[i] != '#',
        forall|i: int|
            0 <= i < ext.len() ==> #[trigger] ext[i] != '?' && ext[i] != '#' && ext[i] != '.',
        rest.len() == 0 || rest[0] == '?' || rest[0] == '#',
    ensures
        ({
            let low = text::lower(url);
            let web = text_laws::begins(low, "http://"@) || text_laws::begins(low, "https://"@);
            clipboard::worth_offering(url) <==> {
                ||| text_laws::begins(low, "magnet:"@)
                ||| web && clipboard::is_offered_ext(ext)
                ||| web && text_laws::holds(low, ".m3u8"@)
                ||| web && text_laws::holds(low, ".mpd"@)
                ||| web && text_laws::ends(low, ".torrent"@)
            }
        }),
{
    let low = text::lower(url);
    text_laws::lemma_put_together(low, "magnet:"@);
    text_laws::lemma_put_together(low, "http://"@);
    text_laws::lemma_put_together(low, "https://"@);
    text_laws::lemma_put_together(low, ".m3u8"@);
    text_laws::lemma_put_together(low, ".mpd"@);
    text_laws::lemma_put_together(low, ".torrent"@);
    let query = seq!['?', '#'];
    let dot = seq!['.'];
    assert(query[0] == '?' && query[1] == '#' && dot[0] == '.');
    assert(query.contains('?') && query.contains('#') && dot.contains('.'));
    let head = front + ext;
    assert forall|i: int| 0 <= i < head.len() implies !query.contains(#[trigger] head[i]) by {
        if i < front.len() {
            assert(head[i] == front[i]);
        } else {
            assert(head[i] == ext[i - front.len()]);
        }
    }
    text_laws::lemma_until(head, query, rest);
    text_laws::lemma_after_last(front, dot, ext);
}

/// The characters that are taken off around a URL are quotes, brackets and the
/// comma.
pub proof fn lemma_wrapping(c: char)
    ensures
        clipboard::wrapping().contains(c) <==> {
            let n = c as int;
            n == 34 || n == 39 || n == 40 || n == 41 || n == 44 || n == 60 || n == 62 || n == 91
                || n == 93 || n == 123 || n == 125
        },
{
    let w = clipboard::wrapping();
    assert(w.len() == 11);
    assert(w[0] == '"' && w[1] == '\'' && w[2] == '(' && w[3] == ')' && w[4] == '[' && w[5] == ']'
        && w[6] == '<' && w[7] == '>' && w[8] == '{' && w[9] == '}' && w[10] == ',');
}

/// The first token worth offering, without what is around it, is found in a text;
/// where it is not worth offering the rest of the text is searched.
pub proof fn lemma_first_url(
    space: Seq<char>,
    left: Seq<char>,
    url: Seq<char>,
    right: Seq<char>,
    rest: Seq<char>,
)
    requires
        forall|i: int| 0 <= i < space.len() ==> text::whitespace().contains(#[trigger] space[i]),
        forall|i: int|
            0 <= i < left.len() ==> clipboard::wrapping().contains(#[trigger] left[i]),
        forall|i: int|
            0 <= i < right.len() ==> clipboard::wrapping().contains(#[trigger] right[i]),
        forall|i: int| 0 <= i < url.len() ==> !text::whitespace().contains(#[trigger] url[i]),
        left.len() + url.len() + right.len() > 0,
        url.len() > 0 ==> !clipboard::wrapping().contains(url[0])
            && !clipboard::wrapping().contains(url.last()),
        rest.len() == 0 || text::whitespace().contains(rest[0]),
    ensures
        clipboard::url_in(space + (left + url + right) + rest) == if clipboard::worth_offering(
            url,
        ) {
            Some(url)
        } else {
            clipboard::url_in(rest)
        },
        clipboard::url_in(space) is None,
{
    let token = left + url + right;
    assert forall|i: int| 0 <= i < token.len() implies !text::whitespace().contains(
        #[trigger] token[i],
    ) by {
        lemma_wrapping(token[i]);
        text_laws::lemma_whitespace(token[i]);
        if i < left.len() {
            assert(token[i] == left[i]);
        } else if i < left.len() + url.len() {
            assert(token[i] == url[i - left.len()]);
        } else {
            assert(token[i] == right[i - left.len() - url.len()]);
        }
    }
    text_laws::lemma_first_token(space, token, rest);
    text_laws::lemma_trimmed(left, url, right, clipboard::wrapping());
    let all = text::tokens(space + token + rest, 0);
    assert(all.drop_first() =~= text::tokens(rest, 0));
    text_laws::lemma_no_token(space);
}

/// The URL in a text of up to 4096 bytes is offered unless it was offered just
/// before; a longer text is not looked at.
pub proof fn lemma_offer(last: Option<Seq<char>>, s: Seq<char>)
    ensures
        text::byte_len(s) > 4096 ==> clipboard::offer(last, s) is None,
        text::byte_len(s) <= 4096 && clipboard::url_in(s) != last ==> clipboard::offer(last, s)
            == clipboard::url_in(s),
        clipboard::url_in(s) == last ==> clipboard::offer(last, s) is None,
        clipboard::url_in(s) is None ==> clipboard::offer(last, s) is None,
{
}

// ---------------------------------------------------------------------------
// Pages
// ---------------------------------------------------------------------------

/// Whether a character is an ASCII letter or digit.
pub open spec fn is_plain(c: char) -> bool {
    let n = c as int;
    48 <= n <= 57 || 65 <= n <= 90 || 97 <= n <= 122
}

proof fn lemma_leading(head: Seq<char>, rest: Seq<char>)
    requires
        forall|i: int| 0 <= i < head.len() ==> is_plain(#[trigger] head[i]),
        rest.len() == 0 || !is_plain(rest[0]),
    ensures
        grabber::leading_alphanumeric(head + rest) == head,
    decreases head.len(),
{
    let s = head + rest;
    if head.len() > 0 {
        assert(s[0] == head[0]);
        let tail = head.drop_first();
        assert forall|i: int| 0 <= i < tail.len() implies is_plain(#[trigger] tail[i]) by {
            assert(tail[i] == head[i + 1]);
        }
        lemma_leading(tail, rest);
        assert(s.drop_first() =~= tail + rest);
        assert(seq![head[0]] + tail =~= head);
    } else {
        assert(s =~= rest);
    }
}

/// The ending of a URL is the run of letters and digits behind the last dot of
/// its path, in lower case.
pub proof fn lemma_extension(
    url: Seq<char>,
    path: Seq<char>,
    front: Seq<char>,
    ext: Seq<char>,
    rest: Seq<char>,
    i: int,
)
    requires
        path == match urls::parsed(url) {
            Ok(u) => urls::path_of(u),
            Err(_) => url,
        },
        path == front + (ext + rest),
        front.len() == 0 || front.last() == '.',
        forall|j: int| 0 <= j < ext.len() ==> is_plain(#[trigger] ext[j]),
        forall|j: int| 0 <= j < rest.len() ==> #[trigger] rest[j] != '.',
        rest.len() == 0 || !is_plain(rest[0]),
    ensures
        grabber::extension_in(url).len() == ext.len(),
        0 <= i < ext.len() ==> grabber::extension_in(url)[i] as int == text_laws::lower_code(
            ext[i],
        ),
{
    let dot = seq!['.'];
    assert(dot.contains('.')) by {
        assert(dot[0] == '.');
    }
    let tail = ext + rest;
    assert forall|j: int| 0 <= j < tail.len() implies !dot.contains(#[trigger] tail[j]) by {
        if j < ext.len() {
            assert(tail[j] == ext[j]);
        } else {
            assert(tail[j] == rest[j - ext.len()]);
        }
    }
    text_laws::lemma_after_last(front, dot, tail);
    let low = |c: char| text::ascii_lower(c);
    let (e, r) = (ext.map_values(low), rest.map_values(low));
    assert(tail.map_values(low) =~= e + r);
    assert forall|j: int| 0 <= j < e.len() implies is_plain(#[trigger] e[j]) && e[j] as int
        == text_laws::lower_code(ext[j]) by {
        text_laws::lemma_letter_case(ext[j]);
        assert(is_plain(ext[j]));
    }
    if rest.len() > 0 {
        text_laws::lemma_letter_case(rest[0]);
    }
    lemma_leading(e, r);
    assert(tail.map_values(|c: char| text::ascii_lower(c)) =~= e + r);
}

/// An element is a link where its address, without white space around it and
/// joined to the page's, leads to a URL with the ending of media or a document.
/// It is called by its text, without white space around it, or by the path.
pub proof fn lemma_link(
    base: Seq<char>,
    element: ElementView,
    left: Seq<char>,
    address: Seq<char>,
    right: Seq<char>,
)
    requires
        element.href == Some(left + address + right),
        forall|i: int| 0 <= i < left.len() ==> text::whitespace().contains(#[trigger] left[i]),
        forall|i: int| 0 <= i < right.len() ==> text::whitespace().contains(#[trigger] right[i]),
        address.len() > 0,
        !text::whitespace().contains(address[0]),
        !text::whitespace().contains(address.last()),
    ensures
        ({
            let link = grabber::link_of(base, element);
            let script = "javascript:"@.is_prefix_of(address) || "mailto:"@.is_prefix_of(address);
            match urls::joined(base, address) {
                Ok(url) => {
                    &&& link is Some <==> !script && grabber::is_media(grabber::extension_in(url))
                    &&& link is Some ==> link->0.url == url && link->0.ext
                        == grabber::extension_in(url)
                    &&& link is Some && text::trim(element.text).len() > 0 ==> link->0.text
                        == text::trim(element.text)
                    &&& link is Some && text::trim(element.text).len() == 0 ==> link->0.text
                        == urls::path_of(url)
                },
                Err(_) => link is None,
            }
        }),
{
    text_laws::lemma_trimmed(left, address, right, text::whitespace());
}

/// An element without an address, or with white space alone, is no link.
pub proof fn lemma_no_link(base: Seq<char>, element: ElementView)
    requires
        element.href matches Some(href) ==> forall|i: int|
            0 <= i < href.len() ==> text::whitespace().contains(#[trigger] href[i]),
    ensures
        grabber::link_of(base, element) is None,
{
    if element.href is Some {
        let href = element.href->0;
        text_laws::lemma_trimmed(href, Seq::empty(), Seq::empty(), text::whitespace());
        assert(href + Seq::<char>::empty() + Seq::<char>::empty() =~= href);
    }
}

/// The links of a page stand in the order of its elements, the first to each URL
/// alone: an element adds its link at the end unless the URL is there already.
pub proof fn lemma_page_links(
    page_url: Seq<char>,
    base: Seq<char>,
    elements: Seq<ElementView>,
    element: ElementView,
)
    requires
        urls::parsed(page_url) == Ok::<Seq<char>, Seq<char>>(base),
    ensures
        ({
            let before = grabber::page_links(page_url, elements);
            let after = grabber::page_links(page_url, elements.push(element));
            let link = grabber::link_of(base, element);
            let known = exists|i: int|
                0 <= i < before.len() && (#[trigger] before[i]).url == link->0.url;
            &&& grabber::page_links(page_url, Seq::empty()).len() == 0
            &&& link is None || known ==> after == before
            &&& link is Some && !known ==> after == before.push(link->0)
        }),
{
    assert(elements.push(element).drop_last() =~= elements);
}

/// Every link of an element is found on its page, under its URL.
pub proof fn lemma_all_links(base: Seq<char>, elements: Seq<ElementView>, k: int)
    requires
        0 <= k < elements.len(),
        grabber::link_of(base, elements[k]) is Some,
    ensures
        exists|i: int|
            0 <= i < grabber::links_of(base, elements).len() && (#[trigger] grabber::links_of(
                base,
                elements,
            )[i]).url == grabber::link_of(base, elements[k])->0.url,
    decreases elements.len(),
{
    let front = elements.drop_last();
    let before = grabber::links_of(base, front);
    let all = grabber::links_of(base, elements);
    let url = grabber::link_of(base, elements[k])->0.url;
    if k < front.len() {
        lemma_all_links(base, front, k);
        let i = choose|i: int| 0 <= i < before.len() && (#[trigger] before[i]).url == url;
        assert(all[i].url == url);
    } else {
        assert(elements[k] == elements.last());
        if grabber::has_url(before, url) {
            let i = choose|i: int| 0 <= i < before.len() && (#[trigger] before[i]).url == url;
            assert(all[i].url == url);
        } else {
            assert(all[before.len() as int].url == url);
        }
    }
}

/// A page is searched for the anchors with an address; a page with an invalid URL
/// has no links.
pub proof fn lemma_anchors(page_url: Seq<char>, html: Seq<char>, elements: Seq<ElementView>)
    requires
        grabber::selected(html, "a[href]"@) == Some(elements),
    ensures
        grabber::links_in(page_url, html) == grabber::page_links(page_url, elements),
        urls::parsed(page_url) is Err ==> grabber::links_in(page_url, html).len() == 0,
{
}

/// The page that follows is where the first element leads from the page that was
/// read, provided that it has the origin of the start page.
pub proof fn lemma_next_page(
    start_url: Seq<char>,
    page_url: Seq<char>,
    elements: Seq<ElementView>,
    start: Seq<char>,
    base: Seq<char>,
    next: Seq<char>,
)
    requires
        urls::parsed(start_url) == Ok::<Seq<char>, Seq<char>>(start),
        urls::parsed(page_url) == Ok::<Seq<char>, Seq<char>>(base),
        elements.len() > 0,
        elements[0].href is Some,
        urls::joined(base, text::trim(elements[0].href->0)) == Ok::<Seq<char>, Seq<char>>(next),
    ensures
        grabber::next_url(start_url, page_url, elements) == if !urls::is_nested_blob(start)
            && !urls::is_nested_blob(next) && urls::one_origin(start, next) {
            Some(next)
        } else {
            None
        },
{
}

/// Without an element, an address on it or a valid URL, no page follows.
pub proof fn lemma_no_next_page(
    start_url: Seq<char>,
    page_url: Seq<char>,
    elements: Seq<ElementView>,
)
    requires
        elements.len() == 0 || elements[0].href is None || urls::parsed(start_url) is Err
            || urls::parsed(page_url) is Err || urls::joined(
            urls::parsed(page_url)->Ok_0,
            text::trim(elements[0].href->0),
        ) is Err,
    ensures
        grabber::next_url(start_url, page_url, elements) is None,
{
}

/// A walk starts at the page that it is given, with no link found, and visits as
/// many pages as are asked for, at least one and at most 50.
pub proof fn lemma_walk_start(start_url: Seq<char>, selector: Seq<char>, max_pages: usize)
    ensures
        ({
            let g = grabber::grab_start(start_url, selector, max_pages);
            &&& g.start == start_url && g.url == start_url && g.next_selector == selector
            &&& g.seen.len() == 0 && g.links.len() == 0 && !g.done
            &&& g.left == if max_pages == 0 {
                1
            } else if max_pages > 50 {
                50
            } else {
                max_pages as int
            }
        }),
{
}

/// A page is asked for unless the walk is over, no page is left or it was asked
/// for before; that uses up one page and ends the walk otherwise.
pub proof fn lemma_walk_request(g: GrabView)
    ensures
        ({
            let next = grabber::after_request(g);
            let fresh = forall|i: int| 0 <= i < g.seen.len() ==> #[trigger] g.seen[i] != g.url;
            &&& grabber::wants_page(g) <==> !g.done && g.left > 0 && fresh
            &&& grabber::wants_page(g) ==> next.seen == g.seen.push(g.url) && next.left == g.left
                - 1 && !next.done
            &&& !grabber::wants_page(g) ==> next.done && next.seen == g.seen && next.left == g.left
            &&& next.url == g.url && next.links == g.links && next.start == g.start
                && next.next_selector == g.next_selector
        }),
{
    if forall|i: int| 0 <= i < g.seen.len() ==> #[trigger] g.seen[i] != g.url {
        assert(!g.seen.contains(g.url));
    }
}

/// The links of a page that was read are added behind those of the pages before,
/// and the walk goes on exactly where a page follows.
pub proof fn lemma_walk_page(g: GrabView, html: Seq<char>, elements: Seq<ElementView>)
    ensures
        ({
            let next = grabber::after_page(g, html);
            let follow = grabber::next_url(g.start, g.url, elements);
            let usable = g.next_selector.len() > 0 && grabber::can_search(html, g.next_selector);
            let found = grabber::selected(html, g.next_selector) == Some(elements);
            &&& next.links == g.links + grabber::links_in(g.url, html)
            &&& next.seen == g.seen && next.left == g.left && next.start == g.start
                && next.next_selector == g.next_selector
            &&& !usable || grabber::selected(html, g.next_selector) is None ==> next.done
            &&& usable && found && follow is Some ==> next.url == follow->0 && next.done == g.done
            &&& usable && found && follow is None ==> next.done
        }),
{
}

// ---------------------------------------------------------------------------
// Requests
// ---------------------------------------------------------------------------

/// A header name is compared without regard to the case of its letters.
pub proof fn lemma_normal_name(s: Seq<char>, i: int)
    requires
        0 <= i < s.len(),
    ensures
        http::normal_name(s).len() == s.len(),
        http::normal_name(s)[i] as int == text_laws::lower_code(s[i]),
{
    text_laws::lemma_letter_case(s[i]);
}

/// Whether a header of a list is well formed and has a name.
pub open spec fn gives(h: (Seq<char>, Seq<char>), name: Seq<char>) -> bool {
    http::is_header_name(h.0) && http::is_header_value(h.1) && http::normal_name(h.0) == name
}

/// A client sends, under each name, the last well-formed header with the name;
/// headers that are not well formed are not sent. Where none is given, the user
/// agent is that of a desktop browser.
pub proof fn lemma_client(extra: Seq<(Seq<char>, Seq<char>)>, k: int)
    ensures
        0 <= k < extra.len() && http::is_header_name(extra[k].0) && http::is_header_value(
            extra[k].1,
        ) && (forall|j: int|
            k < j < extra.len() ==> !gives(#[trigger] extra[j], http::normal_name(extra[k].0)))
            ==> http::client_headers(extra).contains(
            (http::normal_name(extra[k].0), extra[k].1),
        ),
        forall|i: int|
            0 <= i < http::client_headers(extra).len() ==> {
                let h = #[trigger] http::client_headers(extra)[i];
                ||| exists|j: int|
                    0 <= j < extra.len() && #[trigger] gives(extra[j], h.0) && extra[j].1 == h.1
                ||| h == (
                    "user-agent"@,
                    "Mozilla/5.0 (Windows NT 10.0; Win64; x64) AppleWebKit/537.36 (KHTML, like Gecko) Chrome/126.0.0.0 Safari/537.36"@,
                )
            },
    decreases extra.len(),
{
    http::lemma_client_headers(extra);
    if extra.len() > 0 {
        let front = extra.drop_last();
        let last = extra.len() - 1;
        let before = http::client_headers(front);
        let out = http::client_headers(extra);
        lemma_client(front, k);
        http::lemma_client_headers(front);
        let name = http::normal_name(extra.last().0);
        http::lemma_set(before, name, extra.last().1);
        assert forall|j: int| 0 <= j < front.len() implies #[trigger] front[j] == extra[j] by {}
        if 0 <= k < last && http::is_header_name(extra[k].0) && http::is_header_value(extra[k].1)
            && (forall|j: int|
            k < j < extra.len() ==> !gives(#[trigger] extra[j], http::normal_name(extra[k].0))) {
            let h = (http::normal_name(extra[k].0), extra[k].1);
            assert(!gives(extra[last], h.0));
            assert(before.contains(h)) by {
                assert forall|j: int| k < j < front.len() implies !gives(
                    #[trigger] front[j],
                    http::normal_name(front[k].0),
                ) by {
                    assert(front[j] == extra[j]);
                }
            }
            let i = choose|i: int| 0 <= i < before.len() && before[i] == h;
            assert(out[i] == h);
        }
        assert forall|i: int| 0 <= i < out.len() implies {
            let h = #[trigger] out[i];
            ||| exists|j: int|
                0 <= j < extra.len() && #[trigger] gives(extra[j], h.0) && extra[j].1 == h.1
            ||| h == (
                "user-agent"@,
                "Mozilla/5.0 (Windows NT 10.0; Win64; x64) AppleWebKit/537.36 (KHTML, like Gecko) Chrome/126.0.0.0 Safari/537.36"@,
            )
        } by {
            let h = out[i];
            if http::is_header_name(extra.last().0) && http::is_header_value(extra.last().1)
                && h.0 == name {
                assert(gives(extra[last], h.0));
            } else {
                assert(before[i] == h);
                if exists|j: int|
                    0 <= j < front.len() && #[trigger] gives(front[j], h.0) && front[j].1 == h.1 {
                    let j = choose|j: int|
                        0 <= j < front.len() && #[trigger] gives(front[j], h.0) && front[j].1
                            == h.1;
                    assert(gives(extra[j], h.0));
                }
            }
        }
    }
}

// ---------------------------------------------------------------------------
// The browser
// ---------------------------------------------------------------------------

/// The browser opens what a text parses to, without white space around it, where
/// its scheme is `http` or `https`, and nothing else.
pub proof fn lemma_address(
    left: Seq<char>,
    address: Seq<char>,
    right: Seq<char>,
    scheme: Seq<char>,
    rest: Seq<char>,
)
    requires
        forall|i: int| 0 <= i < left.len() ==> text::whitespace().contains(#[trigger] left[i]),
        forall|i: int| 0 <= i < right.len() ==> text::whitespace().contains(#[trigger] right[i]),
        address.len() > 0 ==> !text::whitespace().contains(address[0])
            && !text::whitespace().contains(address.last()),
        forall|i: int| 0 <= i < scheme.len() ==> #[trigger] scheme[i] != ':',
        urls::parsed(address) matches Ok(url) ==> url == scheme + seq![':'] + rest,
    ensures
        ({
            let out = browser::address_of(left + address + right);
            match urls::parsed(address) {
                Ok(url) => if scheme == "http"@ || scheme == "https"@ {
                    out == Ok::<Seq<char>, Seq<char>>(url)
                } else {
                    out == Err::<Seq<char>, Seq<char>>("only http(s) URLs can be opened"@)
                },
                Err(why) => out == Err::<Seq<char>, Seq<char>>("invalid url: "@ + why),
            }
        }),
{
    text_laws::lemma_trimmed(left, address, right, text::whitespace());
    let colon = seq![':'];
    assert(colon.contains(':')) by {
        assert(colon[0] == ':');
    }
    if urls::parsed(address) is Ok {
        assert(scheme + (colon + rest) =~= scheme + colon + rest);
        text_laws::lemma_until(scheme, colon, colon + rest);
    }
}

/// The script sends the window to the text, without white space around it, as a
/// JSON string.
pub proof fn lemma_script(left: Seq<char>, address: Seq<char>, right: Seq<char>)
    requires
        forall|i: int| 0 <= i < left.len() ==> text::whitespace().contains(#[trigger] left[i]),
        forall|i: int| 0 <= i < right.len() ==> text::whitespace().contains(#[trigger] right[i]),
        address.len() > 0 ==> !text::whitespace().contains(address[0])
            && !text::whitespace().contains(address.last()),
    ensures
        browser::script_for(left + address + right) == "window.location.href = "@
            + browser::json_text(address) + ";"@,
{
    text_laws::lemma_trimmed(left, address, right, text::whitespace());
}

// ---------------------------------------------------------------------------
// Bounds
// ---------------------------------------------------------------------------

/// A page of up to 512 MiB can be searched with a selector of up to 1024 bytes;
/// one that looks inside elements only where none is nested in 255 others.
pub proof fn lemma_searchable(html: Seq<char>, selector: Seq<char>)
    ensures
        grabber::can_search(html, selector) <==> {
            &&& text::byte_len(html) <= 536_870_912
            &&& text::byte_len(selector) <= 1024
            &&& grabber::looks_inside(selector) ==> grabber::selected(
                html,
                grabber::nested_selector(256),
            ) == Some(Seq::<ElementView>::empty())
        },
        !selector.contains('(') && !selector.contains('\\') ==> !grabber::looks_inside(selector),
{
    if grabber::selected(html, grabber::nested_selector(256)) is Some {
        let found = grabber::selected(html, grabber::nested_selector(256))->0;
        assert(found.len() == 0 ==> found =~= Seq::<ElementView>::empty());
    }
    if !selector.contains('(') {
        let low = text::ascii_lowered(selector);
        reveal_strlit("has(");
        if text::contains_text(low, "has("@) {
            let i = choose|i: int|
                0 <= i <= low.len() - "has("@.len() && #[trigger] low.subrange(
                    i,
                    i + "has("@.len(),
                ) == "has("@;
            assert(low.subrange(i, i + 4)[3] == '(');
            text_laws::lemma_letter_case(selector[i + 3]);
            assert(selector[i + 3] == '(');
        }
    }
}

} // verus!
