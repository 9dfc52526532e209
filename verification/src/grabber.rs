//! Website grabber: collects media and document links of a page and of the
//! pages that follow it, on the same origin and bounded in number.

use crate::model;
use crate::text;
use crate::urls::{join_url, nests_blobs, parse_url, same_origin, url_path, url_string};
use crate::urls;
use crate::workers;
use dom_query::{Document, Matcher};
use url::Url;
use vstd::prelude::*;

verus! {

/// A link to a media file or document.
#[derive(Debug)]
pub struct GrabbedLink {
    pub url: String,
    pub text: String,
    pub ext: String,
}

/// What is used of an element of a page.
#[derive(Debug)]
pub struct PageElement {
    pub href: Option<String>,
    pub text: String,
}

/// A link as a mathematical value.
pub struct LinkView {
    pub url: Seq<char>,
    pub text: Seq<char>,
    pub ext: Seq<char>,
}

/// An element as a mathematical value.
pub struct ElementView {
    pub href: Option<Seq<char>>,
    pub text: Seq<char>,
}

impl View for GrabbedLink {
    type V = LinkView;

    open spec fn view(&self) -> LinkView {
        LinkView { url: self.url@, text: self.text@, ext: self.ext@ }
    }
}

impl View for PageElement {
    type V = ElementView;

    open spec fn view(&self) -> ElementView {
        ElementView { href: model::text_view(self.href), text: self.text@ }
    }
}

/// The views of some links.
pub open spec fn link_views(links: Seq<GrabbedLink>) -> Seq<LinkView> {
    links.map_values(|l: GrabbedLink| l@)
}

/// The views of some elements.
pub open spec fn element_views(elements: Seq<PageElement>) -> Seq<ElementView> {
    elements.map_values(|e: PageElement| e@)
}

// ---------------------------------------------------------------------------
// Elements of a page
// ---------------------------------------------------------------------------

/// The largest page, in bytes, that can be searched.
pub const MAX_PAGE_BYTES: usize = 0x2000_0000;

/// The longest selector, in bytes, that can be used.
pub const MAX_SELECTOR_BYTES: usize = 1024;

/// How deep elements are nested, at most, where a selector looks inside them.
pub const MAX_DEPTH: usize = 256;

/// The elements of a page that a CSS selector matches, in the order of the page
/// (`dom_query`); none where the selector is not valid.
pub uninterp spec fn selected(html: Seq<char>, selector: Seq<char>) -> Option<Seq<ElementView>>;

/// Whether a selector may look for what is inside an element, by `:has(..)`: it
/// is there as it is, in letters of either case, or by escapes.
pub open spec fn looks_inside(selector: Seq<char>) -> bool {
    selector.contains('\\') || text::contains_text(text::ascii_lowered(selector), "has("@)
}

/// A selector of elements with `n - 1` nodes above them, each the parent of the
/// next.
pub open spec fn nested_selector(n: nat) -> Seq<char>
    decreases n,
{
    if n <= 1 {
        "*"@
    } else {
        nested_selector((n - 1) as nat) + ">*"@
    }
}

/// Whether no element of a page is nested too deep to look inside.
pub open spec fn is_shallow(html: Seq<char>) -> bool {
    selected(html, nested_selector(MAX_DEPTH as nat)) matches Some(found) && found.len() == 0
}

/// Whether a page can be searched with a selector. Reading a selector and
/// matching it recurse with its length, and looking inside an element recurses
/// with the depth of the page.
pub open spec fn can_search(html: Seq<char>, selector: Seq<char>) -> bool {
    &&& text::byte_len(html) <= MAX_PAGE_BYTES
    &&& text::byte_len(selector) <= MAX_SELECTOR_BYTES
    &&& looks_inside(selector) ==> is_shallow(html)
}

/// Calls `dom_query::Matcher::new` and, where the selector is valid,
/// `Document::from` and `Document::select_matcher`, and hands out the `href`
/// attribute and the text of each match. The result is a function of the page
/// and the selector. The bound on the page keeps the parser's 32-bit buffer
/// lengths from overflowing; those on the selector, and on the depth of the page
/// for `:has(..)`, keep the matcher's recursion from using up the stack.
#[verifier::external_body]
fn select_elements(html: &str, selector: &str) -> (out: Option<Vec<PageElement>>)
    requires
        can_search(html@, selector@),
    ensures
        match out {
            Some(elements) => selected(html@, selector@) == Some(element_views(elements@)),
            None => selected(html@, selector@) is None,
        },
{
    let matcher = Matcher::new(selector).ok()?;
    let doc = Document::from(html);
    let found = doc.select_matcher(&matcher);
    Some(found.iter().map(|el| PageElement {
        href: el.attr("href").map(|h| h.to_string()),
        text: el.text().to_string(),
    }).collect())
}

/// Calls `dom_query::Matcher::new` and, where the selector is valid,
/// `Document::from` and `Document::select_single_matcher`, and hands out the
/// `href` attribute and the text of the match, if any. It is the first of those
/// that `Document::select_matcher` gives, which takes all from the iterator that
/// this one takes a single element from. The bounds are those of
/// `select_elements`, for the same reasons.
#[verifier::external_body]
fn select_first(html: &str, selector: &str) -> (out: Option<Vec<PageElement>>)
    requires
        can_search(html@, selector@),
    ensures
        match out {
            Some(elements) => selected(html@, selector@) matches Some(all) && element_views(
                elements@,
            ) == first_of(all),
            None => selected(html@, selector@) is None,
        },
{
    let matcher = Matcher::new(selector).ok()?;
    let doc = Document::from(html);
    let found = doc.select_single_matcher(&matcher);
    Some(found.iter().map(|el| PageElement {
        href: el.attr("href").map(|h| h.to_string()),
        text: el.text().to_string(),
    }).collect())
}

/// The first of some elements alone; none where there are none.
pub open spec fn first_of(elements: Seq<ElementView>) -> Seq<ElementView> {
    if elements.len() == 0 {
        elements
    } else {
        seq![elements[0]]
    }
}

/// The selector of nested elements is no longer than allowed and looks inside
/// none.
proof fn lemma_nested_selector(n: nat)
    ensures
        nested_selector(n).len() == if n <= 1 {
            1
        } else {
            2 * n - 1
        },
        forall|i: int|
            0 <= i < nested_selector(n).len() ==> (#[trigger] nested_selector(n)[i] == '*'
                || nested_selector(n)[i] == '>'),
    decreases n,
{
    reveal_strlit("*");
    reveal_strlit(">*");
    if n > 1 {
        lemma_nested_selector((n - 1) as nat);
    }
}

/// A short text of ASCII characters without an opening parenthesis and a
/// backslash can be used on any page.
proof fn lemma_plain_selector(html: Seq<char>, selector: Seq<char>)
    requires
        text::byte_len(html) <= MAX_PAGE_BYTES,
        selector.len() <= MAX_SELECTOR_BYTES,
        vstd::utf8::is_ascii_chars(selector),
        forall|i: int|
            0 <= i < selector.len() ==> (#[trigger] selector[i] != '(' && selector[i] != '\\'),
    ensures
        can_search(html, selector),
{
    vstd::utf8::is_ascii_chars_encode_utf8(selector);
    let low = text::ascii_lowered(selector);
    reveal_strlit("has(");
    if text::contains_text(low, "has("@) {
        let i = choose|i: int|
            0 <= i <= low.len() - "has("@.len() && #[trigger] low.subrange(i, i + "has("@.len())
                == "has("@;
        assert(low.subrange(i, i + 4)[3] == '(');
        assert(selector[i + 3] != '(');
        assert(low[i + 3] == text::ascii_lower(selector[i + 3]));
    }
}

/// Builds the selector of nested elements.
fn build_nested_selector(n: usize) -> (out: String)
    requires
        n >= 1,
    ensures
        out@ == nested_selector(n as nat),
{
    let mut out = "*".to_owned();
    let mut i: usize = 1;
    while i < n
        invariant
            1 <= i <= n,
            out@ == nested_selector(i as nat),
        decreases n - i,
    {
        out.append(">*");
        i += 1;
    }
    out
}

/// Whether a page can be searched with a selector.
fn is_searchable(html: &str, selector: &str) -> (out: bool)
    requires
        text::byte_len(html@) <= MAX_PAGE_BYTES,
    ensures
        out == can_search(html@, selector@),
{
    if text::bytes_in(selector) > MAX_SELECTOR_BYTES {
        return false;
    }
    let chars = text::chars_of(selector);
    let mut lower: Vec<char> = Vec::new();
    let mut escapes = false;
    let mut i: usize = 0;
    while i < chars.len()
        invariant
            i <= chars.len(),
            chars@ == selector@,
            lower@ == text::ascii_lowered(selector@).take(i as int),
            escapes == exists|j: int| 0 <= j < i && selector@[j] == '\\',
        decreases chars.len() - i,
    {
        if chars[i] == '\\' {
            escapes = true;
        }
        lower.push(text::to_ascii_lower(chars[i]));
        i += 1;
        assert(lower@ =~= text::ascii_lowered(selector@).take(i as int));
    }
    assert(lower@ =~= text::ascii_lowered(selector@));
    assert(escapes == selector@.contains('\\'));
    if !escapes && !text::has_text(&lower, "has(") {
        return true;
    }
    let nested = build_nested_selector(MAX_DEPTH);
    proof {
        lemma_nested_selector(MAX_DEPTH as nat);
        lemma_plain_selector(html@, nested@);
    }
    match select_first(html, nested.as_str()) {
        Some(found) => {
            assert(element_views(found@).len() == found.len());
            found.len() == 0
        },
        None => false,
    }
}

// ---------------------------------------------------------------------------
// Links
// ---------------------------------------------------------------------------

/// Whether a file name ending stands for media, an archive or a document.
pub open spec fn is_media(ext: Seq<char>) -> bool {
    ext == "mp4"@ || ext == "mkv"@ || ext == "webm"@ || ext == "avi"@ || ext == "mov"@ || ext
        == "m3u8"@ || ext == "mpd"@ || ext == "ts"@ || ext == "mp3"@ || ext == "flac"@ || ext
        == "m4a"@ || ext == "wav"@ || ext == "ogg"@ || ext == "opus"@ || ext == "jpg"@ || ext
        == "jpeg"@ || ext == "png"@ || ext == "gif"@ || ext == "webp"@ || ext == "zip"@ || ext
        == "rar"@ || ext == "7z"@ || ext == "pdf"@ || ext == "apk"@ || ext == "iso"@
}

/// Whether a character is an ASCII letter or digit.
pub open spec fn is_alphanumeric(c: char) -> bool {
    ('a' <= c && c <= 'z') || ('A' <= c && c <= 'Z') || ('0' <= c && c <= '9')
}

/// The letters and digits at the start of a text.
pub open spec fn leading_alphanumeric(s: Seq<char>) -> Seq<char>
    decreases s.len(),
{
    if s.len() == 0 || !is_alphanumeric(s[0]) {
        Seq::empty()
    } else {
        seq![s[0]] + leading_alphanumeric(s.drop_first())
    }
}

/// The file name ending of a URL: the letters and digits behind the last dot of
/// its path, in lower case. A text that is no URL is its own path.
pub open spec fn extension_in(url: Seq<char>) -> Seq<char> {
    let path = match urls::parsed(url) {
        Ok(url) => urls::path_of(url),
        Err(_) => url,
    };
    leading_alphanumeric(
        text::after_last(path, seq!['.']).map_values(|c: char| text::ascii_lower(c)),
    )
}

/// The link that an element of the page at `base` stands for: a media or
/// document URL, called by the text of the element or else by the URL's path.
pub open spec fn link_of(base: Seq<char>, element: ElementView) -> Option<LinkView> {
    match element.href {
        None => None,
        Some(href) => {
            let raw = text::trim(href);
            if raw.len() == 0 || "javascript:"@.is_prefix_of(raw) || "mailto:"@.is_prefix_of(raw) {
                None
            } else {
                match urls::joined(base, raw) {
                    Err(_) => None,
                    Ok(url) => if is_media(extension_in(url)) {
                        let label = text::trim(element.text);
                        Some(
                            LinkView {
                                url,
                                text: if label.len() == 0 {
                                    urls::path_of(url)
                                } else {
                                    label
                                },
                                ext: extension_in(url),
                            },
                        )
                    } else {
                        None
                    },
                }
            }
        },
    }
}

/// Whether a link to a URL is among some links.
pub open spec fn has_url(links: Seq<LinkView>, url: Seq<char>) -> bool {
    exists|i: int| 0 <= i < links.len() && (#[trigger] links[i]).url == url
}

/// The links of some elements of the page at `base`; only the first link to a
/// URL counts.
pub open spec fn links_of(base: Seq<char>, elements: Seq<ElementView>) -> Seq<LinkView>
    decreases elements.len(),
{
    if elements.len() == 0 {
        Seq::empty()
    } else {
        let before = links_of(base, elements.drop_last());
        match link_of(base, elements.last()) {
            Some(link) => if has_url(before, link.url) {
                before
            } else {
                before.push(link)
            },
            None => before,
        }
    }
}

/// The links of some elements of a page; none where the page's URL is not
/// valid.
pub open spec fn page_links(page_url: Seq<char>, elements: Seq<ElementView>) -> Seq<LinkView> {
    match urls::parsed(page_url) {
        Ok(base) => links_of(base, elements),
        Err(_) => Seq::empty(),
    }
}

/// The media and document links of a page.
pub open spec fn links_in(page_url: Seq<char>, html: Seq<char>) -> Seq<LinkView> {
    page_links(
        page_url,
        match selected(html, "a[href]"@) {
            Some(elements) => elements,
            None => Seq::empty(),
        },
    )
}

/// Whether a file name ending stands for media, an archive or a document.
pub fn is_media_ext(ext: &str) -> (out: bool)
    ensures
        out == is_media(ext@),
{
    text::same(ext, "mp4") || text::same(ext, "mkv") || text::same(ext, "webm") || text::same(
        ext,
        "avi",
    ) || text::same(ext, "mov") || text::same(ext, "m3u8") || text::same(ext, "mpd") || text::same(
        ext,
        "ts",
    ) || text::same(ext, "mp3") || text::same(ext, "flac") || text::same(ext, "m4a") || text::same(
        ext,
        "wav",
    ) || text::same(ext, "ogg") || text::same(ext, "opus") || text::same(ext, "jpg") || text::same(
        ext,
        "jpeg",
    ) || text::same(ext, "png") || text::same(ext, "gif") || text::same(ext, "webp") || text::same(
        ext,
        "zip",
    ) || text::same(ext, "rar") || text::same(ext, "7z") || text::same(ext, "pdf") || text::same(
        ext,
        "apk",
    ) || text::same(ext, "iso")
}

/// The letters and digits at the start of a text, in lower case.
fn read_leading(s: &[char]) -> (out: String)
    ensures
        out@ == leading_alphanumeric(s@.map_values(|c: char| text::ascii_lower(c))),
{
    let ghost low = s@.map_values(|c: char| text::ascii_lower(c));
    let mut out = String::new();
    let mut i: usize = 0;
    assert(low.skip(0) =~= low);
    assert(out@ + leading_alphanumeric(low) =~= leading_alphanumeric(low));
    while i < s.len()
        invariant
            i <= s.len(),
            low == s@.map_values(|c: char| text::ascii_lower(c)),
            out@ + leading_alphanumeric(low.skip(i as int)) == leading_alphanumeric(low),
        decreases s.len() - i,
    {
        let c = text::to_ascii_lower(s[i]);
        let ghost rest = low.skip(i as int);
        assert(rest[0] == c);
        assert(rest.drop_first() =~= low.skip(i + 1));
        if !(('a' <= c && c <= 'z') || ('A' <= c && c <= 'Z') || ('0' <= c && c <= '9')) {
            assert(out@ + Seq::<char>::empty() =~= out@);
            return out;
        }
        let ghost before = out@;
        out.push(c);
        assert(out@ + leading_alphanumeric(rest.drop_first()) =~= before + (seq![c]
            + leading_alphanumeric(rest.drop_first())));
        i += 1;
    }
    assert(low.skip(s.len() as int) =~= Seq::empty());
    assert(out@ + Seq::<char>::empty() =~= out@);
    out
}

/// The file name ending of a URL.
pub fn extension_of(url: &str) -> (out: String)
    ensures
        out@ == extension_in(url@),
{
    let path = match parse_url(url) {
        Ok(url) => url_path(&url),
        Err(_) => url.to_owned(),
    };
    let dot = vec!['.'];
    assert(dot@ =~= seq!['.']);
    read_leading(&text::cut_after_last(&text::chars_of(path.as_str()), &dot))
}

/// The link that an element stands for.
fn read_link(base: &Url, element: &PageElement) -> (out: Option<GrabbedLink>)
    ensures
        match out {
            Some(link) => link_of(urls::url_text(*base), element@) == Some(link@),
            None => link_of(urls::url_text(*base), element@) is None,
        },
{
    let href = match &element.href {
        Some(href) => href,
        None => return None,
    };
    let raw = text::trimmed(href.as_str());
    let chars = text::chars_of(raw.as_str());
    if chars.len() == 0 || text::begins_with(&chars, "javascript:") || text::begins_with(
        &chars,
        "mailto:",
    ) {
        return None;
    }
    let url = match join_url(base, raw.as_str()) {
        Ok(url) => url,
        Err(_) => return None,
    };
    let full = url_string(&url);
    let ext = extension_of(full.as_str());
    if !is_media_ext(ext.as_str()) {
        return None;
    }
    let label = text::trimmed(element.text.as_str());
    let shown = if label.as_str().is_empty() {
        url_path(&url)
    } else {
        label
    };
    Some(GrabbedLink { url: full, text: shown, ext })
}

/// Whether a link to a URL is among some links.
fn is_known(links: &Vec<GrabbedLink>, url: &str) -> (out: bool)
    ensures
        out == has_url(link_views(links@), url@),
{
    let mut i: usize = 0;
    while i < links.len()
        invariant
            i <= links.len(),
            forall|j: int| 0 <= j < i ==> (#[trigger] link_views(links@)[j]).url != url@,
        decreases links.len() - i,
    {
        if text::same(links[i].url.as_str(), url) {
            assert(link_views(links@)[i as int].url == url@);
            return true;
        }
        i += 1;
    }
    false
}

/// The media and document links among some elements of a page.
pub fn links_from_elements(page_url: &str, elements: &Vec<PageElement>) -> (out: Vec<GrabbedLink>)
    ensures
        link_views(out@) == page_links(page_url@, element_views(elements@)),
{
    let ghost all = element_views(elements@);
    let mut out: Vec<GrabbedLink> = Vec::new();
    assert(link_views(out@) =~= Seq::empty());
    let base = match parse_url(page_url) {
        Ok(base) => base,
        Err(_) => return out,
    };
    let mut i: usize = 0;
    while i < elements.len()
        invariant
            i <= elements.len(),
            all == element_views(elements@),
            link_views(out@) == links_of(urls::url_text(base), all.take(i as int)),
        decreases elements.len() - i,
    {
        assert(all.take(i + 1).drop_last() =~= all.take(i as int));
        assert(all.take(i + 1).last() == elements@[i as int]@);
        match read_link(&base, &elements[i]) {
            Some(link) => {
                if !is_known(&out, link.url.as_str()) {
                    let ghost before = out@;
                    out.push(link);
                    assert(link_views(out@) =~= link_views(before).push(link@));
                }
            },
            None => {},
        }
        i += 1;
    }
    assert(all.take(all.len() as int) =~= all);
    out
}

/// Extracts media and document links from one HTML page.
pub fn extract_links(page_url: &str, html: &str) -> (out: Vec<GrabbedLink>)
    requires
        text::byte_len(html@) <= MAX_PAGE_BYTES,
    ensures
        link_views(out@) == links_in(page_url@, html@),
{
    proof {
        reveal_strlit("a[href]");
        lemma_plain_selector(html@, "a[href]"@);
    }
    let elements = match select_elements(html, "a[href]") {
        Some(elements) => elements,
        None => Vec::new(),
    };
    assert(selected(html@, "a[href]"@) is None ==> element_views(elements@) =~= Seq::empty());
    links_from_elements(page_url, &elements)
}

/// A page lists no URL twice, and nothing but media and documents.
pub proof fn lemma_links(page_url: Seq<char>, elements: Seq<ElementView>)
    ensures
        forall|i: int, j: int|
            0 <= i < j < page_links(page_url, elements).len() ==> (
            #[trigger] page_links(page_url, elements)[i]).url != (
            #[trigger] page_links(page_url, elements)[j]).url,
        forall|i: int|
            0 <= i < page_links(page_url, elements).len() ==> is_media(
                (#[trigger] page_links(page_url, elements)[i]).ext,
            ),
{
    if urls::parsed(page_url) is Ok {
        lemma_links_of(urls::parsed(page_url)->Ok_0, elements);
    }
}

proof fn lemma_links_of(base: Seq<char>, elements: Seq<ElementView>)
    ensures
        forall|i: int, j: int|
            0 <= i < j < links_of(base, elements).len() ==> (#[trigger] links_of(
                base,
                elements,
            )[i]).url != (#[trigger] links_of(base, elements)[j]).url,
        forall|i: int|
            0 <= i < links_of(base, elements).len() ==> is_media(
                (#[trigger] links_of(base, elements)[i]).ext,
            ),
    decreases elements.len(),
{
    if elements.len() > 0 {
        let before = links_of(base, elements.drop_last());
        let all = links_of(base, elements);
        lemma_links_of(base, elements.drop_last());
        assert forall|i: int, j: int| 0 <= i < j < all.len() implies (#[trigger] all[i]).url != (
        #[trigger] all[j]).url by {
            assert(all[i] == before[i]);
            if j < before.len() {
                assert(all[j] == before[j]);
            }
        }
        assert forall|i: int| 0 <= i < all.len() implies is_media((#[trigger] all[i]).ext) by {
            if i < before.len() {
                assert(all[i] == before[i]);
            }
        }
    }
}

// ---------------------------------------------------------------------------
// Following pages
// ---------------------------------------------------------------------------

/// The most pages that are visited.
pub const MAX_PAGES: usize = 50;

/// Whether a page is on the site that starts at a URL: both have one origin.
pub open spec fn is_on_site(start: Seq<char>, page: Seq<char>) -> bool {
    !urls::is_nested_blob(start) && !urls::is_nested_blob(page) && urls::one_origin(start, page)
}

/// The URL of the page that follows: where the first selected element points,
/// provided that it is on the site of the start page.
pub open spec fn next_url(
    start_url: Seq<char>,
    page_url: Seq<char>,
    elements: Seq<ElementView>,
) -> Option<Seq<char>> {
    if elements.len() == 0 || elements[0].href is None {
        None
    } else {
        match (urls::parsed(start_url), urls::parsed(page_url)) {
            (Ok(start), Ok(base)) => match urls::joined(base, text::trim(elements[0].href->0)) {
                Err(_) => None,
                Ok(next) => if is_on_site(start, next) {
                    Some(next)
                } else {
                    None
                },
            },
            _ => None,
        }
    }
}

/// The URL of the page that follows `page_url` on the site of `start_url`.
pub fn next_page(start_url: &str, page_url: &str, elements: &Vec<PageElement>) -> (out: Option<
    String,
>)
    ensures
        match out {
            Some(next) => next_url(start_url@, page_url@, element_views(elements@)) == Some(next@),
            None => next_url(start_url@, page_url@, element_views(elements@)) is None,
        },
{
    if elements.len() == 0 {
        return None;
    }
    assert(element_views(elements@)[0] == elements@[0]@);
    let href = match &elements[0].href {
        Some(href) => text::trimmed(href.as_str()),
        None => return None,
    };
    let start = match parse_url(start_url) {
        Ok(start) => start,
        Err(_) => return None,
    };
    let base = match parse_url(page_url) {
        Ok(base) => base,
        Err(_) => return None,
    };
    match join_url(&base, href.as_str()) {
        Ok(next) => if !nests_blobs(&start) && !nests_blobs(&next) && same_origin(&start, &next) {
            Some(url_string(&next))
        } else {
            None
        },
        Err(_) => None,
    }
}

/// A walk over the pages of a site.
pub struct SiteGrab {
    start: String,
    url: String,
    next_selector: String,
    seen: Vec<String>,
    links: Vec<GrabbedLink>,
    left: usize,
    done: bool,
}

/// A walk as a mathematical value.
pub struct GrabView {
    /// The page that the walk starts at.
    pub start: Seq<char>,
    /// The page to visit next, or the one that is being visited.
    pub url: Seq<char>,
    /// Matches the anchor of the page that follows; empty to visit one page.
    pub next_selector: Seq<char>,
    /// The pages that have been asked for.
    pub seen: Seq<Seq<char>>,
    /// The links of the pages that have been read.
    pub links: Seq<LinkView>,
    /// How many more pages may be visited.
    pub left: int,
    /// Whether no page follows.
    pub done: bool,
}

impl View for SiteGrab {
    type V = GrabView;

    closed spec fn view(&self) -> GrabView {
        GrabView {
            start: self.start@,
            url: self.url@,
            next_selector: self.next_selector@,
            seen: text::string_views(self.seen@),
            links: link_views(self.links@),
            left: self.left as int,
            done: self.done,
        }
    }
}

/// The start of a walk.
pub open spec fn grab_start(
    start_url: Seq<char>,
    next_selector: Seq<char>,
    max_pages: usize,
) -> GrabView {
    GrabView {
        start: start_url,
        url: start_url,
        next_selector,
        seen: Seq::empty(),
        links: Seq::empty(),
        left: workers::clamped(max_pages as int, 1, MAX_PAGES as int),
        done: false,
    }
}

/// Whether another page is visited: one that was not visited before, while
/// pages are left.
pub open spec fn wants_page(g: GrabView) -> bool {
    !g.done && g.left > 0 && !g.seen.contains(g.url)
}

/// The walk once the next page has been asked for, if there is one.
pub open spec fn after_request(g: GrabView) -> GrabView {
    if wants_page(g) {
        GrabView { seen: g.seen.push(g.url), left: g.left - 1, ..g }
    } else {
        GrabView { done: true, ..g }
    }
}

/// The walk once the page has been read. It ends where the selector cannot be
/// used.
pub open spec fn after_page(g: GrabView, html: Seq<char>) -> GrabView {
    let links = g.links + links_in(g.url, html);
    if g.next_selector.len() == 0 {
        GrabView { links, done: true, ..g }
    } else if !can_search(html, g.next_selector) {
        GrabView { links, done: true, ..g }
    } else {
        match selected(html, g.next_selector) {
            None => GrabView { links, done: true, ..g },
            Some(elements) => match next_url(g.start, g.url, elements) {
                Some(url) => GrabView { links, url, ..g },
                None => GrabView { links, done: true, ..g },
            },
        }
    }
}

impl SiteGrab {
    /// Starts a walk at `start_url` over at most `max_pages` pages.
    pub fn new(start_url: &str, next_selector: &str, max_pages: usize) -> (out: SiteGrab)
        ensures
            out@ == grab_start(start_url@, next_selector@, max_pages),
    {
        let left: usize = if max_pages < 1 {
            1
        } else if max_pages > MAX_PAGES {
            MAX_PAGES
        } else {
            max_pages
        };
        let out = SiteGrab {
            start: start_url.to_owned(),
            url: start_url.to_owned(),
            next_selector: next_selector.to_owned(),
            seen: Vec::new(),
            links: Vec::new(),
            left,
            done: false,
        };
        assert(out@.seen =~= Seq::empty());
        assert(out@.links =~= Seq::empty());
        out
    }

    /// The page to fetch next, if any.
    pub fn next_request(&mut self) -> (out: Option<String>)
        ensures
            final(self)@ == after_request(old(self)@),
            match out {
                Some(url) => wants_page(old(self)@) && url@ == old(self)@.url,
                None => !wants_page(old(self)@),
            },
    {
        let mut known = false;
        let mut i: usize = 0;
        while i < self.seen.len()
            invariant
                i <= self.seen.len(),
                *self == *old(self),
                known == exists|j: int|
                    0 <= j < i && text::string_views(self.seen@)[j] == self.url@,
            decreases self.seen.len() - i,
        {
            if text::same(self.seen[i].as_str(), self.url.as_str()) {
                known = true;
                assert(text::string_views(self.seen@)[i as int] == self.url@);
            }
            i += 1;
        }
        assert(known == self@.seen.contains(self@.url));
        if self.done || self.left == 0 || known {
            self.done = true;
            return None;
        }
        let ghost before = self.seen@;
        let url = self.url.clone();
        self.seen.push(self.url.clone());
        assert(text::string_views(self.seen@) =~= text::string_views(before).push(self.url@));
        self.left = self.left - 1;
        Some(url)
    }

    /// Takes the page that was fetched. Returns whether the selector of the
    /// page that follows could be used; the walk ends where it could not.
    pub fn take_page(&mut self, html: &str) -> (out: bool)
        requires
            text::byte_len(html@) <= MAX_PAGE_BYTES,
        ensures
            final(self)@ == after_page(old(self)@, html@),
            out == (old(self)@.next_selector.len() == 0 || (can_search(
                html@,
                old(self)@.next_selector,
            ) && selected(html@, old(self)@.next_selector) is Some)),
    {
        let ghost before = self.links@;
        let mut found = extract_links(self.url.as_str(), html);
        let ghost added = found@;
        self.links.append(&mut found);
        assert(link_views(self.links@) =~= link_views(before) + link_views(added));
        if self.next_selector.as_str().is_empty() {
            self.done = true;
            return true;
        }
        if !is_searchable(html, self.next_selector.as_str()) {
            self.done = true;
            return false;
        }
        match select_first(html, self.next_selector.as_str()) {
            Some(elements) => {
                match next_page(self.start.as_str(), self.url.as_str(), &elements) {
                    Some(url) => {
                        self.url = url;
                    },
                    None => {
                        self.done = true;
                    },
                }
                true
            },
            None => {
                self.done = true;
                false
            },
        }
    }

    /// The links of all pages that were read.
    pub fn into_links(self) -> (out: Vec<GrabbedLink>)
        ensures
            link_views(out@) == self@.links,
    {
        self.links
    }
}

/// No page is visited twice and no more than the allowed number: asking for a
/// page uses one up and makes it known, and reading a page changes neither.
pub proof fn lemma_bounded_walk(g: GrabView, html: Seq<char>)
    requires
        g.seen.no_duplicates(),
        g.left >= 0,
        g.seen.len() + g.left <= MAX_PAGES,
    ensures
        after_request(g).seen.no_duplicates(),
        after_request(g).left >= 0,
        after_request(g).seen.len() + after_request(g).left <= MAX_PAGES,
        after_page(g, html).seen == g.seen,
        after_page(g, html).left == g.left,
        wants_page(g) ==> after_request(g).left < g.left,
{
}

/// Whether a walk has kept to its site: it asked for the start page first, every
/// other page that it asked for has the origin of the start page, and so has the
/// page that comes next.
pub open spec fn keeps_to_site(g: GrabView) -> bool {
    &&& g.seen.len() == 0 ==> g.url == g.start
    &&& g.seen.len() > 0 ==> g.seen[0] == g.start && (g.url == g.start || has_start_origin(g, g.url))
    &&& forall|i: int| 1 <= i < g.seen.len() ==> has_start_origin(g, #[trigger] g.seen[i])
}

/// Whether a page has the origin of the start page.
pub open spec fn has_start_origin(g: GrabView, page: Seq<char>) -> bool {
    urls::parsed(g.start) matches Ok(start) && urls::one_origin(start, page)
}

/// A walk keeps to its site: from its start on, whatever pages are asked for and
/// read, every page but the first that is asked for has the origin of the start
/// page.
pub proof fn lemma_one_site(
    start_url: Seq<char>,
    next_selector: Seq<char>,
    max_pages: usize,
    g: GrabView,
    html: Seq<char>,
)
    requires
        keeps_to_site(g),
    ensures
        keeps_to_site(grab_start(start_url, next_selector, max_pages)),
        keeps_to_site(after_request(g)),
        g.seen.len() > 0 ==> keeps_to_site(after_page(g, html)),
        after_request(g).start == g.start,
        after_page(g, html).start == g.start,
{
    let asked = after_request(g);
    if wants_page(g) && g.seen.len() > 0 {
        assert(g.seen.contains(g.seen[0]));
        assert forall|i: int| 1 <= i < asked.seen.len() implies has_start_origin(
            asked,
            #[trigger] asked.seen[i],
        ) by {
            if i < g.seen.len() {
                assert(has_start_origin(g, g.seen[i]));
            }
        }
    }
    let read = after_page(g, html);
    assert forall|i: int| 1 <= i < read.seen.len() implies has_start_origin(
        read,
        #[trigger] read.seen[i],
    ) by {
        assert(has_start_origin(g, g.seen[i]));
    }
}

} // verus!
