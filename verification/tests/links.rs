use onedm::browser::{check_address, navigation_script};
use onedm::clipboard::{extract_url, is_interesting, ClipboardWatch};
use onedm::grabber::{
    extension_of, extract_links, is_media_ext, links_from_elements, next_page, PageElement,
    SiteGrab,
};

const PAGE: &str = r#"<html><body>
<a href=" /files/Movie.MP4?x=1 "> The  film </a>
<a href="song.flac#t">  </a>
<a href="/files/Movie.MP4?x=1">again</a>
<a href="javascript:void(0)">no</a>
<a href="mailto:a@b.pdf">no</a>
<a href="">no</a>
<a href="page.html">no</a>
<a>no</a>
<a class="next" href="?p=2">more</a>
</body></html>"#;

#[test]
fn links_of_a_page() {
    let links = extract_links("https://h/dir/", PAGE);
    let got: Vec<(&str, &str, &str)> =
        links.iter().map(|l| (l.url.as_str(), l.text.as_str(), l.ext.as_str())).collect();
    assert_eq!(
        got,
        vec![
            ("https://h/files/Movie.MP4?x=1", "The  film", "mp4"),
            ("https://h/dir/song.flac#t", "/dir/song.flac", "flac"),
        ]
    );
    assert!(extract_links("no url", PAGE).is_empty());
}

fn element(href: Option<&str>, text: &str) -> PageElement {
    PageElement { href: href.map(|h| h.to_string()), text: text.to_string() }
}

#[test]
fn links_of_given_elements() {
    let list = vec![
        element(None, "x"),
        element(Some("b.zip"), "Zip"),
        element(Some("https://[bad.zip"), "x"),
        element(Some("./b.zip"), "Other"),
    ];
    let links = links_from_elements("https://h/a", &list);
    assert_eq!(links.len(), 1);
    assert_eq!(links[0].url, "https://h/b.zip");
    assert_eq!(links[0].text, "Zip");
}

#[test]
fn extensions_of_urls() {
    assert_eq!(extension_of("https://h/a/b.TAR.GZ?x=.mp4"), "gz");
    assert_eq!(extension_of("https://h/a.mp4;v=1"), "mp4");
    assert_eq!(extension_of("plain.name.Mkv"), "mkv");
    assert_eq!(extension_of("https://h/none"), "");
    assert!(is_media_ext("7z"));
    assert!(!is_media_ext("MP4"));
    assert!(!is_media_ext(""));
}

#[test]
fn following_pages() {
    let on = |href: &str| vec![element(Some(href), "next")];
    let next = |page: &str, list: &Vec<PageElement>| next_page("https://h/start", page, list);
    assert_eq!(next("https://h/l?p=1", &on(" ?p=2 ")), Some("https://h/l?p=2".to_string()));
    assert_eq!(next("https://h/l", &on("https://other/l")), None);
    assert_eq!(next("https://h/l", &on("http://h/l")), None);
    assert_eq!(next("https://h/l", &vec![element(None, "x")]), None);
    assert_eq!(next("https://h/l", &Vec::new()), None);
    assert_eq!(next("bad", &on("?p=2")), None);
    assert_eq!(next_page("bad", "https://h/l", &on("?p=2")), None);
    assert_eq!(next("https://other/l", &on("?p=2")), None);
    assert_eq!(next("https://other/l", &on("https://h/m")), Some("https://h/m".to_string()));
}

#[test]
fn following_blob_urls() {
    let on = |href: &str| vec![element(Some(href), "next")];
    let page = "https://h/l";
    let inner = Some("blob:https://h/x".to_string());
    assert_eq!(next_page(page, page, &on("blob:https://h/x")), inner);
    assert_eq!(next_page(page, page, &on("blob:https://other/x")), None);
    assert_eq!(next_page(page, page, &on("blob:nothing")), None);
    assert_eq!(next_page(page, page, &on("blob:blob:https://h/x")), None);
    let nested = format!("{}https://h/x", "blob:".repeat(200_000));
    assert_eq!(next_page(page, page, &on(&nested)), None);
    assert_eq!(next_page(&nested, page, &on("?p=2")), None);
    assert_eq!(next_page("blob:https://h/l", page, &on("?p=2")), Some("https://h/l?p=2".to_string()));
}

#[test]
fn walking_a_site() {
    let mut g = SiteGrab::new("https://h/dir/", "a.next", 3);
    assert_eq!(g.next_request(), Some("https://h/dir/".to_string()));
    assert!(g.take_page(PAGE));
    assert_eq!(g.next_request(), Some("https://h/dir/?p=2".to_string()));
    assert!(g.take_page(PAGE));
    assert_eq!(g.next_request(), None);
    assert_eq!(g.next_request(), None);
    assert_eq!(g.into_links().len(), 4);
}

#[test]
fn walking_stops_in_time() {
    let mut one = SiteGrab::new("https://h/", "", 10);
    assert!(one.next_request().is_some());
    assert!(one.take_page(PAGE));
    assert_eq!(one.next_request(), None);
    let mut bounded = SiteGrab::new("https://h/0", "a", 0);
    assert!(bounded.next_request().is_some());
    assert!(bounded.take_page("<a href='/1'>x</a>"));
    assert_eq!(bounded.next_request(), None);
    let mut many = SiteGrab::new("https://h/0", "a", 1000);
    let mut pages = 0;
    while let Some(_) = many.next_request() {
        pages += 1;
        assert!(many.take_page(&format!("<a href='/{}'>x</a>", pages)));
    }
    assert_eq!(pages, 50);
}

#[test]
fn invalid_selectors_are_noticed() {
    let mut g = SiteGrab::new("https://h/", "a[", 5);
    assert!(g.next_request().is_some());
    assert!(!g.take_page(PAGE));
    assert_eq!(g.next_request(), None);
}

#[test]
fn walking_keeps_to_the_start_page() {
    let mut g = SiteGrab::new("https://h/1", "a", 9);
    assert_eq!(g.next_request(), Some("https://h/1".to_string()));
    assert!(g.take_page("<a href='/2'>x</a>"));
    assert_eq!(g.next_request(), Some("https://h/2".to_string()));
    assert!(g.take_page("<a href='//other/3'>x</a><a href='/4'>y</a>"));
    assert_eq!(g.next_request(), None);
}

fn used(selector: &str, html: &str) -> (bool, Option<String>) {
    let mut g = SiteGrab::new("https://h/1", selector, 9);
    g.next_request();
    let out = g.take_page(html);
    (out, g.next_request())
}

fn nested_page(depth: usize) -> String {
    format!("<a href='/2'>x</a>{}<a href='/3'><b>y</b></a>", "<span>".repeat(depth))
}

#[test]
fn selectors_that_look_inside() {
    let third = Some("https://h/3".to_string());
    assert_eq!(used("a:has(b)", &nested_page(3)), (true, third.clone()));
    assert_eq!(used("a:HAS(> b)", &nested_page(200)), (true, third.clone()));
    assert_eq!(used("a:h\\61s(b)", &nested_page(3)), (true, third.clone()));
    assert_eq!(used("a:has(i)", &nested_page(3)), (true, None));
    assert_eq!(used("a:has(b)", &nested_page(300)), (false, None));
    let deep = nested_page(100_000);
    for selector in [":has(x)", "a:Has(b)", "a:h\\61s(b)", ":not(:has(x))"] {
        assert_eq!(used(selector, &deep), (false, None));
    }
    assert_eq!(used("span a", &deep), (true, third.clone()));
    assert_eq!(used("a:not(:first-child)", &deep), (true, None));
    assert_eq!(used("a:has-text('y')", &deep), (true, third));
}

#[test]
fn long_selectors() {
    let deep = nested_page(100_000);
    let second = Some("https://h/2".to_string());
    let fill = |unit: &str, rest: &str, close: &str| {
        let n = (1024 - rest.len()) / (unit.len() + close.len());
        format!("{}{}{}", unit.repeat(n), rest, close.repeat(n))
    };
    for selector in [
        fill(":is(", "a", ")"),
        fill(":not(:is(", "a", "))"),
        fill(":nth-child(n of ", "a", ")"),
        fill("*>", "a", ""),
        fill("* ", "a", ""),
        fill("*~", "a", ""),
        fill(":is(*>", "a", ")"),
        fill(":not(", "a", ""),
        fill("a,", "a", ""),
        fill("(", "a", ""),
    ] {
        assert!(selector.len() <= 1024);
        used(&selector, &deep);
    }
    assert_eq!(used(&fill("a,", "a", ""), &deep), (true, second));
    assert_eq!(used(&"a".repeat(1024), &deep), (true, None));
    assert_eq!(used(&"a".repeat(1025), &deep), (false, None));
}

#[test]
fn interesting_urls() {
    for url in [
        "https://h/a.mp4",
        "HTTPS://H/A.MKV?x=1#y",
        "http://h/list.m3u8?token=1",
        "https://h/x.mpd/y",
        "magnet:?xt=urn:btih:1",
        "https://h/f.torrent",
        "https://h/a.7z",
    ] {
        assert!(is_interesting(url), "{}", url);
    }
    for url in ["ftp://h/a.mp4", "https://h/a.html", "a.mp4", "", "https://h/a.jpg"] {
        assert!(!is_interesting(url), "{}", url);
    }
    assert!(is_interesting("https://h/İ/a.mp4"));
}

#[test]
fn urls_in_running_text() {
    assert_eq!(
        extract_url("see (https://h/a.mp4), or <magnet:?x>"),
        Some("https://h/a.mp4".to_string())
    );
    assert_eq!(extract_url("nothing here"), None);
    assert_eq!(extract_url(""), None);
}

#[test]
fn clipboard_offers_once() {
    let mut w = ClipboardWatch::new();
    assert_eq!(w.poll(false, "https://h/a.mp4"), None);
    assert_eq!(w.poll(true, "https://h/a.mp4"), Some("https://h/a.mp4".to_string()));
    assert_eq!(w.poll(true, "again: https://h/a.mp4"), None);
    assert_eq!(w.poll(true, "words"), None);
    assert_eq!(w.poll(true, "https://h/b.mp4"), Some("https://h/b.mp4".to_string()));
    assert_eq!(w.poll(true, "https://h/a.mp4"), Some("https://h/a.mp4".to_string()));
    let long = format!("https://h/c.mp4 {}", "x".repeat(4096));
    assert_eq!(w.poll(true, &long), None);
}

#[test]
fn browser_addresses() {
    assert_eq!(check_address(" https://h/a b ").unwrap().as_str(), "https://h/a%20b");
    assert_eq!(check_address("HTTP://H").unwrap().as_str(), "http://h/");
    assert_eq!(check_address("file:///x").unwrap_err(), "only http(s) URLs can be opened");
    assert_eq!(
        check_address("nothing").unwrap_err(),
        "invalid url: relative URL without a base"
    );
}

#[test]
fn browser_navigation_script() {
    assert_eq!(
        navigation_script(" https://h/?q=\"a\\b\"\u{1}é\t/\n "),
        "window.location.href = \"https://h/?q=\\\"a\\\\b\\\"\\u0001é\\t/\";"
    );
}
