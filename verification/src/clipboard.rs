//! Clipboard watching: which texts hold a media URL worth offering.

use crate::model;
use crate::text;
use vstd::prelude::*;

verus! {

/// Clipboard texts with more bytes than this are not looked at.
pub const MAX_CLIPBOARD_BYTES: usize = 4096;

/// Whether a file name ending stands for media, an archive or a document.
pub open spec fn is_offered_ext(ext: Seq<char>) -> bool {
    ext == "mp4"@ || ext == "mkv"@ || ext == "webm"@ || ext == "avi"@ || ext == "mov"@ || ext
        == "ts"@ || ext == "mp3"@ || ext == "flac"@ || ext == "m4a"@ || ext == "wav"@ || ext
        == "ogg"@ || ext == "opus"@ || ext == "zip"@ || ext == "rar"@ || ext == "7z"@ || ext
        == "pdf"@ || ext == "apk"@ || ext == "iso"@
}

/// What stands behind the last dot of a URL without query and fragment.
pub open spec fn ending_of(url: Seq<char>) -> Seq<char> {
    text::after_last(text::until_any(url, seq!['?', '#']), seq!['.'])
}

/// Whether a URL is worth offering: a magnet link, or an HTTP URL of a media
/// file, a manifest or a torrent. Letter case does not matter.
pub open spec fn worth_offering(url: Seq<char>) -> bool {
    let lower = text::lower(url);
    if "magnet:"@.is_prefix_of(lower) {
        true
    } else if "http://"@.is_prefix_of(lower) || "https://"@.is_prefix_of(lower) {
        ||| is_offered_ext(ending_of(lower))
        ||| text::contains_text(lower, ".m3u8"@)
        ||| text::contains_text(lower, ".mpd"@)
        ||| ".torrent"@.is_suffix_of(lower)
    } else {
        false
    }
}

/// The characters that may surround a URL in running text.
pub open spec fn wrapping() -> Seq<char> {
    seq!['"', '\'', '(', ')', '[', ']', '<', '>', '{', '}', ',']
}

/// The first token worth offering, without the characters around it.
pub open spec fn first_offered(tokens: Seq<Seq<char>>) -> Option<Seq<char>>
    decreases tokens.len(),
{
    if tokens.len() == 0 {
        None
    } else {
        let url = text::trim_any(tokens[0], wrapping());
        if worth_offering(url) {
            Some(url)
        } else {
            first_offered(tokens.drop_first())
        }
    }
}

/// The first URL worth offering in a text.
pub open spec fn url_in(s: Seq<char>) -> Option<Seq<char>> {
    first_offered(text::tokens(s, 0))
}

/// Whether a file name ending stands for media, an archive or a document.
fn has_offered_ext(ext: &str) -> (out: bool)
    ensures
        out == is_offered_ext(ext@),
{
    text::same(ext, "mp4") || text::same(ext, "mkv") || text::same(ext, "webm") || text::same(
        ext,
        "avi",
    ) || text::same(ext, "mov") || text::same(ext, "ts") || text::same(ext, "mp3") || text::same(
        ext,
        "flac",
    ) || text::same(ext, "m4a") || text::same(ext, "wav") || text::same(ext, "ogg") || text::same(
        ext,
        "opus",
    ) || text::same(ext, "zip") || text::same(ext, "rar") || text::same(ext, "7z") || text::same(
        ext,
        "pdf",
    ) || text::same(ext, "apk") || text::same(ext, "iso")
}

/// URL shapes worth offering (media extensions, manifests, magnets).
pub fn is_interesting(url: &str) -> (out: bool)
    ensures
        out == worth_offering(url@),
{
    let lower = text::chars_of(text::to_lower(url).as_str());
    if text::begins_with(&lower, "magnet:") {
        return true;
    }
    if !text::begins_with(&lower, "http://") && !text::begins_with(&lower, "https://") {
        return false;
    }
    let query = vec!['?', '#'];
    let dot = vec!['.'];
    assert(query@ =~= seq!['?', '#']);
    assert(dot@ =~= seq!['.']);
    let ending = text::cut_after_last(&text::cut_until(&lower, &query), &dot);
    has_offered_ext(text::string_of(&ending).as_str()) || text::has_text(&lower, ".m3u8")
        || text::has_text(&lower, ".mpd") || text::finishes_with(&lower, ".torrent")
}

/// Extracts the first URL worth offering from a clipboard text.
pub fn extract_url(s: &str) -> (out: Option<String>)
    ensures
        match out {
            Some(url) => url_in(s@) == Some(url@),
            None => url_in(s@) is None,
        },
{
    let tokens = text::tokens_of(&text::chars_of(s));
    let wraps = vec!['"', '\'', '(', ')', '[', ']', '<', '>', '{', '}', ','];
    assert(wraps@ =~= wrapping());
    let ghost all = text::tokens(s@, 0);
    let mut i: usize = 0;
    assert(all.skip(0) =~= all);
    while i < tokens.len()
        invariant
            i <= tokens.len(),
            all == text::string_views(tokens@),
            all == text::tokens(s@, 0),
            wraps@ == wrapping(),
            first_offered(all) == first_offered(all.skip(i as int)),
        decreases tokens.len() - i,
    {
        assert(all.skip(i as int)[0] == tokens@[i as int]@);
        assert(all.skip(i as int).drop_first() =~= all.skip(i + 1));
        let url = text::string_of(
            &text::trimmed_of(&text::chars_of(tokens[i].as_str()), &wraps),
        );
        if is_interesting(url.as_str()) {
            return Some(url);
        }
        i += 1;
    }
    None
}

/// What has been offered from the clipboard.
pub struct ClipboardWatch {
    /// The URL that was offered last.
    pub last: Option<String>,
}

/// The URL that a clipboard text makes the watcher offer: one that was not
/// offered just before, from a text of moderate size.
pub open spec fn offer(last: Option<Seq<char>>, s: Seq<char>) -> Option<Seq<char>> {
    if text::byte_len(s) > MAX_CLIPBOARD_BYTES || url_in(s) == last {
        None
    } else {
        url_in(s)
    }
}

impl ClipboardWatch {
    /// Nothing has been offered.
    pub fn new() -> (out: ClipboardWatch)
        ensures
            out.last is None,
    {
        ClipboardWatch { last: None }
    }

    /// Looks at the clipboard text; returns the URL to offer, if any.
    pub fn poll(&mut self, enabled: bool, s: &str) -> (out: Option<String>)
        ensures
            model::text_view(out) == if enabled {
                offer(model::text_view(old(self).last), s@)
            } else {
                None
            },
            model::text_view(final(self).last) == if out is Some {
                model::text_view(out)
            } else {
                model::text_view(old(self).last)
            },
    {
        if !enabled || text::bytes_in(s) > MAX_CLIPBOARD_BYTES {
            return None;
        }
        match extract_url(s) {
            Some(url) => {
                let seen = match &self.last {
                    Some(last) => text::same(last.as_str(), url.as_str()),
                    None => false,
                };
                if seen {
                    return None;
                }
                self.last = Some(url.clone());
                Some(url)
            },
            None => None,
        }
    }
}

/// The same URL is never offered twice in a row.
pub proof fn lemma_no_repeated_offer(last: Option<Seq<char>>, s: Seq<char>)
    ensures
        offer(last, s) is Some ==> offer(last, s) != last && worth_offering(offer(last, s)->0),
{
    lemma_offered(text::tokens(s, 0));
}

proof fn lemma_offered(tokens: Seq<Seq<char>>)
    ensures
        first_offered(tokens) matches Some(url) ==> worth_offering(url),
    decreases tokens.len(),
{
    if tokens.len() > 0 {
        lemma_offered(tokens.drop_first());
    }
}

} // verus!
