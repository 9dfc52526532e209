//! Task kinds, file names and destinations.

use crate::model;
use crate::text;
use vstd::prelude::*;

verus! {

/// The kind of task that a URL asks for, by its shape.
pub open spec fn kind_of(url: Seq<char>) -> Seq<char> {
    let lower = text::lower(url);
    if "magnet:"@.is_prefix_of(lower) || ".torrent"@.is_suffix_of(lower) {
        "torrent"@
    } else if text::contains_text(lower, ".m3u8"@) {
        "hls"@
    } else if text::contains_text(lower, ".mpd"@) {
        "dash"@
    } else {
        "http"@
    }
}

/// Detects the task kind from the URL shape.
pub fn detect_kind(url: &str) -> (out: &'static str)
    ensures
        out@ == kind_of(url@),
{
    let lower = text::chars_of(text::to_lower(url).as_str());
    if text::begins_with(&lower, "magnet:") || text::finishes_with(&lower, ".torrent") {
        "torrent"
    } else if text::has_text(&lower, ".m3u8") {
        "hls"
    } else if text::has_text(&lower, ".mpd") {
        "dash"
    } else {
        "http"
    }
}

/// Whether a character cannot stand in a file name.
pub open spec fn is_forbidden(c: char) -> bool {
    c == '<' || c == '>' || c == ':' || c == '"' || c == '/' || c == '\\' || c == '|' || c == '?'
        || c == '*'
}

/// A name with each forbidden character replaced by an underscore.
pub open spec fn cleaned(name: Seq<char>) -> Seq<char> {
    name.map_values(
        |c: char|
            if is_forbidden(c) {
                '_'
            } else {
                c
            },
    )
}

/// A name that can be given to a file: forbidden characters replaced, without
/// whitespace and then dots at either end.
pub open spec fn safe_name(name: Seq<char>) -> Seq<char> {
    let trimmed = text::trim_any(text::trim(cleaned(name)), seq!['.']);
    if trimmed.len() == 0 {
        "download"@
    } else {
        trimmed
    }
}

/// A name that can be given to a file.
pub fn sanitize_name(name: &str) -> (out: String)
    ensures
        out@ == safe_name(name@),
{
    let chars = text::chars_of(name);
    let mut clean: Vec<char> = Vec::new();
    let mut i: usize = 0;
    while i < chars.len()
        invariant
            i <= chars.len(),
            chars@ == name@,
            clean@ == cleaned(name@).take(i as int),
        decreases chars.len() - i,
    {
        let c = chars[i];
        let bad = c == '<' || c == '>' || c == ':' || c == '"' || c == '/' || c == '\\' || c == '|'
            || c == '?' || c == '*';
        clean.push(
            if bad {
                '_'
            } else {
                c
            },
        );
        i += 1;
        assert(clean@ =~= cleaned(name@).take(i as int));
    }
    assert(cleaned(name@).take(chars.len() as int) =~= cleaned(name@));
    let dot = vec!['.'];
    assert(dot@ =~= seq!['.']);
    let space = text::whitespace_chars();
    let trimmed = text::trimmed_of(&text::trimmed_of(&clean, &space), &dot);
    if trimmed.len() == 0 {
        "download".to_owned()
    } else {
        text::string_of(&trimmed)
    }
}

/// The file name that the end of a URL gives.
pub open spec fn url_file_name(url: Seq<char>, kind: Seq<char>) -> Seq<char> {
    if kind == "torrent"@ && "magnet:"@.is_prefix_of(url) {
        "torrent-download"@
    } else {
        safe_name(text::after_last(text::until_any(url, seq!['?', '#']), seq!['/', '\\']))
    }
}

/// Derives a file name from the end of a URL.
pub fn file_name_for(url: &str, kind: &str) -> (out: String)
    ensures
        out@ == url_file_name(url@, kind@),
{
    let chars = text::chars_of(url);
    if text::same(kind, "torrent") && text::begins_with(&chars, "magnet:") {
        return "torrent-download".to_owned();
    }
    let query = vec!['?', '#'];
    let slash = vec!['/', '\\'];
    assert(query@ =~= seq!['?', '#']);
    assert(slash@ =~= seq!['/', '\\']);
    let name = text::cut_after_last(&text::cut_until(&chars, &query), &slash);
    sanitize_name(text::string_of(&name).as_str())
}

/// A name with a file name ending, which is added where it is missing.
pub open spec fn name_with_ext(name: Seq<char>, ext: Seq<char>) -> Seq<char> {
    if ("."@ + ext).is_suffix_of(text::lower(name)) {
        name
    } else {
        name + "."@ + ext
    }
}

/// A name with a file name ending.
pub fn with_ext(name: &str, ext: &str) -> (out: String)
    ensures
        out@ == name_with_ext(name@, ext@),
{
    let lower = text::chars_of(text::to_lower(name).as_str());
    let ending = ".".to_owned().concat(ext);
    if text::finishes_with(&lower, ending.as_str()) {
        name.to_owned()
    } else {
        let out = name.to_owned().concat(ending.as_str());
        assert(out@ =~= name@ + "."@ + ext@);
        out
    }
}

/// The file name of a task: streams get the ending of what they become.
pub open spec fn task_file_name(url: Seq<char>, kind: Seq<char>) -> Seq<char> {
    let name = url_file_name(url, kind);
    if kind == "hls"@ {
        name_with_ext(name, "ts"@)
    } else if kind == "dash"@ {
        name_with_ext(name, "mp4"@)
    } else {
        name
    }
}

/// Where a task goes.
pub struct Destination {
    /// The directory; absent for the system's download directory.
    pub dir: Option<String>,
    /// The file in it; absent for a torrent, which brings its own.
    pub file: Option<String>,
}

/// The directory of a task: the one asked for, else the configured one, else
/// the system's.
pub open spec fn task_dir(asked: Option<Seq<char>>, configured: Seq<char>) -> Option<Seq<char>> {
    if asked is Some && text::trim(asked->0).len() > 0 {
        Some(text::trim(asked->0))
    } else if configured.len() > 0 {
        Some(configured)
    } else {
        None
    }
}

/// Resolves the directory and file name of a new task.
pub fn resolve_destination(
    destination: &Option<String>,
    configured: &str,
    url: &str,
    kind: &str,
) -> (out: Destination)
    ensures
        model::text_view(out.dir) == task_dir(model::text_view(*destination), configured@),
        model::text_view(out.file) == if kind@ == "torrent"@ {
            None
        } else {
            Some(task_file_name(url@, kind@))
        },
{
    let asked = match destination {
        Some(d) => text::trimmed(d.as_str()),
        None => String::new(),
    };
    let dir = if !asked.as_str().is_empty() {
        Some(asked)
    } else if !configured.is_empty() {
        Some(configured.to_owned())
    } else {
        None
    };
    let file = if text::same(kind, "torrent") {
        None
    } else {
        let name = file_name_for(url, kind);
        if text::same(kind, "hls") {
            Some(with_ext(name.as_str(), "ts"))
        } else if text::same(kind, "dash") {
            Some(with_ext(name.as_str(), "mp4"))
        } else {
            Some(name)
        }
    };
    Destination { dir, file }
}

// ---------------------------------------------------------------------------
// Laws
// ---------------------------------------------------------------------------

/// Whether a name can be given to a file as it is: no forbidden character in it,
/// neither whitespace nor a dot at either end.
pub open spec fn is_good_name(name: Seq<char>) -> bool {
    &&& name.len() > 0
    &&& forall|i: int| 0 <= i < name.len() ==> !is_forbidden(#[trigger] name[i])
    &&& !text::whitespace().contains(name[0]) && !text::whitespace().contains(name.last())
    &&& name[0] != '.' && name.last() != '.'
}

/// A file name is never empty, never holds a character that it cannot have and
/// has no dot at either end. A good name is kept.
pub proof fn lemma_safe_name(name: Seq<char>)
    ensures
        safe_name(name).len() > 0,
        forall|i: int| 0 <= i < safe_name(name).len() ==> !is_forbidden(#[trigger] safe_name(name)[i]),
        safe_name(name)[0] != '.' && safe_name(name).last() != '.',
        is_good_name(name) ==> safe_name(name) == name,
{
    let clean = cleaned(name);
    let a = text::trim(clean);
    let b = text::trim_any(a, seq!['.']);
    text::lemma_trim_any(clean, text::whitespace());
    text::lemma_trim_any(a, seq!['.']);
    reveal_strlit("download");
    assert(seq!['.'].contains('.')) by {
        assert(seq!['.'][0] == '.');
    }
    assert forall|i: int| 0 <= i < b.len() implies !is_forbidden(#[trigger] b[i]) by {
        let la = text::skip_any(a, seq!['.'], 0);
        let lc = text::skip_any(clean, text::whitespace(), 0);
        assert(b[i] == a[la + i]);
        assert(a[la + i] == clean[lc + la + i]);
    }
    if is_good_name(name) {
        assert(clean =~= name);
        assert(a == name);
        assert(b == name);
    }
}

/// A name either has an ending or is given it: what comes out ends in it in
/// lower case, and giving the ending again changes nothing. A name that ends in
/// the ending, in letters of either case, is kept.
pub proof fn lemma_with_ext(name: Seq<char>, ext: Seq<char>)
    requires
        vstd::utf8::is_ascii_chars(ext),
        text::ascii_lowered(ext) == ext,
    ensures
        name_with_ext(name, ext) == name || name_with_ext(name, ext) == name + "."@ + ext,
        ("."@ + ext).is_suffix_of(text::lower(name_with_ext(name, ext))),
        name_with_ext(name_with_ext(name, ext), ext) == name_with_ext(name, ext),
        name.len() > ext.len() && text::ascii_lowered(name.skip(name.len() - ext.len() - 1)) == "."@
            + ext ==> name_with_ext(name, ext) == name,
{
    let out = name_with_ext(name, ext);
    let ending = "."@ + ext;
    reveal_strlit(".");
    if out != name {
        assert(out =~= name + ending);
        let n = name.len() as int;
        assert(out.skip(n) =~= ending);
        assert(text::ascii_lowered(ending) =~= ending) by {
            assert forall|i: int| 0 <= i < ending.len() implies text::ascii_lower(ending[i])
                == ending[i] by {
                if i > 0 {
                    assert(text::ascii_lowered(ext)[i - 1] == ext[i - 1]);
                }
            }
        }
        text::lemma_lower_ending(out, n);
    }
    let n = name.len() - ext.len() - 1;
    if n >= 0 && text::ascii_lowered(name.skip(n)) == ending {
        assert forall|i: int| 0 <= i < name.skip(n).len() implies '\0' <= #[trigger] name.skip(n)[i]
            <= '\u{7f}' by {
            assert(text::ascii_lowered(name.skip(n))[i] == ending[i]);
            if i > 0 {
                assert(ending[i] == ext[i - 1]);
            }
        }
        text::lemma_lower_ending(name, n);
    }
}

} // verus!
