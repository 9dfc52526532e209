//! The embedded browser: which addresses it opens, and how it is sent there.

use crate::text;
use crate::urls::{parse_url, url_scheme};
use crate::urls;
use url::Url;
use vstd::prelude::*;

verus! {

/// The lower-case hexadecimal digit of a number below sixteen.
pub open spec fn hex_digit(n: nat) -> char {
    if n < 10 {
        (48 + n) as char
    } else {
        (87 + n) as char
    }
}

/// A character as it stands in a JSON string.
pub open spec fn json_char(c: char) -> Seq<char> {
    if c == '"' {
        seq!['\\', '"']
    } else if c == '\\' {
        seq!['\\', '\\']
    } else if c as u32 == 8 {
        seq!['\\', 'b']
    } else if c as u32 == 9 {
        seq!['\\', 't']
    } else if c as u32 == 10 {
        seq!['\\', 'n']
    } else if c as u32 == 12 {
        seq!['\\', 'f']
    } else if c as u32 == 13 {
        seq!['\\', 'r']
    } else if (c as u32) < 32 {
        seq!['\\', 'u', '0', '0', hex_digit((c as nat) / 16), hex_digit((c as nat) % 16)]
    } else {
        seq![c]
    }
}

/// The characters of a text as they stand in a JSON string.
pub open spec fn json_chars(s: Seq<char>) -> Seq<char>
    decreases s.len(),
{
    if s.len() == 0 {
        Seq::empty()
    } else {
        json_chars(s.drop_last()) + json_char(s.last())
    }
}

/// A text as a JSON string.
pub open spec fn json_text(s: Seq<char>) -> Seq<char> {
    seq!['"'] + json_chars(s) + seq!['"']
}

/// Calls `serde_json::to_string` on a text, which gives a JSON string: quotes,
/// backslashes and control characters are escaped, everything else is kept. It
/// does not fail on a text.
#[verifier::external_body]
fn json_string(s: &str) -> (out: Option<String>)
    ensures
        out is Some,
        out->0@ == json_text(s@),
{
    serde_json::to_string(s).ok()
}

/// The address that the browser opens for a text.
pub open spec fn address_of(s: Seq<char>) -> Result<Seq<char>, Seq<char>> {
    match urls::parsed(text::trim(s)) {
        Err(message) => Err("invalid url: "@ + message),
        Ok(url) => if urls::scheme_of(url) == "http"@ || urls::scheme_of(url) == "https"@ {
            Ok(url)
        } else {
            Err("only http(s) URLs can be opened"@)
        },
    }
}

/// The address that the browser opens for a text: HTTP URLs only.
pub fn check_address(s: &str) -> (out: Result<Url, String>)
    ensures
        match out {
            Ok(url) => address_of(s@) == Ok::<Seq<char>, Seq<char>>(urls::url_text(url)),
            Err(message) => address_of(s@) == Err::<Seq<char>, Seq<char>>(message@),
        },
{
    let trimmed = text::trimmed(s);
    match parse_url(trimmed.as_str()) {
        Err(message) => Err("invalid url: ".to_owned().concat(message.as_str())),
        Ok(url) => {
            let scheme = url_scheme(&url);
            if text::same(scheme.as_str(), "http") || text::same(scheme.as_str(), "https") {
                Ok(url)
            } else {
                Err("only http(s) URLs can be opened".to_owned())
            }
        },
    }
}

/// The script that sends an open browser window to an address.
pub open spec fn script_for(s: Seq<char>) -> Seq<char> {
    "window.location.href = "@ + json_text(text::trim(s)) + ";"@
}

/// The script that sends an open browser window to an address.
pub fn navigation_script(s: &str) -> (out: String)
    ensures
        out@ == script_for(s@),
{
    let target = match json_string(text::trimmed(s).as_str()) {
        Some(json) => json,
        None => "\"about:blank\"".to_owned(),
    };
    "window.location.href = ".to_owned().concat(target.as_str()).concat(";")
}

} // verus!
