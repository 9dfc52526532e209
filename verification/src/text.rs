//! Text as sequences of characters: searching, cutting, trimming, numbers.

use vstd::prelude::*;

verus! {

broadcast use vstd::string::group_string_axioms;

// ---------------------------------------------------------------------------
// Characters in and out of strings
// ---------------------------------------------------------------------------

/// `String::push` adds one character at the end of the string.
pub assume_specification[ String::push ](s: &mut String, c: char)
    ensures
        final(s)@ == old(s)@.push(c),
;

/// The characters of a string.
pub fn chars_of(s: &str) -> (out: Vec<char>)
    ensures
        out@ == s@,
{
    let mut out: Vec<char> = Vec::new();
    for c in it: s.chars()
        invariant
            it.seq() == s@,
            out@ == s@.take(it.index() as int),
    {
        out.push(c);
    }
    out
}

/// The number of bytes of a text in UTF-8.
pub open spec fn byte_len(s: Seq<char>) -> nat {
    vstd::utf8::encode_utf8(s).len()
}

/// The number of bytes of a text in UTF-8.
pub fn bytes_in(s: &str) -> (out: usize)
    ensures
        out == byte_len(s@),
{
    s.as_bytes().len()
}

/// The string made of some characters.
pub fn string_of(chars: &[char]) -> (out: String)
    ensures
        out@ == chars@,
{
    let mut out = String::new();
    let mut i: usize = 0;
    while i < chars.len()
        invariant
            i <= chars.len(),
            out@ == chars@.take(i as int),
        decreases chars.len() - i,
    {
        out.push(chars[i]);
        i += 1;
    }
    out
}

/// Whether two strings hold the same characters.
pub fn same(a: &str, b: &str) -> (out: bool)
    ensures
        out == (a@ == b@),
{
    let x = chars_of(a);
    let y = chars_of(b);
    same_chars(&x, &y)
}

/// Whether two character runs are equal.
pub fn same_chars(a: &[char], b: &[char]) -> (out: bool)
    ensures
        out == (a@ == b@),
{
    if a.len() != b.len() {
        return false;
    }
    let mut i: usize = 0;
    while i < a.len()
        invariant
            i <= a.len(),
            a.len() == b.len(),
            forall|j: int| 0 <= j < i ==> a@[j] == b@[j],
        decreases a.len() - i,
    {
        if a[i] != b[i] {
            assert(a@[i as int] != b@[i as int]);
            return false;
        }
        i += 1;
    }
    assert(a@ =~= b@);
    true
}

/// The characters of `chars` from `from` up to `to`.
pub fn slice_of(chars: &[char], from: usize, to: usize) -> (out: Vec<char>)
    requires
        from <= to <= chars.len(),
    ensures
        out@ == chars@.subrange(from as int, to as int),
{
    let mut out: Vec<char> = Vec::new();
    let mut i: usize = from;
    while i < to
        invariant
            from <= i <= to <= chars.len(),
            out@ == chars@.subrange(from as int, i as int),
        decreases to - i,
    {
        out.push(chars[i]);
        i += 1;
    }
    out
}

// ---------------------------------------------------------------------------
// Letter case and encodings
// ---------------------------------------------------------------------------

/// The lower-case form of an ASCII letter; any other character is kept.
pub open spec fn ascii_lower(c: char) -> char {
    if 'A' <= c && c <= 'Z' {
        (c as u8 + 32) as char
    } else {
        c
    }
}

/// The upper-case form of an ASCII letter; any other character is kept.
pub open spec fn ascii_upper(c: char) -> char {
    if 'a' <= c && c <= 'z' {
        (c as u8 - 32) as char
    } else {
        c
    }
}

/// What `str::to_lowercase` gives for a text up to its last character outside
/// ASCII, that one included.
pub uninterp spec fn unicode_lowercase(s: Seq<char>) -> Seq<char>;

/// What `str::to_uppercase` gives for a text with a character outside ASCII.
pub uninterp spec fn unicode_uppercase(s: Seq<char>) -> Seq<char>;

/// What `String::from_utf8_lossy` gives for bytes that are not valid UTF-8.
pub uninterp spec fn repaired_utf8(bytes: Seq<u8>) -> Seq<char>;

/// Where the ASCII characters begin that end a text: behind its last character
/// outside ASCII.
pub open spec fn ascii_tail(s: Seq<char>) -> int
    decreases s.len(),
{
    if s.len() == 0 {
        0
    } else if s.last() > '\u{7f}' {
        s.len() as int
    } else {
        ascii_tail(s.drop_last())
    }
}

/// ASCII characters in lower case, one by one.
pub open spec fn ascii_lowered(s: Seq<char>) -> Seq<char> {
    s.map_values(|c: char| ascii_lower(c))
}

/// The text in lower case.
pub open spec fn lower(s: Seq<char>) -> Seq<char> {
    if vstd::utf8::is_ascii_chars(s) {
        ascii_lowered(s)
    } else {
        unicode_lowercase(s) + ascii_lowered(s.skip(ascii_tail(s)))
    }
}

/// ASCII characters at the end of a text are at the end of its lower case too,
/// each in lower case.
pub proof fn lemma_lower_ending(s: Seq<char>, n: int)
    requires
        0 <= n <= s.len(),
        vstd::utf8::is_ascii_chars(s.skip(n)),
    ensures
        ascii_lowered(s.skip(n)).is_suffix_of(lower(s)),
{
    lemma_ascii_tail(s, n);
    let t = ascii_tail(s);
    let end = ascii_lowered(s.skip(n));
    let low = lower(s);
    if vstd::utf8::is_ascii_chars(s) {
        assert(low.subrange(low.len() - end.len(), low.len() as int) =~= end);
    } else {
        let tail = ascii_lowered(s.skip(t));
        assert(low.subrange(low.len() - end.len(), low.len() as int) =~= end) by {
            assert forall|i: int| 0 <= i < end.len() implies low[low.len() - end.len() + i]
                == end[i] by {
                assert(low[low.len() - end.len() + i] == tail[n - t + i]);
            }
        }
    }
}

proof fn lemma_ascii_tail(s: Seq<char>, n: int)
    requires
        0 <= n <= s.len(),
        vstd::utf8::is_ascii_chars(s.skip(n)),
    ensures
        0 <= ascii_tail(s) <= n,
    decreases s.len(),
{
    if s.len() > 0 {
        let front = s.drop_last();
        if n < s.len() {
            assert(s.skip(n)[s.len() - 1 - n] == s.last());
            assert forall|i: int| 0 <= i < front.skip(n).len() implies '\0' <= #[trigger] front.skip(
                n,
            )[i] <= '\u{7f}' by {
                assert(front.skip(n)[i] == s.skip(n)[i]);
            }
            lemma_ascii_tail(front, n);
        } else if s.last() <= '\u{7f}' {
            lemma_ascii_tail(front, n - 1);
        }
    }
}

/// The text in upper case.
pub open spec fn upper(s: Seq<char>) -> Seq<char> {
    if vstd::utf8::is_ascii_chars(s) {
        s.map_values(|c: char| ascii_upper(c))
    } else {
        unicode_uppercase(s)
    }
}

/// The text that bytes stand for, whatever they hold.
pub open spec fn lossy(bytes: Seq<u8>) -> Seq<char> {
    if vstd::utf8::valid_utf8(bytes) {
        vstd::utf8::decode_utf8(bytes)
    } else {
        repaired_utf8(bytes)
    }
}

/// Calls `str::to_lowercase`. On a text of ASCII characters alone each letter
/// becomes its lower-case form. On any other text so do the ASCII letters behind
/// its last other character; what becomes of the part before them is a function
/// of the text (the Unicode lower-case mapping, in which a final sigma depends
/// on what follows it).
#[verifier::external_body]
pub(crate) fn to_lower(s: &str) -> (out: String)
    ensures
        vstd::utf8::is_ascii_chars(s@) ==> out@ == ascii_lowered(s@),
        !vstd::utf8::is_ascii_chars(s@) ==> out@ == unicode_lowercase(s@) + ascii_lowered(
            s@.skip(ascii_tail(s@)),
        ),
{
    s.to_lowercase()
}

/// Calls `str::to_uppercase`. On a text of ASCII characters alone each letter
/// becomes its upper-case form; on any other text the result is a function of
/// the text (the Unicode upper-case mapping).
#[verifier::external_body]
pub(crate) fn to_upper(s: &str) -> (out: String)
    ensures
        vstd::utf8::is_ascii_chars(s@) ==> out@ == s@.map_values(|c: char| ascii_upper(c)),
        !vstd::utf8::is_ascii_chars(s@) ==> out@ == unicode_uppercase(s@),
{
    s.to_uppercase()
}

/// Calls `String::from_utf8_lossy`. Valid UTF-8 is decoded; of other bytes the
/// result is a function of the bytes (malformed parts become U+FFFD).
#[verifier::external_body]
pub(crate) fn from_utf8_lossy(bytes: &[u8]) -> (out: String)
    ensures
        vstd::utf8::valid_utf8(bytes@) ==> out@ == vstd::utf8::decode_utf8(bytes@),
        !vstd::utf8::valid_utf8(bytes@) ==> out@ == repaired_utf8(bytes@),
{
    String::from_utf8_lossy(bytes).to_string()
}

/// The lower-case form of an ASCII letter; any other character is kept.
pub fn to_ascii_lower(c: char) -> (out: char)
    ensures
        out == ascii_lower(c),
{
    if 'A' <= c && c <= 'Z' {
        (c as u8 + 32) as char
    } else {
        c
    }
}

// ---------------------------------------------------------------------------
// Searching
// ---------------------------------------------------------------------------

/// The first position from `from` on that holds one of `stops`; the length of
/// the text if there is none.
pub open spec fn find_any(s: Seq<char>, stops: Seq<char>, from: int) -> int
    decreases s.len() - from,
{
    if from >= s.len() {
        s.len() as int
    } else if stops.contains(s[from]) {
        from
    } else {
        find_any(s, stops, from + 1)
    }
}

/// The last position before `end` that holds one of `stops`; -1 if there is
/// none.
pub open spec fn rfind_any(s: Seq<char>, stops: Seq<char>, end: int) -> int
    decreases end,
{
    if end <= 0 {
        -1
    } else if stops.contains(s[end - 1]) {
        end - 1
    } else {
        rfind_any(s, stops, end - 1)
    }
}

/// The text before the first of `stops`, all of it where none occurs.
pub open spec fn until_any(s: Seq<char>, stops: Seq<char>) -> Seq<char> {
    s.take(find_any(s, stops, 0))
}

/// The text after the last of `stops`, all of it where none occurs.
pub open spec fn after_last(s: Seq<char>, stops: Seq<char>) -> Seq<char> {
    s.skip(rfind_any(s, stops, s.len() as int) + 1)
}

/// Whether `part` occurs in `s` as a run of consecutive characters.
pub open spec fn contains_text(s: Seq<char>, part: Seq<char>) -> bool {
    exists|i: int|
        0 <= i <= s.len() - part.len() && #[trigger] s.subrange(i, i + part.len()) == part
}

/// Where `find_any` lands: on a stop or at the end, with no stop before it.
pub proof fn lemma_find_any(s: Seq<char>, stops: Seq<char>, from: int)
    requires
        0 <= from <= s.len(),
    ensures
        from <= find_any(s, stops, from) <= s.len(),
        forall|j: int| from <= j < find_any(s, stops, from) ==> !stops.contains(#[trigger] s[j]),
        find_any(s, stops, from) < s.len() ==> stops.contains(s[find_any(s, stops, from)]),
    decreases s.len() - from,
{
    if from < s.len() && !stops.contains(s[from]) {
        lemma_find_any(s, stops, from + 1);
    }
}

/// Whether `c` is one of `stops`.
pub fn is_one_of(stops: &[char], c: char) -> (out: bool)
    ensures
        out == stops@.contains(c),
{
    let mut i: usize = 0;
    while i < stops.len()
        invariant
            i <= stops.len(),
            forall|j: int| 0 <= j < i ==> stops@[j] != c,
        decreases stops.len() - i,
    {
        if stops[i] == c {
            assert(stops@[i as int] == c);
            return true;
        }
        i += 1;
    }
    false
}

/// The first position from `from` on that holds one of `stops`.
pub fn position_of_any(s: &[char], stops: &[char], from: usize) -> (out: usize)
    requires
        from <= s.len(),
    ensures
        out == find_any(s@, stops@, from as int),
        from <= out <= s.len(),
{
    let mut i: usize = from;
    while i < s.len()
        invariant
            from <= i <= s.len(),
            find_any(s@, stops@, from as int) == find_any(s@, stops@, i as int),
        decreases s.len() - i,
    {
        if is_one_of(stops, s[i]) {
            return i;
        }
        i += 1;
    }
    i
}

/// The text before the first of `stops`.
pub fn cut_until(s: &[char], stops: &[char]) -> (out: Vec<char>)
    ensures
        out@ == until_any(s@, stops@),
{
    let at: usize = position_of_any(s, stops, 0);
    slice_of(s, 0, at)
}

/// The text after the last of `stops`.
pub fn cut_after_last(s: &[char], stops: &[char]) -> (out: Vec<char>)
    ensures
        out@ == after_last(s@, stops@),
{
    let mut end: usize = s.len();
    while end > 0
        invariant
            end <= s.len(),
            rfind_any(s@, stops@, s.len() as int) == rfind_any(s@, stops@, end as int),
        decreases end,
    {
        if is_one_of(stops, s[end - 1]) {
            return slice_of(s, end, s.len());
        }
        end -= 1;
    }
    slice_of(s, 0, s.len())
}

/// Whether `part` stands in `s` at position `at`.
fn matches_at(s: &[char], part: &[char], at: usize) -> (out: bool)
    requires
        at + part.len() <= s.len(),
    ensures
        out == (s@.subrange(at as int, at + part.len()) == part@),
{
    let mut i: usize = 0;
    while i < part.len()
        invariant
            i <= part.len(),
            at + part.len() <= s.len(),
            forall|j: int| 0 <= j < i ==> s@[at + j] == part@[j],
        decreases part.len() - i,
    {
        if s[at + i] != part[i] {
            assert(s@.subrange(at as int, at + part.len())[i as int] != part@[i as int]);
            return false;
        }
        i += 1;
    }
    assert(s@.subrange(at as int, at + part.len()) =~= part@);
    true
}

/// Whether `part` occurs in `s`.
pub fn has_text(s: &[char], part: &str) -> (out: bool)
    ensures
        out == contains_text(s@, part@),
{
    let p = chars_of(part);
    if p.len() > s.len() {
        return false;
    }
    let last: usize = s.len() - p.len();
    let mut i: usize = 0;
    loop
        invariant
            p@ == part@,
            p.len() <= s.len(),
            last == s.len() - p.len(),
            i <= last,
            forall|j: int| 0 <= j < i ==> #[trigger] s@.subrange(j, j + part@.len()) != part@,
        decreases last - i,
    {
        if matches_at(s, &p, i) {
            assert(s@.subrange(i as int, i + part@.len()) == part@);
            return true;
        }
        if i == last {
            return false;
        }
        i += 1;
    }
}

/// Whether `s` begins with `part`.
pub fn begins_with(s: &[char], part: &str) -> (out: bool)
    ensures
        out == part@.is_prefix_of(s@),
{
    let p = chars_of(part);
    p.len() <= s.len() && matches_at(s, &p, 0)
}

/// Whether `s` ends with `part`.
pub fn finishes_with(s: &[char], part: &str) -> (out: bool)
    ensures
        out == part@.is_suffix_of(s@),
{
    let p = chars_of(part);
    p.len() <= s.len() && matches_at(s, &p, s.len() - p.len())
}

// ---------------------------------------------------------------------------
// Trimming and tokens
// ---------------------------------------------------------------------------

/// The characters with the Unicode property White_Space.
pub open spec fn whitespace() -> Seq<char> {
    seq![
        '\u{9}', '\u{A}', '\u{B}', '\u{C}', '\u{D}', '\u{20}', '\u{85}', '\u{A0}', '\u{1680}',
        '\u{2000}', '\u{2001}', '\u{2002}', '\u{2003}', '\u{2004}', '\u{2005}', '\u{2006}',
        '\u{2007}', '\u{2008}', '\u{2009}', '\u{200A}', '\u{2028}', '\u{2029}', '\u{202F}',
        '\u{205F}', '\u{3000}',
    ]
}

/// The first position from `from` on that holds none of `set`.
pub open spec fn skip_any(s: Seq<char>, set: Seq<char>, from: int) -> int
    decreases s.len() - from,
{
    if from >= s.len() {
        s.len() as int
    } else if set.contains(s[from]) {
        skip_any(s, set, from + 1)
    } else {
        from
    }
}

/// The end of the text when characters of `set` are dropped from the back,
/// down to `low`.
pub open spec fn rskip_any(s: Seq<char>, set: Seq<char>, low: int, end: int) -> int
    decreases end - low,
{
    if end <= low {
        low
    } else if set.contains(s[end - 1]) {
        rskip_any(s, set, low, end - 1)
    } else {
        end
    }
}

/// The text without characters of `set` at either end.
pub open spec fn trim_any(s: Seq<char>, set: Seq<char>) -> Seq<char> {
    let low = skip_any(s, set, 0);
    s.subrange(low, rskip_any(s, set, low, s.len() as int))
}

/// The text without whitespace at either end.
pub open spec fn trim(s: Seq<char>) -> Seq<char> {
    trim_any(s, whitespace())
}

/// The whitespace-separated tokens of the text from `from` on.
pub open spec fn tokens(s: Seq<char>, from: int) -> Seq<Seq<char>>
    decreases s.len() - from,
{
    let start = skip_any(s, whitespace(), from);
    if from < 0 || start < from || start >= s.len() {
        Seq::empty()
    } else {
        let end = find_any(s, whitespace(), start);
        if end <= start || end > s.len() {
            Seq::empty()
        } else {
            seq![s.subrange(start, end)] + tokens(s, end)
        }
    }
}

/// The characters with the Unicode property White_Space.
pub fn whitespace_chars() -> (out: Vec<char>)
    ensures
        out@ == whitespace(),
{
    vec![
        '\u{9}', '\u{A}', '\u{B}', '\u{C}', '\u{D}', '\u{20}', '\u{85}', '\u{A0}', '\u{1680}',
        '\u{2000}', '\u{2001}', '\u{2002}', '\u{2003}', '\u{2004}', '\u{2005}', '\u{2006}',
        '\u{2007}', '\u{2008}', '\u{2009}', '\u{200A}', '\u{2028}', '\u{2029}', '\u{202F}',
        '\u{205F}', '\u{3000}',
    ]
}

/// The first position from `from` on that holds none of `set`.
pub fn position_past(s: &[char], set: &[char], from: usize) -> (out: usize)
    requires
        from <= s.len(),
    ensures
        out == skip_any(s@, set@, from as int),
        from <= out <= s.len(),
        out < s.len() ==> !set@.contains(s@[out as int]),
{
    let mut i: usize = from;
    while i < s.len()
        invariant
            from <= i <= s.len(),
            skip_any(s@, set@, from as int) == skip_any(s@, set@, i as int),
        decreases s.len() - i,
    {
        if !is_one_of(set, s[i]) {
            return i;
        }
        i += 1;
    }
    i
}

/// The text without characters of `set` at either end.
pub fn trimmed_of(s: &[char], set: &[char]) -> (out: Vec<char>)
    ensures
        out@ == trim_any(s@, set@),
{
    let low: usize = position_past(s, set, 0);
    let mut end: usize = s.len();
    while end > low
        invariant
            low <= end <= s.len(),
            low == skip_any(s@, set@, 0),
            rskip_any(s@, set@, low as int, s.len() as int) == rskip_any(s@, set@, low as int, end as int),
        decreases end,
    {
        if !is_one_of(set, s[end - 1]) {
            return slice_of(s, low, end);
        }
        end -= 1;
    }
    slice_of(s, low, end)
}

/// Trimming cuts a run of characters out of the text.
pub proof fn lemma_trim_any(s: Seq<char>, set: Seq<char>)
    ensures
        0 <= skip_any(s, set, 0) <= rskip_any(s, set, skip_any(s, set, 0), s.len() as int)
            <= s.len(),
        trim_any(s, set).len() > 0 ==> !set.contains(trim_any(s, set)[0]) && !set.contains(
            trim_any(s, set).last(),
        ),
        s.len() > 0 && !set.contains(s[0]) && !set.contains(s.last()) ==> trim_any(s, set) == s,
{
    lemma_skip_any(s, set, 0);
    lemma_rskip_any(s, set, skip_any(s, set, 0), s.len() as int);
}

proof fn lemma_skip_any(s: Seq<char>, set: Seq<char>, from: int)
    requires
        0 <= from <= s.len(),
    ensures
        from <= skip_any(s, set, from) <= s.len(),
        skip_any(s, set, from) < s.len() ==> !set.contains(s[skip_any(s, set, from)]),
    decreases s.len() - from,
{
    if from < s.len() {
        lemma_skip_any(s, set, from + 1);
    }
}

proof fn lemma_rskip_any(s: Seq<char>, set: Seq<char>, low: int, end: int)
    requires
        0 <= low <= end <= s.len(),
    ensures
        low <= rskip_any(s, set, low, end) <= end,
        rskip_any(s, set, low, end) > low ==> !set.contains(s[rskip_any(s, set, low, end) - 1]),
    decreases end,
{
    if end > low {
        lemma_rskip_any(s, set, low, end - 1);
    }
}

/// The views of some strings.
pub open spec fn string_views(list: Seq<String>) -> Seq<Seq<char>> {
    list.map_values(|s: String| s@)
}

/// The whitespace-separated tokens of a text.
pub fn tokens_of(s: &[char]) -> (out: Vec<String>)
    ensures
        string_views(out@) == tokens(s@, 0),
{
    let space = whitespace_chars();
    let mut out: Vec<String> = Vec::new();
    let mut from: usize = 0;
    assert(string_views(out@) + tokens(s@, 0) =~= tokens(s@, 0));
    loop
        invariant
            from <= s.len(),
            space@ == whitespace(),
            string_views(out@) + tokens(s@, from as int) == tokens(s@, 0),
        decreases s.len() - from,
    {
        let start: usize = position_past(s, &space, from);
        if start == s.len() {
            assert(string_views(out@) + Seq::<Seq<char>>::empty() =~= string_views(out@));
            return out;
        }
        let end: usize = position_of_any(s, &space, start);
        proof {
            lemma_find_any(s@, space@, start as int);
        }
        let ghost before = out@;
        let token = string_of(&slice_of(s, start, end));
        out.push(token);
        proof {
            assert(string_views(out@) =~= string_views(before).push(token@));
            assert(string_views(out@) + tokens(s@, end as int) =~= string_views(before) + (
            seq![token@] + tokens(s@, end as int)));
        }
        from = end;
    }
}

/// The text without whitespace at either end.
pub fn trimmed(s: &str) -> (out: String)
    ensures
        out@ == trim(s@),
{
    let chars = chars_of(s);
    let space = whitespace_chars();
    string_of(&trimmed_of(&chars, &space))
}

// ---------------------------------------------------------------------------
// Decimal numbers
// ---------------------------------------------------------------------------

/// Whether `c` is an ASCII digit.
pub open spec fn is_digit(c: char) -> bool {
    '0' <= c && c <= '9'
}

/// Whether every character is an ASCII digit.
pub open spec fn all_digits(s: Seq<char>) -> bool {
    forall|i: int| 0 <= i < s.len() ==> is_digit(#[trigger] s[i])
}

/// The number that a run of digits denotes.
pub open spec fn digits_value(s: Seq<char>) -> nat
    decreases s.len(),
{
    if s.len() == 0 {
        0
    } else {
        digits_value(s.drop_last()) * 10 + (s.last() as nat - '0' as nat) as nat
    }
}

/// The digits of a number, after the sign `+` where there is one.
pub open spec fn unsigned_body(s: Seq<char>) -> Seq<char> {
    if s.len() > 0 && s[0] == '+' {
        s.skip(1)
    } else {
        s
    }
}

/// Whether the text is an unsigned number of at most `max`: at least one digit,
/// with an optional `+` in front.
pub open spec fn is_number(s: Seq<char>, max: nat) -> bool {
    let body = unsigned_body(s);
    body.len() > 0 && all_digits(body) && digits_value(body) <= max
}

/// The value of the text as a `u64`, if it is one.
pub open spec fn parse_u64(s: Seq<char>) -> Option<u64> {
    if is_number(s, u64::MAX as nat) {
        Some(digits_value(unsigned_body(s)) as u64)
    } else {
        None
    }
}

/// The value of the text as a `usize`, if it is one.
pub open spec fn parse_usize(s: Seq<char>) -> Option<usize> {
    if is_number(s, usize::MAX as nat) {
        Some(digits_value(unsigned_body(s)) as usize)
    } else {
        None
    }
}

/// The character of a digit below ten.
pub open spec fn digit_char(d: nat) -> char {
    (48 + d) as char
}

/// A number in decimal notation.
pub open spec fn decimal(n: nat) -> Seq<char>
    decreases n,
{
    if n < 10 {
        seq![digit_char(n)]
    } else {
        decimal(n / 10).push(digit_char(n % 10))
    }
}

/// A number in decimal notation, filled up with zeros in front to `width`
/// characters.
pub open spec fn zero_padded(n: nat, width: nat) -> Seq<char> {
    if decimal(n).len() >= width {
        decimal(n)
    } else {
        Seq::new((width - decimal(n).len()) as nat, |i: int| '0') + decimal(n)
    }
}

/// A prefix of a run of digits denotes no larger number.
proof fn lemma_prefix_value(s: Seq<char>, n: int)
    requires
        0 <= n <= s.len(),
        all_digits(s),
    ensures
        digits_value(s.take(n)) <= digits_value(s),
    decreases s.len(),
{
    if n == s.len() {
        assert(s.take(n) =~= s);
    } else {
        assert(s.drop_last().take(n) =~= s.take(n));
        lemma_prefix_value(s.drop_last(), n);
    }
}

/// The value of the text as a `u64`, if it is one.
pub fn to_u64(s: &[char]) -> (out: Option<u64>)
    ensures
        out == parse_u64(s@),
{
    let start: usize = if s.len() > 0 && s[0] == '+' { 1 } else { 0 };
    let ghost body = unsigned_body(s@);
    assert(body =~= s@.skip(start as int));
    if start == s.len() {
        return None;
    }
    let mut acc: u64 = 0;
    let mut i: usize = start;
    while i < s.len()
        invariant
            start <= i <= s.len(),
            start < s.len(),
            body == unsigned_body(s@),
            body == s@.skip(start as int),
            all_digits(body.take(i - start)),
            acc == digits_value(body.take(i - start)),
        decreases s.len() - i,
    {
        let c = s[i];
        proof {
            assert(body[i - start] == c);
            assert(body.take(i - start + 1).drop_last() =~= body.take(i - start));
        }
        if !('0' <= c && c <= '9') {
            assert(!is_digit(body[i - start]));
            return None;
        }
        let d: u64 = (c as u64) - ('0' as u64);
        if acc > (u64::MAX - d) / 10 {
            proof {
                assert(digits_value(body.take(i - start + 1)) == acc * 10 + d);
                if all_digits(body) {
                    lemma_prefix_value(body, i - start + 1);
                }
            }
            return None;
        }
        acc = acc * 10 + d;
        i += 1;
        proof {
            assert forall|k: int| 0 <= k < i - start implies is_digit(
                #[trigger] body.take(i - start)[k],
            ) by {
                if k < i - start - 1 {
                    assert(body.take(i - start)[k] == body.take(i - start - 1)[k]);
                }
            }
        }
    }
    assert(body.take(s.len() - start) =~= body);
    Some(acc)
}

/// The value of the text as a `usize`, if it is one.
pub fn to_usize(s: &[char]) -> (out: Option<usize>)
    ensures
        out == parse_usize(s@),
{
    match to_u64(s) {
        Some(n) => if n <= usize::MAX as u64 {
            Some(n as usize)
        } else {
            None
        },
        None => None,
    }
}

/// A number in decimal notation.
pub fn decimal_of(n: u64) -> (out: String)
    ensures
        out@ == decimal(n as nat),
    decreases n,
{
    let d: u8 = (n % 10) as u8;
    let c: char = (48 + d) as char;
    let mut out = if n < 10 {
        String::new()
    } else {
        decimal_of(n / 10)
    };
    out.push(c);
    assert(n < 10 ==> out@ =~= seq![digit_char(n as nat)]);
    out
}

/// A number in decimal notation, filled up with zeros in front.
pub fn padded_of(n: u64, width: usize) -> (out: String)
    ensures
        out@ == zero_padded(n as nat, width as nat),
{
    let digits = decimal_of(n);
    let count: usize = digits.as_str().unicode_len();
    if count >= width {
        return digits;
    }
    let mut out = String::new();
    let mut i: usize = 0;
    while i < width - count
        invariant
            count < width,
            i <= width - count,
            out@ == Seq::new(i as nat, |k: int| '0'),
        decreases width - count - i,
    {
        out.push('0');
        i += 1;
        assert(out@ =~= Seq::new(i as nat, |k: int| '0'));
    }
    out.append(digits.as_str());
    out
}

/// Reading the decimal notation of a number gives the number back.
pub proof fn lemma_decimal_round_trip(n: nat)
    ensures
        decimal(n).len() > 0,
        all_digits(decimal(n)),
        digits_value(decimal(n)) == n,
        decimal(n)[0] != '+',
    decreases n,
{
    if n < 10 {
        reveal_with_fuel(digits_value, 2);
    } else {
        lemma_decimal_round_trip(n / 10);
        assert(decimal(n).drop_last() =~= decimal(n / 10));
        assert forall|i: int| 0 <= i < decimal(n).len() implies is_digit(
            #[trigger] decimal(n)[i],
        ) by {
            if i < decimal(n).len() - 1 {
                assert(decimal(n)[i] == decimal(n / 10)[i]);
            }
        }
        assert(decimal(n)[0] == decimal(n / 10)[0]);
    }
}

/// Zeros in front of a number do not change what it reads as.
pub proof fn lemma_padded_round_trip(n: nat, width: nat)
    ensures
        zero_padded(n, width).len() > 0,
        all_digits(zero_padded(n, width)),
        digits_value(zero_padded(n, width)) == n,
        zero_padded(n, width)[0] != '+',
        zero_padded(n, width).len() >= width,
{
    lemma_decimal_round_trip(n);
    if decimal(n).len() < width {
        lemma_leading_zeros((width - decimal(n).len()) as nat, decimal(n));
        let zeros = Seq::new((width - decimal(n).len()) as nat, |i: int| '0');
        assert(zero_padded(n, width) == zeros + decimal(n));
        assert forall|i: int| 0 <= i < zero_padded(n, width).len() implies is_digit(
            #[trigger] zero_padded(n, width)[i],
        ) by {
            if i >= zeros.len() {
                assert(zero_padded(n, width)[i] == decimal(n)[i - zeros.len()]);
            }
        }
    }
}

proof fn lemma_leading_zeros(count: nat, s: Seq<char>)
    ensures
        digits_value(Seq::new(count, |i: int| '0') + s) == digits_value(s),
    decreases s.len(), count,
{
    let zeros = Seq::new(count, |i: int| '0');
    if s.len() > 0 {
        lemma_leading_zeros(count, s.drop_last());
        assert((zeros + s).drop_last() =~= zeros + s.drop_last());
    } else if count > 0 {
        lemma_leading_zeros((count - 1) as nat, s);
        assert((zeros + s).drop_last() =~= Seq::new((count - 1) as nat, |i: int| '0') + s);
    } else {
        assert(zeros + s =~= s);
    }
}

} // verus!
