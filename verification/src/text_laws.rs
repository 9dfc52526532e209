//! What the operations on texts come to, character by character.

use crate::text;
use vstd::prelude::*;

verus! {

// ---------------------------------------------------------------------------
// Numbers
// ---------------------------------------------------------------------------

/// The value of a character as a decimal digit.
pub open spec fn digit(c: char) -> int {
    c as int - 48
}

/// A run of digits is read in positional notation: the first digit counts as
/// many tens as digits follow it, and the rest is read in the same way.
pub proof fn lemma_positional(s: Seq<char>)
    requires
        forall|i: int| 0 <= i < s.len() ==> '0' <= #[trigger] s[i] <= '9',
    ensures
        s.len() == 0 ==> text::digits_value(s) == 0,
        s.len() > 0 ==> text::digits_value(s) == digit(s[0]) * vstd::arithmetic::power::pow(10, (s.len() - 1) as nat)
            + text::digits_value(s.skip(1)),
    decreases s.len(),
{
    reveal(vstd::arithmetic::power::pow);
    if s.len() == 1 {
        reveal_with_fuel(text::digits_value, 2);
        assert(vstd::arithmetic::power::pow(10, 0) == 1);
        assert(s.skip(1) =~= Seq::empty());
    } else if s.len() > 1 {
        let front = s.drop_last();
        lemma_positional(front);
        assert(s.skip(1).drop_last() =~= front.skip(1));
        assert(s.skip(1).last() == s.last());
        let p = vstd::arithmetic::power::pow(10, (front.len() - 1) as nat);
        assert(vstd::arithmetic::power::pow(10, (s.len() - 1) as nat) == 10 * p);
        assert(digit(s[0]) * (10 * p) == (digit(s[0]) * p) * 10) by (nonlinear_arith);
    }
}

/// The decimal notation of a number is made of digits alone, has no zero in
/// front of it unless it is zero, and is read as the number.
pub proof fn lemma_canonical(n: nat)
    ensures
        text::decimal(n).len() > 0,
        forall|i: int|
            0 <= i < text::decimal(n).len() ==> '0' <= #[trigger] text::decimal(n)[i] <= '9',
        text::digits_value(text::decimal(n)) == n,
        text::decimal(n)[0] == '0' ==> n == 0 && text::decimal(n).len() == 1,
    decreases n,
{
    text::lemma_decimal_round_trip(n);
    if n >= 10 {
        lemma_canonical(n / 10);
        assert(text::decimal(n)[0] == text::decimal(n / 10)[0]);
    }
    assert forall|i: int| 0 <= i < text::decimal(n).len() implies '0' <= #[trigger] text::decimal(
        n,
    )[i] <= '9' by {
        assert(text::is_digit(text::decimal(n)[i]));
    }
}

/// Whether a text is the decimal notation of a number, filled up with zeros in
/// front to `width` characters and no more.
pub open spec fn shows_number(s: Seq<char>, n: int, width: int) -> bool {
    &&& s.len() > 0 && s.len() >= width
    &&& forall|i: int| 0 <= i < s.len() ==> '0' <= #[trigger] s[i] <= '9'
    &&& text::digits_value(s) == n
    &&& s.len() > width && s[0] == '0' ==> s.len() == 1 && n == 0
}

/// Whether a text shows a number, without padding, and a unit behind it.
pub open spec fn shows_with(s: Seq<char>, n: int, unit: Seq<char>) -> bool {
    exists|d: Seq<char>| #[trigger] shows_number(d, n, 0) && s == d + unit
}

/// A padded number shows the number in no more characters than it takes.
pub proof fn lemma_padded_shows(n: nat, width: nat)
    ensures
        shows_number(text::zero_padded(n, width), n as int, width as int),
        text::parse_u64(text::zero_padded(n, width)) == if n <= u64::MAX {
            Some(n as u64)
        } else {
            None
        },
{
    lemma_canonical(n);
    text::lemma_padded_round_trip(n, width);
    let s = text::zero_padded(n, width);
    assert forall|i: int| 0 <= i < s.len() implies '0' <= #[trigger] s[i] <= '9' by {
        assert(text::is_digit(s[i]));
    }
}

/// The decimal notation of a number shows it without padding.
pub proof fn lemma_decimal_shows(n: nat)
    ensures
        shows_number(text::decimal(n), n as int, 0),
{
    lemma_canonical(n);
}

/// A text is read as a number exactly where it is a run of digits, behind at
/// most one plus sign, whose value fits; a text with any other character is not.
pub proof fn lemma_parse(s: Seq<char>, body: Seq<char>, plus: bool)
    requires
        s == if plus {
            seq!['+'] + body
        } else {
            body
        },
        !plus ==> body.len() == 0 || body[0] != '+',
    ensures
        text::parse_u64(s) == if body.len() > 0 && (forall|i: int|
            0 <= i < body.len() ==> '0' <= #[trigger] body[i] <= '9') && text::digits_value(body)
            <= u64::MAX {
            Some(text::digits_value(body) as u64)
        } else {
            None
        },
        text::parse_usize(s) == if body.len() > 0 && (forall|i: int|
            0 <= i < body.len() ==> '0' <= #[trigger] body[i] <= '9') && text::digits_value(body)
            <= usize::MAX {
            Some(text::digits_value(body) as usize)
        } else {
            None
        },
{
    assert(text::unsigned_body(s) =~= body);
    if text::all_digits(body) {
        assert forall|i: int| 0 <= i < body.len() implies '0' <= #[trigger] body[i] <= '9' by {
            assert(text::is_digit(body[i]));
        }
    }
    if forall|i: int| 0 <= i < body.len() ==> '0' <= #[trigger] body[i] <= '9' {
        assert(text::all_digits(body));
    }
}

// ---------------------------------------------------------------------------
// Letter case
// ---------------------------------------------------------------------------

/// Lower case moves the letters from A to Z up by 32 and keeps every other
/// character; upper case moves those from a to z down by as much.
pub proof fn lemma_letter_case(c: char)
    ensures
        65 <= c as int <= 90 ==> text::ascii_lower(c) as int == c as int + 32,
        !(65 <= c as int <= 90) ==> text::ascii_lower(c) == c,
        97 <= c as int <= 122 ==> text::ascii_upper(c) as int == c as int - 32,
        !(97 <= c as int <= 122) ==> text::ascii_upper(c) == c,
{
}

/// The lower and upper case of an ASCII text have its length, and each character
/// is that of the text in the other case.
pub proof fn lemma_case_of_ascii(s: Seq<char>)
    requires
        vstd::utf8::is_ascii_chars(s),
    ensures
        text::lower(s).len() == s.len(),
        text::upper(s).len() == s.len(),
        forall|i: int|
            0 <= i < s.len() ==> #[trigger] text::lower(s)[i] as int == if 65 <= s[i] as int <= 90 {
                s[i] as int + 32
            } else {
                s[i] as int
            },
        forall|i: int|
            0 <= i < s.len() ==> #[trigger] text::upper(s)[i] as int == if 97 <= s[i] as int
                <= 122 {
                s[i] as int - 32
            } else {
                s[i] as int
            },
{
}

/// The code of a character in lower case.
pub open spec fn lower_code(c: char) -> int {
    if 65 <= c as int <= 90 {
        c as int + 32
    } else {
        c as int
    }
}

/// Whether a part stands at a place of a text, in letters of either case.
pub open spec fn stands_at(s: Seq<char>, part: Seq<char>, at: int) -> bool {
    &&& 0 <= at <= s.len() - part.len()
    &&& forall|i: int| 0 <= i < part.len() ==> lower_code(s[at + i]) == (#[trigger] part[i]) as int
}

/// Whether a text begins with a part, in letters of either case.
pub open spec fn begins_like(s: Seq<char>, part: Seq<char>) -> bool {
    stands_at(s, part, 0)
}

/// Whether a text ends with a part, in letters of either case.
pub open spec fn ends_like(s: Seq<char>, part: Seq<char>) -> bool {
    stands_at(s, part, s.len() - part.len())
}

/// Whether a text holds a part, in letters of either case.
pub open spec fn holds_like(s: Seq<char>, part: Seq<char>) -> bool {
    exists|at: int| #[trigger] stands_at(s, part, at)
}

proof fn lemma_stands_at(s: Seq<char>, part: Seq<char>, at: int)
    requires
        vstd::utf8::is_ascii_chars(s),
        0 <= at <= s.len() - part.len(),
    ensures
        text::lower(s).subrange(at, at + part.len()) == part <==> stands_at(s, part, at),
{
    let low = text::lower(s);
    lemma_case_of_ascii(s);
    let cut = low.subrange(at, at + part.len());
    if cut == part {
        assert forall|i: int| 0 <= i < part.len() implies lower_code(s[at + i]) == (
        #[trigger] part[i]) as int by {
            assert(cut[i] == low[at + i]);
        }
    }
    if stands_at(s, part, at) {
        assert forall|i: int| 0 <= i < part.len() implies cut[i] == part[i] by {
            assert(cut[i] == low[at + i]);
            assert(lower_code(s[at + i]) == part[i] as int);
        }
        assert(cut =~= part);
    }
}

/// Looking at an ASCII text in lower case is looking at it in letters of either
/// case.
pub proof fn lemma_either_case(s: Seq<char>, part: Seq<char>)
    requires
        vstd::utf8::is_ascii_chars(s),
    ensures
        part.is_prefix_of(text::lower(s)) <==> begins_like(s, part),
        part.is_suffix_of(text::lower(s)) <==> ends_like(s, part),
        text::contains_text(text::lower(s), part) <==> holds_like(s, part),
{
    lemma_case_of_ascii(s);
    let low = text::lower(s);
    if part.len() <= s.len() {
        lemma_stands_at(s, part, 0);
        lemma_stands_at(s, part, s.len() - part.len());
    }
    if text::contains_text(low, part) {
        let i = choose|i: int|
            0 <= i <= low.len() - part.len() && #[trigger] low.subrange(i, i + part.len()) == part;
        lemma_stands_at(s, part, i);
    }
    if holds_like(s, part) {
        let i = choose|i: int| #[trigger] stands_at(s, part, i);
        lemma_stands_at(s, part, i);
        assert(low.subrange(i, i + part.len()) == part);
    }
}

// ---------------------------------------------------------------------------
// Cutting
// ---------------------------------------------------------------------------

/// Where `rfind_any` lands: on the last stop, or nowhere where there is none.
pub proof fn lemma_rfind_any(s: Seq<char>, stops: Seq<char>, end: int)
    requires
        0 <= end <= s.len(),
    ensures
        -1 <= text::rfind_any(s, stops, end) < end || (end == 0 && text::rfind_any(s, stops, end)
            == -1),
        text::rfind_any(s, stops, end) >= 0 ==> stops.contains(s[text::rfind_any(s, stops, end)]),
        forall|j: int|
            text::rfind_any(s, stops, end) < j < end ==> !stops.contains(#[trigger] s[j]),
    decreases end,
{
    if end > 0 && !stops.contains(s[end - 1]) {
        lemma_rfind_any(s, stops, end - 1);
    }
}

/// What stands before the first stop of a text holds no stop, and a stop or
/// nothing follows it.
pub proof fn lemma_until(head: Seq<char>, stops: Seq<char>, rest: Seq<char>)
    requires
        forall|i: int| 0 <= i < head.len() ==> !stops.contains(#[trigger] head[i]),
        rest.len() == 0 || stops.contains(rest[0]),
    ensures
        text::until_any(head + rest, stops) == head,
        text::find_any(head + rest, stops, 0) == head.len(),
{
    let s = head + rest;
    text::lemma_find_any(s, stops, 0);
    let at = text::find_any(s, stops, 0);
    if at < head.len() {
        assert(s[at] == head[at]);
    }
    if at > head.len() {
        assert(s[head.len() as int] == rest[0]);
    }
    assert(s.take(head.len() as int) =~= head);
}

/// What stands behind the last stop of a text holds no stop, and a stop or
/// nothing comes before it.
pub proof fn lemma_after_last(front: Seq<char>, stops: Seq<char>, tail: Seq<char>)
    requires
        forall|i: int| 0 <= i < tail.len() ==> !stops.contains(#[trigger] tail[i]),
        front.len() == 0 || stops.contains(front.last()),
    ensures
        text::after_last(front + tail, stops) == tail,
{
    let s = front + tail;
    lemma_rfind_any(s, stops, s.len() as int);
    let at = text::rfind_any(s, stops, s.len() as int);
    if at >= front.len() {
        assert(s[at] == tail[at - front.len()]);
    }
    if at < front.len() - 1 {
        assert(s[front.len() - 1] == front.last());
    }
    assert(s.skip(front.len() as int) =~= tail);
}

/// A part occurs in a text exactly where the text can be split around it.
pub proof fn lemma_contains_text(s: Seq<char>, part: Seq<char>)
    ensures
        text::contains_text(s, part) <==> exists|a: Seq<char>, b: Seq<char>|
            s == #[trigger] (a + part + b),
{
    if text::contains_text(s, part) {
        let i = choose|i: int|
            0 <= i <= s.len() - part.len() && #[trigger] s.subrange(i, i + part.len()) == part;
        let a = s.take(i);
        let b = s.skip(i + part.len());
        assert(s =~= a + s.subrange(i, i + part.len()) + b);
        assert(s == a + part + b);
    }
    if exists|a: Seq<char>, b: Seq<char>| s == #[trigger] (a + part + b) {
        let (a, b) = choose|a: Seq<char>, b: Seq<char>| s == #[trigger] (a + part + b);
        let i = a.len() as int;
        assert(s.subrange(i, i + part.len()) =~= part);
    }
}

/// Whether a text can be split around a part.
pub open spec fn holds(s: Seq<char>, part: Seq<char>) -> bool {
    exists|a: Seq<char>, b: Seq<char>| s == #[trigger] (a + part + b)
}

/// Whether a text is a part and what follows it.
pub open spec fn begins(s: Seq<char>, part: Seq<char>) -> bool {
    exists|b: Seq<char>| s == #[trigger] (part + b)
}

/// Whether a text is a part and what comes before it.
pub open spec fn ends(s: Seq<char>, part: Seq<char>) -> bool {
    exists|a: Seq<char>| s == #[trigger] (a + part)
}

/// A text begins with a part, ends with it or contains it where it can be put
/// together from the part and something else.
pub proof fn lemma_put_together(s: Seq<char>, part: Seq<char>)
    ensures
        text::contains_text(s, part) <==> holds(s, part),
        part.is_prefix_of(s) <==> begins(s, part),
        part.is_suffix_of(s) <==> ends(s, part),
{
    lemma_contains_text(s, part);
    let n = part.len() as int;
    if part.is_prefix_of(s) {
        assert(s =~= part + s.skip(n));
    }
    if begins(s, part) {
        let b = choose|b: Seq<char>| s == #[trigger] (part + b);
        assert(s.subrange(0, n) =~= part);
    }
    if part.is_suffix_of(s) {
        assert(s =~= s.take(s.len() - n) + part);
    }
    if ends(s, part) {
        let a = choose|a: Seq<char>| s == #[trigger] (a + part);
        assert(s.subrange(s.len() - n, s.len() as int) =~= part);
    }
}

/// White space is what Unicode calls so.
pub proof fn lemma_whitespace(c: char)
    ensures
        text::whitespace().contains(c) <==> {
            let n = c as int;
            9 <= n <= 13 || n == 0x20 || n == 0x85 || n == 0xA0 || n == 0x1680 || 0x2000 <= n
                <= 0x200A || n == 0x2028 || n == 0x2029 || n == 0x202F || n == 0x205F || n == 0x3000
        },
{
    let w = text::whitespace();
    assert(w[0] == '\u{9}' && w[1] == '\u{A}' && w[2] == '\u{B}' && w[3] == '\u{C}' && w[4]
        == '\u{D}' && w[5] == '\u{20}' && w[6] == '\u{85}' && w[7] == '\u{A0}' && w[8]
        == '\u{1680}');
    assert(w[9] == '\u{2000}' && w[10] == '\u{2001}' && w[11] == '\u{2002}' && w[12] == '\u{2003}'
        && w[13] == '\u{2004}' && w[14] == '\u{2005}' && w[15] == '\u{2006}' && w[16] == '\u{2007}'
        && w[17] == '\u{2008}' && w[18] == '\u{2009}' && w[19] == '\u{200A}');
    assert(w[20] == '\u{2028}' && w[21] == '\u{2029}' && w[22] == '\u{202F}' && w[23] == '\u{205F}'
        && w[24] == '\u{3000}');
    assert(w.len() == 25);
}

/// Trimming takes off exactly the characters of the set around a text.
pub proof fn lemma_trimmed(left: Seq<char>, inner: Seq<char>, right: Seq<char>, set: Seq<char>)
    requires
        forall|i: int| 0 <= i < left.len() ==> set.contains(#[trigger] left[i]),
        forall|i: int| 0 <= i < right.len() ==> set.contains(#[trigger] right[i]),
        inner.len() > 0 ==> !set.contains(inner[0]) && !set.contains(inner.last()),
    ensures
        text::trim_any(left + inner + right, set) == inner,
{
    let s = left + inner + right;
    lemma_skip_run(s, set, 0, (left.len() + if inner.len() == 0 {
        right.len()
    } else {
        0
    }) as int);
    let low = text::skip_any(s, set, 0);
    if inner.len() == 0 {
        assert(low == s.len());
        assert(s.subrange(low, s.len() as int) =~= inner);
    } else {
        assert(s[left.len() as int] == inner[0]);
        assert(low == left.len());
        let end = (left.len() + inner.len()) as int;
        assert(s[end - 1] == inner.last());
        lemma_rskip_run(s, set, low, s.len() as int, end);
        assert(s.subrange(low, end) =~= inner);
    }
}

proof fn lemma_skip_run(s: Seq<char>, set: Seq<char>, from: int, to: int)
    requires
        0 <= from <= to <= s.len(),
        forall|i: int| from <= i < to ==> set.contains(#[trigger] s[i]),
    ensures
        text::skip_any(s, set, from) == text::skip_any(s, set, to),
    decreases to - from,
{
    if from < to {
        assert(set.contains(s[from]));
        lemma_skip_run(s, set, from + 1, to);
    }
}

proof fn lemma_rskip_run(s: Seq<char>, set: Seq<char>, low: int, from: int, to: int)
    requires
        0 <= low < to <= from <= s.len(),
        forall|i: int| to <= i < from ==> set.contains(#[trigger] s[i]),
        !set.contains(s[to - 1]),
    ensures
        text::rskip_any(s, set, low, from) == to,
    decreases from - to,
{
    if from > to {
        assert(set.contains(s[from - 1]));
        lemma_rskip_run(s, set, low, from - 1, to);
    }
}

// ---------------------------------------------------------------------------
// Tokens
// ---------------------------------------------------------------------------

proof fn lemma_skip_shift(s: Seq<char>, set: Seq<char>, from: int, i: int)
    requires
        0 <= from <= i <= s.len(),
    ensures
        text::skip_any(s, set, i) == from + text::skip_any(s.skip(from), set, i - from),
        text::find_any(s, set, i) == from + text::find_any(s.skip(from), set, i - from),
    decreases s.len() - i,
{
    if i < s.len() {
        assert(s.skip(from)[i - from] == s[i]);
        lemma_skip_shift(s, set, from, i + 1);
    }
}

proof fn lemma_tokens_shift(s: Seq<char>, from: int, i: int)
    requires
        0 <= from <= i <= s.len(),
    ensures
        text::tokens(s, i) == text::tokens(s.skip(from), i - from),
    decreases s.len() - i,
{
    let w = text::whitespace();
    let rest = s.skip(from);
    lemma_skip_shift(s, w, from, i);
    lemma_skip_bound(s, w, i);
    let start = text::skip_any(s, w, i);
    if start < s.len() {
        lemma_skip_shift(s, w, from, start);
        text::lemma_find_any(s, w, start);
        let end = text::find_any(s, w, start);
        assert(s.subrange(start, end) =~= rest.subrange(start - from, end - from));
        if end > start {
            lemma_tokens_shift(s, from, end);
        }
    }
}

proof fn lemma_skip_bound(s: Seq<char>, set: Seq<char>, from: int)
    requires
        0 <= from <= s.len(),
    ensures
        from <= text::skip_any(s, set, from) <= s.len(),
        text::skip_any(s, set, from) < s.len() ==> !set.contains(
            s[text::skip_any(s, set, from)],
        ),
    decreases s.len() - from,
{
    if from < s.len() {
        lemma_skip_bound(s, set, from + 1);
    }
}

/// The first token of a text is its first run without white space, and the other
/// tokens are those of what follows.
pub proof fn lemma_first_token(space: Seq<char>, token: Seq<char>, rest: Seq<char>)
    requires
        forall|i: int| 0 <= i < space.len() ==> text::whitespace().contains(#[trigger] space[i]),
        token.len() > 0,
        forall|i: int| 0 <= i < token.len() ==> !text::whitespace().contains(#[trigger] token[i]),
        rest.len() == 0 || text::whitespace().contains(rest[0]),
    ensures
        text::tokens(space + token + rest, 0) == seq![token] + text::tokens(rest, 0),
{
    let w = text::whitespace();
    let s = space + token + rest;
    let n = space.len() as int;
    let end = n + token.len();
    lemma_skip_run(s, w, 0, n);
    assert(s[n] == token[0]);
    assert(text::skip_any(s, w, 0) == n);
    text::lemma_find_any(s, w, n);
    let at = text::find_any(s, w, n);
    if at < end {
        assert(s[at] == token[at - n]);
    }
    if at > end {
        assert(s[end] == rest[0]);
    }
    assert(s.subrange(n, end) =~= token);
    lemma_tokens_shift(s, end, end);
    assert(s.skip(end) =~= rest);
}

/// White space alone has no token.
pub proof fn lemma_no_token(space: Seq<char>)
    requires
        forall|i: int| 0 <= i < space.len() ==> text::whitespace().contains(#[trigger] space[i]),
    ensures
        text::tokens(space, 0) == Seq::<Seq<char>>::empty(),
{
    lemma_skip_run(space, text::whitespace(), 0, space.len() as int);
}

} // verus!
