//! What the segments of a representation are: how many, which numbers and times
//! they have, and which URLs their templates come to.

use crate::dash::element::{RawRepView, TimelineEntry};
use crate::dash::manifest::DashErrorView;
use crate::dash::segments;
use crate::text;
use crate::text_laws;
use crate::urls;
use vstd::prelude::*;

verus! {

// ---------------------------------------------------------------------------
// Templates
// ---------------------------------------------------------------------------

/// Whether a text has no `$`.
pub open spec fn is_plain(s: Seq<char>) -> bool {
    forall|i: int| 0 <= i < s.len() ==> #[trigger] s[i] != '$'
}

/// Whether a text can be the name of a mark.
pub open spec fn is_mark_name(s: Seq<char>) -> bool {
    s.len() > 0 && forall|i: int| 0 <= i < s.len() ==> #[trigger] s[i] != '$' && s[i] != '%'
}

/// Whether the width of a mark is absent or a number.
pub open spec fn is_width(w: Option<Seq<char>>) -> bool {
    w matches Some(digits) ==> digits.len() > 0 && (forall|i: int|
        0 <= i < digits.len() ==> '0' <= #[trigger] digits[i] <= '9') && text::digits_value(digits)
        <= usize::MAX
}

/// The number that the width of a mark states, 0 where there is none.
pub open spec fn width_of(w: Option<Seq<char>>) -> int {
    match w {
        Some(digits) => text::digits_value(digits) as int,
        None => 0,
    }
}

/// A mark as it is written: `$Name$`, or `$Name%0Nd$` with a width.
pub open spec fn mark(name: Seq<char>, w: Option<Seq<char>>) -> Seq<char> {
    match w {
        Some(digits) => seq!['$'] + name + seq!['%', '0'] + digits + seq!['d', '$'],
        None => seq!['$'] + name + seq!['$'],
    }
}

proof fn lemma_mark_read(name: Seq<char>, w: Option<Seq<char>>, post: Seq<char>)
    requires
        is_mark_name(name),
        is_width(w),
    ensures
        segments::tag_at(mark(name, w) + post) == Some(
            (name, width_of(w) as usize, mark(name, w).len() as int),
        ),
{
    let m = mark(name, w);
    let s = m + post;
    let n = m.len() as int;
    let dollar = seq!['$'];
    assert(dollar.contains('$')) by {
        assert(dollar[0] == '$');
    }
    let inner = match w {
        Some(digits) => name + seq!['%', '0'] + digits + seq!['d'],
        None => name,
    };
    assert(m =~= seq!['$'] + inner + seq!['$']);
    assert forall|i: int| 0 <= i < inner.len() implies #[trigger] inner[i] != '$' by {
        match w {
            Some(digits) => {
                if i < name.len() {
                    assert(inner[i] == name[i]);
                } else if i >= name.len() + 2 && i < name.len() + 2 + digits.len() {
                    assert(inner[i] == digits[i - name.len() - 2]);
                }
            },
            None => {},
        }
    }
    text::lemma_find_any(s, dollar, 1);
    let end = text::find_any(s, dollar, 1);
    assert(s[n - 1] == '$');
    if end < n - 1 {
        assert(s[end] == inner[end - 1]);
        assert(dollar.contains(s[end]));
    }
    if end > n - 1 {
        assert(!dollar.contains(s[n - 1]));
    }
    let tag = s.subrange(1, end);
    assert(tag =~= inner);
    let percent = seq!['%'];
    assert(percent.contains('%')) by {
        assert(percent[0] == '%');
    }
    match w {
        Some(digits) => {
            let rest = seq!['%', '0'] + digits + seq!['d'];
            assert(inner =~= name + rest);
            text_laws::lemma_until(name, percent, rest);
            let format = tag.skip(name.len() as int + 1);
            assert(format =~= seq!['0'] + digits + seq!['d']);
            assert(format.subrange(1, format.len() - 1) =~= digits);
            text_laws::lemma_parse(digits, digits, false);
            assert(tag.take(name.len() as int) =~= name);
        },
        None => {
            text_laws::lemma_until(name, percent, Seq::empty());
            assert(name + Seq::<char>::empty() =~= name);
        },
    }
}

/// What has no `$` stands for itself.
pub proof fn lemma_plain_part(
    pre: Seq<char>,
    t: Seq<char>,
    rep: RawRepView,
    number: u64,
    time: Option<u64>,
)
    requires
        is_plain(pre),
    ensures
        segments::expand(pre + t, rep, number, time) == pre + segments::expand(
            t,
            rep,
            number,
            time,
        ),
    decreases pre.len(),
{
    if pre.len() == 0 {
        assert(pre + t =~= t);
        assert(pre + segments::expand(t, rep, number, time) =~= segments::expand(
            t,
            rep,
            number,
            time,
        ));
    } else {
        let rest = pre.skip(1);
        assert forall|i: int| 0 <= i < rest.len() implies #[trigger] rest[i] != '$' by {
            assert(rest[i] == pre[i + 1]);
        }
        lemma_plain_part(rest, t, rep, number, time);
        assert((pre + t)[0] == pre[0]);
        assert((pre + t).skip(1) =~= rest + t);
        assert(seq![pre[0]] + (rest + segments::expand(t, rep, number, time)) =~= pre
            + segments::expand(t, rep, number, time));
    }
}

proof fn lemma_marked(
    name: Seq<char>,
    w: Option<Seq<char>>,
    post: Seq<char>,
    rep: RawRepView,
    number: u64,
    time: Option<u64>,
)
    requires
        is_mark_name(name),
        is_width(w),
    ensures
        segments::expand(mark(name, w) + post, rep, number, time) == segments::mark_value(
            name,
            width_of(w) as usize,
            rep,
            number,
            time,
        ) + segments::expand(post, rep, number, time),
{
    let m = mark(name, w);
    let t = m + post;
    lemma_mark_read(name, w, post);
    assert(t[0] == '$');
    assert(t[1] == name[0]);
    assert(t.skip(m.len() as int) =~= post);
}

/// Whether a text is the left part, a part that shows a number, and the right
/// part.
pub open spec fn shows_between(
    s: Seq<char>,
    left: Seq<char>,
    n: int,
    width: int,
    right: Seq<char>,
) -> bool {
    exists|v: Seq<char>|
        #[trigger] text_laws::shows_number(v, n, width) && s == left + v + right
}

proof fn lemma_split(
    pre: Seq<char>,
    name: Seq<char>,
    w: Option<Seq<char>>,
    post: Seq<char>,
    rep: RawRepView,
    number: u64,
    time: Option<u64>,
)
    requires
        is_plain(pre),
        is_mark_name(name),
        is_width(w),
    ensures
        segments::expand(pre + mark(name, w) + post, rep, number, time) == pre
            + segments::mark_value(name, width_of(w) as usize, rep, number, time)
            + segments::expand(post, rep, number, time),
{
    lemma_marked(name, w, post, rep, number, time);
    lemma_plain_part(pre, mark(name, w) + post, rep, number, time);
    assert(pre + mark(name, w) + post =~= pre + (mark(name, w) + post));
    let v = segments::mark_value(name, width_of(w) as usize, rep, number, time);
    let tail = segments::expand(post, rep, number, time);
    assert(pre + (v + tail) =~= pre + v + tail);
}

/// A mark for the number, with a width or without, is replaced by the segment
/// number in decimal notation, filled up with zeros to the width; so is a mark
/// for the time by the time, 0 where there is none.
pub proof fn lemma_counted_marks(
    pre: Seq<char>,
    w: Option<Seq<char>>,
    post: Seq<char>,
    rep: RawRepView,
    number: u64,
    time: Option<u64>,
)
    requires
        is_plain(pre),
        is_width(w),
    ensures
        shows_between(
            segments::expand(pre + mark("Number"@, w) + post, rep, number, time),
            pre,
            number as int,
            width_of(w),
            segments::expand(post, rep, number, time),
        ),
        shows_between(
            segments::expand(pre + mark("Time"@, w) + post, rep, number, time),
            pre,
            match time {
                Some(t) => t as int,
                None => 0,
            },
            width_of(w),
            segments::expand(post, rep, number, time),
        ),
{
    lemma_mark_names();
    lemma_split(pre, "Number"@, w, post, rep, number, time);
    lemma_split(pre, "Time"@, w, post, rep, number, time);
    let width = width_of(w) as nat;
    text_laws::lemma_padded_shows(number as nat, width);
    let t: nat = match time {
        Some(t) => t as nat,
        None => 0,
    };
    text_laws::lemma_padded_shows(t, width);
    assert(text_laws::shows_number(text::zero_padded(t, width), t as int, width as int));
    assert(text_laws::shows_number(
        text::zero_padded(number as nat, width),
        number as int,
        width as int,
    ));
}

/// The mark for the id is replaced by the id of the representation, and that for
/// the bandwidth by its bandwidth in decimal notation.
pub proof fn lemma_representation_marks(
    pre: Seq<char>,
    w: Option<Seq<char>>,
    post: Seq<char>,
    rep: RawRepView,
    number: u64,
    time: Option<u64>,
)
    requires
        is_plain(pre),
        is_width(w),
    ensures
        segments::expand(pre + mark("RepresentationID"@, w) + post, rep, number, time) == pre
            + rep.id + segments::expand(post, rep, number, time),
        shows_between(
            segments::expand(pre + mark("Bandwidth"@, w) + post, rep, number, time),
            pre,
            rep.bandwidth as int,
            0,
            segments::expand(post, rep, number, time),
        ),
{
    lemma_mark_names();
    lemma_split(pre, "RepresentationID"@, w, post, rep, number, time);
    lemma_split(pre, "Bandwidth"@, w, post, rep, number, time);
    text_laws::lemma_decimal_shows(rep.bandwidth as nat);
    assert(text_laws::shows_number(
        text::decimal(rep.bandwidth as nat),
        rep.bandwidth as int,
        0,
    ));
}

/// Two dollar signs stand for one, a dollar sign that no other follows for
/// itself, and a mark with any other name for nothing.
pub proof fn lemma_other_marks(
    pre: Seq<char>,
    name: Seq<char>,
    w: Option<Seq<char>>,
    post: Seq<char>,
    rep: RawRepView,
    number: u64,
    time: Option<u64>,
)
    requires
        is_plain(pre),
        is_width(w),
    ensures
        segments::expand(pre + seq!['$', '$'] + post, rep, number, time) == pre + seq!['$']
            + segments::expand(post, rep, number, time),
        is_plain(post) ==> segments::expand(pre + seq!['$'] + post, rep, number, time) == pre
            + seq!['$'] + post,
        is_mark_name(name) && name != "Number"@ && name != "Time"@ && name != "Bandwidth"@ && name
            != "RepresentationID"@ ==> segments::expand(
            pre + mark(name, w) + post,
            rep,
            number,
            time,
        ) == pre + segments::expand(post, rep, number, time),
{
    let tail = segments::expand(post, rep, number, time);
    let two = seq!['$', '$'] + post;
    assert(two.skip(2) =~= post);
    lemma_plain_part(pre, two, rep, number, time);
    assert(pre + seq!['$', '$'] + post =~= pre + two);
    assert(pre + (seq!['$'] + tail) =~= pre + seq!['$'] + tail);
    if is_plain(post) {
        let one = seq!['$'] + post;
        text::lemma_find_any(one, seq!['$'], 1);
        let end = text::find_any(one, seq!['$'], 1);
        if end < one.len() {
            assert(one[end] == post[end - 1]);
            assert(one[end] == '$');
        }
        assert(one.len() > 1 ==> one[1] == post[0]);
        assert(one.skip(1) =~= post);
        lemma_plain_part(pre, one, rep, number, time);
        lemma_plain_part(post, Seq::empty(), rep, number, time);
        assert(post + Seq::<char>::empty() =~= post);
        assert(pre + seq!['$'] + post =~= pre + one);
        assert(pre + (seq!['$'] + post) =~= pre + seq!['$'] + post);
    }
    if is_mark_name(name) {
        lemma_split(pre, name, w, post, rep, number, time);
        assert(pre + Seq::<char>::empty() + tail =~= pre + tail);
    }
}

/// Whether what follows the percent sign of a mark is a width: a zero, a number
/// and the letter d.
pub open spec fn is_format(format: Seq<char>) -> bool {
    &&& format.len() >= 2 && format[0] == '0' && format.last() == 'd'
    &&& text::parse_usize(format.subrange(1, format.len() - 1)) is Some
}

/// A mark with anything but a width behind a percent sign is no mark: it stands
/// for itself, and its last dollar sign is looked at anew.
pub proof fn lemma_malformed_mark(
    pre: Seq<char>,
    name: Seq<char>,
    format: Seq<char>,
    post: Seq<char>,
    rep: RawRepView,
    number: u64,
    time: Option<u64>,
)
    requires
        is_plain(pre),
        forall|i: int| 0 <= i < name.len() ==> #[trigger] name[i] != '$' && name[i] != '%',
        is_plain(format),
        !is_format(format),
    ensures
        segments::expand(
            pre + (seq!['$'] + name + seq!['%'] + format) + (seq!['$'] + post),
            rep,
            number,
            time,
        ) == pre + (seq!['$'] + name + seq!['%'] + format) + segments::expand(
            seq!['$'] + post,
            rep,
            number,
            time,
        ),
{
    let inner = name + seq!['%'] + format;
    let next = seq!['$'] + post;
    let t = seq!['$'] + inner + next;
    let n = inner.len() as int + 1;
    let dollar = seq!['$'];
    let percent = seq!['%'];
    assert(dollar.contains('$')) by {
        assert(dollar[0] == '$');
    }
    assert(percent.contains('%')) by {
        assert(percent[0] == '%');
    }
    assert forall|i: int| 0 <= i < inner.len() implies #[trigger] inner[i] != '$' by {
        if i < name.len() {
            assert(inner[i] == name[i]);
        } else if i > name.len() {
            assert(inner[i] == format[i - name.len() - 1]);
        }
    }
    text::lemma_find_any(t, dollar, 1);
    let end = text::find_any(t, dollar, 1);
    assert(t[n] == '$');
    if end < n {
        assert(t[end] == inner[end - 1]);
        assert(dollar.contains(t[end]));
    }
    if end > n {
        assert(!dollar.contains(t[n]));
    }
    let tag = t.subrange(1, end);
    assert(tag =~= inner);
    assert(inner =~= name + (percent + format));
    text_laws::lemma_until(name, percent, percent + format);
    assert(tag.skip(name.len() as int + 1) =~= format);
    assert(segments::tag_at(t) is None);
    assert(t[1] == inner[0]);
    assert(t.skip(1) =~= inner + next);
    lemma_plain_part(inner, next, rep, number, time);
    lemma_plain_part(pre, t, rep, number, time);
    let tail = segments::expand(next, rep, number, time);
    assert(pre + (seq!['$'] + name + percent + format) + next =~= pre + t);
    assert(pre + (seq!['$'] + (inner + tail)) =~= pre + (seq!['$'] + name + percent + format)
        + tail);
}

proof fn lemma_mark_names()
    ensures
        is_mark_name("Number"@),
        is_mark_name("Time"@),
        is_mark_name("Bandwidth"@),
        is_mark_name("RepresentationID"@),
        "Number"@.len() == 6,
        "Time"@.len() == 4,
        "Bandwidth"@.len() == 9,
        "RepresentationID"@.len() == 16,
{
    reveal_strlit("Number");
    reveal_strlit("Time");
    reveal_strlit("Bandwidth");
    reveal_strlit("RepresentationID");
}

/// A template with a mark for the number gives different texts for different
/// segment numbers.
pub proof fn lemma_numbers_differ(
    pre: Seq<char>,
    w: Option<Seq<char>>,
    post: Seq<char>,
    rep: RawRepView,
    a: (u64, Option<u64>),
    b: (u64, Option<u64>),
)
    requires
        is_plain(pre),
        is_plain(post),
        is_width(w),
        a.0 != b.0,
    ensures
        segments::expand(pre + mark("Number"@, w) + post, rep, a.0, a.1) != segments::expand(
            pre + mark("Number"@, w) + post,
            rep,
            b.0,
            b.1,
        ),
{
    lemma_counted_marks(pre, w, post, rep, a.0, a.1);
    lemma_counted_marks(pre, w, post, rep, b.0, b.1);
    let none = Seq::<char>::empty();
    lemma_plain_part(post, none, rep, a.0, a.1);
    lemma_plain_part(post, none, rep, b.0, b.1);
    assert(post + none =~= post);
    let x = segments::expand(pre + mark("Number"@, w) + post, rep, a.0, a.1);
    let y = segments::expand(pre + mark("Number"@, w) + post, rep, b.0, b.1);
    let v = choose|v: Seq<char>|
        #[trigger] text_laws::shows_number(v, a.0 as int, width_of(w)) && x == pre + v + post;
    let u = choose|u: Seq<char>|
        #[trigger] text_laws::shows_number(u, b.0 as int, width_of(w)) && y == pre + u + post;
    if x == y {
        let p = pre.len() as int;
        assert(x.len() == pre.len() + v.len() + post.len());
        assert(y.len() == pre.len() + u.len() + post.len());
        assert(x.subrange(p, p + v.len()) =~= v);
        assert(y.subrange(p, p + v.len()) =~= u);
    }
}

// ---------------------------------------------------------------------------
// Numbers and times
// ---------------------------------------------------------------------------

/// The number of the first segment: the start number of the representation, or
/// 1 where it has none.
pub open spec fn starts_at(rep: RawRepView) -> int {
    if rep.start_number == 0 {
        1
    } else {
        rep.start_number as int
    }
}

/// The segments of a representation are numbered one after the other from its
/// start number on, or from 1; each of them has a time.
pub proof fn lemma_numbering(rep: RawRepView, total: Option<u64>)
    requires
        segments::numbers_fit(rep, total),
    ensures
        segments::plan(rep, total) matches Ok(pairs) ==> forall|i: int|
            0 <= i < pairs.len() ==> (#[trigger] pairs[i]).0 == starts_at(rep) + i && pairs[i].1
                is Some,
{
    segments::lemma_consecutive_numbers(rep, total);
    match rep.timeline {
        Some(entries) => lemma_timed(entries, segments::first_number(rep)),
        None => {},
    }
}

proof fn lemma_timed(entries: Seq<TimelineEntry>, first: u64)
    ensures
        forall|i: int|
            0 <= i < segments::timeline_pairs(entries, first).len() ==> (
            #[trigger] segments::timeline_pairs(entries, first)[i]).1 is Some,
    decreases entries.len(),
{
    if entries.len() > 0 {
        lemma_timed(entries.drop_last(), first);
    }
}

/// Without a timeline the segments of one length cover the whole duration, and
/// none of them is past its end. The segments are planned exactly where there is
/// a duration of either kind and they are not too many.
pub proof fn lemma_even_count(rep: RawRepView, total: Option<u64>)
    requires
        rep.timeline is None,
    ensures
        segments::plan(rep, total) is Ok <==> rep.duration > 0 && (total matches Some(t) && 0 < t
            <= 100_000 * rep.duration),
        segments::plan(rep, total) matches Ok(pairs) ==> pairs.len() > 0 && (pairs.len() - 1)
            * rep.duration < total->0 <= pairs.len() * rep.duration && (forall|i: int|
            0 <= i < pairs.len() ==> (#[trigger] pairs[i]).1 == Some((i * rep.duration) as u64)),
        segments::plan(rep, total) matches Err(e) ==> e == DashErrorView::NoSegmentCount,
{
    if rep.duration > 0 && total is Some {
        let t = total->0 as int;
        let d = rep.duration as int;
        let n = segments::count_for(total->0, rep.duration);
        let r = (t + d - 1) % d;
        vstd::arithmetic::div_mod::lemma_fundamental_div_mod(t + d - 1, d);
        assert(t + d - 1 == d * n + r && 0 <= r < d);
        assert((n - 1) * d < t && t <= n * d) by (nonlinear_arith)
            requires
                t + d - 1 == d * n + r,
                0 <= r < d,
        ;
        if 0 < t <= 100_000 * d {
            assert(0 < n <= 100_000) by (nonlinear_arith)
                requires
                    (n - 1) * d < t,
                    t <= n * d,
                    0 < t <= 100_000 * d,
                    d > 0,
            ;
        } else {
            assert(n <= 0 || n > 100_000) by (nonlinear_arith)
                requires
                    (n - 1) * d < t,
                    t <= n * d,
                    t <= 0 || t > 100_000 * d,
                    d > 0,
            ;
        }
    }
}

/// A timeline is read entry by entry: an entry adds one segment and as many as
/// it repeats, spaced by its duration. They begin at the time that it states, or
/// else where the segment before them ends, or at 0.
pub proof fn lemma_timeline_entry(
    entries: Seq<TimelineEntry>,
    entry: TimelineEntry,
    first: u64,
)
    requires
        segments::timeline_fits(entries.push(entry), first),
    ensures
        ({
            let before = segments::timeline_pairs(entries, first);
            let after = segments::timeline_pairs(entries.push(entry), first);
            let start = match entry.0 {
                Some(t) => t as int,
                None => if entries.len() == 0 {
                    0
                } else {
                    before.last().1->0 + entries.last().1
                },
            };
            &&& after.len() == before.len() + entry.2 + 1
            &&& after.take(before.len() as int) == before
            &&& forall|j: int|
                0 <= j <= entry.2 ==> (#[trigger] after[before.len() + j]).1 is Some && after[
                before.len() + j].1->0 == start + j * entry.1
        }),
{
    let all = entries.push(entry);
    assert(all.drop_last() =~= entries);
    let before = segments::timeline_pairs(entries, first);
    let after = segments::timeline_pairs(all, first);
    assert(after.take(before.len() as int) =~= before);
    lemma_end_of_timeline(entries, first);
    let from = segments::start_after(entries, entry);
    assert(from >= 0);
    assert forall|j: int| 0 <= j <= entry.2 implies (#[trigger] after[before.len() + j]).1 is Some
        && after[before.len() + j].1->0 == from + j * entry.1 by {
        assert(0 <= j * entry.1 <= (entry.2 + 1) * entry.1) by (nonlinear_arith)
            requires
                0 <= j <= entry.2,
        ;
        assert(segments::timeline_end(all) == from + (entry.2 + 1) * entry.1);
        let pairs = segments::entry_pairs(
            first + segments::segment_total(entries),
            from,
            entry,
            entry.2 as nat + 1,
        );
        assert(after[before.len() + j] == pairs[j]);
    }
}

proof fn lemma_end_of_timeline(entries: Seq<TimelineEntry>, first: u64)
    requires
        segments::timeline_fits(entries, first),
    ensures
        segments::timeline_end(entries) >= 0,
        entries.len() == 0 ==> segments::timeline_end(entries) == 0,
        entries.len() > 0 ==> segments::timeline_pairs(entries, first).len() > 0
            && segments::timeline_pairs(entries, first).last().1 is Some
            && segments::timeline_end(entries) == segments::timeline_pairs(
            entries,
            first,
        ).last().1->0 + entries.last().1,
    decreases entries.len(),
{
    if entries.len() > 0 {
        let front = entries.drop_last();
        let e = entries.last();
        lemma_end_of_timeline(front, first);
        let from = segments::start_after(front, e);
        let pairs = segments::entry_pairs(
            first + segments::segment_total(front),
            from,
            e,
            e.2 as nat + 1,
        );
        let all = segments::timeline_pairs(entries, first);
        assert(all.last() == pairs[e.2 as int]);
        assert(0 <= e.2 * e.1 && (e.2 + 1) * e.1 == e.2 * e.1 + e.1) by (nonlinear_arith);
        assert(segments::timeline_end(entries) == from + (e.2 + 1) * e.1);
    }
}

/// A timeline without entries has no segments; one with entries is used in place
/// of the duration.
pub proof fn lemma_timeline_used(rep: RawRepView, total: Option<u64>)
    requires
        rep.timeline is Some,
    ensures
        segments::plan(rep, total) == Ok::<Seq<(u64, Option<u64>)>, DashErrorView>(
            segments::timeline_pairs(rep.timeline->0, starts_at(rep) as u64),
        ),
        segments::timeline_pairs(Seq::empty(), starts_at(rep) as u64).len() == 0,
{
}

// ---------------------------------------------------------------------------
// URLs
// ---------------------------------------------------------------------------

/// The representation that is looked up is the first with the id.
pub proof fn lemma_first_with_id(reps: Seq<RawRepView>, k: int)
    requires
        0 <= k < reps.len(),
        forall|j: int| 0 <= j < k ==> (#[trigger] reps[j]).id != reps[k].id,
    ensures
        segments::first_with_id(reps, reps[k].id) == Some(reps[k]),
    decreases k,
{
    if k > 0 {
        assert(reps[0].id != reps[k].id);
        let rest = reps.drop_first();
        assert forall|j: int| 0 <= j < k - 1 implies (#[trigger] rest[j]).id != rest[k - 1].id by {
            assert(rest[j] == reps[j + 1]);
        }
        lemma_first_with_id(rest, k - 1);
    }
}

/// A representation whose id none has is not found.
pub proof fn lemma_no_such_id(reps: Seq<RawRepView>, id: Seq<char>)
    requires
        forall|j: int| 0 <= j < reps.len() ==> (#[trigger] reps[j]).id != id,
    ensures
        segments::first_with_id(reps, id) is None,
    decreases reps.len(),
{
    if reps.len() > 0 {
        assert(reps[0].id != id);
        let rest = reps.drop_first();
        assert forall|j: int| 0 <= j < rest.len() implies (#[trigger] rest[j]).id != id by {
            assert(rest[j] == reps[j + 1]);
        }
        lemma_no_such_id(rest, id);
    }
}

/// The segments of a representation are listed unless none has the id, the URL of
/// the manifest is not valid or the segments cannot be planned, and the first of
/// these is told.
pub proof fn lemma_refusals(
    mpd_url: Seq<char>,
    reps: Seq<RawRepView>,
    k: int,
    id: Seq<char>,
    total: Option<u64>,
)
    ensures
        (forall|j: int| 0 <= j < reps.len() ==> (#[trigger] reps[j]).id != id)
            ==> segments::segment_list(mpd_url, reps, id, total) == Err::<
            (Seq<char>, Seq<Seq<char>>),
            DashErrorView,
        >(DashErrorView::NoRepresentation),
        0 <= k < reps.len() && reps[k].id == id && (forall|j: int|
            0 <= j < k ==> (#[trigger] reps[j]).id != id) ==> {
            let out = segments::segment_list(mpd_url, reps, id, total);
            match urls::parsed(mpd_url) {
                Err(why) => out == Err::<(Seq<char>, Seq<Seq<char>>), DashErrorView>(
                    DashErrorView::Manifest(why),
                ),
                Ok(_) => match segments::plan(reps[k], total) {
                    Err(e) => out == Err::<(Seq<char>, Seq<Seq<char>>), DashErrorView>(e),
                    Ok(pairs) => out matches Ok(list) && list.1.len() == pairs.len(),
                },
            }
        },
{
    if forall|j: int| 0 <= j < reps.len() ==> (#[trigger] reps[j]).id != id {
        lemma_no_such_id(reps, id);
    }
    if 0 <= k < reps.len() && reps[k].id == id && (forall|j: int|
        0 <= j < k ==> (#[trigger] reps[j]).id != id) {
        lemma_first_with_id(reps, k);
    }
}

/// Whether a URL is a reference joined to a base, or the reference itself where
/// they cannot be joined.
pub open spec fn is_joined(url: Seq<char>, base: Seq<char>, reference: Seq<char>) -> bool {
    match urls::joined(base, reference) {
        Ok(full) => url == full,
        Err(_) => url == reference,
    }
}

/// The URLs of a representation are the expanded initialization template and,
/// for each planned segment in order, the expanded media template, joined to the
/// URL of the manifest.
pub proof fn lemma_urls(
    mpd_url: Seq<char>,
    reps: Seq<RawRepView>,
    k: int,
    total: Option<u64>,
)
    requires
        0 <= k < reps.len(),
        forall|j: int| 0 <= j < k ==> (#[trigger] reps[j]).id != reps[k].id,
    ensures
        segments::segment_list(mpd_url, reps, reps[k].id, total) matches Ok(list) ==> {
            let base = urls::parsed(mpd_url)->Ok_0;
            let rep = reps[k];
            let pairs = segments::plan(rep, total)->Ok_0;
            &&& urls::parsed(mpd_url) is Ok && segments::plan(rep, total) is Ok
            &&& is_joined(list.0, base, segments::expand(rep.initialization, rep, 0, None))
            &&& list.1.len() == pairs.len()
            &&& forall|i: int|
                0 <= i < pairs.len() ==> is_joined(
                    #[trigger] list.1[i],
                    base,
                    segments::expand(rep.media, rep, pairs[i].0, pairs[i].1),
                )
        },
        segments::segment_list(mpd_url, reps, reps[k].id, total) is Ok <==> urls::parsed(mpd_url)
            is Ok && segments::plan(reps[k], total) is Ok,
{
    lemma_first_with_id(reps, k);
}

/// With a media template that numbers its segments, the i-th URL is the template
/// with the i-th number in the place of the mark, joined to the manifest URL.
pub proof fn lemma_numbered_urls(
    mpd_url: Seq<char>,
    reps: Seq<RawRepView>,
    k: int,
    total: Option<u64>,
    pre: Seq<char>,
    w: Option<Seq<char>>,
    post: Seq<char>,
    i: int,
)
    requires
        0 <= k < reps.len(),
        forall|j: int| 0 <= j < k ==> (#[trigger] reps[j]).id != reps[k].id,
        is_plain(pre),
        is_plain(post),
        is_width(w),
        reps[k].media == pre + mark("Number"@, w) + post,
        segments::numbers_fit(reps[k], total),
        segments::segment_list(mpd_url, reps, reps[k].id, total) is Ok,
        0 <= i < segments::segment_list(mpd_url, reps, reps[k].id, total)->Ok_0.1.len(),
    ensures
        exists|v: Seq<char>|
            #[trigger] text_laws::shows_number(v, starts_at(reps[k]) + i, width_of(w))
                && is_joined(
                segments::segment_list(mpd_url, reps, reps[k].id, total)->Ok_0.1[i],
                urls::parsed(mpd_url)->Ok_0,
                pre + v + post,
            ),
{
    let rep = reps[k];
    lemma_urls(mpd_url, reps, k, total);
    lemma_numbering(rep, total);
    let pairs = segments::plan(rep, total)->Ok_0;
    let list = segments::segment_list(mpd_url, reps, rep.id, total)->Ok_0;
    let (n, t) = pairs[i];
    lemma_counted_marks(pre, w, post, rep, n, t);
    let none = Seq::<char>::empty();
    lemma_plain_part(post, none, rep, n, t);
    assert(post + none =~= post);
    let text = segments::expand(rep.media, rep, n, t);
    assert(is_joined(list.1[i], urls::parsed(mpd_url)->Ok_0, text));
    let v = choose|v: Seq<char>|
        #[trigger] text_laws::shows_number(v, n as int, width_of(w)) && text == pre + v + post;
    assert(text_laws::shows_number(v, starts_at(rep) + i, width_of(w)));
}

/// A representation that states no timescale counts in seconds.
pub proof fn lemma_timescale(rep: RawRepView)
    ensures
        rep.timescale > 0 ==> segments::units_per_second(rep) == rep.timescale,
        rep.timescale == 0 ==> segments::units_per_second(rep) == 1,
{
}

/// A timeline fits where each number and each time that it comes to is below
/// 2^64, entry by entry.
pub proof fn lemma_fits(entries: Seq<TimelineEntry>, entry: TimelineEntry, first: u64)
    ensures
        segments::timeline_fits(Seq::empty(), first),
        segments::timeline_fits(entries.push(entry), first) <==> segments::timeline_fits(
            entries,
            first,
        ) && first + segments::segment_total(entries) + entry.2 + 1 <= u64::MAX && entry.2
            < u64::MAX && (match entry.0 {
            Some(t) => t as int,
            None => segments::timeline_end(entries),
        }) + (entry.2 + 1) * entry.1 <= u64::MAX,
        segments::segment_total(Seq::empty()) == 0,
        segments::segment_total(entries.push(entry)) == segments::segment_total(entries) + entry.2
            + 1,
        segments::timeline_end(Seq::empty()) == 0,
{
    assert(entries.push(entry).drop_last() =~= entries);
}

/// Segments of one length fit where the number of the last does, and there is
/// nothing to fit where they are not planned.
pub proof fn lemma_even_fits(rep: RawRepView, total: Option<u64>)
    requires
        rep.timeline is None,
    ensures
        segments::plan(rep, total) is Err ==> segments::numbers_fit(rep, total),
        segments::plan(rep, total) matches Ok(pairs) ==> (segments::numbers_fit(rep, total)
            <==> starts_at(rep) + pairs.len() - 1 <= u64::MAX),
{
}

} // verus!
