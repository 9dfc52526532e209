//! What a duration denotes, written as numbers with their units.

use crate::dash::duration::{IsoView, TermView};
use crate::dash::duration;
use crate::text;
use crate::text_laws;
use vstd::prelude::*;

verus! {

/// Numbers with their units, one behind the other.
pub open spec fn written(pairs: Seq<(Seq<char>, char)>) -> Seq<char>
    decreases pairs.len(),
{
    if pairs.len() == 0 {
        Seq::empty()
    } else {
        written(pairs.drop_last()) + pairs.last().0 + seq![pairs.last().1]
    }
}

/// Whether a text is made of the digits 0 to 9 and points.
pub open spec fn is_run(s: Seq<char>) -> bool {
    forall|i: int| 0 <= i < s.len() ==> ('0' <= #[trigger] s[i] <= '9' || s[i] == '.')
}

/// The seconds of a unit: of hours, minutes and seconds in the time part, of
/// years, months, weeks and days in the date part.
pub open spec fn seconds_of(in_time: bool, unit: char) -> int {
    if in_time {
        if unit == 'H' {
            60int * 60
        } else if unit == 'M' {
            60
        } else if unit == 'S' {
            1
        } else {
            0
        }
    } else {
        if unit == 'Y' {
            365int * 24 * 60 * 60
        } else if unit == 'M' {
            30int * 24 * 60 * 60
        } else if unit == 'W' {
            7int * 24 * 60 * 60
        } else if unit == 'D' {
            24int * 60 * 60
        } else {
            0
        }
    }
}

/// Whether every number of some pairs is a run of digits and points, and every
/// unit one of its part.
pub open spec fn are_pairs(pairs: Seq<(Seq<char>, char)>, in_time: bool) -> bool {
    forall|i: int|
        0 <= i < pairs.len() ==> is_run((#[trigger] pairs[i]).0) && seconds_of(in_time, pairs[i].1)
            > 0
}

/// Whether terms are those of some pairs: as many, each with the number as it is
/// written and the seconds of its unit.
pub open spec fn are_terms_of(
    terms: Seq<TermView>,
    pairs: Seq<(Seq<char>, char)>,
    in_time: bool,
) -> bool {
    &&& terms.len() == pairs.len()
    &&& forall|i: int|
        0 <= i < pairs.len() ==> (#[trigger] terms[i]).number == pairs[i].0 && terms[i].scale
            == seconds_of(in_time, pairs[i].1)
}

/// A number that no unit follows yet waits, character by character.
proof fn lemma_run(s: Seq<char>, num: Seq<char>, in_time: bool)
    requires
        is_run(num),
    ensures
        duration::pending(s + num, in_time) == duration::pending(s, in_time) + num,
        duration::terms(s + num, in_time) == duration::terms(s, in_time),
    decreases num.len(),
{
    if num.len() == 0 {
        assert(s + num =~= s);
        assert(duration::pending(s, in_time) + num =~= duration::pending(s, in_time));
    } else {
        let front = num.drop_last();
        assert forall|i: int| 0 <= i < front.len() implies ('0' <= #[trigger] front[i] <= '9'
            || front[i] == '.') by {
            assert(front[i] == num[i]);
        }
        lemma_run(s, front, in_time);
        let c = num.last();
        assert(num[num.len() - 1] == c);
        assert((s + num).drop_last() =~= s + front);
        assert((s + num).last() == c);
        assert(duration::pending(s, in_time) + front.push(c) =~= (duration::pending(s, in_time)
            + front).push(c));
        assert(front.push(c) =~= num);
    }
}

/// A unit closes the number before it and leaves none waiting.
proof fn lemma_unit(s: Seq<char>, unit: char, in_time: bool)
    requires
        seconds_of(in_time, unit) > 0,
    ensures
        duration::pending(s.push(unit), in_time) == Seq::<char>::empty(),
        duration::terms(s.push(unit), in_time) == duration::terms(s, in_time).push(
            TermView {
                number: duration::pending(s, in_time),
                scale: seconds_of(in_time, unit) as u64,
            },
        ),
{
    assert(s.push(unit).drop_last() =~= s);
}

/// The terms of numbers written with their units are those numbers, character by
/// character, with the seconds of their units, in order.
pub proof fn lemma_pairs(pairs: Seq<(Seq<char>, char)>, in_time: bool)
    requires
        are_pairs(pairs, in_time),
    ensures
        are_terms_of(duration::terms(written(pairs), in_time), pairs, in_time),
        duration::pending(written(pairs), in_time) == Seq::<char>::empty(),
    decreases pairs.len(),
{
    if pairs.len() > 0 {
        let front = pairs.drop_last();
        let (num, unit) = pairs.last();
        assert(pairs[pairs.len() - 1] == pairs.last());
        assert forall|i: int| 0 <= i < front.len() implies is_run((#[trigger] front[i]).0)
            && seconds_of(in_time, front[i].1) > 0 by {
            assert(front[i] == pairs[i]);
        }
        lemma_pairs(front, in_time);
        lemma_run(written(front), num, in_time);
        lemma_unit(written(front) + num, unit, in_time);
        assert(written(pairs) =~= (written(front) + num).push(unit));
        assert(duration::pending(written(front), in_time) + num =~= num);
        let terms = duration::terms(written(pairs), in_time);
        assert forall|i: int| 0 <= i < pairs.len() implies (#[trigger] terms[i]).number
            == pairs[i].0 && terms[i].scale == seconds_of(in_time, pairs[i].1) by {
            if i < front.len() {
                assert(terms[i] == duration::terms(written(front), in_time)[i]);
                assert(front[i] == pairs[i]);
            }
        }
    }
}

/// A character that belongs to no number and is no unit of its part changes
/// nothing, wherever it stands.
pub proof fn lemma_other_passed_over(a: Seq<char>, other: char, b: Seq<char>, in_time: bool)
    requires
        !('0' <= other <= '9') && other != '.' && seconds_of(in_time, other) == 0,
    ensures
        duration::terms(a.push(other) + b, in_time) == duration::terms(a + b, in_time),
        duration::pending(a.push(other) + b, in_time) == duration::pending(a + b, in_time),
    decreases b.len(),
{
    if b.len() == 0 {
        assert(a.push(other) + b =~= a.push(other));
        assert(a + b =~= a);
        assert(a.push(other).drop_last() =~= a);
    } else {
        lemma_other_passed_over(a, other, b.drop_last(), in_time);
        assert((a.push(other) + b).drop_last() =~= a.push(other) + b.drop_last());
        assert((a + b).drop_last() =~= a + b.drop_last());
    }
}

/// A number without a unit behind it is no term.
pub proof fn lemma_open_number(s: Seq<char>, num: Seq<char>, in_time: bool)
    requires
        is_run(num),
    ensures
        duration::terms(s + num, in_time) == duration::terms(s, in_time),
{
    lemma_run(s, num, in_time);
}

/// A duration is a `P`, the date part and, behind a `T`, the time part; white
/// space around it does not count.
pub proof fn lemma_parts(
    left: Seq<char>,
    date: Seq<char>,
    time: Option<Seq<char>>,
    right: Seq<char>,
)
    requires
        forall|i: int| 0 <= i < left.len() ==> text::whitespace().contains(#[trigger] left[i]),
        forall|i: int| 0 <= i < right.len() ==> text::whitespace().contains(#[trigger] right[i]),
        forall|i: int| 0 <= i < date.len() ==> #[trigger] date[i] != 'T',
        time is None && date.len() > 0 ==> !text::whitespace().contains(date.last()),
        time matches Some(t) ==> t.len() > 0 ==> !text::whitespace().contains(t.last()),
    ensures
        duration::iso_duration(
            left + (seq!['P'] + date + (match time {
                Some(t) => seq!['T'] + t,
                None => Seq::empty(),
            })) + right,
        ) == Some(
            IsoView {
                date: duration::terms(date, false),
                time: match time {
                    Some(t) => Some(duration::terms(t, true)),
                    None => None,
                },
            },
        ),
{
    let rest = match time {
        Some(t) => seq!['T'] + t,
        None => Seq::empty(),
    };
    let inner = seq!['P'] + date + rest;
    text_laws::lemma_whitespace('P');
    text_laws::lemma_whitespace('T');
    text_laws::lemma_trimmed(left, inner, right, text::whitespace());
    let body = inner.skip(1);
    assert(body =~= date + rest);
    let mark = seq!['T'];
    assert(mark.contains('T')) by {
        assert(mark[0] == 'T');
    }
    text_laws::lemma_until(date, mark, rest);
    assert(body.take(date.len() as int) =~= date);
    match time {
        Some(t) => {
            assert(body.skip(date.len() as int + 1) =~= t);
        },
        None => {
            assert(body =~= date);
        },
    }
}

/// A text that does not begin with a `P` behind its white space is no duration.
pub proof fn lemma_no_duration(left: Seq<char>, inner: Seq<char>, right: Seq<char>)
    requires
        forall|i: int| 0 <= i < left.len() ==> text::whitespace().contains(#[trigger] left[i]),
        forall|i: int| 0 <= i < right.len() ==> text::whitespace().contains(#[trigger] right[i]),
        inner.len() > 0 ==> !text::whitespace().contains(inner[0]) && !text::whitespace().contains(
            inner.last(),
        ) && inner[0] != 'P',
    ensures
        duration::iso_duration(left + inner + right) is None,
{
    text_laws::lemma_trimmed(left, inner, right, text::whitespace());
}

proof fn lemma_no_mark(pairs: Seq<(Seq<char>, char)>, in_time: bool)
    requires
        are_pairs(pairs, in_time),
    ensures
        forall|i: int|
            0 <= i < written(pairs).len() ==> #[trigger] written(pairs)[i] != 'T',
        written(pairs).len() > 0 ==> seconds_of(in_time, written(pairs).last()) > 0,
    decreases pairs.len(),
{
    if pairs.len() > 0 {
        let front = pairs.drop_last();
        let (num, unit) = pairs.last();
        assert(pairs[pairs.len() - 1] == pairs.last());
        assert forall|i: int| 0 <= i < front.len() implies is_run((#[trigger] front[i]).0)
            && seconds_of(in_time, front[i].1) > 0 by {
            assert(front[i] == pairs[i]);
        }
        lemma_no_mark(front, in_time);
        let s = written(pairs);
        let n = written(front).len() as int;
        assert forall|i: int| 0 <= i < s.len() implies #[trigger] s[i] != 'T' by {
            if i < n {
                assert(s[i] == written(front)[i]);
            } else if i < n + num.len() {
                assert(s[i] == num[i - n]);
            }
        }
    }
}

/// A duration written as `P`, date pairs, `T` and time pairs denotes exactly
/// those pairs: `PT1H30M20S` is one hour, thirty minutes and twenty seconds.
pub proof fn lemma_written_duration(
    date: Seq<(Seq<char>, char)>,
    time: Seq<(Seq<char>, char)>,
)
    requires
        are_pairs(date, false),
        are_pairs(time, true),
    ensures
        duration::iso_duration(seq!['P'] + written(date) + seq!['T'] + written(time)) matches Some(
            d,
        ) && are_terms_of(d.date, date, false) && (d.time matches Some(t) && are_terms_of(
            t,
            time,
            true,
        )),
        duration::iso_duration(seq!['P'] + written(date)) matches Some(d) && are_terms_of(
            d.date,
            date,
            false,
        ) && d.time is None,
{
    let d = written(date);
    let t = written(time);
    lemma_pairs(date, false);
    lemma_pairs(time, true);
    lemma_no_mark(date, false);
    lemma_no_mark(time, true);
    let none = Seq::<char>::empty();
    if d.len() > 0 {
        text_laws::lemma_whitespace(d.last());
    }
    if t.len() > 0 {
        text_laws::lemma_whitespace(t.last());
    }
    lemma_parts(none, d, Some(t), none);
    lemma_parts(none, d, None, none);
    assert(none + (seq!['P'] + d + (seq!['T'] + t)) + none =~= seq!['P'] + d + seq!['T'] + t);
    assert(none + (seq!['P'] + d + none) + none =~= seq!['P'] + d);
}

} // verus!
