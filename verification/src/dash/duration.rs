//! ISO 8601 durations (`PT1H2M3.5S`) as a list of terms.

use crate::text;
use vstd::prelude::*;

verus! {

/// A number of some unit: the number as written, and the unit in seconds.
#[derive(Debug)]
pub struct DurationTerm {
    pub number: String,
    pub scale: u64,
}

/// A duration: the terms of the date part, and those of the time part where
/// there is one.
#[derive(Debug)]
pub struct IsoDuration {
    pub date: Vec<DurationTerm>,
    pub time: Option<Vec<DurationTerm>>,
}

/// A term as a mathematical value.
pub struct TermView {
    pub number: Seq<char>,
    pub scale: u64,
}

/// A duration as a mathematical value.
pub struct IsoView {
    pub date: Seq<TermView>,
    pub time: Option<Seq<TermView>>,
}

impl View for DurationTerm {
    type V = TermView;

    open spec fn view(&self) -> TermView {
        TermView { number: self.number@, scale: self.scale }
    }
}

/// The views of some terms.
pub open spec fn term_views(terms: Seq<DurationTerm>) -> Seq<TermView> {
    terms.map_values(|t: DurationTerm| t@)
}

impl View for IsoDuration {
    type V = IsoView;

    open spec fn view(&self) -> IsoView {
        IsoView {
            date: term_views(self.date@),
            time: match self.time {
                Some(terms) => Some(term_views(terms@)),
                None => None,
            },
        }
    }
}

/// The view of a duration that may be absent.
pub open spec fn iso_view(d: Option<IsoDuration>) -> Option<IsoView> {
    match d {
        Some(d) => Some(d@),
        None => None,
    }
}

/// The seconds in a unit of the date part (years of 365 and months of 30 days)
/// or of the time part.
pub open spec fn unit_seconds(in_time: bool, c: char) -> Option<u64> {
    if in_time {
        if c == 'H' {
            Some(3600)
        } else if c == 'M' {
            Some(60)
        } else if c == 'S' {
            Some(1)
        } else {
            None
        }
    } else {
        if c == 'Y' {
            Some(31_536_000)
        } else if c == 'M' {
            Some(2_592_000)
        } else if c == 'W' {
            Some(604_800)
        } else if c == 'D' {
            Some(86_400)
        } else {
            None
        }
    }
}

/// Whether a character belongs to a number.
pub open spec fn is_number_char(c: char) -> bool {
    text::is_digit(c) || c == '.'
}

/// The characters of a number that still wait for their unit at the end of the
/// text. A character that is neither part of a number nor a unit is passed
/// over.
pub open spec fn pending(s: Seq<char>, in_time: bool) -> Seq<char>
    decreases s.len(),
{
    if s.len() == 0 {
        Seq::empty()
    } else if is_number_char(s.last()) {
        pending(s.drop_last(), in_time).push(s.last())
    } else if unit_seconds(in_time, s.last()) is Some {
        Seq::empty()
    } else {
        pending(s.drop_last(), in_time)
    }
}

/// The terms of one part of a duration: each unit closes the number before it.
pub open spec fn terms(s: Seq<char>, in_time: bool) -> Seq<TermView>
    decreases s.len(),
{
    if s.len() == 0 {
        Seq::empty()
    } else {
        match unit_seconds(in_time, s.last()) {
            Some(scale) => terms(s.drop_last(), in_time).push(
                TermView { number: pending(s.drop_last(), in_time), scale },
            ),
            None => terms(s.drop_last(), in_time),
        }
    }
}

/// The duration that a text denotes: whitespace around it is ignored, it begins
/// with `P`, and a `T` parts the date from the time. `None` without the `P`.
pub open spec fn iso_duration(s: Seq<char>) -> Option<IsoView> {
    let t = text::trim(s);
    if t.len() == 0 || t[0] != 'P' {
        None
    } else {
        let body = t.skip(1);
        let at = text::find_any(body, seq!['T'], 0);
        if at < body.len() {
            Some(
                IsoView {
                    date: terms(body.take(at), false),
                    time: Some(terms(body.skip(at + 1), true)),
                },
            )
        } else {
            Some(IsoView { date: terms(body, false), time: None })
        }
    }
}

/// The seconds in a unit.
fn unit_of(in_time: bool, c: char) -> (out: Option<u64>)
    ensures
        out == unit_seconds(in_time, c),
{
    if in_time {
        if c == 'H' {
            Some(3600)
        } else if c == 'M' {
            Some(60)
        } else if c == 'S' {
            Some(1)
        } else {
            None
        }
    } else {
        if c == 'Y' {
            Some(31_536_000)
        } else if c == 'M' {
            Some(2_592_000)
        } else if c == 'W' {
            Some(604_800)
        } else if c == 'D' {
            Some(86_400)
        } else {
            None
        }
    }
}

/// The terms of one part of a duration.
fn scan(s: &[char], in_time: bool) -> (out: Vec<DurationTerm>)
    ensures
        term_views(out@) == terms(s@, in_time),
{
    let mut out: Vec<DurationTerm> = Vec::new();
    let mut number: Vec<char> = Vec::new();
    let mut i: usize = 0;
    assert(term_views(out@) =~= terms(s@.take(0), in_time));
    while i < s.len()
        invariant
            i <= s.len(),
            term_views(out@) == terms(s@.take(i as int), in_time),
            number@ == pending(s@.take(i as int), in_time),
        decreases s.len() - i,
    {
        let c = s[i];
        assert(s@.take(i + 1).drop_last() =~= s@.take(i as int));
        assert(s@.take(i + 1).last() == c);
        if ('0' <= c && c <= '9') || c == '.' {
            assert(unit_seconds(in_time, c) is None);
            number.push(c);
        } else {
            match unit_of(in_time, c) {
                Some(scale) => {
                    let ghost before = out@;
                    let term = DurationTerm { number: text::string_of(&number), scale };
                    out.push(term);
                    assert(term_views(out@) =~= term_views(before).push(term@));
                    number = Vec::new();
                },
                None => {},
            }
        }
        i += 1;
    }
    assert(s@.take(s.len() as int) =~= s@);
    out
}

/// Parses an ISO 8601 duration into its terms.
pub fn parse_iso_duration(s: &str) -> (out: Option<IsoDuration>)
    ensures
        iso_view(out) == iso_duration(s@),
{
    let all = text::chars_of(s);
    let space = text::whitespace_chars();
    let t = text::trimmed_of(&all, &space);
    if t.len() == 0 || t[0] != 'P' {
        return None;
    }
    let body = text::slice_of(&t, 1, t.len());
    assert(body@ =~= t@.skip(1));
    let mark = vec!['T'];
    assert(mark@ =~= seq!['T']);
    let at: usize = text::position_of_any(&body, &mark, 0);
    if at < body.len() {
        let date = text::slice_of(&body, 0, at);
        let time = text::slice_of(&body, at + 1, body.len());
        assert(date@ =~= body@.take(at as int));
        assert(time@ =~= body@.skip(at + 1));
        Some(IsoDuration { date: scan(&date, false), time: Some(scan(&time, true)) })
    } else {
        Some(IsoDuration { date: scan(&body, false), time: None })
    }
}

} // verus!
