//! The segments of a representation: which there are, and their URLs.

use crate::dash::element::{
    add_entry, add_rep_entry, apply_template, local_name, read_entry, read_representation,
    read_template_attrs, RawRep, RawRepView, TimelineEntry, Tpl, TplView,
};
use crate::dash::element;
use crate::dash::manifest::{DashError, DashErrorView};
use crate::text;
use crate::urls::{join_url, parse_url, url_string};
use crate::urls;
use crate::xml::{read_events, XmlEvent, XmlTag};
use crate::xml;
use url::Url;
use vstd::prelude::*;

verus! {

// ---------------------------------------------------------------------------
// Raw representations
// ---------------------------------------------------------------------------

/// What has been gathered at some point of a document.
pub struct CollectView {
    pub out: Seq<RawRepView>,
    pub set_tpl: TplView,
    pub in_representation: bool,
    pub current: Option<RawRepView>,
    /// Whether the open representation has a timeline of its own.
    pub own_timeline: bool,
    pub in_template: bool,
}

/// Nothing has been gathered yet.
pub open spec fn collect_start() -> CollectView {
    CollectView {
        out: Seq::empty(),
        set_tpl: element::no_template(),
        in_representation: false,
        current: None,
        own_timeline: false,
        in_template: false,
    }
}

/// A template inside a representation refines it; elsewhere it becomes the
/// template of the adaptation set.
pub open spec fn take_template(st: CollectView, tpl: TplView) -> CollectView {
    if st.in_representation {
        CollectView {
            current: match st.current {
                Some(rep) => Some(element::with_template(rep, tpl)),
                None => None,
            },
            ..st
        }
    } else {
        CollectView { set_tpl: tpl, ..st }
    }
}

/// A timeline entry belongs to the open representation, where the first one
/// takes the place of an inherited timeline, else to the template of the
/// adaptation set.
pub open spec fn take_entry(st: CollectView, entry: TimelineEntry) -> CollectView {
    if st.in_representation && st.current is Some {
        CollectView {
            current: Some(element::rep_with_entry(st.current->0, entry, st.own_timeline)),
            own_timeline: true,
            ..st
        }
    } else {
        CollectView {
            set_tpl: TplView {
                timeline: element::with_entry(st.set_tpl.timeline, entry),
                ..st.set_tpl
            },
            ..st
        }
    }
}

/// What an opening tag adds. Timeline entries count inside a representation and
/// inside a template.
pub open spec fn on_start(st: CollectView, tag: xml::TagView) -> CollectView {
    let name = element::bare_name(tag.name);
    let list = element::attrs_of(tag.attributes);
    if name == "SegmentTemplate"@ {
        take_template(CollectView { in_template: true, ..st }, element::template_of(list))
    } else if name == "S"@ {
        if st.in_representation || st.in_template {
            take_entry(st, element::entry_of(list))
        } else {
            st
        }
    } else if name == "Representation"@ {
        CollectView {
            in_representation: true,
            current: Some(element::representation_of(list, Seq::empty(), st.set_tpl)),
            own_timeline: false,
            ..st
        }
    } else {
        st
    }
}

/// What a self-closing tag adds: a template, a timeline entry, or a
/// representation that ends where it begins.
pub open spec fn on_empty(st: CollectView, tag: xml::TagView) -> CollectView {
    let name = element::bare_name(tag.name);
    if name == "SegmentTemplate"@ {
        take_template(st, element::template_of(element::attrs_of(tag.attributes)))
    } else if name == "S"@ {
        on_start(st, tag)
    } else if name == "Representation"@ {
        on_end(on_start(st, tag), tag.name)
    } else {
        st
    }
}

/// What a closing tag ends.
pub open spec fn on_end(st: CollectView, qname: Seq<u8>) -> CollectView {
    let name = element::bare_name(qname);
    if name == "Representation"@ {
        CollectView {
            in_representation: false,
            in_template: false,
            current: None,
            out: match st.current {
                Some(rep) => st.out.push(rep),
                None => st.out,
            },
            ..st
        }
    } else if name == "SegmentTemplate"@ {
        CollectView { in_template: false, ..st }
    } else if name == "AdaptationSet"@ {
        CollectView { set_tpl: element::no_template(), ..st }
    } else {
        st
    }
}

/// What an event adds.
pub open spec fn on_event(st: CollectView, e: xml::EventView) -> CollectView {
    match e {
        xml::EventView::Start(tag) => on_start(st, tag),
        xml::EventView::Empty(tag) => on_empty(st, tag),
        xml::EventView::End(name) => on_end(st, name),
        _ => st,
    }
}

/// The representations gathered when the events end, be it by an error.
pub open spec fn collect(st: CollectView, events: Seq<xml::EventView>) -> Seq<RawRepView>
    decreases events.len(),
{
    if events.len() == 0 || xml::is_last(events[0]) {
        st.out
    } else {
        collect(on_event(st, events[0]), events.drop_first())
    }
}

/// The raw representations of a document given by its events.
pub open spec fn raw_reps(events: Seq<xml::EventView>) -> Seq<RawRepView> {
    collect(collect_start(), events)
}

struct Collect {
    out: Vec<RawRep>,
    set_tpl: Tpl,
    in_representation: bool,
    current: Option<RawRep>,
    own_timeline: bool,
    in_template: bool,
}

impl View for Collect {
    type V = CollectView;

    closed spec fn view(&self) -> CollectView {
        CollectView {
            out: element::rep_views(self.out@),
            set_tpl: self.set_tpl@,
            in_representation: self.in_representation,
            current: element::rep_view(self.current),
            own_timeline: self.own_timeline,
            in_template: self.in_template,
        }
    }
}

impl Collect {
    fn take_template(self, tpl: Tpl) -> (out: Collect)
        ensures
            out@ == take_template(self@, tpl@),
    {
        let mut st = self;
        if st.in_representation {
            let current = match st.current {
                Some(rep) => {
                    let mut rep = rep;
                    apply_template(&mut rep, &tpl);
                    Some(rep)
                },
                None => None,
            };
            st.current = current;
        } else {
            st.set_tpl = tpl;
        }
        st
    }

    fn take_entry(self, entry: TimelineEntry) -> (out: Collect)
        ensures
            out@ == take_entry(self@, entry),
    {
        let mut st = self;
        match st.current {
            Some(rep) => {
                let mut rep = rep;
                if st.in_representation {
                    add_rep_entry(&mut rep, entry, st.own_timeline);
                    st.own_timeline = true;
                } else {
                    st.set_tpl.timeline = add_entry(st.set_tpl.timeline, entry);
                }
                st.current = Some(rep);
            },
            None => {
                st.current = None;
                st.set_tpl.timeline = add_entry(st.set_tpl.timeline, entry);
            },
        }
        st
    }

    fn on_start(self, tag: &XmlTag) -> (out: Collect)
        ensures
            out@ == on_start(self@, tag@),
    {
        let mut st = self;
        let name = local_name(&tag.name);
        if text::same(name.as_str(), "SegmentTemplate") {
            st.in_template = true;
            st = st.take_template(read_template_attrs(tag));
        } else if text::same(name.as_str(), "S") {
            if st.in_representation || st.in_template {
                st = st.take_entry(read_entry(tag));
            }
        } else if text::same(name.as_str(), "Representation") {
            st.in_representation = true;
            let none = String::new();
            st.current = Some(read_representation(tag, none.as_str(), &st.set_tpl));
            st.own_timeline = false;
        }
        st
    }

    fn on_empty(self, tag: &XmlTag) -> (out: Collect)
        ensures
            out@ == on_empty(self@, tag@),
    {
        let mut st = self;
        let name = local_name(&tag.name);
        if text::same(name.as_str(), "SegmentTemplate") {
            st = st.take_template(read_template_attrs(tag));
        } else if text::same(name.as_str(), "S") {
            st = st.on_start(tag);
        } else if text::same(name.as_str(), "Representation") {
            st = st.on_start(tag).on_end(&tag.name);
        }
        st
    }

    fn on_end(self, qname: &[u8]) -> (out: Collect)
        ensures
            out@ == on_end(self@, qname@),
    {
        let mut st = self;
        let name = local_name(qname);
        if text::same(name.as_str(), "Representation") {
            st.in_representation = false;
            st.in_template = false;
            match st.current {
                Some(rep) => {
                    let ghost before = st.out@;
                    st.out.push(rep);
                    assert(element::rep_views(st.out@) =~= element::rep_views(before).push(rep@));
                },
                None => {},
            }
            st.current = None;
        } else if text::same(name.as_str(), "SegmentTemplate") {
            st.in_template = false;
        } else if text::same(name.as_str(), "AdaptationSet") {
            st.set_tpl = Tpl::default();
        }
        st
    }
}

/// The raw representations of a document given by its events.
pub fn reps_from_events(events: &Vec<XmlEvent>) -> (out: Vec<RawRep>)
    ensures
        element::rep_views(out@) == raw_reps(xml::event_views(events@)),
{
    let ghost all = xml::event_views(events@);
    let mut st = Collect {
        out: Vec::new(),
        set_tpl: Tpl::default(),
        in_representation: false,
        current: None,
        own_timeline: false,
        in_template: false,
    };
    assert(st@.out =~= Seq::<RawRepView>::empty());
    let mut i: usize = 0;
    assert(all.skip(0) =~= all);
    while i < events.len()
        invariant
            i <= events.len(),
            all == xml::event_views(events@),
            raw_reps(all) == collect(st@, all.skip(i as int)),
        decreases events.len() - i,
    {
        assert(all.skip(i as int)[0] == events@[i as int]@);
        assert(all.skip(i as int).drop_first() =~= all.skip(i + 1));
        match &events[i] {
            XmlEvent::Start(tag) => {
                st = st.on_start(tag);
            },
            XmlEvent::Empty(tag) => {
                st = st.on_empty(tag);
            },
            XmlEvent::End(name) => {
                st = st.on_end(name);
            },
            XmlEvent::Other => {},
            XmlEvent::Eof => {
                return st.out;
            },
            XmlEvent::Failed(_) => {
                return st.out;
            },
        }
        i += 1;
    }
    st.out
}

/// The raw representation data of a document, for URL building.
pub fn collect_raw_reps(xml: &str) -> (out: Vec<RawRep>)
    ensures
        element::rep_views(out@) == raw_reps(xml::xml_events(xml@)),
{
    reps_from_events(&read_events(xml))
}

// ---------------------------------------------------------------------------
// Templates
// ---------------------------------------------------------------------------

/// A `$Name$` or `$Name%0Nd$` mark at the start of a text: its name, the zero
/// padding, and the number of characters that it takes.
pub open spec fn tag_at(s: Seq<char>) -> Option<(Seq<char>, usize, int)> {
    let end = text::find_any(s, seq!['$'], 1);
    if s.len() == 0 || end >= s.len() {
        None
    } else {
        let tag = s.subrange(1, end);
        let mark = text::find_any(tag, seq!['%'], 0);
        if mark >= tag.len() {
            Some((tag, 0, end + 1))
        } else {
            let format = tag.skip(mark + 1);
            if format.len() < 2 || format[0] != '0' || format.last() != 'd' {
                None
            } else {
                match text::parse_usize(format.subrange(1, format.len() - 1)) {
                    Some(width) => Some((tag.take(mark), width, end + 1)),
                    None => None,
                }
            }
        }
    }
}

/// What a mark stands for; nothing where its name is unknown.
pub open spec fn mark_value(
    name: Seq<char>,
    width: usize,
    rep: RawRepView,
    number: u64,
    time: Option<u64>,
) -> Seq<char> {
    if name == "RepresentationID"@ {
        rep.id
    } else if name == "Bandwidth"@ {
        text::decimal(rep.bandwidth as nat)
    } else if name == "Number"@ {
        text::zero_padded(number as nat, width as nat)
    } else if name == "Time"@ {
        text::zero_padded(
            match time {
                Some(t) => t as nat,
                None => 0,
            },
            width as nat,
        )
    } else {
        Seq::empty()
    }
}

/// A template with its marks replaced: `$$` stands for `$`, and a `$` that
/// begins no mark for itself.
pub open spec fn expand(
    t: Seq<char>,
    rep: RawRepView,
    number: u64,
    time: Option<u64>,
) -> Seq<char>
    decreases t.len(),
{
    if t.len() == 0 {
        Seq::empty()
    } else if t[0] == '$' && t.len() > 1 && t[1] == '$' {
        seq!['$'] + expand(t.skip(2), rep, number, time)
    } else if t[0] == '$' && tag_at(t) is Some && 0 < (tag_at(t)->0).2 <= t.len() {
        let (name, width, taken) = tag_at(t)->0;
        mark_value(name, width, rep, number, time) + expand(t.skip(taken), rep, number, time)
    } else {
        seq![t[0]] + expand(t.skip(1), rep, number, time)
    }
}

/// A reference resolved against a base; the reference itself where that fails.
pub open spec fn resolved(base: Seq<char>, reference: Seq<char>) -> Seq<char> {
    match urls::joined(base, reference) {
        Ok(url) => url,
        Err(_) => reference,
    }
}

/// A mark takes at least two characters, and no more than there are.
pub proof fn lemma_tag_at(s: Seq<char>)
    ensures
        tag_at(s) matches Some(m) ==> 2 <= m.2 <= s.len(),
{
    if s.len() > 0 {
        text::lemma_find_any(s, seq!['$'], 1);
    }
}

/// A template without marks stands for itself.
pub proof fn lemma_plain_template(t: Seq<char>, rep: RawRepView, number: u64, time: Option<u64>)
    requires
        !t.contains('$'),
    ensures
        expand(t, rep, number, time) == t,
    decreases t.len(),
{
    if t.len() > 0 {
        assert(t.contains(t[0]));
        assert forall|i: int| 0 <= i < t.len() - 1 implies #[trigger] t.skip(1)[i] != '$' by {
            assert(t.contains(t[i + 1]));
        }
        lemma_plain_template(t.skip(1), rep, number, time);
        assert(seq![t[0]] + t.skip(1) =~= t);
    } else {
        assert(t =~= Seq::empty());
    }
}

/// Recognizes `$Name$` or `$Name%0Nd$` at the start of `chars`; returns the
/// name, the zero-pad width and the characters consumed.
pub fn parse_tag(chars: &[char]) -> (out: Option<(String, usize, usize)>)
    ensures
        match out {
            Some(m) => tag_at(chars@) == Some((m.0@, m.1, m.2 as int)),
            None => tag_at(chars@) is None,
        },
{
    if chars.len() == 0 {
        return None;
    }
    let dollar = vec!['$'];
    let percent = vec!['%'];
    assert(dollar@ =~= seq!['$']);
    assert(percent@ =~= seq!['%']);
    let end: usize = text::position_of_any(chars, &dollar, 1);
    if end >= chars.len() {
        return None;
    }
    let tag = text::slice_of(chars, 1, end);
    let mark: usize = text::position_of_any(&tag, &percent, 0);
    if mark >= tag.len() {
        return Some((text::string_of(&tag), 0, end + 1));
    }
    let format = text::slice_of(&tag, mark + 1, tag.len());
    assert(format@ =~= tag@.skip(mark + 1));
    if format.len() < 2 || format[0] != '0' || format[format.len() - 1] != 'd' {
        return None;
    }
    let digits = text::slice_of(&format, 1, format.len() - 1);
    match text::to_usize(&digits) {
        Some(width) => {
            let name = text::slice_of(&tag, 0, mark);
            assert(name@ =~= tag@.take(mark as int));
            Some((text::string_of(&name), width, end + 1))
        },
        None => None,
    }
}

/// A number filled up with zeros to `width` characters.
pub fn pad(value: u64, width: usize) -> (out: String)
    ensures
        out@ == text::zero_padded(value as nat, width as nat),
{
    text::padded_of(value, width)
}

/// Substitutes `$RepresentationID$`, `$Bandwidth$`, `$Number[wd]$` and
/// `$Time[wd]$`.
pub fn expand_template(template: &str, rep: &RawRep, number: u64, time: Option<u64>) -> (out:
    String)
    ensures
        out@ == expand(template@, rep@, number, time),
{
    let chars = text::chars_of(template);
    let mut out = String::new();
    let mut i: usize = 0;
    assert(chars@.skip(0) =~= chars@);
    while i < chars.len()
        invariant
            i <= chars.len(),
            chars@ == template@,
            out@ + expand(chars@.skip(i as int), rep@, number, time) == expand(
                template@,
                rep@,
                number,
                time,
            ),
        decreases chars.len() - i,
    {
        let ghost rest = chars@.skip(i as int);
        let ghost before = out@;
        let here = text::slice_of(&chars, i, chars.len());
        assert(here@ =~= rest);
        if chars[i] == '$' && i + 1 < chars.len() && chars[i + 1] == '$' {
            out.push('$');
            i += 2;
            proof {
                assert(rest.skip(2) =~= chars@.skip(i as int));
                assert(out@ + expand(rest.skip(2), rep@, number, time) =~= before + (seq!['$']
                    + expand(rest.skip(2), rep@, number, time)));
            }
        } else {
            let mark = if chars[i] == '$' {
                parse_tag(&here)
            } else {
                None
            };
            proof {
                lemma_tag_at(rest);
            }
            match mark {
                Some((name, width, taken)) => {
                    let value = if text::same(name.as_str(), "RepresentationID") {
                        rep.id.clone()
                    } else if text::same(name.as_str(), "Bandwidth") {
                        text::decimal_of(rep.bandwidth)
                    } else if text::same(name.as_str(), "Number") {
                        pad(number, width)
                    } else if text::same(name.as_str(), "Time") {
                        let at: u64 = match time {
                            Some(t) => t,
                            None => 0,
                        };
                        pad(at, width)
                    } else {
                        String::new()
                    };
                    out.append(value.as_str());
                    i += taken;
                    proof {
                        assert(rest.skip(taken as int) =~= chars@.skip(i as int));
                        assert(value@ == mark_value(name@, width, rep@, number, time));
                        assert(out@ + expand(rest.skip(taken as int), rep@, number, time)
                            =~= before + (value@ + expand(
                            rest.skip(taken as int),
                            rep@,
                            number,
                            time,
                        )));
                    }
                },
                None => {
                    out.push(chars[i]);
                    i += 1;
                    proof {
                        assert(rest.skip(1) =~= chars@.skip(i as int));
                        assert(out@ + expand(rest.skip(1), rep@, number, time) =~= before + (
                        seq![rest[0]] + expand(rest.skip(1), rep@, number, time)));
                    }
                },
            }
        }
    }
    assert(chars@.skip(chars.len() as int) =~= Seq::empty());
    assert(out@ + Seq::<char>::empty() =~= out@);
    out
}

/// Substitutes the marks of a template and resolves the result against the
/// manifest URL.
pub fn resolve_template(
    base: &Url,
    template: &str,
    rep: &RawRep,
    number: u64,
    time: Option<u64>,
) -> (out: String)
    ensures
        out@ == resolved(urls::url_text(*base), expand(template@, rep@, number, time)),
{
    let reference = expand_template(template, rep, number, time);
    match join_url(base, reference.as_str()) {
        Ok(url) => url_string(&url),
        Err(_) => reference,
    }
}

// ---------------------------------------------------------------------------
// The segments of a representation
// ---------------------------------------------------------------------------

/// No representation has more segments than this without a timeline.
pub const MAX_SEGMENTS: u64 = 100_000;

/// The number of the first segment.
pub open spec fn first_number(rep: RawRepView) -> u64 {
    if rep.start_number > 0 {
        rep.start_number
    } else {
        1
    }
}

/// The time at which an entry starts that follows the entries `before`.
pub open spec fn start_after(before: Seq<TimelineEntry>, entry: TimelineEntry) -> int
    decreases before.len(), 1int,
{
    match entry.0 {
        Some(t) => t as int,
        None => timeline_end(before),
    }
}

/// The time at which the last entry ends.
pub open spec fn timeline_end(entries: Seq<TimelineEntry>) -> int
    decreases entries.len(), 0int,
{
    if entries.len() == 0 {
        0
    } else {
        start_after(entries.drop_last(), entries.last()) + (entries.last().2 + 1)
            * entries.last().1
    }
}

/// The number of segments that a timeline lists.
pub open spec fn segment_total(entries: Seq<TimelineEntry>) -> nat
    decreases entries.len(),
{
    if entries.len() == 0 {
        0
    } else {
        segment_total(entries.drop_last()) + entries.last().2 as nat + 1
    }
}

/// The numbers and times of the segments of one entry.
pub open spec fn entry_pairs(number: int, start: int, entry: TimelineEntry, count: nat) -> Seq<
    (u64, Option<u64>),
> {
    Seq::new(count, |i: int| ((number + i) as u64, Some((start + i * entry.1) as u64)))
}

/// The numbers and times of the segments that a timeline lists.
pub open spec fn timeline_pairs(entries: Seq<TimelineEntry>, first: u64) -> Seq<
    (u64, Option<u64>),
>
    decreases entries.len(),
{
    if entries.len() == 0 {
        Seq::empty()
    } else {
        let before = entries.drop_last();
        timeline_pairs(before, first) + entry_pairs(
            first + segment_total(before),
            start_after(before, entries.last()),
            entries.last(),
            entries.last().2 as nat + 1,
        )
    }
}

/// Whether every number and time of a timeline fits in 64 bits, those that
/// would come after the last segment included.
pub open spec fn timeline_fits(entries: Seq<TimelineEntry>, first: u64) -> bool
    decreases entries.len(),
{
    if entries.len() == 0 {
        true
    } else {
        &&& timeline_fits(entries.drop_last(), first)
        &&& first + segment_total(entries) <= u64::MAX
        &&& entries.last().2 < u64::MAX
        &&& timeline_end(entries) <= u64::MAX
    }
}

/// The number of segments of one length that cover a duration.
pub open spec fn count_for(total: u64, length: u64) -> int {
    (total + length - 1) / length as int
}

/// The numbers and times of segments of one length, the first of which starts
/// at zero.
pub open spec fn even_pairs(first: u64, length: u64, count: nat) -> Seq<(u64, Option<u64>)> {
    Seq::new(count, |i: int| ((first + i) as u64, Some((i * length) as u64)))
}

/// Whether every segment number of a representation fits in 64 bits. The times
/// of segments of one length always do: none is past the duration.
pub open spec fn numbers_fit(rep: RawRepView, total: Option<u64>) -> bool {
    match rep.timeline {
        Some(entries) => timeline_fits(entries, first_number(rep)),
        None => match total {
            Some(t) => rep.duration > 0 && 0 < count_for(t, rep.duration) <= MAX_SEGMENTS
                ==> first_number(rep) + count_for(t, rep.duration) - 1 <= u64::MAX,
            None => true,
        },
    }
}

/// The number and time of every media segment. `total` is the presentation
/// duration in units of the representation's timescale.
pub open spec fn plan(rep: RawRepView, total: Option<u64>) -> Result<
    Seq<(u64, Option<u64>)>,
    DashErrorView,
> {
    match rep.timeline {
        Some(entries) => Ok(timeline_pairs(entries, first_number(rep))),
        None => match total {
            Some(t) => if rep.duration > 0 && 0 < count_for(t, rep.duration) <= MAX_SEGMENTS {
                Ok(
                    even_pairs(
                        first_number(rep),
                        rep.duration,
                        count_for(t, rep.duration) as nat,
                    ),
                )
            } else {
                Err(DashErrorView::NoSegmentCount)
            },
            None => Err(DashErrorView::NoSegmentCount),
        },
    }
}

/// The number of the first segment.
fn read_first_number(rep: &RawRep) -> (out: u64)
    ensures
        out == first_number(rep@),
{
    if rep.start_number > 0 {
        rep.start_number
    } else {
        1
    }
}

/// Whether a timeline fits is known of each of its prefixes.
proof fn lemma_prefix_fits(entries: Seq<TimelineEntry>, first: u64, n: int)
    requires
        0 <= n <= entries.len(),
        timeline_fits(entries, first),
    ensures
        timeline_fits(entries.take(n), first),
    decreases entries.len(),
{
    if n == entries.len() {
        assert(entries.take(n) =~= entries);
    } else {
        assert(entries.drop_last().take(n) =~= entries.take(n));
        lemma_prefix_fits(entries.drop_last(), first, n);
    }
}

/// No entry starts or ends before zero.
proof fn lemma_not_negative(entries: Seq<TimelineEntry>)
    ensures
        timeline_end(entries) >= 0,
    decreases entries.len(),
{
    if entries.len() > 0 {
        lemma_not_negative(entries.drop_last());
        assert((entries.last().2 + 1) * entries.last().1 >= 0) by (nonlinear_arith);
    }
}

/// The numbers and times of the segments that a timeline lists.
fn read_timeline(entries: &Vec<TimelineEntry>, first: u64) -> (out: Vec<(u64, Option<u64>)>)
    requires
        timeline_fits(entries@, first),
    ensures
        out@ == timeline_pairs(entries@, first),
{
    let mut pairs: Vec<(u64, Option<u64>)> = Vec::new();
    let mut t: u64 = 0;
    let mut number: u64 = first;
    let mut k: usize = 0;
    while k < entries.len()
        invariant
            k <= entries.len(),
            timeline_fits(entries@, first),
            number == first + segment_total(entries@.take(k as int)),
            t == timeline_end(entries@.take(k as int)),
            pairs@ == timeline_pairs(entries@.take(k as int), first),
        decreases entries.len() - k,
    {
        let ghost before = entries@.take(k as int);
        let ghost upto = entries@.take(k + 1);
        let entry = entries[k];
        proof {
            assert(upto.drop_last() =~= before);
            assert(upto.last() == entry);
            lemma_prefix_fits(entries@, first, k + 1);
            lemma_not_negative(before);
        }
        let start: u64 = match entry.0 {
            Some(t0) => t0,
            None => t,
        };
        let count: u64 = entry.2 + 1;
        let d: u64 = entry.1;
        let ghost number0 = number as int;
        let ghost pairs0 = pairs@;
        assert(start + count * d <= u64::MAX);
        let mut i: u64 = 0;
        while i < count
            invariant
                i <= count,
                d == entry.1,
                start + count * d <= u64::MAX,
                number0 + count <= u64::MAX,
                number == number0 + i,
                pairs@ == pairs0 + entry_pairs(number0, start as int, entry, i as nat),
            decreases count - i,
        {
            assert(0 <= i * d <= count * d) by (nonlinear_arith)
                requires
                    0 <= i <= count,
                    0 <= d,
            ;
            pairs.push((number, Some(start + i * d)));
            number += 1;
            i += 1;
            assert(pairs@ =~= pairs0 + entry_pairs(number0, start as int, entry, i as nat));
        }
        t = start + count * d;
        k += 1;
    }
    assert(entries@.take(entries.len() as int) =~= entries@);
    pairs
}

/// The number and time of every media segment of a representation. `total` is
/// the presentation duration in units of its timescale.
pub fn plan_segments(rep: &RawRep, total: Option<u64>) -> (out: Result<
    Vec<(u64, Option<u64>)>,
    DashError,
>)
    requires
        numbers_fit(rep@, total),
    ensures
        match out {
            Ok(pairs) => plan(rep@, total) == Ok::<Seq<(u64, Option<u64>)>, DashErrorView>(pairs@),
            Err(e) => plan(rep@, total) == Err::<Seq<(u64, Option<u64>)>, DashErrorView>(e@),
        },
{
    let first: u64 = read_first_number(rep);
    match &rep.timeline {
        Some(entries) => Ok(read_timeline(entries, first)),
        None => {
            let t: u64 = match total {
                Some(t) => t,
                None => return Err(DashError::NoSegmentCount),
            };
            let length: u64 = rep.duration;
            if length == 0 {
                return Err(DashError::NoSegmentCount);
            }
            let whole: u64 = t / length;
            let count: u64 = if t % length > 0 {
                proof {
                    lemma_quotient(t, length);
                }
                whole + 1
            } else {
                whole
            };
            proof {
                lemma_quotient(t, length);
            }
            if count == 0 || count > MAX_SEGMENTS {
                return Err(DashError::NoSegmentCount);
            }
            let mut pairs: Vec<(u64, Option<u64>)> = Vec::new();
            let mut i: u64 = 0;
            while i < count
                invariant
                    i <= count,
                    first + count - 1 <= u64::MAX,
                    length > 0,
                    count == count_for(t, length),
                    pairs@ == even_pairs(first, length, i as nat),
                decreases count - i,
            {
                proof {
                    lemma_starts_before(t, length, i as int);
                }
                pairs.push((first + i, Some(i * length)));
                i += 1;
                assert(pairs@ =~= even_pairs(first, length, i as nat));
            }
            Ok(pairs)
        },
    }
}

/// Rounding up, by quotient and remainder.
proof fn lemma_quotient(t: u64, length: u64)
    requires
        length > 0,
    ensures
        t % length > 0 ==> t / length < u64::MAX && count_for(t, length) == t / length + 1,
        t % length == 0 ==> count_for(t, length) == t / length,
{
    let q = t as int / length as int;
    let r = t as int % length as int;
    vstd::arithmetic::div_mod::lemma_fundamental_div_mod(t as int, length as int);
    assert(0 <= r < length && t == length * q + r);
    if r > 0 {
        assert(q < u64::MAX) by (nonlinear_arith)
            requires
                t == length * q + r,
                r > 0,
                length > 0,
                t <= u64::MAX,
        ;
        assert(t + length - 1 == (q + 1) * length + (r - 1)) by (nonlinear_arith)
            requires
                t == length * q + r,
        ;
        vstd::arithmetic::div_mod::lemma_fundamental_div_mod_converse(
            t + length - 1,
            length as int,
            q + 1,
            r - 1,
        );
    } else {
        assert(t + length - 1 == q * length + (length - 1)) by (nonlinear_arith)
            requires
                t == length * q + r,
                r == 0,
        ;
        vstd::arithmetic::div_mod::lemma_fundamental_div_mod_converse(
            t + length - 1,
            length as int,
            q,
            length - 1,
        );
    }
}

/// Every segment of one length starts before the duration ends.
proof fn lemma_starts_before(t: u64, length: u64, i: int)
    requires
        length > 0,
        0 <= i < count_for(t, length),
    ensures
        0 <= i * length < t,
{
    let n = count_for(t, length);
    vstd::arithmetic::div_mod::lemma_fundamental_div_mod(t + length - 1, length as int);
    assert(0 <= i * length <= (n - 1) * length && (n - 1) * length < t) by (nonlinear_arith)
        requires
            0 <= i < n,
            length > 0,
            t + length - 1 == length * n + (t + length - 1) % (length as int),
            0 <= (t + length - 1) % (length as int),
    ;
}

/// Without a timeline the segments start one length after the other, from zero
/// on, and each of them before the duration ends.
pub proof fn lemma_even_times(rep: RawRepView, total: u64)
    requires
        rep.timeline is None,
    ensures
        plan(rep, Some(total)) matches Ok(pairs) ==> forall|i: int|
            0 <= i < pairs.len() ==> (#[trigger] pairs[i]).1 is Some && pairs[i].1->0 == i
                * rep.duration && pairs[i].1->0 < total,
{
    if plan(rep, Some(total)) is Ok {
        let pairs = plan(rep, Some(total))->Ok_0;
        assert forall|i: int| 0 <= i < pairs.len() implies (#[trigger] pairs[i]).1 is Some
            && pairs[i].1->0 == i * rep.duration && pairs[i].1->0 < total by {
            lemma_starts_before(total, rep.duration, i);
        }
    }
}

/// A timeline lists its segments with consecutive numbers.
pub proof fn lemma_timeline_numbers(entries: Seq<TimelineEntry>, first: u64)
    requires
        timeline_fits(entries, first),
    ensures
        timeline_pairs(entries, first).len() == segment_total(entries),
        forall|i: int|
            0 <= i < segment_total(entries) ==> (#[trigger] timeline_pairs(entries, first)[i]).0
                == first + i,
    decreases entries.len(),
{
    if entries.len() > 0 {
        lemma_timeline_numbers(entries.drop_last(), first);
    }
}

/// The segments of a representation are numbered one after the other, from its
/// start number on or from 1.
pub proof fn lemma_consecutive_numbers(rep: RawRepView, total: Option<u64>)
    requires
        numbers_fit(rep, total),
    ensures
        plan(rep, total) matches Ok(pairs) ==> forall|i: int|
            0 <= i < pairs.len() ==> (#[trigger] pairs[i]).0 == first_number(rep) + i,
{
    match rep.timeline {
        Some(entries) => lemma_timeline_numbers(entries, first_number(rep)),
        None => {},
    }
}

/// Entries without a start time follow each other without a gap: each segment
/// starts where the one before it ends.
pub proof fn lemma_gapless_times(entries: Seq<TimelineEntry>, first: u64, entry: TimelineEntry)
    requires
        timeline_fits(entries.push(entry), first),
        entry.0 is None,
    ensures
        timeline_pairs(entries.push(entry), first)[segment_total(entries) as int].1 == Some(
            timeline_end(entries) as u64,
        ),
        forall|i: int|
            segment_total(entries) <= i < segment_total(entries) + entry.2 ==> timeline_pairs(
                entries.push(entry),
                first,
            )[i + 1].1->0 == (#[trigger] timeline_pairs(entries.push(entry), first)[i]).1->0
                + entry.1,
{
    let all = entries.push(entry);
    assert(all.drop_last() =~= entries);
    lemma_timeline_numbers(entries, first);
    lemma_not_negative(entries);
    let n = segment_total(entries) as int;
    let start = timeline_end(entries);
    assert(entry_pairs(first + n, start, entry, entry.2 as nat + 1)[0].1 == Some(
        (start + 0 * entry.1) as u64,
    ));
    assert forall|i: int| n <= i < n + entry.2 implies timeline_pairs(all, first)[i + 1].1->0 == (
    #[trigger] timeline_pairs(all, first)[i]).1->0 + entry.1 by {
        let k = i - n;
        assert(timeline_pairs(all, first)[i].1 == Some((start + k * entry.1) as u64));
        assert(timeline_pairs(all, first)[i + 1].1 == Some((start + (k + 1) * entry.1) as u64));
        assert(0 <= k * entry.1 && (k + 1) * entry.1 == k * entry.1 + entry.1 && (k + 1) * entry.1
            <= (entry.2 + 1) * entry.1) by (nonlinear_arith)
            requires
                0 <= k < entry.2,
        ;
        assert(timeline_end(all) == start + (entry.2 + 1) * entry.1);
    }
}

// ---------------------------------------------------------------------------
// Segment URLs
// ---------------------------------------------------------------------------

/// The first representation with an id.
pub open spec fn first_with_id(reps: Seq<RawRepView>, id: Seq<char>) -> Option<RawRepView>
    decreases reps.len(),
{
    if reps.len() == 0 {
        None
    } else if reps[0].id == id {
        Some(reps[0])
    } else {
        first_with_id(reps.drop_first(), id)
    }
}

/// The initialization URL and the media URLs of planned segments.
pub open spec fn planned_urls(
    base: Seq<char>,
    rep: RawRepView,
    pairs: Seq<(u64, Option<u64>)>,
) -> (Seq<char>, Seq<Seq<char>>) {
    (
        resolved(base, expand(rep.initialization, rep, 0, None)),
        pairs.map_values(
            |p: (u64, Option<u64>)| resolved(base, expand(rep.media, rep, p.0, p.1)),
        ),
    )
}

/// The initialization URL and the media URLs of the representation `id`, or why
/// there are none.
pub open spec fn segment_list(
    mpd_url: Seq<char>,
    reps: Seq<RawRepView>,
    id: Seq<char>,
    total: Option<u64>,
) -> Result<(Seq<char>, Seq<Seq<char>>), DashErrorView> {
    match first_with_id(reps, id) {
        None => Err(DashErrorView::NoRepresentation),
        Some(rep) => match urls::parsed(mpd_url) {
            Err(message) => Err(DashErrorView::Manifest(message)),
            Ok(base) => match plan(rep, total) {
                Err(e) => Err(e),
                Ok(pairs) => Ok(planned_urls(base, rep, pairs)),
            },
        },
    }
}

/// Whether the segment numbers of the representation `id` fit in 64 bits, where
/// the manifest URL lets them matter.
pub open spec fn list_fits(
    mpd_url: Seq<char>,
    reps: Seq<RawRepView>,
    id: Seq<char>,
    total: Option<u64>,
) -> bool {
    first_with_id(reps, id) is Some && urls::parsed(mpd_url) is Ok ==> numbers_fit(
        first_with_id(reps, id)->0,
        total,
    )
}

/// The view of what `segment_urls` returns.
pub open spec fn list_view(out: Result<(String, Vec<String>), DashError>) -> Result<
    (Seq<char>, Seq<Seq<char>>),
    DashErrorView,
> {
    match out {
        Ok(list) => Ok((list.0@, text::string_views(list.1@))),
        Err(e) => Err(e@),
    }
}

/// The position of the first representation with an id.
fn find_rep(reps: &Vec<RawRep>, id: &str) -> (out: Option<usize>)
    ensures
        match out {
            Some(i) => i < reps.len() && first_with_id(element::rep_views(reps@), id@) == Some(
                reps@[i as int]@,
            ),
            None => first_with_id(element::rep_views(reps@), id@) is None,
        },
{
    let ghost all = element::rep_views(reps@);
    let mut i: usize = 0;
    assert(all.skip(0) =~= all);
    while i < reps.len()
        invariant
            i <= reps.len(),
            all == element::rep_views(reps@),
            first_with_id(all, id@) == first_with_id(all.skip(i as int), id@),
        decreases reps.len() - i,
    {
        assert(all.skip(i as int)[0] == reps@[i as int]@);
        assert(all.skip(i as int).drop_first() =~= all.skip(i + 1));
        if text::same(reps[i].id.as_str(), id) {
            return Some(i);
        }
        i += 1;
    }
    None
}

/// Whether a timeline fits in 64 bits.
fn timeline_fits_in(entries: &Vec<TimelineEntry>, first: u64) -> (out: bool)
    ensures
        out == timeline_fits(entries@, first),
{
    let mut t: u64 = 0;
    let mut number: u64 = first;
    let mut k: usize = 0;
    while k < entries.len()
        invariant
            k <= entries.len(),
            timeline_fits(entries@.take(k as int), first),
            number == first + segment_total(entries@.take(k as int)),
            t == timeline_end(entries@.take(k as int)),
        decreases entries.len() - k,
    {
        let entry = entries[k];
        let ghost upto = entries@.take(k + 1);
        proof {
            assert(upto.drop_last() =~= entries@.take(k as int));
            assert(upto.last() == entry);
            if timeline_fits(entries@, first) {
                lemma_prefix_fits(entries@, first, k + 1);
            }
        }
        if entry.2 == u64::MAX {
            return false;
        }
        let count: u64 = entry.2 + 1;
        if number > u64::MAX - count {
            return false;
        }
        number = number + count;
        let start: u64 = match entry.0 {
            Some(t0) => t0,
            None => t,
        };
        let span: u64 = match count.checked_mul(entry.1) {
            Some(span) => span,
            None => return false,
        };
        if start > u64::MAX - span {
            return false;
        }
        t = start + span;
        k += 1;
    }
    assert(entries@.take(entries.len() as int) =~= entries@);
    true
}

/// Whether the segment numbers of a representation fit in 64 bits.
pub fn numbers_fit_in(rep: &RawRep, total: Option<u64>) -> (out: bool)
    ensures
        out == numbers_fit(rep@, total),
{
    let first: u64 = read_first_number(rep);
    match &rep.timeline {
        Some(entries) => timeline_fits_in(entries, first),
        None => match total {
            Some(t) => {
                let length: u64 = rep.duration;
                if length == 0 {
                    return true;
                }
                proof {
                    lemma_quotient(t, length);
                }
                let count: u64 = if t % length > 0 {
                    t / length + 1
                } else {
                    t / length
                };
                count == 0 || count > MAX_SEGMENTS || first <= u64::MAX - (count - 1)
            },
            None => true,
        },
    }
}

/// The segment URLs of the representation `rep_id` out of `reps`.
pub fn urls_from_reps(mpd_url: &str, reps: &Vec<RawRep>, rep_id: &str, total: Option<u64>) -> (out:
    Result<(String, Vec<String>), DashError>)
    requires
        list_fits(mpd_url@, element::rep_views(reps@), rep_id@, total),
    ensures
        list_view(out) == segment_list(mpd_url@, element::rep_views(reps@), rep_id@, total),
{
    let at: usize = match find_rep(reps, rep_id) {
        Some(i) => i,
        None => return Err(DashError::NoRepresentation),
    };
    let rep = &reps[at];
    let base = match parse_url(mpd_url) {
        Ok(base) => base,
        Err(message) => return Err(DashError::Manifest(message)),
    };
    let pairs = match plan_segments(rep, total) {
        Ok(pairs) => pairs,
        Err(e) => return Err(e),
    };
    let init = resolve_template(&base, rep.initialization.as_str(), rep, 0, None);
    let ghost all = planned_urls(urls::url_text(base), rep@, pairs@).1;
    let mut list: Vec<String> = Vec::new();
    let mut i: usize = 0;
    while i < pairs.len()
        invariant
            i <= pairs.len(),
            all == planned_urls(urls::url_text(base), rep@, pairs@).1,
            text::string_views(list@) == all.take(i as int),
        decreases pairs.len() - i,
    {
        let ghost before = list@;
        let url = resolve_template(&base, rep.media.as_str(), rep, pairs[i].0, pairs[i].1);
        list.push(url);
        assert(text::string_views(list@) =~= text::string_views(before).push(url@));
        i += 1;
    }
    assert(all.take(all.len() as int) =~= all);
    Ok((init, list))
}

/// Builds the initialization URL and the ordered media segment URLs of one
/// representation. `total` is the presentation duration in units of the
/// representation's timescale, where it is known.
pub fn segment_urls(mpd_url: &str, xml: &str, rep_id: &str, total: Option<u64>) -> (out: Result<
    (String, Vec<String>),
    DashError,
>)
    requires
        list_fits(mpd_url@, raw_reps(xml::xml_events(xml@)), rep_id@, total),
    ensures
        list_view(out) == segment_list(
            mpd_url@,
            raw_reps(xml::xml_events(xml@)),
            rep_id@,
            total,
        ),
{
    urls_from_reps(mpd_url, &collect_raw_reps(xml), rep_id, total)
}

/// The segment URLs, or `None` where a segment number or time does not fit in
/// 64 bits.
pub fn checked_segment_urls(
    mpd_url: &str,
    xml: &str,
    rep_id: &str,
    total: Option<u64>,
) -> (out: Option<Result<(String, Vec<String>), DashError>>)
    ensures
        out is Some <==> list_fits(mpd_url@, raw_reps(xml::xml_events(xml@)), rep_id@, total),
        out matches Some(list) ==> list_view(list) == segment_list(
            mpd_url@,
            raw_reps(xml::xml_events(xml@)),
            rep_id@,
            total,
        ),
{
    let reps = collect_raw_reps(xml);
    let fits = match find_rep(&reps, rep_id) {
        Some(i) => numbers_fit_in(&reps[i], total) || parse_url(mpd_url).is_err(),
        None => true,
    };
    if fits {
        Some(segment_urls(mpd_url, xml, rep_id, total))
    } else {
        None
    }
}

/// The units per second in which a representation counts: its timescale, or 1
/// where it has none.
pub open spec fn units_per_second(rep: RawRepView) -> u64 {
    if rep.timescale > 0 {
        rep.timescale
    } else {
        1
    }
}

/// The units per second of the representation `rep_id`, if there is one.
pub fn segment_timescale(xml: &str, rep_id: &str) -> (out: Option<u64>)
    ensures
        out == match first_with_id(raw_reps(xml::xml_events(xml@)), rep_id@) {
            Some(rep) => Some(units_per_second(rep)),
            None => None,
        },
{
    let reps = collect_raw_reps(xml);
    match find_rep(&reps, rep_id) {
        Some(i) => if reps[i].timescale > 0 {
            Some(reps[i].timescale)
        } else {
            Some(1)
        },
        None => None,
    }
}

} // verus!
