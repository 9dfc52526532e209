//! Elements of a manifest: attribute values, segment templates and the raw
//! data of a representation.

use crate::text;
use crate::xml::XmlTag;
use crate::xml;
use vstd::prelude::*;

verus! {

/// A `SegmentTimeline` entry: start time where given, duration, and the number
/// of repetitions.
pub type TimelineEntry = (Option<u64>, u64, u64);

/// The values of a `SegmentTemplate`.
#[derive(Debug)]
pub struct Tpl {
    pub initialization: String,
    pub media: String,
    pub start_number: u64,
    pub timescale: u64,
    pub duration: u64,
    pub timeline: Option<Vec<TimelineEntry>>,
}

/// What a manifest says of one representation, with the values inherited from
/// its adaptation set.
#[derive(Debug)]
pub struct RawRep {
    pub id: String,
    pub width: u64,
    pub height: u64,
    pub bandwidth: u64,
    pub content_type: String,
    pub initialization: String,
    pub media: String,
    pub start_number: u64,
    pub timescale: u64,
    pub duration: u64,
    pub timeline: Option<Vec<TimelineEntry>>,
}

/// A template as a mathematical value.
pub struct TplView {
    pub initialization: Seq<char>,
    pub media: Seq<char>,
    pub start_number: u64,
    pub timescale: u64,
    pub duration: u64,
    pub timeline: Option<Seq<TimelineEntry>>,
}

/// A raw representation as a mathematical value.
pub struct RawRepView {
    pub id: Seq<char>,
    pub width: u64,
    pub height: u64,
    pub bandwidth: u64,
    pub content_type: Seq<char>,
    pub initialization: Seq<char>,
    pub media: Seq<char>,
    pub start_number: u64,
    pub timescale: u64,
    pub duration: u64,
    pub timeline: Option<Seq<TimelineEntry>>,
}

/// The view of a timeline that may be absent.
pub open spec fn timeline_view(t: Option<Vec<TimelineEntry>>) -> Option<Seq<TimelineEntry>> {
    match t {
        Some(t) => Some(t@),
        None => None,
    }
}

impl View for Tpl {
    type V = TplView;

    open spec fn view(&self) -> TplView {
        TplView {
            initialization: self.initialization@,
            media: self.media@,
            start_number: self.start_number,
            timescale: self.timescale,
            duration: self.duration,
            timeline: timeline_view(self.timeline),
        }
    }
}

impl View for RawRep {
    type V = RawRepView;

    open spec fn view(&self) -> RawRepView {
        RawRepView {
            id: self.id@,
            width: self.width,
            height: self.height,
            bandwidth: self.bandwidth,
            content_type: self.content_type@,
            initialization: self.initialization@,
            media: self.media@,
            start_number: self.start_number,
            timescale: self.timescale,
            duration: self.duration,
            timeline: timeline_view(self.timeline),
        }
    }
}

/// The view of a representation that may be absent.
pub open spec fn rep_view(rep: Option<RawRep>) -> Option<RawRepView> {
    match rep {
        Some(rep) => Some(rep@),
        None => None,
    }
}

/// The views of some representations.
pub open spec fn rep_views(reps: Seq<RawRep>) -> Seq<RawRepView> {
    reps.map_values(|r: RawRep| r@)
}

// ---------------------------------------------------------------------------
// Names and attributes
// ---------------------------------------------------------------------------

/// A qualified name without its namespace prefix.
pub open spec fn bare_name(qname: Seq<u8>) -> Seq<char> {
    text::after_last(text::lossy(qname), seq![':'])
}

/// The (name, value) pairs of the well-formed attributes, without namespace
/// prefixes; a value that cannot be decoded is empty.
pub open spec fn attrs_of(list: Seq<Option<xml::AttributeView>>) -> Seq<(Seq<char>, Seq<char>)>
    decreases list.len(),
{
    if list.len() == 0 {
        Seq::empty()
    } else {
        match list.last() {
            Some(a) => attrs_of(list.drop_last()).push(
                (
                    bare_name(a.key),
                    match a.value {
                        Some(v) => v,
                        None => Seq::empty(),
                    },
                ),
            ),
            None => attrs_of(list.drop_last()),
        }
    }
}

/// The value of the last attribute with a name.
pub open spec fn last_value(attrs: Seq<(Seq<char>, Seq<char>)>, name: Seq<char>) -> Option<
    Seq<char>,
>
    decreases attrs.len(),
{
    if attrs.len() == 0 {
        None
    } else if attrs.last().0 == name {
        Some(attrs.last().1)
    } else {
        last_value(attrs.drop_last(), name)
    }
}

/// The last value with a name, empty where there is none.
pub open spec fn text_attr(attrs: Seq<(Seq<char>, Seq<char>)>, name: Seq<char>) -> Seq<char> {
    match last_value(attrs, name) {
        Some(v) => v,
        None => Seq::empty(),
    }
}

/// The last value with a name as a number: `bad` where it is none, 0 where the
/// attribute is missing.
pub open spec fn number_attr(
    attrs: Seq<(Seq<char>, Seq<char>)>,
    name: Seq<char>,
    bad: u64,
) -> u64 {
    match last_value(attrs, name) {
        Some(v) => match text::parse_u64(v) {
            Some(n) => n,
            None => bad,
        },
        None => 0,
    }
}

/// The content type of an adaptation set: the last `contentType`, unless a
/// `mimeType` finds nothing but an empty type before it.
pub open spec fn set_type(attrs: Seq<(Seq<char>, Seq<char>)>) -> Seq<char>
    decreases attrs.len(),
{
    if attrs.len() == 0 {
        Seq::empty()
    } else {
        let before = set_type(attrs.drop_last());
        if attrs.last().0 == "contentType"@ {
            attrs.last().1
        } else if attrs.last().0 == "mimeType"@ && before.len() == 0 {
            attrs.last().1
        } else {
            before
        }
    }
}

/// The content type of a representation: the inherited one or, where that is
/// empty, the first `mimeType` that is not.
pub open spec fn rep_type(attrs: Seq<(Seq<char>, Seq<char>)>, inherited: Seq<char>) -> Seq<char>
    decreases attrs.len(),
{
    if attrs.len() == 0 {
        inherited
    } else {
        let before = rep_type(attrs.drop_last(), inherited);
        if attrs.last().0 == "mimeType"@ && before.len() == 0 {
            attrs.last().1
        } else {
            before
        }
    }
}

/// The template without any value.
pub open spec fn no_template() -> TplView {
    TplView {
        initialization: Seq::empty(),
        media: Seq::empty(),
        start_number: 0,
        timescale: 0,
        duration: 0,
        timeline: None,
    }
}

/// The template that the attributes of a `SegmentTemplate` state.
pub open spec fn template_of(attrs: Seq<(Seq<char>, Seq<char>)>) -> TplView {
    TplView {
        initialization: text_attr(attrs, "initialization"@),
        media: text_attr(attrs, "media"@),
        start_number: number_attr(attrs, "startNumber"@, 1),
        timescale: number_attr(attrs, "timescale"@, 0),
        duration: number_attr(attrs, "duration"@, 0),
        timeline: None,
    }
}

/// A representation with the values that a template states; values that it
/// leaves out are kept.
pub open spec fn with_template(rep: RawRepView, tpl: TplView) -> RawRepView {
    RawRepView {
        initialization: if tpl.initialization.len() > 0 {
            tpl.initialization
        } else {
            rep.initialization
        },
        media: if tpl.media.len() > 0 {
            tpl.media
        } else {
            rep.media
        },
        start_number: if tpl.start_number > 0 {
            tpl.start_number
        } else {
            rep.start_number
        },
        timescale: if tpl.timescale > 0 {
            tpl.timescale
        } else {
            rep.timescale
        },
        duration: if tpl.duration > 0 {
            tpl.duration
        } else {
            rep.duration
        },
        timeline: if tpl.timeline is Some {
            tpl.timeline
        } else {
            rep.timeline
        },
        ..rep
    }
}

/// The representation that the attributes of a `Representation` state, with the
/// content type and template of its adaptation set.
pub open spec fn representation_of(
    attrs: Seq<(Seq<char>, Seq<char>)>,
    inherited: Seq<char>,
    tpl: TplView,
) -> RawRepView {
    RawRepView {
        id: text_attr(attrs, "id"@),
        width: number_attr(attrs, "width"@, 0),
        height: number_attr(attrs, "height"@, 0),
        bandwidth: number_attr(attrs, "bandwidth"@, 0),
        content_type: rep_type(attrs, inherited),
        initialization: tpl.initialization,
        media: tpl.media,
        start_number: tpl.start_number,
        timescale: tpl.timescale,
        duration: tpl.duration,
        timeline: tpl.timeline,
    }
}

/// The timeline entry that the attributes of an `S` state.
pub open spec fn entry_of(attrs: Seq<(Seq<char>, Seq<char>)>) -> TimelineEntry {
    (
        match last_value(attrs, "t"@) {
            Some(v) => text::parse_u64(v),
            None => None,
        },
        number_attr(attrs, "d"@, 0),
        number_attr(attrs, "r"@, 0),
    )
}

/// A timeline with one more entry.
pub open spec fn with_entry(
    timeline: Option<Seq<TimelineEntry>>,
    entry: TimelineEntry,
) -> Option<Seq<TimelineEntry>> {
    match timeline {
        Some(t) => Some(t.push(entry)),
        None => Some(seq![entry]),
    }
}

/// A representation with one more timeline entry; unless the timeline is its
/// own, the entry takes the place of an inherited one.
pub open spec fn rep_with_entry(rep: RawRepView, entry: TimelineEntry, own: bool) -> RawRepView {
    RawRepView {
        timeline: with_entry(
            if own {
                rep.timeline
            } else {
                None
            },
            entry,
        ),
        ..rep
    }
}

// ---------------------------------------------------------------------------
// Executable counterparts
// ---------------------------------------------------------------------------

/// The views of attribute pairs.
pub open spec fn pair_views(pairs: Seq<(String, String)>) -> Seq<(Seq<char>, Seq<char>)> {
    pairs.map_values(|p: (String, String)| (p.0@, p.1@))
}

/// A qualified name without its namespace prefix.
pub fn local_name(qname: &[u8]) -> (out: String)
    ensures
        out@ == bare_name(qname@),
{
    let all = text::chars_of(text::from_utf8_lossy(qname).as_str());
    let colon = vec![':'];
    assert(colon@ =~= seq![':']);
    text::string_of(&text::cut_after_last(&all, &colon))
}

/// Collects the (name, value) pairs of an element, ignoring namespaces.
pub fn attrs(tag: &XmlTag) -> (out: Vec<(String, String)>)
    ensures
        pair_views(out@) == attrs_of(tag@.attributes),
{
    let mut out: Vec<(String, String)> = Vec::new();
    let ghost list = tag@.attributes;
    let mut i: usize = 0;
    assert(pair_views(out@) =~= attrs_of(list.take(0)));
    while i < tag.attributes.len()
        invariant
            i <= tag.attributes.len(),
            list == tag@.attributes,
            list.len() == tag.attributes.len(),
            pair_views(out@) == attrs_of(list.take(i as int)),
        decreases tag.attributes.len() - i,
    {
        assert(list.take(i + 1).drop_last() =~= list.take(i as int));
        assert(list[i as int] == xml::attribute_view(tag.attributes@[i as int]));
        match &tag.attributes[i] {
            Some(a) => {
                let name = local_name(&a.key);
                let value = match &a.value {
                    Some(v) => v.clone(),
                    None => String::new(),
                };
                let ghost before = out@;
                out.push((name, value));
                assert(pair_views(out@) =~= pair_views(before).push((name@, value@)));
            },
            None => {},
        }
        i += 1;
    }
    assert(list.take(list.len() as int) =~= list);
    out
}

/// The value of the last attribute with a name.
pub fn find_attr(pairs: &Vec<(String, String)>, name: &str) -> (out: Option<String>)
    ensures
        match out {
            Some(v) => last_value(pair_views(pairs@), name@) == Some(v@),
            None => last_value(pair_views(pairs@), name@) is None,
        },
{
    let ghost all = pair_views(pairs@);
    let mut i: usize = pairs.len();
    assert(all.take(all.len() as int) =~= all);
    while i > 0
        invariant
            i <= pairs.len(),
            all == pair_views(pairs@),
            last_value(all, name@) == last_value(all.take(i as int), name@),
        decreases i,
    {
        assert(all.take(i as int).drop_last() =~= all.take(i - 1));
        assert(all.take(i as int).last() == (pairs@[i - 1].0@, pairs@[i - 1].1@));
        if text::same(pairs[i - 1].0.as_str(), name) {
            return Some(pairs[i - 1].1.clone());
        }
        i -= 1;
    }
    None
}

/// The last value with a name, empty where there is none.
fn find_text(pairs: &Vec<(String, String)>, name: &str) -> (out: String)
    ensures
        out@ == text_attr(pair_views(pairs@), name@),
{
    match find_attr(pairs, name) {
        Some(v) => v,
        None => String::new(),
    }
}

/// The last value with a name as a number.
fn find_number(pairs: &Vec<(String, String)>, name: &str, bad: u64) -> (out: u64)
    ensures
        out == number_attr(pair_views(pairs@), name@, bad),
{
    match find_attr(pairs, name) {
        Some(v) => match text::to_u64(&text::chars_of(v.as_str())) {
            Some(n) => n,
            None => bad,
        },
        None => 0,
    }
}

/// The content type of an adaptation set.
pub fn read_set_type(pairs: &Vec<(String, String)>) -> (out: String)
    ensures
        out@ == set_type(pair_views(pairs@)),
{
    let ghost all = pair_views(pairs@);
    let mut out = String::new();
    let mut i: usize = 0;
    while i < pairs.len()
        invariant
            i <= pairs.len(),
            all == pair_views(pairs@),
            out@ == set_type(all.take(i as int)),
        decreases pairs.len() - i,
    {
        assert(all.take(i + 1).drop_last() =~= all.take(i as int));
        assert(all.take(i + 1).last() == (pairs@[i as int].0@, pairs@[i as int].1@));
        let name = pairs[i].0.as_str();
        if text::same(name, "contentType") {
            out = pairs[i].1.clone();
        } else if text::same(name, "mimeType") && out.as_str().is_empty() {
            out = pairs[i].1.clone();
        }
        i += 1;
    }
    assert(all.take(all.len() as int) =~= all);
    out
}

/// The content type of a representation.
fn read_rep_type(pairs: &Vec<(String, String)>, inherited: &str) -> (out: String)
    ensures
        out@ == rep_type(pair_views(pairs@), inherited@),
{
    let ghost all = pair_views(pairs@);
    let mut out = inherited.to_owned();
    let mut i: usize = 0;
    while i < pairs.len()
        invariant
            i <= pairs.len(),
            all == pair_views(pairs@),
            out@ == rep_type(all.take(i as int), inherited@),
        decreases pairs.len() - i,
    {
        assert(all.take(i + 1).drop_last() =~= all.take(i as int));
        assert(all.take(i + 1).last() == (pairs@[i as int].0@, pairs@[i as int].1@));
        if text::same(pairs[i].0.as_str(), "mimeType") && out.as_str().is_empty() {
            out = pairs[i].1.clone();
        }
        i += 1;
    }
    assert(all.take(all.len() as int) =~= all);
    out
}

impl Default for Tpl {
    /// The template without any value.
    fn default() -> (out: Tpl)
        ensures
            out@ == no_template(),
    {
        let out = Tpl {
            initialization: String::new(),
            media: String::new(),
            start_number: 0,
            timescale: 0,
            duration: 0,
            timeline: None,
        };
        assert(out@ == no_template());
        out
    }
}

/// The template that a `SegmentTemplate` element states.
pub fn read_template_attrs(tag: &XmlTag) -> (out: Tpl)
    ensures
        out@ == template_of(attrs_of(tag@.attributes)),
{
    let pairs = attrs(tag);
    Tpl {
        initialization: find_text(&pairs, "initialization"),
        media: find_text(&pairs, "media"),
        start_number: find_number(&pairs, "startNumber", 1),
        timescale: find_number(&pairs, "timescale", 0),
        duration: find_number(&pairs, "duration", 0),
        timeline: None,
    }
}

/// A copy of a timeline.
pub fn copy_timeline(t: &Option<Vec<TimelineEntry>>) -> (out: Option<Vec<TimelineEntry>>)
    ensures
        timeline_view(out) == timeline_view(*t),
{
    match t {
        Some(v) => {
            let mut w: Vec<TimelineEntry> = Vec::new();
            let mut i: usize = 0;
            while i < v.len()
                invariant
                    i <= v.len(),
                    w@ == v@.take(i as int),
                decreases v.len() - i,
            {
                w.push(v[i]);
                i += 1;
            }
            Some(w)
        },
        None => None,
    }
}

/// Lays the values that a template states over a representation.
pub fn apply_template(rep: &mut RawRep, tpl: &Tpl)
    ensures
        final(rep)@ == with_template(old(rep)@, tpl@),
{
    if !tpl.initialization.as_str().is_empty() {
        rep.initialization = tpl.initialization.clone();
    }
    if !tpl.media.as_str().is_empty() {
        rep.media = tpl.media.clone();
    }
    if tpl.start_number > 0 {
        rep.start_number = tpl.start_number;
    }
    if tpl.timescale > 0 {
        rep.timescale = tpl.timescale;
    }
    if tpl.duration > 0 {
        rep.duration = tpl.duration;
    }
    if tpl.timeline.is_some() {
        rep.timeline = copy_timeline(&tpl.timeline);
    }
}

/// The representation that a `Representation` element states.
pub fn read_representation(tag: &XmlTag, inherited: &str, tpl: &Tpl) -> (out: RawRep)
    ensures
        out@ == representation_of(attrs_of(tag@.attributes), inherited@, tpl@),
{
    let pairs = attrs(tag);
    RawRep {
        id: find_text(&pairs, "id"),
        width: find_number(&pairs, "width", 0),
        height: find_number(&pairs, "height", 0),
        bandwidth: find_number(&pairs, "bandwidth", 0),
        content_type: read_rep_type(&pairs, inherited),
        initialization: tpl.initialization.clone(),
        media: tpl.media.clone(),
        start_number: tpl.start_number,
        timescale: tpl.timescale,
        duration: tpl.duration,
        timeline: copy_timeline(&tpl.timeline),
    }
}

/// The timeline entry that an `S` element states.
pub fn read_entry(tag: &XmlTag) -> (out: TimelineEntry)
    ensures
        out == entry_of(attrs_of(tag@.attributes)),
{
    let pairs = attrs(tag);
    let t: Option<u64> = match find_attr(&pairs, "t") {
        Some(v) => text::to_u64(&text::chars_of(v.as_str())),
        None => None,
    };
    (t, find_number(&pairs, "d", 0), find_number(&pairs, "r", 0))
}

/// Adds an entry to a timeline.
pub fn add_entry(timeline: Option<Vec<TimelineEntry>>, entry: TimelineEntry) -> (out: Option<
    Vec<TimelineEntry>,
>)
    ensures
        timeline_view(out) == with_entry(timeline_view(timeline), entry),
{
    let mut entries: Vec<TimelineEntry> = match timeline {
        Some(t) => t,
        None => Vec::new(),
    };
    entries.push(entry);
    assert(timeline is None ==> entries@ =~= seq![entry]);
    Some(entries)
}

/// Adds an entry to the timeline of a representation.
pub fn add_rep_entry(rep: &mut RawRep, entry: TimelineEntry, own: bool)
    ensures
        final(rep)@ == rep_with_entry(old(rep)@, entry, own),
{
    let timeline = if own {
        copy_timeline(&rep.timeline)
    } else {
        None
    };
    rep.timeline = add_entry(timeline, entry);
}

} // verus!
