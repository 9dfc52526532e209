//! What a manifest says, element by element and attribute by attribute.

use crate::dash::duration;
use crate::dash::element::{RawRepView, TimelineEntry, TplView};
use crate::dash::element;
use crate::dash::manifest::{DashErrorView, ManifestView, RepresentationView, ScanView};
use crate::dash::manifest;
use crate::dash::segments::CollectView;
use crate::dash::segments;
use crate::order;
use crate::text;
use crate::text_laws;
use crate::xml;
use vstd::prelude::*;

verus! {

// ---------------------------------------------------------------------------
// Names and attributes
// ---------------------------------------------------------------------------

/// A name is read without the prefix of its namespace.
pub proof fn lemma_bare_name(qname: Seq<u8>, prefix: Seq<char>, name: Seq<char>)
    requires
        text::lossy(qname) == prefix + name,
        prefix.len() == 0 || prefix.last() == ':',
        forall|i: int| 0 <= i < name.len() ==> #[trigger] name[i] != ':',
    ensures
        element::bare_name(qname) == name,
        vstd::utf8::valid_utf8(qname) ==> text::lossy(qname) == vstd::utf8::decode_utf8(qname),
{
    let colon = seq![':'];
    assert(colon.contains(':')) by {
        assert(colon[0] == ':');
    }
    text_laws::lemma_after_last(prefix, colon, name);
}

/// Attributes are read in order, those that are malformed left out; a value that
/// cannot be decoded is empty.
pub proof fn lemma_attributes(
    list: Seq<Option<xml::AttributeView>>,
    a: xml::AttributeView,
)
    ensures
        element::attrs_of(Seq::empty()).len() == 0,
        element::attrs_of(list.push(None)) == element::attrs_of(list),
        element::attrs_of(list.push(Some(a))) == element::attrs_of(list).push(
            (
                element::bare_name(a.key),
                match a.value {
                    Some(v) => v,
                    None => Seq::empty(),
                },
            ),
        ),
{
    assert(list.push(None).drop_last() =~= list);
    assert(list.push(Some(a)).drop_last() =~= list);
}

/// Whether some attributes state a value under a name: the last with the name
/// has it.
pub open spec fn states(attrs: Seq<(Seq<char>, Seq<char>)>, name: Seq<char>, v: Seq<char>) -> bool {
    exists|k: int|
        0 <= k < attrs.len() && #[trigger] attrs[k] == (name, v) && forall|j: int|
            k < j < attrs.len() ==> (#[trigger] attrs[j]).0 != name
}

/// Whether no attribute has a name.
pub open spec fn lacks(attrs: Seq<(Seq<char>, Seq<char>)>, name: Seq<char>) -> bool {
    forall|j: int| 0 <= j < attrs.len() ==> (#[trigger] attrs[j]).0 != name
}

/// The last value with a name counts.
pub proof fn lemma_value(attrs: Seq<(Seq<char>, Seq<char>)>, name: Seq<char>, v: Seq<char>)
    ensures
        states(attrs, name, v) ==> element::last_value(attrs, name) == Some(v),
        lacks(attrs, name) ==> element::last_value(attrs, name) is None,
    decreases attrs.len(),
{
    if attrs.len() > 0 {
        let front = attrs.drop_last();
        let last = attrs.len() - 1;
        lemma_value(front, name, v);
        if states(attrs, name, v) {
            let k = choose|k: int|
                0 <= k < attrs.len() && #[trigger] attrs[k] == (name, v) && forall|j: int|
                    k < j < attrs.len() ==> (#[trigger] attrs[j]).0 != name;
            if k < last {
                assert(attrs[last].0 != name);
                assert(front[k] == (name, v));
                assert forall|j: int| k < j < front.len() implies (#[trigger] front[j]).0
                    != name by {
                    assert(front[j] == attrs[j]);
                }
                assert(states(front, name, v));
            }
        }
        if lacks(attrs, name) {
            assert(attrs[last].0 != name);
            assert forall|j: int| 0 <= j < front.len() implies (#[trigger] front[j]).0
                != name by {
                assert(front[j] == attrs[j]);
            }
        }
    }
}

/// Whether a text field is what some attributes state under a name; it is empty
/// where they lack the name.
pub open spec fn is_text_of(
    field: Seq<char>,
    attrs: Seq<(Seq<char>, Seq<char>)>,
    name: Seq<char>,
) -> bool {
    &&& forall|v: Seq<char>| #[trigger] states(attrs, name, v) ==> field == v
    &&& lacks(attrs, name) ==> field.len() == 0
}

/// Whether a number is what some attributes state under a name: `bad` where that
/// is no number, 0 where they lack the name.
pub open spec fn is_number_of(
    field: u64,
    attrs: Seq<(Seq<char>, Seq<char>)>,
    name: Seq<char>,
    bad: u64,
) -> bool {
    &&& forall|v: Seq<char>| #[trigger]
        states(attrs, name, v) ==> field == match text::parse_u64(v) {
            Some(n) => n,
            None => bad,
        }
    &&& lacks(attrs, name) ==> field == 0
}

proof fn lemma_text_of(attrs: Seq<(Seq<char>, Seq<char>)>, name: Seq<char>)
    ensures
        is_text_of(element::text_attr(attrs, name), attrs, name),
{
    assert forall|v: Seq<char>| #[trigger] states(attrs, name, v) implies element::text_attr(
        attrs,
        name,
    ) == v by {
        lemma_value(attrs, name, v);
    }
    lemma_value(attrs, name, Seq::empty());
}

proof fn lemma_number_of(attrs: Seq<(Seq<char>, Seq<char>)>, name: Seq<char>, bad: u64)
    ensures
        is_number_of(element::number_attr(attrs, name, bad), attrs, name, bad),
{
    assert forall|v: Seq<char>| #[trigger] states(attrs, name, v) implies element::number_attr(
        attrs,
        name,
        bad,
    ) == match text::parse_u64(v) {
        Some(n) => n,
        None => bad,
    } by {
        lemma_value(attrs, name, v);
    }
    lemma_value(attrs, name, Seq::empty());
}

/// A template has the values of its attributes, and no timeline.
pub proof fn lemma_template(attrs: Seq<(Seq<char>, Seq<char>)>)
    ensures
        is_text_of(element::template_of(attrs).initialization, attrs, "initialization"@),
        is_text_of(element::template_of(attrs).media, attrs, "media"@),
        is_number_of(element::template_of(attrs).start_number, attrs, "startNumber"@, 1),
        is_number_of(element::template_of(attrs).timescale, attrs, "timescale"@, 0),
        is_number_of(element::template_of(attrs).duration, attrs, "duration"@, 0),
        element::template_of(attrs).timeline is None,
{
    lemma_text_of(attrs, "initialization"@);
    lemma_text_of(attrs, "media"@);
    lemma_number_of(attrs, "startNumber"@, 1);
    lemma_number_of(attrs, "timescale"@, 0);
    lemma_number_of(attrs, "duration"@, 0);
}

/// A representation has the values of its attributes and, for its segments, those
/// of the template that it inherits.
pub proof fn lemma_representation(
    attrs: Seq<(Seq<char>, Seq<char>)>,
    inherited: Seq<char>,
    tpl: TplView,
)
    ensures
        ({
            let rep = element::representation_of(attrs, inherited, tpl);
            &&& is_text_of(rep.id, attrs, "id"@)
            &&& is_number_of(rep.width, attrs, "width"@, 0)
            &&& is_number_of(rep.height, attrs, "height"@, 0)
            &&& is_number_of(rep.bandwidth, attrs, "bandwidth"@, 0)
            &&& rep.initialization == tpl.initialization && rep.media == tpl.media
            &&& rep.start_number == tpl.start_number && rep.timescale == tpl.timescale
                && rep.duration == tpl.duration && rep.timeline == tpl.timeline
            &&& inherited.len() > 0 ==> rep.content_type == inherited
            &&& inherited.len() == 0 && lacks(attrs, "mimeType"@) ==> rep.content_type.len() == 0
        }),
{
    lemma_text_of(attrs, "id"@);
    lemma_number_of(attrs, "width"@, 0);
    lemma_number_of(attrs, "height"@, 0);
    lemma_number_of(attrs, "bandwidth"@, 0);
    lemma_rep_type(attrs, inherited);
}

proof fn lemma_rep_type(attrs: Seq<(Seq<char>, Seq<char>)>, inherited: Seq<char>)
    ensures
        inherited.len() > 0 || lacks(attrs, "mimeType"@) ==> element::rep_type(attrs, inherited)
            == inherited,
    decreases attrs.len(),
{
    if attrs.len() > 0 {
        let front = attrs.drop_last();
        lemma_rep_type(front, inherited);
        if lacks(attrs, "mimeType"@) {
            assert(attrs[attrs.len() - 1].0 != "mimeType"@);
            assert forall|j: int| 0 <= j < front.len() implies (#[trigger] front[j]).0
                != "mimeType"@ by {
                assert(front[j] == attrs[j]);
            }
        }
    }
}

/// The type of an adaptation set is its `contentType` or, where it has none, the
/// first `mimeType` that says something. A representation without an inherited
/// type has its own `mimeType`.
pub proof fn lemma_types(attrs: Seq<(Seq<char>, Seq<char>)>, k: int)
    requires
        0 <= k < attrs.len(),
        attrs[k].1.len() > 0,
    ensures
        attrs[k].0 == "contentType"@ && (forall|j: int|
            k < j < attrs.len() ==> (#[trigger] attrs[j]).0 != "contentType"@)
            ==> element::set_type(attrs) == attrs[k].1,
        lacks(attrs, "contentType"@) && attrs[k].0 == "mimeType"@ && (forall|j: int|
            0 <= j < k ==> (#[trigger] attrs[j]).0 != "mimeType"@) ==> element::set_type(attrs)
            == attrs[k].1,
        attrs[k].0 == "mimeType"@ && (forall|j: int|
            0 <= j < k ==> (#[trigger] attrs[j]).0 != "mimeType"@) ==> element::rep_type(
            attrs,
            Seq::empty(),
        ) == attrs[k].1,
    decreases attrs.len(),
{
    let front = attrs.drop_last();
    let last = attrs.len() - 1;
    reveal_strlit("contentType");
    reveal_strlit("mimeType");
    assert("contentType"@.len() != "mimeType"@.len());
    assert forall|j: int| 0 <= j < front.len() implies #[trigger] front[j] == attrs[j] by {}
    if k < last {
        lemma_types(front, k);
        assert(attrs[last] == attrs.last());
        if lacks(attrs, "contentType"@) {
            assert(attrs[last].0 != "contentType"@);
        }
    } else {
        if forall|j: int| 0 <= j < k ==> (#[trigger] attrs[j]).0 != "mimeType"@ {
            assert(lacks(front, "mimeType"@));
            lemma_rep_type(front, Seq::empty());
            if lacks(attrs, "contentType"@) {
                assert(lacks(front, "contentType"@));
                lemma_no_set_type(front);
            }
        }
    }
}

proof fn lemma_no_set_type(attrs: Seq<(Seq<char>, Seq<char>)>)
    requires
        lacks(attrs, "contentType"@),
        lacks(attrs, "mimeType"@),
    ensures
        element::set_type(attrs).len() == 0,
    decreases attrs.len(),
{
    if attrs.len() > 0 {
        let front = attrs.drop_last();
        assert(attrs[attrs.len() - 1].0 != "mimeType"@);
        assert(attrs[attrs.len() - 1].0 != "contentType"@);
        assert forall|j: int| 0 <= j < front.len() implies (#[trigger] front[j]).0 != "mimeType"@
            && front[j].0 != "contentType"@ by {
            assert(front[j] == attrs[j]);
        }
        lemma_no_set_type(front);
    }
}

/// A timeline entry has the start, duration and repetitions of its attributes.
pub proof fn lemma_entry(attrs: Seq<(Seq<char>, Seq<char>)>)
    ensures
        forall|v: Seq<char>| #[trigger]
            states(attrs, "t"@, v) ==> element::entry_of(attrs).0 == text::parse_u64(v),
        lacks(attrs, "t"@) ==> element::entry_of(attrs).0 is None,
        is_number_of(element::entry_of(attrs).1, attrs, "d"@, 0),
        is_number_of(element::entry_of(attrs).2, attrs, "r"@, 0),
{
    assert forall|v: Seq<char>| #[trigger] states(attrs, "t"@, v) implies element::entry_of(
        attrs,
    ).0 == text::parse_u64(v) by {
        lemma_value(attrs, "t"@, v);
    }
    lemma_value(attrs, "t"@, Seq::empty());
    lemma_number_of(attrs, "d"@, 0);
    lemma_number_of(attrs, "r"@, 0);
}

/// What the template of a representation states replaces what it inherits; what
/// it leaves out, or states as 0, is inherited. Nothing else of it changes.
pub proof fn lemma_refined(rep: RawRepView, tpl: TplView)
    ensures
        ({
            let out = element::with_template(rep, tpl);
            &&& out.media == if tpl.media.len() > 0 {
                tpl.media
            } else {
                rep.media
            }
            &&& out.initialization == if tpl.initialization.len() > 0 {
                tpl.initialization
            } else {
                rep.initialization
            }
            &&& out.start_number == if tpl.start_number != 0 {
                tpl.start_number
            } else {
                rep.start_number
            }
            &&& out.timescale == if tpl.timescale != 0 {
                tpl.timescale
            } else {
                rep.timescale
            }
            &&& out.duration == if tpl.duration != 0 {
                tpl.duration
            } else {
                rep.duration
            }
            &&& tpl.timeline is None ==> out.timeline == rep.timeline
            &&& out.id == rep.id && out.width == rep.width && out.height == rep.height
                && out.bandwidth == rep.bandwidth && out.content_type == rep.content_type
        }),
{
}

// ---------------------------------------------------------------------------
// Elements
// ---------------------------------------------------------------------------

/// The element names differ from each other.
proof fn lemma_names()
    ensures
        "MPD"@.len() == 3,
        "AdaptationSet"@.len() == 13,
        "SegmentTemplate"@.len() == 15,
        "S"@.len() == 1,
        "Representation"@.len() == 14,
        "ContentProtection"@.len() == 17,
{
    reveal_strlit("MPD");
    reveal_strlit("AdaptationSet");
    reveal_strlit("SegmentTemplate");
    reveal_strlit("S");
    reveal_strlit("Representation");
    reveal_strlit("ContentProtection");
}

/// Whether a tag is one of an element.
pub open spec fn is_tag(tag: xml::TagView, name: Seq<char>) -> bool {
    element::bare_name(tag.name) == name
}

/// The attributes of a tag.
pub open spec fn attrs(tag: xml::TagView) -> Seq<(Seq<char>, Seq<char>)> {
    element::attrs_of(tag.attributes)
}

/// A representation inside an adaptation set with a template is listed with the
/// type and template of the set, whether it is self-closing or closed by a tag of
/// its own; a template inside it refines it. What was listed before stays.
pub proof fn lemma_listed(
    st: ScanView,
    set: xml::TagView,
    tpl: xml::TagView,
    rep: xml::TagView,
    own: xml::TagView,
)
    requires
        is_tag(set, "AdaptationSet"@),
        is_tag(tpl, "SegmentTemplate"@),
        is_tag(rep, "Representation"@),
        is_tag(own, "SegmentTemplate"@),
        !st.in_representation,
    ensures
        ({
            let in_set = manifest::on_event(st, xml::EventView::Start(set));
            let ready = manifest::on_event(in_set, xml::EventView::Empty(tpl));
            let raw = element::representation_of(
                attrs(rep),
                element::set_type(attrs(set)),
                element::template_of(attrs(tpl)),
            );
            let open = manifest::on_event(ready, xml::EventView::Start(rep));
            let refined = manifest::on_event(open, xml::EventView::Empty(own));
            let end = xml::EventView::End(rep.name);
            &&& manifest::on_event(ready, xml::EventView::Empty(rep)).reps == st.reps.push(raw)
            &&& manifest::on_event(open, end).reps == st.reps.push(raw)
            &&& manifest::on_event(refined, end).reps == st.reps.push(
                element::with_template(raw, element::template_of(attrs(own))),
            )
            &&& manifest::on_event(open, end).is_drm == st.is_drm
            &&& manifest::on_event(open, end).duration == st.duration
            &&& !manifest::on_event(open, end).in_representation
        }),
{
    lemma_names();
}

/// The same of the representations whose segments are listed.
pub proof fn lemma_collected(
    st: CollectView,
    tpl: xml::TagView,
    rep: xml::TagView,
    own: xml::TagView,
)
    requires
        is_tag(tpl, "SegmentTemplate"@),
        is_tag(rep, "Representation"@),
        is_tag(own, "SegmentTemplate"@),
        !st.in_representation,
    ensures
        ({
            let ready = segments::on_event(st, xml::EventView::Empty(tpl));
            let raw = element::representation_of(
                attrs(rep),
                Seq::empty(),
                element::template_of(attrs(tpl)),
            );
            let open = segments::on_event(ready, xml::EventView::Start(rep));
            let refined = segments::on_event(open, xml::EventView::Empty(own));
            let end = xml::EventView::End(rep.name);
            &&& segments::on_event(ready, xml::EventView::Empty(rep)).out == st.out.push(raw)
            &&& segments::on_event(open, end).out == st.out.push(raw)
            &&& segments::on_event(refined, end).out == st.out.push(
                element::with_template(raw, element::template_of(attrs(own))),
            )
            &&& !segments::on_event(open, end).in_representation
        }),
{
    lemma_names();
}

/// A timeline inside a representation is made of its entries, in order, whether
/// they are self-closing or not; one inside the template of the adaptation set is
/// inherited.
pub proof fn lemma_timeline(
    st: CollectView,
    tpl: xml::TagView,
    rep: xml::TagView,
    a: xml::TagView,
    b: xml::TagView,
)
    requires
        is_tag(tpl, "SegmentTemplate"@),
        is_tag(rep, "Representation"@),
        is_tag(a, "S"@),
        is_tag(b, "S"@),
        !st.in_representation,
    ensures
        ({
            let end = xml::EventView::End(rep.name);
            let closed = xml::EventView::End(tpl.name);
            let list = Some(
                seq![element::entry_of(attrs(a)), element::entry_of(attrs(b))],
            );
            // Inside the representation.
            let open = segments::on_event(st, xml::EventView::Start(rep));
            let inner = segments::on_event(open, xml::EventView::Start(tpl));
            let first = segments::on_event(inner, xml::EventView::Empty(a));
            let second = segments::on_event(first, xml::EventView::Start(b));
            let done = segments::on_event(segments::on_event(second, closed), end);
            // Inside the adaptation set.
            let outer = segments::on_event(st, xml::EventView::Start(tpl));
            let one = segments::on_event(outer, xml::EventView::Start(a));
            let two = segments::on_event(one, xml::EventView::Empty(b));
            let shared = segments::on_event(two, closed);
            let heir = segments::on_event(shared, xml::EventView::Empty(rep));
            &&& done.out.len() == st.out.len() + 1 && done.out.last().timeline == list
            &&& heir.out.len() == st.out.len() + 1 && heir.out.last().timeline == list
        }),
{
    lemma_names();
    let (x, y) = (element::entry_of(attrs(a)), element::entry_of(attrs(b)));
    assert(seq![x].push(y) =~= seq![x, y]);
}

/// Outside representations and templates a timeline entry counts for nothing, and
/// an adaptation set leaves no template behind.
pub proof fn lemma_left_behind(st: CollectView, entry: xml::TagView, set: xml::TagView)
    requires
        is_tag(entry, "S"@),
        is_tag(set, "AdaptationSet"@),
        !st.in_representation,
    ensures
        !st.in_template ==> segments::on_event(st, xml::EventView::Start(entry)) == st,
        ({
            let tpl = segments::on_event(st, xml::EventView::End(set.name)).set_tpl;
            tpl.media.len() == 0 && tpl.initialization.len() == 0 && tpl.start_number == 0
                && tpl.timescale == 0 && tpl.duration == 0 && tpl.timeline is None
        }),
{
    lemma_names();
}

/// Whether an event opens the root of a manifest.
pub open spec fn opens_root(e: xml::EventView) -> bool {
    e matches xml::EventView::Start(tag) && is_tag(tag, "MPD"@)
}

proof fn lemma_duration_kept(st: ScanView, events: Seq<xml::EventView>)
    requires
        forall|j: int| 0 <= j < events.len() ==> !opens_root(#[trigger] events[j]),
    ensures
        manifest::scan(st, events) matches Ok(out) ==> out.duration == st.duration,
    decreases events.len(),
{
    lemma_names();
    if events.len() > 0 && !xml::is_last(events[0]) {
        let rest = events.drop_first();
        assert(!opens_root(events[0]));
        assert forall|j: int| 0 <= j < rest.len() implies !opens_root(#[trigger] rest[j]) by {
            assert(rest[j] == events[j + 1]);
        }
        lemma_duration_kept(manifest::on_event(st, events[0]), rest);
        assert(manifest::on_event(st, events[0]).duration == st.duration);
    }
}

proof fn lemma_duration_read(st: ScanView, events: Seq<xml::EventView>, k: int, v: Seq<char>)
    requires
        0 <= k < events.len(),
        opens_root(events[k]),
        states(attrs(events[k]->Start_0), "mediaPresentationDuration"@, v),
        forall|j: int| 0 <= j < events.len() && j != k ==> !opens_root(#[trigger] events[j]),
        forall|j: int| 0 <= j < k ==> !xml::is_last(#[trigger] events[j]),
    ensures
        manifest::scan(st, events) matches Ok(out) ==> out.duration == duration::iso_duration(v),
    decreases k,
{
    lemma_names();
    let rest = events.drop_first();
    let next = manifest::on_event(st, events[0]);
    if k == 0 {
        lemma_value(attrs(events[0]->Start_0), "mediaPresentationDuration"@, v);
        assert forall|j: int| 0 <= j < rest.len() implies !opens_root(#[trigger] rest[j]) by {
            assert(rest[j] == events[j + 1]);
        }
        lemma_duration_kept(next, rest);
        assert(next.duration == duration::iso_duration(v));
    } else {
        assert(!xml::is_last(events[0]));
        assert forall|j: int| 0 <= j < rest.len() && j != k - 1 implies !opens_root(
            #[trigger] rest[j],
        ) by {
            assert(rest[j] == events[j + 1]);
        }
        assert forall|j: int| 0 <= j < k - 1 implies !xml::is_last(#[trigger] rest[j]) by {
            assert(rest[j] == events[j + 1]);
        }
        assert(rest[k - 1] == events[k]);
        lemma_duration_read(next, rest, k - 1, v);
    }
}

/// The duration of a manifest is the one that its root states.
pub proof fn lemma_duration(events: Seq<xml::EventView>, k: int, v: Seq<char>)
    requires
        0 <= k < events.len(),
        opens_root(events[k]),
        states(attrs(events[k]->Start_0), "mediaPresentationDuration"@, v),
        forall|j: int| 0 <= j < events.len() && j != k ==> !opens_root(#[trigger] events[j]),
        forall|j: int| 0 <= j < k ==> !xml::is_last(#[trigger] events[j]),
    ensures
        manifest::manifest_of(events) matches Ok(m) ==> m.duration == duration::iso_duration(v),
{
    lemma_duration_read(manifest::scan_start(), events, k, v);
}

/// A document that cannot be read is no manifest, and is refused with the message
/// that says why.
pub proof fn lemma_unreadable(events: Seq<xml::EventView>, k: int)
    requires
        0 <= k < events.len(),
        events[k] is Failed,
        forall|j: int| 0 <= j < k ==> !xml::is_last(#[trigger] events[j]),
    ensures
        manifest::manifest_of(events) == Err::<ManifestView, DashErrorView>(
            DashErrorView::Manifest(events[k]->Failed_0),
        ),
{
    lemma_unreadable_from(manifest::scan_start(), events, k);
}

proof fn lemma_unreadable_from(st: ScanView, events: Seq<xml::EventView>, k: int)
    requires
        0 <= k < events.len(),
        events[k] is Failed,
        forall|j: int| 0 <= j < k ==> !xml::is_last(#[trigger] events[j]),
    ensures
        manifest::scan(st, events) == Err::<ScanView, Seq<char>>(events[k]->Failed_0),
    decreases k,
{
    if k > 0 {
        assert(!xml::is_last(events[0]));
        let rest = events.drop_first();
        assert forall|j: int| 0 <= j < k - 1 implies !xml::is_last(#[trigger] rest[j]) by {
            assert(rest[j] == events[j + 1]);
        }
        lemma_unreadable_from(manifest::on_event(st, events[0]), rest, k - 1);
    }
}

// ---------------------------------------------------------------------------
// Qualities
// ---------------------------------------------------------------------------

/// Whether a representation can be offered: it has an id and names segments.
pub open spec fn is_offered(raw: RawRepView) -> bool {
    raw.id.len() > 0 && (raw.media.len() > 0 || raw.initialization.len() > 0)
}

/// Whether a representation shows a picture.
pub open spec fn has_picture(raw: RawRepView) -> bool {
    raw.width > 0 || "video"@.is_prefix_of(raw.content_type)
}

/// Whether a representation is sound alone.
pub open spec fn is_sound(raw: RawRepView) -> bool {
    !has_picture(raw) && "audio"@.is_prefix_of(raw.content_type)
}

/// Whether a quality is that of a representation: its id and bandwidth, under its
/// height, as in `720p`, or where that is not known its bandwidth in thousands.
pub open spec fn is_quality_of(q: RepresentationView, raw: RawRepView) -> bool {
    &&& q.id == raw.id && q.bandwidth == raw.bandwidth
    &&& raw.height > 0 ==> text_laws::shows_with(q.label, raw.height as int, "p"@)
    &&& raw.height == 0 ==> text_laws::shows_with(
        q.label,
        raw.bandwidth as int / 1000,
        " kbps"@,
    )
}

proof fn lemma_label(raw: RawRepView)
    ensures
        raw.height > 0 ==> text_laws::shows_with(
            manifest::video_label(raw),
            raw.height as int,
            "p"@,
        ),
        raw.height == 0 ==> text_laws::shows_with(
            manifest::video_label(raw),
            raw.bandwidth as int / 1000,
            " kbps"@,
        ),
{
    let n: nat = if raw.height > 0 {
        raw.height as nat
    } else {
        (raw.bandwidth / 1000) as nat
    };
    text_laws::lemma_decimal_shows(n);
    assert(text_laws::shows_number(text::decimal(n), n as int, 0));
}

/// The videos in the order of the document are the representations that can be
/// offered and show a picture.
pub proof fn lemma_videos(reps: Seq<RawRepView>, raw: RawRepView)
    ensures
        manifest::videos(Seq::empty()).len() == 0,
        is_offered(raw) && has_picture(raw) ==> manifest::videos(reps.push(raw)).len()
            == manifest::videos(reps).len() + 1 && manifest::videos(reps.push(raw)).drop_last()
            == manifest::videos(reps) && is_quality_of(
            manifest::videos(reps.push(raw)).last(),
            raw,
        ),
        !is_offered(raw) || !has_picture(raw) ==> manifest::videos(reps.push(raw))
            == manifest::videos(reps),
{
    assert(reps.push(raw).drop_last() =~= reps);
    lemma_label(raw);
    if is_offered(raw) && has_picture(raw) {
        assert(manifest::videos(reps.push(raw)).drop_last() =~= manifest::videos(reps));
    }
}

/// A manifest offers all of its videos, the largest bandwidth first; those of one
/// bandwidth stand in the order of the document. It is refused exactly where it
/// has none.
pub proof fn lemma_offer(st: ScanView)
    ensures
        manifest::summary(st) is Ok <==> manifest::videos(st.reps).len() > 0,
        manifest::summary(st) matches Err(e) ==> e == DashErrorView::NoRepresentation,
        manifest::summary(st) matches Ok(m) ==> {
            &&& m.video.len() == manifest::videos(st.reps).len()
            &&& m.video.to_multiset() == manifest::videos(st.reps).to_multiset()
            &&& forall|i: int, j: int|
                0 <= i < j < m.video.len() ==> (#[trigger] m.video[i]).bandwidth >= (
                #[trigger] m.video[j]).bandwidth
            &&& forall|b: u64| #[trigger] of_bandwidth(m.video, b) == of_bandwidth(
                manifest::videos(st.reps),
                b,
            )
            &&& m.is_drm == st.is_drm && m.duration == st.duration
            &&& m.audio == manifest::best_audio(st.reps)
        },
{
    let all = manifest::videos(st.reps);
    let key = manifest::by_bandwidth();
    let out = order::by_key_desc(all, key);
    order::lemma_by_key_desc(all, key);
    assert forall|i: int, j: int| 0 <= i < j < out.len() implies (#[trigger] out[i]).bandwidth >= (
    #[trigger] out[j]).bandwidth by {
        assert(order::keys_of(out, key)[i] >= order::keys_of(out, key)[j]);
    }
    assert forall|b: u64| #[trigger] of_bandwidth(out, b) == of_bandwidth(all, b) by {
        let f = |r: RepresentationView| r.bandwidth == b;
        order::lemma_stable(all, key, b, f);
        assert(out.filter(f) == all.filter(f));
    }
}

/// The qualities of one bandwidth.
pub open spec fn of_bandwidth(list: Seq<RepresentationView>, b: u64) -> Seq<RepresentationView> {
    list.filter(|r: RepresentationView| r.bandwidth == b)
}

/// The sound of a manifest is the first with the largest bandwidth among the
/// representations that can be offered and are sound; there is none where none
/// is.
pub proof fn lemma_sound(reps: Seq<RawRepView>, k: int)
    ensures
        0 <= k < reps.len() && is_offered(reps[k]) && is_sound(reps[k]) && (forall|i: int|
            0 <= i < reps.len() && is_offered(#[trigger] reps[i]) && is_sound(reps[i])
                ==> reps[i].bandwidth <= reps[k].bandwidth) && (forall|i: int|
            0 <= i < k && is_offered(#[trigger] reps[i]) && is_sound(reps[i])
                ==> reps[i].bandwidth < reps[k].bandwidth) ==> (manifest::best_audio(
            reps,
        ) matches Some(a) && a.id == reps[k].id && a.bandwidth == reps[k].bandwidth && a.label
            == "audio"@),
        (forall|i: int|
            0 <= i < reps.len() ==> !(is_offered(#[trigger] reps[i]) && is_sound(reps[i])))
            ==> manifest::best_audio(reps) is None,
    decreases reps.len(),
{
    if reps.len() > 0 {
        let front = reps.drop_last();
        let last = reps.len() - 1;
        lemma_sound(front, k);
        assert(reps[last] == reps.last());
        assert forall|i: int| 0 <= i < front.len() implies #[trigger] front[i] == reps[i] by {}
        if k == last && 0 <= k && is_offered(reps[k]) && is_sound(reps[k]) {
            lemma_sound_from(front);
            if forall|i: int|
                0 <= i < k && is_offered(#[trigger] reps[i]) && is_sound(reps[i])
                    ==> reps[i].bandwidth < reps[k].bandwidth {
                if manifest::best_audio(front) is Some {
                    let j = choose|j: int|
                        0 <= j < front.len() && is_offered(#[trigger] front[j]) && is_sound(
                            front[j],
                        ) && front[j].bandwidth == manifest::best_audio(front)->0.bandwidth;
                    assert(reps[j] == front[j]);
                }
            }
        }
    }
}

proof fn lemma_sound_from(reps: Seq<RawRepView>)
    ensures
        manifest::best_audio(reps) matches Some(a) ==> exists|j: int|
            0 <= j < reps.len() && is_offered(#[trigger] reps[j]) && is_sound(reps[j])
                && reps[j].bandwidth == a.bandwidth,
    decreases reps.len(),
{
    if reps.len() > 0 {
        let front = reps.drop_last();
        lemma_sound_from(front);
        if manifest::best_audio(reps) is Some {
            let a = manifest::best_audio(reps)->0;
            assert(reps[reps.len() - 1] == reps.last());
            if manifest::best_audio(front) == Some(a) {
                let j = choose|j: int|
                    0 <= j < front.len() && is_offered(#[trigger] front[j]) && is_sound(front[j])
                        && front[j].bandwidth == a.bandwidth;
                assert(reps[j] == front[j]);
            }
        }
    }
}

// ---------------------------------------------------------------------------
// Documents
// ---------------------------------------------------------------------------

/// Reading ends at the end of a document or where it cannot be read, and nowhere
/// else.
pub proof fn lemma_last(e: xml::EventView)
    ensures
        xml::is_last(e) <==> e is Eof || e is Failed,
{
}

/// What is gathered from some events, one after the other.
pub open spec fn gathered(st: ScanView, events: Seq<xml::EventView>) -> ScanView
    decreases events.len(),
{
    if events.len() == 0 {
        st
    } else {
        gathered(manifest::on_event(st, events[0]), events.drop_first())
    }
}

/// A manifest is what its events up to the end come to, none left out.
pub proof fn lemma_scanned(st: ScanView, events: Seq<xml::EventView>, rest: Seq<xml::EventView>)
    requires
        forall|j: int| 0 <= j < events.len() ==> !xml::is_last(#[trigger] events[j]),
        rest.len() == 0 || rest[0] is Eof,
    ensures
        manifest::scan(st, events + rest) == Ok::<ScanView, Seq<char>>(gathered(st, events)),
        manifest::manifest_of(events + rest) == manifest::summary(
            gathered(manifest::scan_start(), events),
        ),
{
    lemma_scanned_from(st, events, rest);
    lemma_scanned_from(manifest::scan_start(), events, rest);
}

proof fn lemma_scanned_from(
    st: ScanView,
    events: Seq<xml::EventView>,
    rest: Seq<xml::EventView>,
)
    requires
        forall|j: int| 0 <= j < events.len() ==> !xml::is_last(#[trigger] events[j]),
        rest.len() == 0 || rest[0] is Eof,
    ensures
        manifest::scan(st, events + rest) == Ok::<ScanView, Seq<char>>(gathered(st, events)),
    decreases events.len(),
{
    let all = events + rest;
    if events.len() == 0 {
        assert(all =~= rest);
    } else {
        let tail = events.drop_first();
        assert(all[0] == events[0] && !xml::is_last(events[0]));
        assert(all.drop_first() =~= tail + rest);
        assert forall|j: int| 0 <= j < tail.len() implies !xml::is_last(#[trigger] tail[j]) by {
            assert(tail[j] == events[j + 1]);
        }
        lemma_scanned_from(manifest::on_event(st, events[0]), tail, rest);
    }
}

/// What is gathered from some events, one after the other.
pub open spec fn picked_up(st: CollectView, events: Seq<xml::EventView>) -> CollectView
    decreases events.len(),
{
    if events.len() == 0 {
        st
    } else {
        picked_up(segments::on_event(st, events[0]), events.drop_first())
    }
}

/// The representations of a document are those of its events up to the end, or up
/// to where it cannot be read, none left out.
pub proof fn lemma_picked_up(
    st: CollectView,
    events: Seq<xml::EventView>,
    rest: Seq<xml::EventView>,
)
    requires
        forall|j: int| 0 <= j < events.len() ==> !xml::is_last(#[trigger] events[j]),
        rest.len() == 0 || rest[0] is Eof || rest[0] is Failed,
    ensures
        segments::collect(st, events + rest) == picked_up(st, events).out,
        segments::raw_reps(events + rest) == segments::collect(
            segments::collect_start(),
            events + rest,
        ),
    decreases events.len(),
{
    let all = events + rest;
    if events.len() == 0 {
        assert(all =~= rest);
    } else {
        let tail = events.drop_first();
        assert(all[0] == events[0] && !xml::is_last(events[0]));
        assert(all.drop_first() =~= tail + rest);
        assert forall|j: int| 0 <= j < tail.len() implies !xml::is_last(#[trigger] tail[j]) by {
            assert(tail[j] == events[j + 1]);
        }
        lemma_picked_up(segments::on_event(st, events[0]), tail, rest);
    }
}

/// Nothing is gathered before the first event.
pub proof fn lemma_nothing_gathered()
    ensures
        ({
            let a = manifest::scan_start();
            let b = segments::collect_start();
            &&& a.duration is None && !a.is_drm && a.reps.len() == 0 && !a.in_representation
                && a.set_type.len() == 0
            &&& b.out.len() == 0 && !b.in_representation && !b.in_template
            &&& a.set_tpl == b.set_tpl && a.set_tpl.media.len() == 0
                && a.set_tpl.initialization.len() == 0 && a.set_tpl.start_number == 0
                && a.set_tpl.timescale == 0 && a.set_tpl.duration == 0 && a.set_tpl.timeline is None
        }),
{
}

/// Whether an event opens a `ContentProtection`, self-closing or not.
pub open spec fn protects(e: xml::EventView) -> bool {
    ||| e matches xml::EventView::Start(tag) && is_tag(tag, "ContentProtection"@)
    ||| e matches xml::EventView::Empty(tag) && is_tag(tag, "ContentProtection"@)
}

proof fn lemma_protected_from(st: ScanView, events: Seq<xml::EventView>)
    requires
        forall|j: int| 0 <= j < events.len() ==> !xml::is_last(#[trigger] events[j]),
    ensures
        gathered(st, events).is_drm <==> st.is_drm || exists|j: int|
            0 <= j < events.len() && protects(#[trigger] events[j]),
    decreases events.len(),
{
    lemma_names();
    if events.len() > 0 {
        let tail = events.drop_first();
        assert forall|j: int| 0 <= j < tail.len() implies !xml::is_last(#[trigger] tail[j]) by {
            assert(tail[j] == events[j + 1]);
        }
        let next = manifest::on_event(st, events[0]);
        lemma_protected_from(next, tail);
        assert(next.is_drm <==> st.is_drm || protects(events[0]));
        if exists|j: int| 0 <= j < tail.len() && protects(#[trigger] tail[j]) {
            let j = choose|j: int| 0 <= j < tail.len() && protects(#[trigger] tail[j]);
            assert(protects(events[j + 1]));
        }
        if exists|j: int| 0 <= j < events.len() && protects(#[trigger] events[j]) {
            let j = choose|j: int| 0 <= j < events.len() && protects(#[trigger] events[j]);
            if j > 0 {
                assert(tail[j - 1] == events[j]);
            }
        }
    }
}

/// A manifest is protected exactly where some element of it is a
/// `ContentProtection`.
pub proof fn lemma_protected(events: Seq<xml::EventView>, rest: Seq<xml::EventView>)
    requires
        forall|j: int| 0 <= j < events.len() ==> !xml::is_last(#[trigger] events[j]),
        rest.len() == 0 || rest[0] is Eof,
    ensures
        manifest::manifest_of(events + rest) matches Ok(m) ==> (m.is_drm <==> exists|j: int|
            0 <= j < events.len() && protects(#[trigger] events[j])),
{
    lemma_scanned(manifest::scan_start(), events, rest);
    lemma_protected_from(manifest::scan_start(), events);
}

/// A template counts in either form, a timeline of a representation's own takes
/// the place of the one that it inherits, and an entry inside a representation
/// counts without a template around it.
pub proof fn lemma_own_timeline(
    st: CollectView,
    tpl: xml::TagView,
    rep: xml::TagView,
    a: xml::TagView,
)
    requires
        is_tag(tpl, "SegmentTemplate"@),
        is_tag(rep, "Representation"@),
        is_tag(a, "S"@),
        !st.in_representation,
    ensures
        ({
            let end = xml::EventView::End(rep.name);
            let open = segments::on_event(st, xml::EventView::Start(rep));
            let one = segments::on_event(open, xml::EventView::Empty(a));
            let done = segments::on_event(one, end);
            &&& segments::on_event(st, xml::EventView::Start(tpl)).set_tpl == segments::on_event(
                st,
                xml::EventView::Empty(tpl),
            ).set_tpl
            &&& segments::on_event(st, xml::EventView::Empty(tpl)).set_tpl
                == element::template_of(attrs(tpl))
            &&& segments::on_event(open, xml::EventView::Start(tpl)).current
                == segments::on_event(open, xml::EventView::Empty(tpl)).current
            &&& done.out.last().timeline == Some(seq![element::entry_of(attrs(a))])
            &&& segments::on_event(open, xml::EventView::Start(a)) == one
        }),
{
    lemma_names();
}

/// The same of what a manifest is read from.
pub proof fn lemma_either_form(st: ScanView, tpl: xml::TagView, rep: xml::TagView)
    requires
        is_tag(tpl, "SegmentTemplate"@),
        is_tag(rep, "Representation"@),
        !st.in_representation,
    ensures
        ({
            let open = manifest::on_event(st, xml::EventView::Start(rep));
            &&& manifest::on_event(st, xml::EventView::Start(tpl)).set_tpl == element::template_of(
                attrs(tpl),
            )
            &&& manifest::on_event(st, xml::EventView::Empty(tpl)).set_tpl == element::template_of(
                attrs(tpl),
            )
            &&& manifest::on_event(open, xml::EventView::Start(tpl)).current
                == manifest::on_event(open, xml::EventView::Empty(tpl)).current
        }),
{
    lemma_names();
}

/// An adaptation set starts without a template, and leaves none behind.
pub proof fn lemma_set_alone(st: ScanView, set: xml::TagView)
    requires
        is_tag(set, "AdaptationSet"@),
    ensures
        ({
            let opened = manifest::on_event(st, xml::EventView::Start(set));
            let closed = manifest::on_event(st, xml::EventView::End(set.name));
            &&& opened.set_tpl.media.len() == 0 && opened.set_tpl.initialization.len() == 0
                && opened.set_tpl.timeline is None && opened.set_tpl.start_number == 0
            &&& closed.set_tpl == opened.set_tpl
            &&& opened.set_type == element::set_type(attrs(set))
            &&& opened.reps == st.reps && closed.reps == st.reps
        }),
{
    lemma_names();
}

} // verus!
