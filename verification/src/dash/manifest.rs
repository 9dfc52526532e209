//! Reading a manifest: the representations, whether it is protected, and its
//! duration.

use crate::dash::duration::{parse_iso_duration, IsoDuration};
use crate::dash::duration;
use crate::dash::element::{
    add_entry, add_rep_entry, apply_template, attrs, find_attr, local_name, read_entry,
    read_representation, read_set_type, read_template_attrs, RawRep, RawRepView, Tpl, TplView,
};
use crate::dash::element;
use crate::order;
use crate::text;
use crate::xml::{read_events, XmlEvent, XmlTag};
use crate::xml;
use vstd::prelude::*;

verus! {

/// Why a manifest or its segments could not be had.
#[derive(Debug)]
pub enum DashError {
    /// A request failed; the text says why.
    Http(String),
    /// A file operation failed; the text says why.
    Io(String),
    /// The manifest cannot be read; the text says why.
    Manifest(String),
    /// No representation can be downloaded.
    NoRepresentation,
    /// Neither a duration nor a timeline gives the number of segments.
    NoSegmentCount,
    /// The download was cancelled.
    Cancelled,
}

/// An error as a mathematical value.
pub enum DashErrorView {
    Http(Seq<char>),
    Io(Seq<char>),
    Manifest(Seq<char>),
    NoRepresentation,
    NoSegmentCount,
    Cancelled,
}

impl View for DashError {
    type V = DashErrorView;

    open spec fn view(&self) -> DashErrorView {
        match self {
            DashError::Http(m) => DashErrorView::Http(m@),
            DashError::Io(m) => DashErrorView::Io(m@),
            DashError::Manifest(m) => DashErrorView::Manifest(m@),
            DashError::NoRepresentation => DashErrorView::NoRepresentation,
            DashError::NoSegmentCount => DashErrorView::NoSegmentCount,
            DashError::Cancelled => DashErrorView::Cancelled,
        }
    }
}

/// The message shown for an error.
pub open spec fn error_message(e: DashErrorView) -> Seq<char> {
    match e {
        DashErrorView::Http(m) => "network error: "@ + m,
        DashErrorView::Io(m) => "io error: "@ + m,
        DashErrorView::Manifest(m) => "invalid manifest: "@ + m,
        DashErrorView::NoRepresentation => "no downloadable representation"@,
        DashErrorView::NoSegmentCount =>
            "cannot determine segment count (no duration or timeline)"@,
        DashErrorView::Cancelled => "cancelled"@,
    }
}

impl DashError {
    /// The message shown for the error.
    pub fn message(&self) -> (out: String)
        ensures
            out@ == error_message(self@),
    {
        match self {
            DashError::Http(m) => "network error: ".to_owned().concat(m.as_str()),
            DashError::Io(m) => "io error: ".to_owned().concat(m.as_str()),
            DashError::Manifest(m) => "invalid manifest: ".to_owned().concat(m.as_str()),
            DashError::NoRepresentation => "no downloadable representation".to_owned(),
            DashError::NoSegmentCount =>
                "cannot determine segment count (no duration or timeline)".to_owned(),
            DashError::Cancelled => "cancelled".to_owned(),
        }
    }
}

/// A downloadable representation of a DASH adaptation set.
#[derive(Debug, Clone)]
pub struct Representation {
    pub id: String,
    pub label: String,
    pub bandwidth: u64,
}

/// Parsed manifest summary used by the quality picker.
#[derive(Debug)]
pub struct DashManifest {
    pub is_drm: bool,
    /// Total presentation duration, when advertised.
    pub duration: Option<IsoDuration>,
    pub video: Vec<Representation>,
    /// Best audio representation, downloaded and muxed when present.
    pub audio: Option<Representation>,
}

/// A representation as a mathematical value.
pub struct RepresentationView {
    pub id: Seq<char>,
    pub label: Seq<char>,
    pub bandwidth: u64,
}

/// A manifest summary as a mathematical value.
pub struct ManifestView {
    pub is_drm: bool,
    pub duration: Option<duration::IsoView>,
    pub video: Seq<RepresentationView>,
    pub audio: Option<RepresentationView>,
}

impl View for Representation {
    type V = RepresentationView;

    open spec fn view(&self) -> RepresentationView {
        RepresentationView { id: self.id@, label: self.label@, bandwidth: self.bandwidth }
    }
}

/// The views of some representations.
pub open spec fn representation_views(reps: Seq<Representation>) -> Seq<RepresentationView> {
    reps.map_values(|r: Representation| r@)
}

/// The view of a representation that may be absent.
pub open spec fn representation_view(r: Option<Representation>) -> Option<RepresentationView> {
    match r {
        Some(r) => Some(r@),
        None => None,
    }
}

impl View for DashManifest {
    type V = ManifestView;

    open spec fn view(&self) -> ManifestView {
        ManifestView {
            is_drm: self.is_drm,
            duration: duration::iso_view(self.duration),
            video: representation_views(self.video@),
            audio: representation_view(self.audio),
        }
    }
}

// ---------------------------------------------------------------------------
// Scanning the elements
// ---------------------------------------------------------------------------

/// What has been gathered at some point of a document.
pub struct ScanView {
    pub duration: Option<duration::IsoView>,
    pub is_drm: bool,
    pub reps: Seq<RawRepView>,
    /// Values of the enclosing adaptation set, inherited by representations.
    pub set_type: Seq<char>,
    pub set_tpl: TplView,
    pub in_representation: bool,
    pub current: Option<RawRepView>,
    /// Whether the open representation has a timeline of its own.
    pub own_timeline: bool,
    pub in_template: bool,
}

/// Nothing has been gathered yet.
pub open spec fn scan_start() -> ScanView {
    ScanView {
        duration: None,
        is_drm: false,
        reps: Seq::empty(),
        set_type: Seq::empty(),
        set_tpl: element::no_template(),
        in_representation: false,
        current: None,
        own_timeline: false,
        in_template: false,
    }
}

/// A template inside a representation refines it; elsewhere it becomes the
/// template of the adaptation set.
pub open spec fn take_template(st: ScanView, tpl: TplView) -> ScanView {
    if st.in_representation {
        ScanView {
            current: match st.current {
                Some(rep) => Some(element::with_template(rep, tpl)),
                None => None,
            },
            ..st
        }
    } else {
        ScanView { set_tpl: tpl, ..st }
    }
}

/// A timeline entry belongs to the open representation, where the first one
/// takes the place of an inherited timeline, else to the template of the
/// adaptation set.
pub open spec fn take_entry(st: ScanView, entry: element::TimelineEntry) -> ScanView {
    if st.in_representation && st.current is Some {
        ScanView {
            current: Some(element::rep_with_entry(st.current->0, entry, st.own_timeline)),
            own_timeline: true,
            ..st
        }
    } else {
        ScanView {
            set_tpl: TplView {
                timeline: element::with_entry(st.set_tpl.timeline, entry),
                ..st.set_tpl
            },
            ..st
        }
    }
}

/// What an opening tag adds.
pub open spec fn on_start(st: ScanView, tag: xml::TagView) -> ScanView {
    let name = element::bare_name(tag.name);
    let list = element::attrs_of(tag.attributes);
    if name == "MPD"@ {
        match element::last_value(list, "mediaPresentationDuration"@) {
            Some(v) => ScanView { duration: duration::iso_duration(v), ..st },
            None => st,
        }
    } else if name == "AdaptationSet"@ {
        ScanView {
            set_type: element::set_type(list),
            set_tpl: element::no_template(),
            ..st
        }
    } else if name == "SegmentTemplate"@ {
        take_template(ScanView { in_template: true, ..st }, element::template_of(list))
    } else if name == "S"@ {
        if st.in_template {
            take_entry(st, element::entry_of(list))
        } else {
            st
        }
    } else if name == "Representation"@ {
        ScanView {
            in_representation: true,
            current: Some(element::representation_of(list, st.set_type, st.set_tpl)),
            own_timeline: false,
            ..st
        }
    } else if name == "ContentProtection"@ {
        ScanView { is_drm: true, ..st }
    } else {
        st
    }
}

/// What a self-closing tag adds: a template, the mark of protection, a timeline
/// entry, or a representation that ends where it begins.
pub open spec fn on_empty(st: ScanView, tag: xml::TagView) -> ScanView {
    let name = element::bare_name(tag.name);
    if name == "SegmentTemplate"@ {
        take_template(st, element::template_of(element::attrs_of(tag.attributes)))
    } else if name == "ContentProtection"@ {
        ScanView { is_drm: true, ..st }
    } else if name == "S"@ {
        on_start(st, tag)
    } else if name == "Representation"@ {
        on_end(on_start(st, tag), tag.name)
    } else {
        st
    }
}

/// What a closing tag ends.
pub open spec fn on_end(st: ScanView, qname: Seq<u8>) -> ScanView {
    let name = element::bare_name(qname);
    if name == "Representation"@ {
        ScanView {
            in_representation: false,
            in_template: false,
            current: None,
            reps: match st.current {
                Some(rep) => st.reps.push(rep),
                None => st.reps,
            },
            ..st
        }
    } else if name == "SegmentTemplate"@ {
        ScanView { in_template: false, ..st }
    } else if name == "AdaptationSet"@ {
        ScanView { set_tpl: element::no_template(), ..st }
    } else {
        st
    }
}

/// What an event adds.
pub open spec fn on_event(st: ScanView, e: xml::EventView) -> ScanView {
    match e {
        xml::EventView::Start(tag) => on_start(st, tag),
        xml::EventView::Empty(tag) => on_empty(st, tag),
        xml::EventView::End(name) => on_end(st, name),
        _ => st,
    }
}

/// What has been gathered when the events end, or the message of the error
/// that ends them.
pub open spec fn scan(st: ScanView, events: Seq<xml::EventView>) -> Result<ScanView, Seq<char>>
    decreases events.len(),
{
    if events.len() == 0 {
        Ok(st)
    } else {
        match events[0] {
            xml::EventView::Eof => Ok(st),
            xml::EventView::Failed(message) => Err(message),
            e => scan(on_event(st, e), events.drop_first()),
        }
    }
}

// ---------------------------------------------------------------------------
// Choosing among the representations
// ---------------------------------------------------------------------------

/// Whether a representation names its segments and itself.
pub open spec fn is_usable(raw: RawRepView) -> bool {
    (raw.media.len() > 0 || raw.initialization.len() > 0) && raw.id.len() > 0
}

/// Whether a representation is a video.
pub open spec fn is_video(raw: RawRepView) -> bool {
    "video"@.is_prefix_of(raw.content_type) || raw.width > 0
}

/// Whether a representation is audio, and no video.
pub open spec fn is_audio(raw: RawRepView) -> bool {
    !is_video(raw) && "audio"@.is_prefix_of(raw.content_type)
}

/// The label of a video: its height, or its bandwidth where no height is known.
pub open spec fn video_label(raw: RawRepView) -> Seq<char> {
    if raw.height > 0 {
        text::decimal(raw.height as nat) + "p"@
    } else {
        text::decimal((raw.bandwidth / 1000) as nat) + " kbps"@
    }
}

/// The usable videos, in document order.
pub open spec fn videos(reps: Seq<RawRepView>) -> Seq<RepresentationView>
    decreases reps.len(),
{
    if reps.len() == 0 {
        Seq::empty()
    } else {
        let raw = reps.last();
        let before = videos(reps.drop_last());
        if is_usable(raw) && is_video(raw) {
            before.push(
                RepresentationView {
                    id: raw.id,
                    label: video_label(raw),
                    bandwidth: raw.bandwidth,
                },
            )
        } else {
            before
        }
    }
}

/// The usable audio with the largest bandwidth, the first of them where
/// several have it.
pub open spec fn best_audio(reps: Seq<RawRepView>) -> Option<RepresentationView>
    decreases reps.len(),
{
    if reps.len() == 0 {
        None
    } else {
        let raw = reps.last();
        let before = best_audio(reps.drop_last());
        if is_usable(raw) && is_audio(raw) && (before is None || raw.bandwidth
            > before->0.bandwidth) {
            Some(
                RepresentationView { id: raw.id, label: "audio"@, bandwidth: raw.bandwidth },
            )
        } else {
            before
        }
    }
}

/// The key by which videos are listed.
pub open spec fn by_bandwidth() -> spec_fn(RepresentationView) -> u64 {
    |r: RepresentationView| r.bandwidth
}

/// The summary of what was gathered: the videos by bandwidth, largest first,
/// and the best audio. Without a video there is nothing to download.
pub open spec fn summary(st: ScanView) -> Result<ManifestView, DashErrorView> {
    if videos(st.reps).len() == 0 {
        Err(DashErrorView::NoRepresentation)
    } else {
        Ok(
            ManifestView {
                is_drm: st.is_drm,
                duration: st.duration,
                video: order::by_key_desc(videos(st.reps), by_bandwidth()),
                audio: best_audio(st.reps),
            },
        )
    }
}

/// The summary of a document given by its events.
pub open spec fn manifest_of(events: Seq<xml::EventView>) -> Result<ManifestView, DashErrorView> {
    match scan(scan_start(), events) {
        Ok(st) => summary(st),
        Err(message) => Err(DashErrorView::Manifest(message)),
    }
}

// ---------------------------------------------------------------------------
// Executable counterparts
// ---------------------------------------------------------------------------

/// What has been gathered at some point of a document.
struct Scan {
    duration: Option<IsoDuration>,
    is_drm: bool,
    reps: Vec<RawRep>,
    set_type: String,
    set_tpl: Tpl,
    in_representation: bool,
    current: Option<RawRep>,
    own_timeline: bool,
    in_template: bool,
}

impl View for Scan {
    type V = ScanView;

    closed spec fn view(&self) -> ScanView {
        ScanView {
            duration: duration::iso_view(self.duration),
            is_drm: self.is_drm,
            reps: element::rep_views(self.reps@),
            set_type: self.set_type@,
            set_tpl: self.set_tpl@,
            in_representation: self.in_representation,
            current: element::rep_view(self.current),
            own_timeline: self.own_timeline,
            in_template: self.in_template,
        }
    }
}

impl Scan {
    fn new() -> (out: Scan)
        ensures
            out@ == scan_start(),
    {
        let out = Scan {
            duration: None,
            is_drm: false,
            reps: Vec::new(),
            set_type: String::new(),
            set_tpl: Tpl::default(),
            in_representation: false,
            current: None,
            own_timeline: false,
            in_template: false,
        };
        assert(out@.reps =~= Seq::<RawRepView>::empty());
        out
    }

    fn take_template(self, tpl: Tpl) -> (out: Scan)
        ensures
            out@ == take_template(self@, tpl@),
    {
        let mut st = self;
        if st.in_representation {
            let current = match st.current {
                Some(rep) => {
                    let mut rep = rep;
                    apply_template(&mut rep, &tpl);
                    Some(rep)
                },
                None => None,
            };
            st.current = current;
        } else {
            st.set_tpl = tpl;
        }
        st
    }

    fn take_entry(self, entry: element::TimelineEntry) -> (out: Scan)
        ensures
            out@ == take_entry(self@, entry),
    {
        let mut st = self;
        match st.current {
            Some(rep) => {
                let mut rep = rep;
                if st.in_representation {
                    add_rep_entry(&mut rep, entry, st.own_timeline);
                    st.own_timeline = true;
                } else {
                    st.set_tpl.timeline = add_entry(st.set_tpl.timeline, entry);
                }
                st.current = Some(rep);
            },
            None => {
                st.current = None;
                st.set_tpl.timeline = add_entry(st.set_tpl.timeline, entry);
            },
        }
        st
    }

    fn on_start(self, tag: &XmlTag) -> (out: Scan)
        ensures
            out@ == on_start(self@, tag@),
    {
        let mut st = self;
        let name = local_name(&tag.name);
        let name = name.as_str();
        if text::same(name, "MPD") {
            match find_attr(&attrs(tag), "mediaPresentationDuration") {
                Some(v) => {
                    st.duration = parse_iso_duration(v.as_str());
                },
                None => {},
            }
        } else if text::same(name, "AdaptationSet") {
            st.set_type = read_set_type(&attrs(tag));
            st.set_tpl = Tpl::default();
        } else if text::same(name, "SegmentTemplate") {
            st.in_template = true;
            st = st.take_template(read_template_attrs(tag));
        } else if text::same(name, "S") {
            if st.in_template {
                st = st.take_entry(read_entry(tag));
            }
        } else if text::same(name, "Representation") {
            st.in_representation = true;
            st.current = Some(read_representation(tag, st.set_type.as_str(), &st.set_tpl));
            st.own_timeline = false;
        } else if text::same(name, "ContentProtection") {
            st.is_drm = true;
        }
        st
    }

    fn on_empty(self, tag: &XmlTag) -> (out: Scan)
        ensures
            out@ == on_empty(self@, tag@),
    {
        let mut st = self;
        let name = local_name(&tag.name);
        if text::same(name.as_str(), "SegmentTemplate") {
            st = st.take_template(read_template_attrs(tag));
        } else if text::same(name.as_str(), "ContentProtection") {
            st.is_drm = true;
        } else if text::same(name.as_str(), "S") {
            st = st.on_start(tag);
        } else if text::same(name.as_str(), "Representation") {
            st = st.on_start(tag).on_end(&tag.name);
        }
        st
    }

    fn on_end(self, qname: &[u8]) -> (out: Scan)
        ensures
            out@ == on_end(self@, qname@),
    {
        let mut st = self;
        let name = local_name(qname);
        if text::same(name.as_str(), "Representation") {
            st.in_representation = false;
            st.in_template = false;
            match st.current {
                Some(rep) => {
                    let ghost before = st.reps@;
                    st.reps.push(rep);
                    assert(element::rep_views(st.reps@) =~= element::rep_views(before).push(rep@));
                },
                None => {},
            }
            st.current = None;
        } else if text::same(name.as_str(), "SegmentTemplate") {
            st.in_template = false;
        } else if text::same(name.as_str(), "AdaptationSet") {
            st.set_tpl = Tpl::default();
        }
        st
    }
}

/// The label of a video.
fn label_of(raw: &RawRep) -> (out: String)
    ensures
        out@ == video_label(raw@),
{
    if raw.height > 0 {
        text::decimal_of(raw.height).concat("p")
    } else {
        text::decimal_of(raw.bandwidth / 1000).concat(" kbps")
    }
}

/// The summary of what was gathered.
fn summarize(st: Scan) -> (out: Result<DashManifest, DashError>)
    ensures
        match out {
            Ok(m) => summary(st@) == Ok::<ManifestView, DashErrorView>(m@),
            Err(e) => summary(st@) == Err::<ManifestView, DashErrorView>(e@),
        },
{
    let ghost raws = st@.reps;
    let mut video: Vec<Representation> = Vec::new();
    let mut keys: Vec<u64> = Vec::new();
    let mut audio: Option<Representation> = None;
    let mut i: usize = 0;
    proof {
        assert(representation_views(video@) =~= order::by_key_desc(
            videos(raws.take(0)),
            by_bandwidth(),
        ));
        assert(keys@ =~= order::keys_of(representation_views(video@), by_bandwidth()));
    }
    while i < st.reps.len()
        invariant
            i <= st.reps.len(),
            raws == element::rep_views(st.reps@),
            representation_views(video@) == order::by_key_desc(
                videos(raws.take(i as int)),
                by_bandwidth(),
            ),
            keys@ == order::keys_of(representation_views(video@), by_bandwidth()),
            video.len() == videos(raws.take(i as int)).len(),
            representation_view(audio) == best_audio(raws.take(i as int)),
        decreases st.reps.len() - i,
    {
        let raw = &st.reps[i];
        assert(raws.take(i + 1).drop_last() =~= raws.take(i as int));
        assert(raws.take(i + 1).last() == raw@);
        let usable = (!raw.media.as_str().is_empty() || !raw.initialization.as_str().is_empty())
            && !raw.id.as_str().is_empty();
        if usable {
            let kind = text::chars_of(raw.content_type.as_str());
            if text::begins_with(&kind, "video") || raw.width > 0 {
                let rep = Representation {
                    id: raw.id.clone(),
                    label: label_of(raw),
                    bandwidth: raw.bandwidth,
                };
                let place: usize = order::place_for(&keys, raw.bandwidth);
                let ghost before = video@;
                let ghost found = videos(raws.take(i as int));
                video.insert(place, rep);
                keys.insert(place, raw.bandwidth);
                proof {
                    assert(videos(raws.take(i + 1)) =~= found.push(rep@));
                    assert(videos(raws.take(i + 1)).drop_last() =~= found);
                    assert(representation_views(video@) =~= representation_views(before).insert(
                        place as int,
                        rep@,
                    ));
                    assert(keys@ =~= order::keys_of(representation_views(video@), by_bandwidth()));
                }
            } else if text::begins_with(&kind, "audio") {
                let better = match &audio {
                    Some(best) => raw.bandwidth > best.bandwidth,
                    None => true,
                };
                if better {
                    audio = Some(
                        Representation {
                            id: raw.id.clone(),
                            label: "audio".to_owned(),
                            bandwidth: raw.bandwidth,
                        },
                    );
                }
            }
        }
        i += 1;
    }
    assert(raws.take(raws.len() as int) =~= raws);
    if video.len() == 0 {
        return Err(DashError::NoRepresentation);
    }
    Ok(DashManifest { is_drm: st.is_drm, duration: st.duration, video, audio })
}

/// The summary of a document given by its events.
pub fn manifest_from_events(events: &Vec<XmlEvent>) -> (out: Result<DashManifest, DashError>)
    ensures
        match out {
            Ok(m) => manifest_of(xml::event_views(events@)) == Ok::<ManifestView, DashErrorView>(m@),
            Err(e) => manifest_of(xml::event_views(events@)) == Err::<ManifestView, DashErrorView>(
                e@,
            ),
        },
{
    let ghost all = xml::event_views(events@);
    let mut st = Scan::new();
    let mut i: usize = 0;
    assert(all.skip(0) =~= all);
    while i < events.len()
        invariant
            i <= events.len(),
            all == xml::event_views(events@),
            scan(scan_start(), all) == scan(st@, all.skip(i as int)),
        decreases events.len() - i,
    {
        assert(all.skip(i as int)[0] == events@[i as int]@);
        assert(all.skip(i as int).drop_first() =~= all.skip(i + 1));
        match &events[i] {
            XmlEvent::Start(tag) => {
                st = st.on_start(tag);
            },
            XmlEvent::Empty(tag) => {
                st = st.on_empty(tag);
            },
            XmlEvent::End(name) => {
                st = st.on_end(name);
            },
            XmlEvent::Other => {},
            XmlEvent::Eof => {
                return summarize(st);
            },
            XmlEvent::Failed(message) => {
                return Err(DashError::Manifest(message.clone()));
            },
        }
        i += 1;
    }
    summarize(st)
}

/// Parses the MPD XML into quality listings.
pub fn parse_manifest(xml: &str) -> (out: Result<DashManifest, DashError>)
    ensures
        match out {
            Ok(m) => manifest_of(xml::xml_events(xml@)) == Ok::<ManifestView, DashErrorView>(m@),
            Err(e) => manifest_of(xml::xml_events(xml@)) == Err::<ManifestView, DashErrorView>(e@),
        },
{
    manifest_from_events(&read_events(xml))
}

/// Reads the body of a manifest response into quality listings.
pub fn variants_from_body(body: &[u8]) -> (out: Result<DashManifest, DashError>)
    ensures
        match out {
            Ok(m) => manifest_of(xml::xml_events(text::lossy(body@))) == Ok::<
                ManifestView,
                DashErrorView,
            >(m@),
            Err(e) => manifest_of(xml::xml_events(text::lossy(body@))) == Err::<
                ManifestView,
                DashErrorView,
            >(e@),
        },
{
    parse_manifest(text::from_utf8_lossy(body).as_str())
}

// ---------------------------------------------------------------------------
// Laws
// ---------------------------------------------------------------------------

/// Whether an event opens an element that marks the stream as protected.
pub open spec fn marks_protection(e: xml::EventView) -> bool {
    match e {
        xml::EventView::Start(tag) => element::bare_name(tag.name) == "ContentProtection"@,
        xml::EventView::Empty(tag) => element::bare_name(tag.name) == "ContentProtection"@,
        _ => false,
    }
}

/// Whether an element of a document marks the stream as protected.
pub open spec fn has_protection(events: Seq<xml::EventView>) -> bool
    decreases events.len(),
{
    events.len() > 0 && !xml::is_last(events[0]) && (marks_protection(events[0])
        || has_protection(events.drop_first()))
}

/// A manifest counts as protected exactly where some element marks it so,
/// wherever in the document that stands.
pub proof fn lemma_protection(events: Seq<xml::EventView>)
    ensures
        manifest_of(events) matches Ok(m) ==> m.is_drm == has_protection(events),
{
    lemma_protection_kept(scan_start(), events);
}

proof fn lemma_protection_kept(st: ScanView, events: Seq<xml::EventView>)
    ensures
        scan(st, events) matches Ok(out) ==> out.is_drm == (st.is_drm || has_protection(events)),
    decreases events.len(),
{
    reveal_strlit("ContentProtection");
    reveal_strlit("MPD");
    reveal_strlit("AdaptationSet");
    reveal_strlit("SegmentTemplate");
    reveal_strlit("S");
    reveal_strlit("Representation");
    let mark = "ContentProtection"@;
    assert(mark.len() != "MPD"@.len());
    assert(mark.len() != "AdaptationSet"@.len());
    assert(mark.len() != "SegmentTemplate"@.len());
    assert(mark.len() != "S"@.len());
    assert(mark.len() != "Representation"@.len());
    if events.len() > 0 && !xml::is_last(events[0]) {
        lemma_protection_kept(on_event(st, events[0]), events.drop_first());
        assert(on_event(st, events[0]).is_drm == (st.is_drm || marks_protection(events[0])));
    }
}

/// The videos are listed by bandwidth, largest first, and none is left out or
/// added.
pub proof fn lemma_videos_sorted(st: ScanView)
    ensures
        summary(st) matches Ok(m) ==> {
            &&& m.video.to_multiset() == videos(st.reps).to_multiset()
            &&& order::is_desc(order::keys_of(m.video, by_bandwidth()))
            &&& m.video.len() > 0
        },
{
    order::lemma_by_key_desc(videos(st.reps), by_bandwidth());
}

/// No usable audio has a larger bandwidth than the one that is picked.
pub proof fn lemma_best_audio(reps: Seq<RawRepView>)
    ensures
        forall|i: int|
            0 <= i < reps.len() && is_usable(#[trigger] reps[i]) && is_audio(reps[i]) ==> (
            best_audio(reps) matches Some(best) && reps[i].bandwidth <= best.bandwidth),
    decreases reps.len(),
{
    if reps.len() > 0 {
        let front = reps.drop_last();
        lemma_best_audio(front);
        assert forall|i: int|
            0 <= i < reps.len() && is_usable(#[trigger] reps[i]) && is_audio(reps[i]) implies (
        best_audio(reps) matches Some(best) && reps[i].bandwidth <= best.bandwidth) by {
            if i < front.len() {
                assert(front[i] == reps[i]);
            }
        }
    }
}

} // verus!
