//! What the quality list and the segment list of a manifest have in common.

use crate::dash::element::RawRepView;
use crate::dash::manifest::ScanView;
use crate::dash::manifest;
use crate::dash::segments::CollectView;
use crate::dash::segments;
use crate::xml;
use vstd::prelude::*;

verus! {

/// The ids of some representations.
pub open spec fn ids(reps: Seq<RawRepView>) -> Seq<Seq<char>> {
    reps.map_values(|r: RawRepView| r.id)
}

/// Whether both readings of a document have come across the same
/// representations.
spec fn agree(st: ScanView, c: CollectView) -> bool {
    &&& ids(st.reps) == ids(c.out)
    &&& st.in_representation == c.in_representation
    &&& st.current is Some <==> c.current is Some
    &&& st.current is Some ==> st.current->0.id == c.current->0.id
}

/// The element names that the readings act on differ from each other.
proof fn lemma_names()
    ensures
        "MPD"@.len() == 3,
        "AdaptationSet"@.len() == 13,
        "SegmentTemplate"@.len() == 15,
        "S"@.len() == 1,
        "Representation"@.len() == 14,
        "ContentProtection"@.len() == 17,
{
    reveal_strlit("MPD");
    reveal_strlit("AdaptationSet");
    reveal_strlit("SegmentTemplate");
    reveal_strlit("S");
    reveal_strlit("Representation");
    reveal_strlit("ContentProtection");
}

proof fn lemma_agree_start(st: ScanView, c: CollectView, tag: xml::TagView)
    requires
        agree(st, c),
    ensures
        agree(manifest::on_start(st, tag), segments::on_start(c, tag)),
{
    lemma_names();
}

proof fn lemma_agree_end(st: ScanView, c: CollectView, name: Seq<u8>)
    requires
        agree(st, c),
    ensures
        agree(manifest::on_end(st, name), segments::on_end(c, name)),
{
    lemma_names();
    if st.current is Some {
        assert(ids(st.reps.push(st.current->0)) =~= ids(st.reps).push(st.current->0.id));
        assert(ids(c.out.push(c.current->0)) =~= ids(c.out).push(c.current->0.id));
    }
}

proof fn lemma_agree_step(st: ScanView, c: CollectView, e: xml::EventView)
    requires
        agree(st, c),
    ensures
        agree(manifest::on_event(st, e), segments::on_event(c, e)),
{
    lemma_names();
    match e {
        xml::EventView::Start(tag) => {
            lemma_agree_start(st, c, tag);
        },
        xml::EventView::Empty(tag) => {
            lemma_agree_start(st, c, tag);
            lemma_agree_end(
                manifest::on_start(st, tag),
                segments::on_start(c, tag),
                tag.name,
            );
        },
        xml::EventView::End(name) => {
            lemma_agree_end(st, c, name);
        },
        _ => {},
    }
}

proof fn lemma_same_ids(st: ScanView, c: CollectView, events: Seq<xml::EventView>)
    requires
        agree(st, c),
    ensures
        manifest::scan(st, events) matches Ok(out) ==> ids(out.reps) == ids(
            segments::collect(c, events),
        ),
    decreases events.len(),
{
    if events.len() > 0 && !xml::is_last(events[0]) {
        lemma_agree_step(st, c, events[0]);
        lemma_same_ids(
            manifest::on_event(st, events[0]),
            segments::on_event(c, events[0]),
            events.drop_first(),
        );
    }
}

proof fn lemma_video_ids(reps: Seq<RawRepView>, i: int)
    requires
        0 <= i < manifest::videos(reps).len(),
    ensures
        ids(reps).contains(manifest::videos(reps)[i].id),
    decreases reps.len(),
{
    if reps.len() > 0 {
        let front = reps.drop_last();
        if i < manifest::videos(front).len() {
            lemma_video_ids(front, i);
            let id = manifest::videos(front)[i].id;
            let k = choose|k: int| 0 <= k < ids(front).len() && ids(front)[k] == id;
            assert(ids(reps)[k] == id);
        } else {
            assert(ids(reps)[reps.len() - 1] == reps.last().id);
        }
    }
}

proof fn lemma_audio_id(reps: Seq<RawRepView>)
    requires
        manifest::best_audio(reps) is Some,
    ensures
        ids(reps).contains(manifest::best_audio(reps)->0.id),
    decreases reps.len(),
{
    if reps.len() > 0 {
        let front = reps.drop_last();
        let id = manifest::best_audio(reps)->0.id;
        if manifest::best_audio(reps) == manifest::best_audio(front) {
            lemma_audio_id(front);
            let k = choose|k: int| 0 <= k < ids(front).len() && ids(front)[k] == id;
            assert(ids(reps)[k] == id);
        } else {
            assert(ids(reps)[reps.len() - 1] == id);
        }
    }
}

proof fn lemma_found_by_id(reps: Seq<RawRepView>, id: Seq<char>)
    requires
        ids(reps).contains(id),
    ensures
        segments::first_with_id(reps, id) is Some,
    decreases reps.len(),
{
    if reps.len() > 0 && reps[0].id != id {
        let k = choose|k: int| 0 <= k < ids(reps).len() && ids(reps)[k] == id;
        assert(ids(reps.drop_first())[k - 1] == id);
        lemma_found_by_id(reps.drop_first(), id);
    }
}

/// Every quality that a manifest offers leads to a representation: its segments
/// are never refused for want of one.
pub proof fn lemma_qualities_lead_to_segments(events: Seq<xml::EventView>, i: int)
    requires
        manifest::manifest_of(events) is Ok,
        0 <= i < manifest::manifest_of(events)->Ok_0.video.len(),
    ensures
        segments::first_with_id(
            segments::raw_reps(events),
            manifest::manifest_of(events)->Ok_0.video[i].id,
        ) is Some,
{
    let st = manifest::scan(manifest::scan_start(), events)->Ok_0;
    lemma_same_ids(manifest::scan_start(), segments::collect_start(), events);
    manifest::lemma_videos_sorted(st);
    let video = manifest::manifest_of(events)->Ok_0.video;
    let all = manifest::videos(st.reps);
    assert(all.contains(video[i])) by {
        broadcast use vstd::seq_lib::group_to_multiset_ensures;

        assert(video.contains(video[i]));
        assert(video.to_multiset().count(video[i]) > 0);
        assert(all.to_multiset().count(video[i]) > 0);
    }
    let k = choose|k: int| 0 <= k < all.len() && all[k] == video[i];
    lemma_video_ids(st.reps, k);
    lemma_found_by_id(segments::raw_reps(events), video[i].id);
}

/// The audio that a manifest picks leads to a representation, as every quality
/// does.
pub proof fn lemma_audio_leads_to_segments(events: Seq<xml::EventView>)
    requires
        manifest::manifest_of(events) is Ok,
        manifest::manifest_of(events)->Ok_0.audio is Some,
    ensures
        segments::first_with_id(
            segments::raw_reps(events),
            manifest::manifest_of(events)->Ok_0.audio->0.id,
        ) is Some,
{
    let st = manifest::scan(manifest::scan_start(), events)->Ok_0;
    lemma_same_ids(manifest::scan_start(), segments::collect_start(), events);
    lemma_audio_id(st.reps);
    lemma_found_by_id(
        segments::raw_reps(events),
        manifest::manifest_of(events)->Ok_0.audio->0.id,
    );
}

} // verus!
