//! What downloads come to: the ranges of a file, the segments of a stream, and
//! the answers to what happens meanwhile.

use crate::dash::download as dash_download;
use crate::dash::manifest::DashErrorView;
use crate::dash::manifest;
use crate::download::{ActionView, DownloadErrorView, EventView, WorkerEndView};
use crate::download;
use crate::hls::download as hls_download;
use crate::hls::error::HlsErrorView;
use crate::hls::error;
use crate::hls::playlist::SegmentView;
use crate::text;
use crate::text_laws;
use crate::torrent::TorrentErrorView;
use crate::torrent;
use crate::workers;
use vstd::prelude::*;

verus! {

// ---------------------------------------------------------------------------
// Files
// ---------------------------------------------------------------------------

/// A file is cut into one range for each of the connections asked for, at least
/// one and at most 32 of them, where it has as many bytes, else it is one range.
/// All ranges but the last have the same size, and together they hold every byte
/// once.
pub proof fn lemma_ranges(total: u64, connections: usize)
    requires
        total > 0,
    ensures
        ({
            let ranges = download::ranges_of(total, connections);
            let n: int = if connections == 0 {
                1
            } else if connections > 32 {
                32
            } else {
                connections as int
            };
            &&& ranges.len() == if total >= n {
                n
            } else {
                1
            }
            &&& ranges[0].0 == 0 && ranges[ranges.len() - 1].1 == total - 1
            &&& forall|i: int|
                0 <= i < ranges.len() - 1 ==> (#[trigger] ranges[i]).1 - ranges[i].0 + 1
                    == total as int / n
            &&& forall|i: int|
                0 < i < ranges.len() ==> (#[trigger] ranges[i]).0 == ranges[i - 1].1 + 1
            &&& ranges[ranges.len() - 1].0 <= total - 1
        }),
{
    download::lemma_ranges_partition(total, connections);
    let ranges = download::ranges_of(total, connections);
    let n: int = if connections == 0 {
        1
    } else if connections > 32 {
        32
    } else {
        connections as int
    };
    let chunk = total as int / n;
    vstd::arithmetic::div_mod::lemma_fundamental_div_mod(total as int, n);
    if total >= n {
        assert(chunk >= 1) by (nonlinear_arith)
            requires
                chunk == total as int / n,
                total >= n,
                n >= 1,
        ;
        assert forall|i: int| 0 <= i < ranges.len() - 1 implies (#[trigger] ranges[i]).1
            - ranges[i].0 + 1 == chunk by {
            assert(0 <= i * chunk && (i + 1) * chunk == i * chunk + chunk && (i + 1) * chunk <= n
                * chunk) by (nonlinear_arith)
                requires
                    0 <= i < n,
                    chunk > 0,
            ;
        }
    } else {
        assert(chunk == 0) by (nonlinear_arith)
            requires
                chunk == total as int / n,
                0 <= total < n,
        ;
    }
}

/// 16 connections are used where none are asked for.
pub proof fn lemma_default_connections()
    ensures
        download::DEFAULT_CONNECTIONS == 16,
{
}

/// The size in a `Content-Range` is the number behind its last slash, and 0
/// where no number stands there.
pub proof fn lemma_range_size(front: Seq<char>, size: Seq<char>)
    requires
        forall|i: int| 0 <= i < size.len() ==> #[trigger] size[i] != '/',
        front.len() == 0 || front.last() == '/',
    ensures
        download::range_size(Some(front + size)) == match text::parse_u64(size) {
            Some(n) => n,
            None => 0,
        },
        download::range_size(None) == 0,
{
    let slash = seq!['/'];
    assert(slash.contains('/')) by {
        assert(slash[0] == '/');
    }
    text_laws::lemma_after_last(front, slash, size);
}

/// A download of ranges is complete exactly when no worker is left, ends in an
/// error exactly when it is cancelled or a worker did not store its range, and
/// reports the bytes that it was told of.
pub proof fn lemma_actions(event: EventView, e: DownloadErrorView, why: Seq<char>)
    ensures
        download::action_for(event) is Complete <==> event is Idle,
        download::action_for(event) is Report <==> event is Tick,
        download::action_for(event) is Wait <==> event == EventView::Worker(
            WorkerEndView::Stored,
        ),
        event is Tick ==> download::action_for(event)->Report_done == event->Tick_done,
        download::action_for(EventView::CancelSeen) == ActionView::Stop(
            DownloadErrorView::Cancelled,
        ),
        download::action_for(EventView::Worker(WorkerEndView::Failed(e))) == ActionView::Stop(e),
        download::action_for(EventView::Worker(WorkerEndView::Lost(why))) == ActionView::Stop(
            DownloadErrorView::Io(why),
        ),
{
}

// ---------------------------------------------------------------------------
// Segments
// ---------------------------------------------------------------------------

/// Between 1 and 64 workers run at once: as many as are wanted, where that is
/// in between.
pub proof fn lemma_worker_limit(wanted: int)
    ensures
        workers::MAX_WORKERS == 64,
        1 <= workers::clamped(wanted, 1, 64) <= 64,
        1 <= wanted <= 64 ==> workers::clamped(wanted, 1, 64) == wanted,
        wanted < 1 ==> workers::clamped(wanted, 1, 64) == 1,
        wanted > 64 ==> workers::clamped(wanted, 1, 64) == 64,
{
}

/// The file of a segment is named after its number, counted from 1 and shown in
/// at least five digits.
pub proof fn lemma_segment_names(i: int, ext: Seq<char>)
    requires
        0 <= i,
    ensures
        exists|d: Seq<char>| #[trigger]
            text_laws::shows_number(d, i + 1, 5) && workers::numbered_name(i, ext) == "segment_"@
                + d + ext,
{
    text_laws::lemma_padded_shows((i + 1) as nat, 5);
    let d = text::zero_padded((i + 1) as nat, 5);
    assert(text_laws::shows_number(d, i + 1, 5));
}

/// The segments at the front of a stream end at the first that is missing.
pub proof fn lemma_leading(present: Seq<bool>, n: int)
    requires
        0 <= n <= present.len(),
        forall|i: int| 0 <= i < n ==> #[trigger] present[i],
        n < present.len() ==> !present[n],
    ensures
        workers::leading(present) == n,
    decreases n,
{
    if n > 0 {
        assert(present[0]);
        let rest = present.drop_first();
        assert forall|i: int| 0 <= i < n - 1 implies #[trigger] rest[i] by {
            assert(rest[i] == present[i + 1]);
        }
        lemma_leading(rest, n - 1);
    }
}

/// The files of a stream are those of its stored segments, each named after the
/// place of the segment in the stream, in order: as many stand before it as
/// stored segments do.
pub proof fn lemma_stored_names(present: Seq<bool>, ext: Seq<char>)
    ensures
        workers::stored_names(present, ext).len() == workers::stored(present),
        forall|i: int|
            #![trigger present[i]]
            0 <= i < present.len() && present[i] ==> {
                let k = workers::stored(present.take(i)) as int;
                0 <= k < workers::stored(present) && workers::stored_names(present, ext)[k]
                    == workers::numbered_name(i, ext)
            },
    decreases present.len(),
{
    if present.len() > 0 {
        let front = present.drop_last();
        lemma_stored_names(front, ext);
        assert forall|i: int|
            #![trigger present[i]]
            0 <= i < present.len() && present[i] implies {
            let k = workers::stored(present.take(i)) as int;
            0 <= k < workers::stored(present) && workers::stored_names(present, ext)[k]
                == workers::numbered_name(i, ext)
        } by {
            assert(present.take(i) =~= front.take(i));
            if i < front.len() {
                assert(front[i]);
            } else {
                assert(front.take(i) =~= front);
            }
        }
    }
}

/// One more segment on disk is one more that is stored; one that is not there is
/// one more to fetch, after all others.
pub proof fn lemma_one_more(present: Seq<bool>)
    requires
        present.len() < usize::MAX,
    ensures
        workers::stored(Seq::empty()) == 0,
        workers::missing(Seq::empty()).len() == 0,
        workers::stored(present.push(true)) == workers::stored(present) + 1,
        workers::stored(present.push(false)) == workers::stored(present),
        workers::missing(present.push(true)) == workers::missing(present),
        workers::missing(present.push(false)) == workers::missing(present).push(
            present.len() as usize,
        ),
{
    assert(present.push(true).drop_last() =~= present);
    assert(present.push(false).drop_last() =~= present);
}

// ---------------------------------------------------------------------------
// HLS
// ---------------------------------------------------------------------------

/// A download begins with no key fetched and no segment stored.
pub proof fn lemma_hls_start(segments: Seq<SegmentView>, n: usize)
    ensures
        ({
            let d = hls_download::download_start(segments, n);
            d.total == segments.len() && d.max_concurrent == n && d.asked == 0 && d.done == 0
                && d.left == 0 && d.stage == hls_download::Stage::Keys && forall|url: Seq<char>|
                !#[trigger] d.keys.contains_key(url)
        }),
{
}

/// Whether a step ends a download with a result.
pub open spec fn hls_ends(
    step: (hls_download::DownloadView, hls_download::ActionView),
    result: Result<(), HlsErrorView>,
    report: Option<int>,
) -> bool {
    step.0.stage == hls_download::Stage::Over && step.1 == (hls_download::ActionView::Finish {
        result,
        report,
    })
}

/// Keys are asked for in order, and each is kept under the URL that was asked
/// for; then the files are looked at. A key of another length than 16 bytes ends
/// the download, and so does its cancellation.
pub proof fn lemma_hls_keys(d: hls_download::DownloadView, body: Seq<u8>)
    requires
        d.stage == hls_download::Stage::Keys,
        d.total > 0,
        0 <= d.asked < d.urls.len(),
    ensures
        ({
            let ready = hls_download::step_of(
                d,
                hls_download::EventView::Ready { cancelled: false },
            );
            let (next, action) = hls_download::step_of(
                d,
                hls_download::EventView::Key { body, cancelled: false },
            );
            &&& ready == (d, hls_download::ActionView::FetchKey(d.urls[d.asked]))
            &&& body.len() == 16 ==> {
                &&& next.asked == d.asked + 1 && next.urls == d.urls && next.total == d.total
                    && next.max_concurrent == d.max_concurrent && next.done == d.done && next.left
                    == d.left
                &&& next.keys.contains_key(d.urls[d.asked]) && next.keys[d.urls[d.asked]] == body
                &&& forall|url: Seq<char>|
                    #![trigger next.keys.contains_key(url)]
                    #![trigger next.keys[url]]
                    url != d.urls[d.asked] ==> (next.keys.contains_key(url)
                        <==> d.keys.contains_key(url)) && next.keys[url] == d.keys[url]
                &&& d.asked + 1 < d.urls.len() ==> action == hls_download::ActionView::FetchKey(
                    d.urls[d.asked + 1],
                ) && next.stage == hls_download::Stage::Keys
                &&& d.asked + 1 == d.urls.len() ==> action is LookAtFiles && next.stage
                    == hls_download::Stage::Files
            }
            &&& body.len() != 16 ==> hls_ends(
                (next, action),
                Err(HlsErrorView::Playlist("key is not 16 bytes"@)),
                None,
            )
            &&& hls_ends(
                hls_download::step_of(d, hls_download::EventView::Ready { cancelled: true }),
                Err(HlsErrorView::Cancelled),
                None,
            )
            &&& body.len() == 16 ==> hls_ends(
                hls_download::step_of(
                    d,
                    hls_download::EventView::Key { body, cancelled: true },
                ),
                Err(HlsErrorView::Cancelled),
                None,
            )
        }),
{
}

/// Without keys the files are looked at right away, and a playlist without
/// segments is refused.
pub proof fn lemma_hls_ready(d: hls_download::DownloadView, cancelled: bool)
    requires
        d.stage == hls_download::Stage::Keys,
    ensures
        d.total == 0 ==> hls_ends(
            hls_download::step_of(d, hls_download::EventView::Ready { cancelled }),
            Err(HlsErrorView::Playlist("playlist has no segments"@)),
            None,
        ),
        d.total != 0 && !cancelled && d.asked == d.urls.len() ==> hls_download::step_of(
            d,
            hls_download::EventView::Ready { cancelled },
        ).1 is LookAtFiles,
{
}

/// A look at the files starts workers for the missing segments, in order, between
/// 1 and 64 at a time.
pub proof fn lemma_hls_launch(d: hls_download::DownloadView, present: Seq<bool>, i: int)
    requires
        d.stage == hls_download::Stage::Files,
        present.len() == d.total,
        d.total <= usize::MAX,
        0 <= i < present.len(),
    ensures
        ({
            let (next, action) = hls_download::step_of(
                d,
                hls_download::EventView::Files { present },
            );
            let pending = action->pending;
            &&& action is Launch && next.stage == hls_download::Stage::Running
            &&& action->limit == if d.max_concurrent == 0 {
                1
            } else if d.max_concurrent > 64 {
                64
            } else {
                d.max_concurrent as int
            }
            &&& next.done == action->Launch_done && next.left == pending.len() && next.done
                + next.left == d.total && next.total == d.total && next.keys == d.keys
            &&& !present[i] <==> pending.contains(i as usize)
            &&& forall|j: int, k: int|
                0 <= j < k < pending.len() ==> #[trigger] pending[j] < #[trigger] pending[k]
        }),
{
    workers::lemma_split_complete(present);
    let pending = workers::missing(present);
    if pending.contains(i as usize) {
        let k = choose|k: int| 0 <= k < pending.len() && pending[k] == i as usize;
        assert(!present[pending[k] as int]);
    }
}

/// Each stored segment is counted once and reported; what a worker fails with
/// ends the download, as does its loss, and a download whose workers have all
/// ended is complete unless it is cancelled.
pub proof fn lemma_hls_workers(
    d: hls_download::DownloadView,
    e: HlsErrorView,
    why: Seq<char>,
)
    requires
        d.stage == hls_download::Stage::Running,
    ensures
        ({
            let stored = hls_download::WorkerEndView::Stored;
            let failed = hls_download::WorkerEndView::Failed(e);
            let lost = hls_download::WorkerEndView::Lost(why);
            let (next, action) = hls_download::step_of(
                d,
                hls_download::EventView::Worker { end: stored, cancelled: false },
            );
            &&& d.left > 0 ==> next.done == d.done + 1 && next.left == d.left - 1
            &&& next.stage == d.stage && next.total == d.total && next.keys == d.keys
            &&& action == (hls_download::ActionView::Report { done: next.done })
            &&& hls_ends(
                hls_download::step_of(
                    d,
                    hls_download::EventView::Worker { end: failed, cancelled: false },
                ),
                Err(e),
                None,
            )
            &&& hls_ends(
                hls_download::step_of(
                    d,
                    hls_download::EventView::Worker { end: failed, cancelled: true },
                ),
                Err(HlsErrorView::Cancelled),
                Some(d.done),
            )
            &&& forall|cancelled: bool| #[trigger]
                hls_ends(
                    hls_download::step_of(
                        d,
                        hls_download::EventView::Worker { end: lost, cancelled },
                    ),
                    Err(HlsErrorView::Playlist("worker panic: "@ + why)),
                    None,
                )
            &&& hls_ends(
                hls_download::step_of(d, hls_download::EventView::Idle { cancelled: false }),
                Ok(()),
                Some(d.done),
            )
            &&& hls_ends(
                hls_download::step_of(d, hls_download::EventView::Idle { cancelled: true }),
                Err(HlsErrorView::Cancelled),
                Some(d.done),
            )
            &&& hls_ends(
                hls_download::step_of(
                    d,
                    hls_download::EventView::Worker { end: stored, cancelled: true },
                ),
                Err(HlsErrorView::Cancelled),
                Some(next.done),
            )
        }),
{
    assert forall|cancelled: bool| #[trigger]
        hls_ends(
            hls_download::step_of(d, hls_download::EventView::Worker {
                end: hls_download::WorkerEndView::Lost(why),
                cancelled,
            }),
            Err(HlsErrorView::Playlist("worker panic: "@ + why)),
            None,
        ) by {}
}

/// The state after `n` more segments have been stored.
pub open spec fn hls_after(d: hls_download::DownloadView, n: nat) -> hls_download::DownloadView
    decreases n,
{
    if n == 0 {
        d
    } else {
        hls_download::step_of(
            hls_after(d, (n - 1) as nat),
            hls_download::EventView::Worker {
                end: hls_download::WorkerEndView::Stored,
                cancelled: false,
            },
        ).0
    }
}

/// Once every missing segment has been stored, all segments are counted, and the
/// download ends well with that count.
pub proof fn lemma_hls_completes(d: hls_download::DownloadView, n: nat)
    requires
        d.stage == hls_download::Stage::Running,
        d.done + d.left == d.total,
        n <= d.left,
    ensures
        hls_after(d, n).done == d.done + n,
        hls_after(d, n).left == d.left - n,
        hls_after(d, n).stage == hls_download::Stage::Running,
        hls_after(d, n).total == d.total,
        n == d.left ==> hls_ends(
            hls_download::step_of(
                hls_after(d, n),
                hls_download::EventView::Idle { cancelled: false },
            ),
            Ok(()),
            Some(d.total),
        ),
    decreases n,
{
    if n > 0 {
        lemma_hls_completes(d, (n - 1) as nat);
    }
}

/// What fails outside the workers ends the download with its error, at any time,
/// and whatever happens after the end starts nothing.
pub proof fn lemma_hls_trouble(
    d: hls_download::DownloadView,
    e: HlsErrorView,
    event: hls_download::EventView,
)
    ensures
        hls_ends(hls_download::step_of(d, hls_download::EventView::Trouble(e)), Err(e), None),
        d.stage == hls_download::Stage::Over ==> {
            let (next, action) = hls_download::step_of(d, event);
            next.stage == hls_download::Stage::Over && action is Finish && action->result is Err
        },
{
}

// ---------------------------------------------------------------------------
// DASH
// ---------------------------------------------------------------------------

/// Whether a step ends a download with a result.
pub open spec fn dash_ends(
    step: (dash_download::DownloadView, dash_download::ActionView),
    result: Result<(), DashErrorView>,
    report: Option<int>,
) -> bool {
    step.0.stage == dash_download::Stage::Over && step.1 == (dash_download::ActionView::Finish {
        result,
        report,
    })
}

/// A download of media segments begins with the initialization segment, which
/// counts as one more file. It is fetched unless it is there; then workers are
/// started, between 1 and 64 at a time, with one file on disk.
pub proof fn lemma_dash_start(segments: int, n: usize)
    ensures
        ({
            let d = dash_download::download_start(segments, n);
            let there = dash_download::step_of(
                d,
                dash_download::EventView::Ready { present: true },
            );
            &&& dash_download::file_total(d) == segments + 1 && d.segments == segments
                && d.max_concurrent == n
            &&& dash_download::step_of(d, dash_download::EventView::Ready { present: false }) == (
                d,
                dash_download::ActionView::FetchInit,
            )
            &&& dash_download::step_of(d, dash_download::EventView::InitStored) == there
            &&& there.0.stage == dash_download::Stage::Running && there.0.done == 1
                && there.0.segments == segments
            &&& there.1 == (dash_download::ActionView::Launch {
                limit: if n == 0 {
                    1
                } else if n > 64 {
                    64
                } else {
                    n as int
                },
                done: 1,
            })
        }),
{
}

/// Each stored segment is counted once and reported; what a worker fails with
/// ends the download, as does its loss, and a download whose workers have all
/// ended is complete unless it is cancelled.
pub proof fn lemma_dash_workers(
    d: dash_download::DownloadView,
    e: DashErrorView,
    why: Seq<char>,
)
    requires
        d.stage == dash_download::Stage::Running,
    ensures
        ({
            let stored = dash_download::WorkerEndView::Stored;
            let failed = dash_download::WorkerEndView::Failed(e);
            let lost = dash_download::WorkerEndView::Lost(why);
            let (next, action) = dash_download::step_of(
                d,
                dash_download::EventView::Worker { end: stored, cancelled: false },
            );
            &&& d.done < d.segments + 1 ==> next.done == d.done + 1
            &&& next.stage == d.stage && next.segments == d.segments
            &&& action == (dash_download::ActionView::Report { done: next.done })
            &&& dash_ends(
                dash_download::step_of(
                    d,
                    dash_download::EventView::Worker { end: failed, cancelled: false },
                ),
                Err(e),
                None,
            )
            &&& e != DashErrorView::Cancelled ==> dash_ends(
                dash_download::step_of(
                    d,
                    dash_download::EventView::Worker { end: failed, cancelled: true },
                ),
                Err(e),
                None,
            )
            &&& e == DashErrorView::Cancelled ==> dash_ends(
                dash_download::step_of(
                    d,
                    dash_download::EventView::Worker { end: failed, cancelled: true },
                ),
                Err(e),
                Some(d.done),
            )
            &&& forall|cancelled: bool| #[trigger]
                dash_ends(
                    dash_download::step_of(
                        d,
                        dash_download::EventView::Worker { end: lost, cancelled },
                    ),
                    Err(DashErrorView::Manifest("worker panic: "@ + why)),
                    None,
                )
            &&& dash_ends(
                dash_download::step_of(d, dash_download::EventView::Idle { cancelled: false }),
                Ok(()),
                Some(d.done),
            )
            &&& dash_ends(
                dash_download::step_of(d, dash_download::EventView::Idle { cancelled: true }),
                Err(DashErrorView::Cancelled),
                Some(d.done),
            )
            &&& dash_ends(
                dash_download::step_of(
                    d,
                    dash_download::EventView::Worker { end: stored, cancelled: true },
                ),
                Err(DashErrorView::Cancelled),
                Some(next.done),
            )
        }),
{
    assert forall|cancelled: bool| #[trigger]
        dash_ends(
            dash_download::step_of(d, dash_download::EventView::Worker {
                end: dash_download::WorkerEndView::Lost(why),
                cancelled,
            }),
            Err(DashErrorView::Manifest("worker panic: "@ + why)),
            None,
        ) by {}
}

/// The state after `n` media segments have been stored.
pub open spec fn dash_after(d: dash_download::DownloadView, n: nat) -> dash_download::DownloadView
    decreases n,
{
    if n == 0 {
        d
    } else {
        dash_download::step_of(
            dash_after(d, (n - 1) as nat),
            dash_download::EventView::Worker {
                end: dash_download::WorkerEndView::Stored,
                cancelled: false,
            },
        ).0
    }
}

/// Once every media segment has been stored, all files are counted, and the
/// download ends well with that count.
pub proof fn lemma_dash_completes(d: dash_download::DownloadView, n: nat)
    requires
        d.stage == dash_download::Stage::Running,
        d.done == 1,
        n <= d.segments,
    ensures
        dash_after(d, n).done == 1 + n,
        dash_after(d, n).stage == dash_download::Stage::Running,
        dash_after(d, n).segments == d.segments,
        n == d.segments ==> dash_ends(
            dash_download::step_of(
                dash_after(d, n),
                dash_download::EventView::Idle { cancelled: false },
            ),
            Ok(()),
            Some(d.segments + 1),
        ),
    decreases n,
{
    if n > 0 {
        lemma_dash_completes(d, (n - 1) as nat);
    }
}

/// What fails outside the workers ends the download with its error, at any time,
/// and whatever happens after the end starts nothing.
pub proof fn lemma_dash_trouble(
    d: dash_download::DownloadView,
    e: DashErrorView,
    event: dash_download::EventView,
)
    ensures
        dash_ends(dash_download::step_of(d, dash_download::EventView::Trouble(e)), Err(e), None),
        d.stage == dash_download::Stage::Over ==> {
            let (next, action) = dash_download::step_of(d, event);
            next.stage == dash_download::Stage::Over && action is Finish && action->result is Err
        },
{
}

/// The initialization segment comes first in what is put together where it is
/// there, and nothing stands in for it where it is not.
pub proof fn lemma_dash_files(present: Seq<bool>)
    ensures
        dash_download::concat_list(true, present) == seq!["init.mp4"@] + workers::stored_names(
            present,
            ".m4s"@,
        ),
        dash_download::concat_list(false, present) == workers::stored_names(present, ".m4s"@),
{
    assert(Seq::<Seq<char>>::empty() + workers::stored_names(present, ".m4s"@)
        =~= workers::stored_names(present, ".m4s"@));
}

// ---------------------------------------------------------------------------
// Messages
// ---------------------------------------------------------------------------

/// What failed is told with its reason, in the same words by every engine, and a
/// cancelled download is called so by all of them.
pub proof fn lemma_messages(why: Seq<char>)
    ensures
        download::error_message(DownloadErrorView::Http(why)) == "network error: "@ + why,
        download::error_message(DownloadErrorView::Io(why)) == "io error: "@ + why,
        error::error_message(HlsErrorView::Http(why)) == download::error_message(
            DownloadErrorView::Http(why),
        ),
        error::error_message(HlsErrorView::Io(why)) == download::error_message(
            DownloadErrorView::Io(why),
        ),
        manifest::error_message(DashErrorView::Http(why)) == download::error_message(
            DownloadErrorView::Http(why),
        ),
        manifest::error_message(DashErrorView::Io(why)) == download::error_message(
            DownloadErrorView::Io(why),
        ),
        error::error_message(HlsErrorView::Playlist(why)) == "invalid playlist: "@ + why,
        manifest::error_message(DashErrorView::Manifest(why)) == "invalid manifest: "@ + why,
        torrent::error_message(TorrentErrorView::Session(why)) == "torrent error: "@ + why,
        download::error_message(DownloadErrorView::Cancelled) == "cancelled"@,
        error::error_message(HlsErrorView::Cancelled) == "cancelled"@,
        manifest::error_message(DashErrorView::Cancelled) == "cancelled"@,
        torrent::error_message(TorrentErrorView::Cancelled) == "cancelled"@,
        error::error_message(HlsErrorView::UnsupportedEncryption)
            == "segment uses an unsupported encryption method"@,
        error::error_message(HlsErrorView::Decrypt) == "decryption failed"@,
        manifest::error_message(DashErrorView::NoRepresentation)
            == "no downloadable representation"@,
        manifest::error_message(DashErrorView::NoSegmentCount)
            == "cannot determine segment count (no duration or timeline)"@,
{
}

} // verus!
