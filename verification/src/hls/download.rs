//! Downloading the segments of a playlist: which key, file or segment is needed
//! next, and when the download ends.
//!
//! [`HlsDownload`] takes what happened and says what to do. Fetching, storing
//! and waiting for workers is the caller's part.

use crate::hls::error::{HlsError, HlsErrorView};
use crate::hls::keys::{accept_key, key_urls, KeyCache};
use crate::hls::keys;
use crate::hls::playlist::{Segment, SegmentView};
use crate::hls::playlist;
use crate::text;
use crate::workers::{split_pending, worker_limit};
use crate::workers;
use vstd::prelude::*;

verus! {

/// The name of the segment with index `i`, counted from 0, on disk.
pub fn segment_name(i: usize) -> (out: String)
    requires
        i < usize::MAX,
    ensures
        out@ == workers::numbered_name(i as int, ".ts"@),
{
    workers::segment_file(i, ".ts")
}

/// How a worker ended.
pub enum WorkerEnd {
    /// It stored its segment.
    Stored,
    /// It failed.
    Failed(HlsError),
    /// It did not come back; the text says why.
    Lost(String),
}

/// What happened. `cancelled` tells whether the download is cancelled by now.
pub enum Event {
    /// The directory is there.
    Ready { cancelled: bool },
    /// The key that was asked for is there.
    Key { body: Vec<u8>, cancelled: bool },
    /// For each segment, whether its file is there and not empty.
    Files { present: Vec<bool> },
    /// A worker ended.
    Worker { end: WorkerEnd, cancelled: bool },
    /// All workers have ended.
    Idle { cancelled: bool },
    /// A request or a file operation outside the workers failed.
    Trouble(HlsError),
}

/// What to do next. `done` counts the segments on disk.
pub enum Action {
    /// Fetch the key at the URL.
    FetchKey(String),
    /// Look which segment files are there.
    LookAtFiles,
    /// Report progress, and start a worker for each pending segment, no more
    /// than `limit` at a time.
    Launch { pending: Vec<usize>, limit: usize, done: u64 },
    /// Report progress and wait for the next worker.
    Report { done: u64 },
    /// Stop all workers and end. What `report` counts is to be reported first,
    /// if it is there.
    Finish { result: Result<(), HlsError>, report: Option<u64> },
}

/// Where a download stands.
#[derive(Debug, Clone, Copy, PartialEq, Eq, Structural)]
pub enum Stage {
    /// Keys are fetched.
    Keys,
    /// The files are looked at.
    Files,
    /// Workers are running.
    Running,
    /// The download has ended.
    Over,
}

/// A download of the segments of a playlist.
pub struct HlsDownload {
    total: usize,
    max_concurrent: usize,
    urls: Vec<String>,
    asked: usize,
    keys: KeyCache,
    stage: Stage,
    done: usize,
    left: usize,
}

/// How a worker ended, as a mathematical value.
pub enum WorkerEndView {
    Stored,
    Failed(HlsErrorView),
    Lost(Seq<char>),
}

/// What happened, as a mathematical value.
pub enum EventView {
    Ready { cancelled: bool },
    Key { body: Seq<u8>, cancelled: bool },
    Files { present: Seq<bool> },
    Worker { end: WorkerEndView, cancelled: bool },
    Idle { cancelled: bool },
    Trouble(HlsErrorView),
}

/// What to do next, as a mathematical value.
pub enum ActionView {
    FetchKey(Seq<char>),
    LookAtFiles,
    Launch { pending: Seq<usize>, limit: int, done: int },
    Report { done: int },
    Finish { result: Result<(), HlsErrorView>, report: Option<int> },
}

/// A download as a mathematical value.
pub struct DownloadView {
    /// How many segments there are.
    pub total: int,
    /// How many workers the caller wants at most.
    pub max_concurrent: usize,
    /// The distinct keys, in the order in which they are fetched.
    pub urls: Seq<Seq<char>>,
    /// How many keys have been fetched.
    pub asked: int,
    /// The keys that have been fetched.
    pub keys: Map<Seq<char>, Seq<u8>>,
    pub stage: Stage,
    /// How many segments are on disk.
    pub done: int,
    /// How many segments have still to be fetched.
    pub left: int,
}

impl View for WorkerEnd {
    type V = WorkerEndView;

    open spec fn view(&self) -> WorkerEndView {
        match self {
            WorkerEnd::Stored => WorkerEndView::Stored,
            WorkerEnd::Failed(e) => WorkerEndView::Failed(e@),
            WorkerEnd::Lost(why) => WorkerEndView::Lost(why@),
        }
    }
}

impl View for Event {
    type V = EventView;

    open spec fn view(&self) -> EventView {
        match self {
            Event::Ready { cancelled } => EventView::Ready { cancelled: *cancelled },
            Event::Key { body, cancelled } => EventView::Key {
                body: body@,
                cancelled: *cancelled,
            },
            Event::Files { present } => EventView::Files { present: present@ },
            Event::Worker { end, cancelled } => EventView::Worker {
                end: end@,
                cancelled: *cancelled,
            },
            Event::Idle { cancelled } => EventView::Idle { cancelled: *cancelled },
            Event::Trouble(e) => EventView::Trouble(e@),
        }
    }
}

/// The view of the result of a download.
pub open spec fn result_view(result: Result<(), HlsError>) -> Result<(), HlsErrorView> {
    match result {
        Ok(()) => Ok(()),
        Err(e) => Err(e@),
    }
}

/// The view of a count that may be absent.
pub open spec fn count_view(n: Option<u64>) -> Option<int> {
    match n {
        Some(n) => Some(n as int),
        None => None,
    }
}

impl View for Action {
    type V = ActionView;

    open spec fn view(&self) -> ActionView {
        match self {
            Action::FetchKey(url) => ActionView::FetchKey(url@),
            Action::LookAtFiles => ActionView::LookAtFiles,
            Action::Launch { pending, limit, done } => ActionView::Launch {
                pending: pending@,
                limit: *limit as int,
                done: *done as int,
            },
            Action::Report { done } => ActionView::Report { done: *done as int },
            Action::Finish { result, report } => ActionView::Finish {
                result: result_view(*result),
                report: count_view(*report),
            },
        }
    }
}

impl View for HlsDownload {
    type V = DownloadView;

    closed spec fn view(&self) -> DownloadView {
        DownloadView {
            total: self.total as int,
            max_concurrent: self.max_concurrent,
            urls: text::string_views(self.urls@),
            asked: self.asked as int,
            keys: self.keys@,
            stage: self.stage,
            done: self.done as int,
            left: self.left as int,
        }
    }
}

/// A download that has not begun.
pub open spec fn download_start(segments: Seq<SegmentView>, max_concurrent: usize) -> DownloadView {
    DownloadView {
        total: segments.len() as int,
        max_concurrent,
        urls: keys::key_urls_of(segments),
        asked: 0,
        keys: Map::empty(),
        stage: Stage::Keys,
        done: 0,
        left: 0,
    }
}

/// The end of a download.
pub open spec fn finish(
    d: DownloadView,
    result: Result<(), HlsErrorView>,
    report: Option<int>,
) -> (DownloadView, ActionView) {
    (DownloadView { stage: Stage::Over, ..d }, ActionView::Finish { result, report })
}

/// The next key to fetch or, once all are there, the look at the files.
pub open spec fn next_key(d: DownloadView, cancelled: bool) -> (DownloadView, ActionView) {
    if d.total == 0 {
        finish(d, Err(HlsErrorView::Playlist("playlist has no segments"@)), None)
    } else if cancelled {
        finish(d, Err(HlsErrorView::Cancelled), None)
    } else if d.asked < d.urls.len() {
        (d, ActionView::FetchKey(d.urls[d.asked]))
    } else {
        (DownloadView { stage: Stage::Files, ..d }, ActionView::LookAtFiles)
    }
}

/// What follows the end of a worker: an error ends the download, but whatever a
/// worker fails with once the download is cancelled does not count.
pub open spec fn after_worker(d: DownloadView, end: WorkerEndView, cancelled: bool) -> (
    DownloadView,
    ActionView,
) {
    match end {
        WorkerEndView::Stored => {
            let next = if d.left > 0 {
                DownloadView { done: d.done + 1, left: d.left - 1, ..d }
            } else {
                d
            };
            if cancelled {
                finish(next, Err(HlsErrorView::Cancelled), Some(next.done))
            } else {
                (next, ActionView::Report { done: next.done })
            }
        },
        WorkerEndView::Failed(e) => if cancelled {
            finish(d, Err(HlsErrorView::Cancelled), Some(d.done))
        } else {
            finish(d, Err(e), None)
        },
        WorkerEndView::Lost(why) => finish(
            d,
            Err(HlsErrorView::Playlist("worker panic: "@ + why)),
            None,
        ),
    }
}

/// What an event changes, and what is to be done about it. An event that does
/// not belong to the stage ends the download.
pub open spec fn step_of(d: DownloadView, event: EventView) -> (DownloadView, ActionView) {
    match event {
        EventView::Ready { cancelled } => if d.stage == Stage::Keys {
            next_key(d, cancelled)
        } else {
            out_of_turn(d)
        },
        EventView::Key { body, cancelled } => if d.stage == Stage::Keys && d.asked
            < d.urls.len() {
            if body.len() != 16 {
                finish(d, Err(HlsErrorView::Playlist("key is not 16 bytes"@)), None)
            } else {
                next_key(
                    DownloadView {
                        asked: d.asked + 1,
                        keys: d.keys.insert(d.urls[d.asked], body),
                        ..d
                    },
                    cancelled,
                )
            }
        } else {
            out_of_turn(d)
        },
        EventView::Files { present } => if d.stage == Stage::Files && present.len() == d.total {
            let next = DownloadView {
                stage: Stage::Running,
                done: workers::stored(present) as int,
                left: workers::missing(present).len() as int,
                ..d
            };
            (
                next,
                ActionView::Launch {
                    pending: workers::missing(present),
                    limit: workers::clamped(
                        d.max_concurrent as int,
                        1,
                        workers::MAX_WORKERS as int,
                    ),
                    done: next.done,
                },
            )
        } else {
            out_of_turn(d)
        },
        EventView::Worker { end, cancelled } => if d.stage == Stage::Running {
            after_worker(d, end, cancelled)
        } else {
            out_of_turn(d)
        },
        EventView::Idle { cancelled } => if d.stage == Stage::Running {
            finish(
                d,
                if cancelled {
                    Err(HlsErrorView::Cancelled)
                } else {
                    Ok(())
                },
                Some(d.done),
            )
        } else {
            out_of_turn(d)
        },
        EventView::Trouble(e) => finish(d, Err(e), None),
    }
}

/// The answer to an event that does not belong to the stage.
pub open spec fn out_of_turn(d: DownloadView) -> (DownloadView, ActionView) {
    finish(d, Err(HlsErrorView::Playlist("event out of turn"@)), None)
}

impl HlsDownload {
    /// Whether the counts belong together.
    pub open spec fn wf(self) -> bool {
        &&& 0 <= self@.asked <= self@.urls.len()
        &&& 0 <= self@.done && 0 <= self@.left
        &&& self@.done + self@.left <= self@.total <= usize::MAX
        &&& self@.stage == Stage::Running ==> self@.done + self@.left == self@.total
    }

    /// A download of `segments` with at most `max_concurrent` workers.
    pub fn new(segments: &Vec<Segment>, max_concurrent: usize) -> (out: HlsDownload)
        ensures
            out.wf(),
            out@ == download_start(playlist::segment_views(segments@), max_concurrent),
    {
        HlsDownload {
            total: segments.len(),
            max_concurrent,
            urls: key_urls(segments),
            asked: 0,
            keys: KeyCache::new(),
            stage: Stage::Keys,
            done: 0,
            left: 0,
        }
    }

    /// How many segments there are.
    pub fn total(&self) -> (out: usize)
        ensures
            out == self@.total,
    {
        self.total
    }

    /// The keys that have been fetched.
    pub fn keys(&self) -> (out: KeyCache)
        ensures
            out@ == self@.keys,
    {
        self.keys.clone()
    }

    /// Ends the download.
    fn finish(&mut self, result: Result<(), HlsError>, report: Option<u64>) -> (out: Action)
        requires
            old(self).wf(),
        ensures
            final(self).wf(),
            (final(self)@, out@) == finish(old(self)@, result_view(result), count_view(report)),
    {
        self.stage = Stage::Over;
        Action::Finish { result, report }
    }

    fn refuse(&mut self) -> (out: Action)
        requires
            old(self).wf(),
        ensures
            final(self).wf(),
            (final(self)@, out@) == out_of_turn(old(self)@),
    {
        self.finish(Err(HlsError::Playlist("event out of turn".to_owned())), None)
    }

    /// The next key to fetch or, once all are there, the look at the files.
    fn next_key(&mut self, cancelled: bool) -> (out: Action)
        requires
            old(self).wf(),
            old(self)@.stage == Stage::Keys,
        ensures
            final(self).wf(),
            (final(self)@, out@) == next_key(old(self)@, cancelled),
    {
        if self.total == 0 {
            return self.finish(
                Err(HlsError::Playlist("playlist has no segments".to_owned())),
                None,
            );
        }
        if cancelled {
            return self.finish(Err(HlsError::Cancelled), None);
        }
        if self.asked < self.urls.len() {
            assert(self@.urls[self.asked as int] == self.urls@[self.asked as int]@);
            Action::FetchKey(self.urls[self.asked].clone())
        } else {
            self.stage = Stage::Files;
            Action::LookAtFiles
        }
    }

    /// What follows the end of a worker.
    fn after_worker(&mut self, end: WorkerEnd, cancelled: bool) -> (out: Action)
        requires
            old(self).wf(),
            old(self)@.stage == Stage::Running,
        ensures
            final(self).wf(),
            (final(self)@, out@) == after_worker(old(self)@, end@, cancelled),
    {
        match end {
            WorkerEnd::Stored => {
                if self.left > 0 {
                    self.left = self.left - 1;
                    self.done = self.done + 1;
                }
                let done: u64 = self.done as u64;
                if cancelled {
                    self.finish(Err(HlsError::Cancelled), Some(done))
                } else {
                    Action::Report { done }
                }
            },
            WorkerEnd::Failed(e) => if cancelled {
                let done: u64 = self.done as u64;
                self.finish(Err(HlsError::Cancelled), Some(done))
            } else {
                self.finish(Err(e), None)
            },
            WorkerEnd::Lost(why) => self.finish(
                Err(HlsError::Playlist("worker panic: ".to_owned().concat(why.as_str()))),
                None,
            ),
        }
    }

    /// Takes what happened and says what to do next.
    pub fn step(&mut self, event: Event) -> (out: Action)
        requires
            old(self).wf(),
        ensures
            final(self).wf(),
            (final(self)@, out@) == step_of(old(self)@, event@),
    {
        match event {
            Event::Ready { cancelled } => match self.stage {
                Stage::Keys => self.next_key(cancelled),
                _ => self.refuse(),
            },
            Event::Key { body, cancelled } => {
                let asked: usize = self.asked;
                if self.stage == Stage::Keys && asked < self.urls.len() {
                    match accept_key(&body) {
                        Ok(key) => {
                            assert(self@.urls[asked as int] == self.urls@[asked as int]@);
                            let url = self.urls[asked].clone();
                            self.keys.insert(url, key);
                            self.asked = asked + 1;
                            self.next_key(cancelled)
                        },
                        Err(e) => self.finish(Err(e), None),
                    }
                } else {
                    self.refuse()
                }
            },
            Event::Files { present } => {
                if self.stage == Stage::Files && present.len() == self.total {
                    let (done, pending) = split_pending(&present);
                    proof {
                        workers::lemma_split_complete(present@);
                    }
                    self.done = done as usize;
                    self.left = pending.len();
                    self.stage = Stage::Running;
                    let limit: usize = worker_limit(self.max_concurrent);
                    Action::Launch { pending, limit, done }
                } else {
                    self.refuse()
                }
            },
            Event::Worker { end, cancelled } => match self.stage {
                Stage::Running => self.after_worker(end, cancelled),
                _ => self.refuse(),
            },
            Event::Idle { cancelled } => match self.stage {
                Stage::Running => {
                    let done: u64 = self.done as u64;
                    if cancelled {
                        self.finish(Err(HlsError::Cancelled), Some(done))
                    } else {
                        self.finish(Ok(()), Some(done))
                    }
                },
                _ => self.refuse(),
            },
            Event::Trouble(e) => self.finish(Err(e), None),
        }
    }
}

/// The files to concatenate: the segments that are on disk, in order.
pub fn concat_names(present: &Vec<bool>) -> (out: Vec<String>)
    ensures
        text::string_views(out@) == workers::stored_names(present@, ".ts"@),
{
    let first: Vec<String> = Vec::new();
    let out = workers::stored_files(first, present, ".ts");
    assert(text::string_views(out@) =~= workers::stored_names(present@, ".ts"@));
    out
}

// ---------------------------------------------------------------------------
// Laws
// ---------------------------------------------------------------------------

/// Whether the keys fetched so far are those of the first URLs.
pub open spec fn keys_cover(d: DownloadView) -> bool {
    forall|k: int| 0 <= k < d.asked <= d.urls.len() ==> d.keys.contains_key(#[trigger] d.urls[k])
}

/// Workers are launched only once every key has been fetched.
pub proof fn lemma_launch_needs_keys(d: DownloadView, event: EventView)
    requires
        keys_cover(d),
        0 <= d.asked <= d.urls.len(),
        d.stage == Stage::Files || d.stage == Stage::Running ==> d.asked == d.urls.len(),
    ensures
        keys_cover(step_of(d, event).0),
        0 <= step_of(d, event).0.asked <= d.urls.len(),
        step_of(d, event).0.stage == Stage::Files || step_of(d, event).0.stage == Stage::Running
            ==> step_of(d, event).0.asked == d.urls.len(),
        step_of(d, event).1 is Launch ==> step_of(d, event).0.asked == d.urls.len(),
{
}

/// A download that is cancelled never ends well: the next event that tells of
/// it ends it as cancelled, unless a worker was lost or something failed.
pub proof fn lemma_cancelled_ends(d: DownloadView)
    requires
        d.stage == Stage::Running,
    ensures
        step_of(d, EventView::Idle { cancelled: true }).1 matches ActionView::Finish {
            result,
            ..
        } && result == Err::<(), HlsErrorView>(HlsErrorView::Cancelled),
        step_of(
            d,
            EventView::Worker { end: WorkerEndView::Stored, cancelled: true },
        ).1 matches ActionView::Finish { result, .. } && result == Err::<(), HlsErrorView>(
            HlsErrorView::Cancelled,
        ),
{
}

/// Where the files say that a segment is on disk it is not fetched again; all
/// others are.
pub proof fn lemma_resume(d: DownloadView, present: Seq<bool>)
    requires
        d.stage == Stage::Files,
        present.len() == d.total,
        d.total <= usize::MAX,
    ensures
        step_of(d, EventView::Files { present }).1 matches ActionView::Launch {
            pending,
            done,
            ..
        } && done + pending.len() == d.total && forall|i: int|
            0 <= i < d.total ==> (#[trigger] present[i] <==> !pending.contains(i as usize)),
{
    workers::lemma_split_complete(present);
    let pending = workers::missing(present);
    assert forall|i: int| 0 <= i < d.total implies (#[trigger] present[i] <==> !pending.contains(
        i as usize,
    )) by {
        if pending.contains(i as usize) {
            let k = choose|k: int| 0 <= k < pending.len() && pending[k] == i as usize;
            assert(!present[pending[k] as int]);
        }
    }
}

} // verus!
