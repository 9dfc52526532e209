//! Downloading the segments of a representation: what is needed next, and when
//! the download ends.
//!
//! [`DashDownload`] takes what happened and says what to do. Fetching, storing
//! and waiting for workers is the caller's part.

use crate::dash::manifest::{DashError, DashErrorView};
use crate::text;
use crate::workers::worker_limit;
use crate::workers;
use vstd::prelude::*;

verus! {

/// The name of the initialization segment on disk.
pub fn init_name() -> (out: String)
    ensures
        out@ == "init.mp4"@,
{
    "init.mp4".to_owned()
}

/// The name of the media segment with index `i`, counted from 0, on disk.
pub fn segment_name(i: usize) -> (out: String)
    requires
        i < usize::MAX,
    ensures
        out@ == workers::numbered_name(i as int, ".m4s"@),
{
    workers::segment_file(i, ".m4s")
}

/// How a worker ended.
pub enum WorkerEnd {
    /// Its segment is stored.
    Stored,
    /// It failed.
    Failed(DashError),
    /// It did not come back; the text says why.
    Lost(String),
}

/// What happened. `cancelled` tells whether the download is cancelled by now.
pub enum Event {
    /// The directory is there; `present` tells whether the initialization
    /// segment is, and not empty.
    Ready { present: bool },
    /// The initialization segment was fetched and stored.
    InitStored,
    /// A worker ended.
    Worker { end: WorkerEnd, cancelled: bool },
    /// All workers have ended.
    Idle { cancelled: bool },
    /// A request or a file operation outside the workers failed.
    Trouble(DashError),
}

/// What to do next. `done` counts the files on disk, the initialization segment
/// among them.
pub enum Action {
    /// Fetch and store the initialization segment.
    FetchInit,
    /// Report progress, and start a worker for each media segment, no more than
    /// `limit` at a time.
    Launch { limit: usize, done: u64 },
    /// Report progress and wait for the next worker.
    Report { done: u64 },
    /// Stop all workers and end. What `report` counts is to be reported first,
    /// if it is there.
    Finish { result: Result<(), DashError>, report: Option<u64> },
}

/// Where a download stands.
#[derive(Debug, Clone, Copy, PartialEq, Eq, Structural)]
pub enum Stage {
    /// The initialization segment is fetched.
    Init,
    /// Workers are running.
    Running,
    /// The download has ended.
    Over,
}

/// A download of the segments of a representation.
pub struct DashDownload {
    segments: usize,
    max_concurrent: usize,
    stage: Stage,
    done: u64,
}

/// How a worker ended, as a mathematical value.
pub enum WorkerEndView {
    Stored,
    Failed(DashErrorView),
    Lost(Seq<char>),
}

/// What happened, as a mathematical value.
pub enum EventView {
    Ready { present: bool },
    InitStored,
    Worker { end: WorkerEndView, cancelled: bool },
    Idle { cancelled: bool },
    Trouble(DashErrorView),
}

/// What to do next, as a mathematical value.
pub enum ActionView {
    FetchInit,
    Launch { limit: int, done: int },
    Report { done: int },
    Finish { result: Result<(), DashErrorView>, report: Option<int> },
}

/// A download as a mathematical value.
pub struct DownloadView {
    /// How many media segments there are.
    pub segments: int,
    /// How many workers the caller wants at most.
    pub max_concurrent: usize,
    pub stage: Stage,
    /// How many files are on disk, the initialization segment among them.
    pub done: int,
}

impl View for WorkerEnd {
    type V = WorkerEndView;

    open spec fn view(&self) -> WorkerEndView {
        match self {
            WorkerEnd::Stored => WorkerEndView::Stored,
            WorkerEnd::Failed(e) => WorkerEndView::Failed(e@),
            WorkerEnd::Lost(why) => WorkerEndView::Lost(why@),
        }
    }
}

impl View for Event {
    type V = EventView;

    open spec fn view(&self) -> EventView {
        match self {
            Event::Ready { present } => EventView::Ready { present: *present },
            Event::InitStored => EventView::InitStored,
            Event::Worker { end, cancelled } => EventView::Worker {
                end: end@,
                cancelled: *cancelled,
            },
            Event::Idle { cancelled } => EventView::Idle { cancelled: *cancelled },
            Event::Trouble(e) => EventView::Trouble(e@),
        }
    }
}

/// The view of the result of a download.
pub open spec fn result_view(result: Result<(), DashError>) -> Result<(), DashErrorView> {
    match result {
        Ok(()) => Ok(()),
        Err(e) => Err(e@),
    }
}

/// The view of a count that may be absent.
pub open spec fn count_view(n: Option<u64>) -> Option<int> {
    match n {
        Some(n) => Some(n as int),
        None => None,
    }
}

impl View for Action {
    type V = ActionView;

    open spec fn view(&self) -> ActionView {
        match self {
            Action::FetchInit => ActionView::FetchInit,
            Action::Launch { limit, done } => ActionView::Launch {
                limit: *limit as int,
                done: *done as int,
            },
            Action::Report { done } => ActionView::Report { done: *done as int },
            Action::Finish { result, report } => ActionView::Finish {
                result: result_view(*result),
                report: count_view(*report),
            },
        }
    }
}

impl View for DashDownload {
    type V = DownloadView;

    closed spec fn view(&self) -> DownloadView {
        DownloadView {
            segments: self.segments as int,
            max_concurrent: self.max_concurrent,
            stage: self.stage,
            done: self.done as int,
        }
    }
}

/// A download that has not begun.
pub open spec fn download_start(segments: int, max_concurrent: usize) -> DownloadView {
    DownloadView { segments, max_concurrent, stage: Stage::Init, done: 0 }
}

/// How many files a download comes to: the media segments and the
/// initialization segment.
pub open spec fn file_total(d: DownloadView) -> int {
    d.segments + 1
}

/// The end of a download.
pub open spec fn finish(
    d: DownloadView,
    result: Result<(), DashErrorView>,
    report: Option<int>,
) -> (DownloadView, ActionView) {
    (DownloadView { stage: Stage::Over, ..d }, ActionView::Finish { result, report })
}

/// The answer to an event that does not belong to the stage.
pub open spec fn out_of_turn(d: DownloadView) -> (DownloadView, ActionView) {
    finish(d, Err(DashErrorView::Manifest("event out of turn"@)), None)
}

/// The start of the workers, once the initialization segment is there.
pub open spec fn launch(d: DownloadView) -> (DownloadView, ActionView) {
    (
        DownloadView { stage: Stage::Running, done: 1, ..d },
        ActionView::Launch {
            limit: workers::clamped(d.max_concurrent as int, 1, workers::MAX_WORKERS as int),
            done: 1,
        },
    )
}

/// What follows the end of a worker: an error ends the download, except that a
/// worker which was cancelled with it does not count as failed.
pub open spec fn after_worker(d: DownloadView, end: WorkerEndView, cancelled: bool) -> (
    DownloadView,
    ActionView,
) {
    match end {
        WorkerEndView::Stored => {
            let next = if d.done < file_total(d) {
                DownloadView { done: d.done + 1, ..d }
            } else {
                d
            };
            if cancelled {
                finish(next, Err(DashErrorView::Cancelled), Some(next.done))
            } else {
                (next, ActionView::Report { done: next.done })
            }
        },
        WorkerEndView::Failed(e) => if cancelled && e == DashErrorView::Cancelled {
            finish(d, Err(DashErrorView::Cancelled), Some(d.done))
        } else {
            finish(d, Err(e), None)
        },
        WorkerEndView::Lost(why) => finish(
            d,
            Err(DashErrorView::Manifest("worker panic: "@ + why)),
            None,
        ),
    }
}

/// What an event changes, and what is to be done about it. An event that does
/// not belong to the stage ends the download.
pub open spec fn step_of(d: DownloadView, event: EventView) -> (DownloadView, ActionView) {
    match event {
        EventView::Ready { present } => if d.stage == Stage::Init {
            if present {
                launch(d)
            } else {
                (d, ActionView::FetchInit)
            }
        } else {
            out_of_turn(d)
        },
        EventView::InitStored => if d.stage == Stage::Init {
            launch(d)
        } else {
            out_of_turn(d)
        },
        EventView::Worker { end, cancelled } => if d.stage == Stage::Running {
            after_worker(d, end, cancelled)
        } else {
            out_of_turn(d)
        },
        EventView::Idle { cancelled } => if d.stage == Stage::Running {
            finish(
                d,
                if cancelled {
                    Err(DashErrorView::Cancelled)
                } else {
                    Ok(())
                },
                Some(d.done),
            )
        } else {
            out_of_turn(d)
        },
        EventView::Trouble(e) => finish(d, Err(e), None),
    }
}

/// What a worker does when its turn comes.
pub enum Turn {
    /// Give up: the download was cancelled.
    Cancelled,
    /// Nothing: the segment is on disk already.
    Skip,
    /// Fetch and store the segment.
    Fetch,
}

/// What a worker does when its turn comes: a segment that is on disk is not
/// fetched again.
pub fn turn_of(cancelled: bool, present: bool) -> (out: Turn)
    ensures
        out is Cancelled <==> cancelled,
        out is Skip <==> !cancelled && present,
        out is Fetch <==> !cancelled && !present,
{
    if cancelled {
        Turn::Cancelled
    } else if present {
        Turn::Skip
    } else {
        Turn::Fetch
    }
}

impl DashDownload {
    /// Whether the counts belong together.
    pub open spec fn wf(self) -> bool {
        &&& 0 <= self@.segments < u64::MAX
        &&& 0 <= self@.done <= file_total(self@)
    }

    /// A download of `segments` media segments with at most `max_concurrent`
    /// workers.
    pub fn new(segments: usize, max_concurrent: usize) -> (out: DashDownload)
        requires
            segments < u64::MAX,
        ensures
            out.wf(),
            out@ == download_start(segments as int, max_concurrent),
    {
        DashDownload { segments, max_concurrent, stage: Stage::Init, done: 0 }
    }

    /// How many files the download comes to.
    pub fn total(&self) -> (out: u64)
        requires
            self.wf(),
        ensures
            out == file_total(self@),
    {
        self.segments as u64 + 1
    }

    /// Ends the download.
    fn finish(&mut self, result: Result<(), DashError>, report: Option<u64>) -> (out: Action)
        requires
            old(self).wf(),
        ensures
            final(self).wf(),
            (final(self)@, out@) == finish(old(self)@, result_view(result), count_view(report)),
    {
        self.stage = Stage::Over;
        Action::Finish { result, report }
    }

    fn refuse(&mut self) -> (out: Action)
        requires
            old(self).wf(),
        ensures
            final(self).wf(),
            (final(self)@, out@) == out_of_turn(old(self)@),
    {
        self.finish(Err(DashError::Manifest("event out of turn".to_owned())), None)
    }

    /// Starts the workers.
    fn launch(&mut self) -> (out: Action)
        requires
            old(self).wf(),
        ensures
            final(self).wf(),
            (final(self)@, out@) == launch(old(self)@),
    {
        self.stage = Stage::Running;
        self.done = 1;
        Action::Launch { limit: worker_limit(self.max_concurrent), done: 1 }
    }

    /// What follows the end of a worker.
    fn after_worker(&mut self, end: WorkerEnd, cancelled: bool) -> (out: Action)
        requires
            old(self).wf(),
        ensures
            final(self).wf(),
            (final(self)@, out@) == after_worker(old(self)@, end@, cancelled),
    {
        let done: u64 = self.done;
        match end {
            WorkerEnd::Stored => {
                let done: u64 = if done < self.segments as u64 + 1 {
                    done + 1
                } else {
                    done
                };
                self.done = done;
                if cancelled {
                    self.finish(Err(DashError::Cancelled), Some(done))
                } else {
                    Action::Report { done }
                }
            },
            WorkerEnd::Failed(e) => match e {
                DashError::Cancelled => if cancelled {
                    self.finish(Err(DashError::Cancelled), Some(done))
                } else {
                    self.finish(Err(DashError::Cancelled), None)
                },
                e => self.finish(Err(e), None),
            },
            WorkerEnd::Lost(why) => self.finish(
                Err(DashError::Manifest("worker panic: ".to_owned().concat(why.as_str()))),
                None,
            ),
        }
    }

    /// Takes what happened and says what to do next.
    pub fn step(&mut self, event: Event) -> (out: Action)
        requires
            old(self).wf(),
        ensures
            final(self).wf(),
            (final(self)@, out@) == step_of(old(self)@, event@),
    {
        match event {
            Event::Ready { present } => match self.stage {
                Stage::Init => if present {
                    self.launch()
                } else {
                    Action::FetchInit
                },
                _ => self.refuse(),
            },
            Event::InitStored => match self.stage {
                Stage::Init => self.launch(),
                _ => self.refuse(),
            },
            Event::Worker { end, cancelled } => match self.stage {
                Stage::Running => self.after_worker(end, cancelled),
                _ => self.refuse(),
            },
            Event::Idle { cancelled } => match self.stage {
                Stage::Running => {
                    let done: u64 = self.done;
                    if cancelled {
                        self.finish(Err(DashError::Cancelled), Some(done))
                    } else {
                        self.finish(Ok(()), Some(done))
                    }
                },
                _ => self.refuse(),
            },
            Event::Trouble(e) => self.finish(Err(e), None),
        }
    }
}

/// The files of a concatenation: the initialization segment where it is on
/// disk, then the media segments that are.
pub open spec fn concat_list(init: bool, present: Seq<bool>) -> Seq<Seq<char>> {
    (if init {
        seq!["init.mp4"@]
    } else {
        Seq::empty()
    }) + workers::stored_names(present, ".m4s"@)
}

/// The files to concatenate, in order.
pub fn concat_names(init: bool, present: &Vec<bool>) -> (out: Vec<String>)
    ensures
        text::string_views(out@) == concat_list(init, present@),
{
    let mut first: Vec<String> = Vec::new();
    if init {
        first.push(init_name());
        assert(text::string_views(first@) =~= seq!["init.mp4"@]);
    } else {
        assert(text::string_views(first@) =~= Seq::empty());
    }
    workers::stored_files(first, present, ".m4s")
}

// ---------------------------------------------------------------------------
// Laws
// ---------------------------------------------------------------------------

/// Once everything is on disk, the concatenation is the initialization segment
/// followed by every media segment in order.
pub proof fn lemma_concat_complete(present: Seq<bool>)
    requires
        forall|i: int| 0 <= i < present.len() ==> #[trigger] present[i],
    ensures
        concat_list(true, present).len() == present.len() + 1,
        concat_list(true, present)[0] == "init.mp4"@,
        forall|i: int|
            0 <= i < present.len() ==> #[trigger] concat_list(true, present)[i + 1]
                == workers::numbered_name(i, ".m4s"@),
{
    workers::lemma_all_stored(present, ".m4s"@);
}

/// No media segment is fetched before the initialization segment is there.
pub proof fn lemma_init_first(d: DownloadView, event: EventView)
    requires
        d.stage == Stage::Init,
        !(event is InitStored),
        event != (EventView::Ready { present: true }),
    ensures
        !(step_of(d, event).1 is Launch),
        step_of(d, event).0.stage != Stage::Running,
{
}

} // verus!
