//! Multi-connection HTTP downloads: how a file is cut into ranges, and when the
//! download ends.

use crate::model;
use crate::text;
use crate::workers;
use vstd::prelude::*;

verus! {

/// Why a file could not be downloaded.
#[derive(Debug)]
pub enum DownloadError {
    /// A request failed; the text says why.
    Http(String),
    /// A file operation failed; the text says why.
    Io(String),
    /// The download was cancelled.
    Cancelled,
}

/// An error as a mathematical value.
pub enum DownloadErrorView {
    Http(Seq<char>),
    Io(Seq<char>),
    Cancelled,
}

impl View for DownloadError {
    type V = DownloadErrorView;

    open spec fn view(&self) -> DownloadErrorView {
        match self {
            DownloadError::Http(m) => DownloadErrorView::Http(m@),
            DownloadError::Io(m) => DownloadErrorView::Io(m@),
            DownloadError::Cancelled => DownloadErrorView::Cancelled,
        }
    }
}

/// The message shown for an error.
pub open spec fn error_message(e: DownloadErrorView) -> Seq<char> {
    match e {
        DownloadErrorView::Http(m) => "network error: "@ + m,
        DownloadErrorView::Io(m) => "io error: "@ + m,
        DownloadErrorView::Cancelled => "cancelled"@,
    }
}

impl DownloadError {
    /// The message shown for the error.
    pub fn message(&self) -> (out: String)
        ensures
            out@ == error_message(self@),
    {
        match self {
            DownloadError::Http(m) => "network error: ".to_owned().concat(m.as_str()),
            DownloadError::Io(m) => "io error: ".to_owned().concat(m.as_str()),
            DownloadError::Cancelled => "cancelled".to_owned(),
        }
    }
}

/// The number of connections where none is asked for.
pub const DEFAULT_CONNECTIONS: usize = 16;

/// The largest number of connections.
pub const MAX_CONNECTIONS: usize = 32;

// ---------------------------------------------------------------------------
// Ranges
// ---------------------------------------------------------------------------

/// The byte ranges, first and last byte included, that the connections fetch:
/// equal parts, the last of which takes the remainder. A file with fewer bytes
/// than connections is a single range.
pub open spec fn ranges_of(total: u64, connections: usize) -> Seq<(u64, u64)> {
    let conns = workers::clamped(connections as int, 1, MAX_CONNECTIONS as int);
    let chunk = total as int / conns;
    if chunk == 0 {
        seq![(0u64, (total - 1) as u64)]
    } else {
        Seq::new(
            conns as nat,
            |i: int|
                (
                    (i * chunk) as u64,
                    (if i + 1 == conns {
                        total - 1
                    } else {
                        (i + 1) * chunk - 1
                    }) as u64,
                ),
        )
    }
}

/// The byte ranges that the connections fetch.
pub fn plan_ranges(total: u64, connections: usize) -> (out: Vec<(u64, u64)>)
    requires
        total > 0,
    ensures
        out@ == ranges_of(total, connections),
{
    let conns: usize = if connections < 1 {
        1
    } else if connections > MAX_CONNECTIONS {
        MAX_CONNECTIONS
    } else {
        connections
    };
    let chunk: u64 = total / conns as u64;
    let mut out: Vec<(u64, u64)> = Vec::new();
    if chunk == 0 {
        out.push((0, total - 1));
        assert(out@ =~= ranges_of(total, connections));
        return out;
    }
    proof {
        vstd::arithmetic::div_mod::lemma_fundamental_div_mod(total as int, conns as int);
    }
    assert(conns * chunk <= total);
    let mut i: usize = 0;
    while i < conns
        invariant
            i <= conns,
            1 <= conns <= MAX_CONNECTIONS,
            conns == workers::clamped(connections as int, 1, MAX_CONNECTIONS as int),
            chunk == total as int / conns as int,
            chunk > 0,
            total > 0,
            conns * chunk <= total,
            out@ == ranges_of(total, connections).take(i as int),
        decreases conns - i,
    {
        assert(0 <= i * chunk && (i + 1) * chunk == i * chunk + chunk && (i + 1) * chunk <= conns
            * chunk) by (nonlinear_arith)
            requires
                0 <= i < conns,
                chunk > 0,
        ;
        let start: u64 = i as u64 * chunk;
        let end: u64 = if i + 1 == conns {
            total - 1
        } else {
            start + chunk - 1
        };
        out.push((start, end));
        i += 1;
        assert(out@ =~= ranges_of(total, connections).take(i as int));
    }
    assert(out@ =~= ranges_of(total, connections));
    out
}

/// The ranges cut the file up: the first starts at its first byte, each other
/// right after the one before it, the last ends at its last byte, and none is
/// empty. There are no more of them than connections are allowed.
pub proof fn lemma_ranges_partition(total: u64, connections: usize)
    requires
        total > 0,
    ensures
        0 < ranges_of(total, connections).len() <= workers::clamped(
            connections as int,
            1,
            MAX_CONNECTIONS as int,
        ),
        ranges_of(total, connections)[0].0 == 0,
        ranges_of(total, connections).last().1 == total - 1,
        forall|i: int|
            0 <= i < ranges_of(total, connections).len() ==> (
            #[trigger] ranges_of(total, connections)[i]).0 <= ranges_of(total, connections)[i].1,
        forall|i: int|
            0 < i < ranges_of(total, connections).len() ==> (
            #[trigger] ranges_of(total, connections)[i]).0 == ranges_of(total, connections)[i
                - 1].1 + 1,
{
    let conns = workers::clamped(connections as int, 1, MAX_CONNECTIONS as int);
    let chunk = total as int / conns;
    let ranges = ranges_of(total, connections);
    vstd::arithmetic::div_mod::lemma_fundamental_div_mod(total as int, conns);
    if chunk != 0 {
        assert(chunk > 0) by (nonlinear_arith)
            requires
                chunk == total as int / conns,
                chunk != 0,
                conns >= 1,
                total >= 0,
        ;
        assert forall|i: int| 0 <= i < conns implies 0 <= i * chunk && #[trigger] (i * chunk)
            + chunk <= total && (i + 1) * chunk == i * chunk + chunk by {
            assert(0 <= i * chunk && (i + 1) * chunk == i * chunk + chunk && (i + 1) * chunk
                <= conns * chunk) by (nonlinear_arith)
                requires
                    0 <= i < conns,
                    chunk > 0,
            ;
        }
        assert(0 * chunk == 0);
        assert(ranges[0].0 == 0);
        assert forall|i: int| 0 <= i < ranges.len() implies (#[trigger] ranges[i]).0
            <= ranges[i].1 by {
            assert(i * chunk + chunk <= total);
        }
        assert forall|i: int| 0 < i < ranges.len() implies (#[trigger] ranges[i]).0 == ranges[i
            - 1].1 + 1 by {
            let k = i - 1;
            assert(k * chunk + chunk <= total);
            assert(i * chunk + chunk <= total);
            assert((k + 1) * chunk == i * chunk);
        }
    }
}

/// The value of the `Range` header that asks for a range.
pub fn range_header(start: u64, end: u64) -> (out: String)
    ensures
        out@ == "bytes="@ + text::decimal(start as nat) + "-"@ + text::decimal(end as nat),
{
    let mut out = "bytes=".to_owned();
    out.append(text::decimal_of(start).as_str());
    out.append("-");
    out.append(text::decimal_of(end).as_str());
    out
}

// ---------------------------------------------------------------------------
// The size of a file
// ---------------------------------------------------------------------------

/// The size that a `Content-Length` header states.
pub fn size_from_length(value: &str) -> (out: Option<u64>)
    ensures
        out == text::parse_u64(value@),
{
    text::to_u64(&text::chars_of(value))
}

/// The size that a `Content-Range` header states: what stands behind its last
/// slash. 0 where there is no such header or it states no size.
pub open spec fn range_size(value: Option<Seq<char>>) -> u64 {
    match value {
        Some(value) => match text::parse_u64(text::after_last(value, seq!['/'])) {
            Some(total) => total,
            None => 0,
        },
        None => 0,
    }
}

/// The size that a `Content-Range` header states, 0 where it states none.
pub fn size_from_range(value: &Option<String>) -> (out: u64)
    ensures
        out == range_size(
            match value {
                Some(v) => Some(v@),
                None => None,
            },
        ),
{
    match value {
        Some(value) => {
            let slash = vec!['/'];
            assert(slash@ =~= seq!['/']);
            let tail = text::cut_after_last(&text::chars_of(value.as_str()), &slash);
            match text::to_u64(&tail) {
                Some(total) => total,
                None => 0,
            }
        },
        None => 0,
    }
}

/// What happened while the size of a file is asked for.
#[derive(Debug)]
pub enum ProbeEvent {
    /// The download begins.
    Start { cancelled: bool },
    /// The answer to the `HEAD` request came, with its `Content-Length`, or none
    /// did.
    Head { length: Option<String> },
    /// The answer to the `GET` request came, with its `Content-Range`.
    Range { value: Option<String> },
}

/// What to do next to learn the size of a file.
#[derive(Debug)]
pub enum ProbeStep {
    /// End the download, which was cancelled.
    Cancelled,
    /// Send a `HEAD` request.
    SendHead,
    /// Send a `GET` request for the first byte.
    SendGet,
    /// The size, 0 where it is not known.
    Size(u64),
}

/// What to do next to learn the size of a file: the answer to a `HEAD` request
/// counts where it states a size, else that to a `GET` request does.
pub fn probe_step(event: &ProbeEvent) -> (out: ProbeStep)
    ensures
        out == match event {
            ProbeEvent::Start { cancelled } => if *cancelled {
                ProbeStep::Cancelled
            } else {
                ProbeStep::SendHead
            },
            ProbeEvent::Head { length } => match model::text_view(*length) {
                Some(value) => match text::parse_u64(value) {
                    Some(total) => ProbeStep::Size(total),
                    None => ProbeStep::SendGet,
                },
                None => ProbeStep::SendGet,
            },
            ProbeEvent::Range { value } => ProbeStep::Size(range_size(model::text_view(*value))),
        },
{
    match event {
        ProbeEvent::Start { cancelled } => if *cancelled {
            ProbeStep::Cancelled
        } else {
            ProbeStep::SendHead
        },
        ProbeEvent::Head { length } => match length {
            Some(value) => match size_from_length(value.as_str()) {
                Some(total) => ProbeStep::Size(total),
                None => ProbeStep::SendGet,
            },
            None => ProbeStep::SendGet,
        },
        ProbeEvent::Range { value } => ProbeStep::Size(size_from_range(value)),
    }
}

/// How a file is fetched.
#[derive(Debug)]
pub enum Transfer {
    /// As one stream, for its size is not known.
    Single,
    /// In ranges, first and last byte included.
    Ranges(Vec<(u64, u64)>),
}

/// How a file of `total` bytes is fetched, 0 where the size is not known.
pub fn plan_transfer(total: u64, connections: usize, cancelled: bool) -> (out: Result<
    Transfer,
    DownloadError,
>)
    ensures
        match out {
            Ok(Transfer::Single) => total == 0,
            Ok(Transfer::Ranges(ranges)) => total > 0 && !cancelled && ranges@ == ranges_of(
                total,
                connections,
            ),
            Err(e) => total > 0 && cancelled && e@ == DownloadErrorView::Cancelled,
        },
{
    if total == 0 {
        Ok(Transfer::Single)
    } else if cancelled {
        Err(DownloadError::Cancelled)
    } else {
        Ok(Transfer::Ranges(plan_ranges(total, connections)))
    }
}

/// How a worker ended.
pub enum WorkerEnd {
    /// It stored its range.
    Stored,
    /// It failed.
    Failed(DownloadError),
    /// It did not come back; the text says why.
    Lost(String),
}

/// What happened while ranges are fetched.
pub enum Event {
    /// It is time to report progress; `done` counts the bytes on disk.
    Tick { done: u64 },
    /// The download was cancelled.
    CancelSeen,
    /// A worker ended.
    Worker(WorkerEnd),
    /// All workers have ended.
    Idle,
}

/// What to do next.
pub enum Action {
    /// Report that `done` bytes are on disk, and wait.
    Report { done: u64 },
    /// Wait.
    Wait,
    /// Stop all workers and give up with the error.
    Stop(DownloadError),
    /// Report that all bytes are on disk, and end.
    Complete,
}

/// How a worker ended, as a mathematical value.
pub enum WorkerEndView {
    Stored,
    Failed(DownloadErrorView),
    Lost(Seq<char>),
}

/// What happened, as a mathematical value.
pub enum EventView {
    Tick { done: u64 },
    CancelSeen,
    Worker(WorkerEndView),
    Idle,
}

/// What to do next, as a mathematical value.
pub enum ActionView {
    Report { done: u64 },
    Wait,
    Stop(DownloadErrorView),
    Complete,
}

impl View for WorkerEnd {
    type V = WorkerEndView;

    open spec fn view(&self) -> WorkerEndView {
        match self {
            WorkerEnd::Stored => WorkerEndView::Stored,
            WorkerEnd::Failed(e) => WorkerEndView::Failed(e@),
            WorkerEnd::Lost(why) => WorkerEndView::Lost(why@),
        }
    }
}

impl View for Event {
    type V = EventView;

    open spec fn view(&self) -> EventView {
        match self {
            Event::Tick { done } => EventView::Tick { done: *done },
            Event::CancelSeen => EventView::CancelSeen,
            Event::Worker(end) => EventView::Worker(end@),
            Event::Idle => EventView::Idle,
        }
    }
}

impl View for Action {
    type V = ActionView;

    open spec fn view(&self) -> ActionView {
        match self {
            Action::Report { done } => ActionView::Report { done: *done },
            Action::Wait => ActionView::Wait,
            Action::Stop(e) => ActionView::Stop(e@),
            Action::Complete => ActionView::Complete,
        }
    }
}

/// What follows an event: the first worker that fails ends the download, and so
/// does its cancellation.
pub open spec fn action_for(event: EventView) -> ActionView {
    match event {
        EventView::Tick { done } => ActionView::Report { done },
        EventView::CancelSeen => ActionView::Stop(DownloadErrorView::Cancelled),
        EventView::Worker(WorkerEndView::Stored) => ActionView::Wait,
        EventView::Worker(WorkerEndView::Failed(e)) => ActionView::Stop(e),
        EventView::Worker(WorkerEndView::Lost(why)) => ActionView::Stop(
            DownloadErrorView::Io(why),
        ),
        EventView::Idle => ActionView::Complete,
    }
}

/// Takes what happened while ranges are fetched and says what to do next.
pub fn next_action(event: Event) -> (out: Action)
    ensures
        out@ == action_for(event@),
{
    match event {
        Event::Tick { done } => Action::Report { done },
        Event::CancelSeen => Action::Stop(DownloadError::Cancelled),
        Event::Worker(end) => match end {
            WorkerEnd::Stored => Action::Wait,
            WorkerEnd::Failed(e) => Action::Stop(e),
            WorkerEnd::Lost(why) => Action::Stop(DownloadError::Io(why)),
        },
        Event::Idle => Action::Complete,
    }
}

} // verus!
