//! The queue of download tasks.

use crate::download::DEFAULT_CONNECTIONS;
use crate::downloader::names::detect_kind;
use crate::downloader::names;
use crate::downloader::settings::{Settings, SettingsView, MAX_CONCURRENT};
use crate::downloader::settings;
use crate::http::copy_headers;
use crate::http;
use crate::model::{copy_text, DownloadTask, FinishedEvent, FinishedView, TaskView};
use crate::model;
use crate::text;
use vstd::prelude::*;

verus! {

/// A task with the headers that its requests are sent with, and whether its
/// workers are told to stop: those of earlier runs, which may not have ended
/// yet, and that of the present one.
struct TaskEntry {
    task: DownloadTask,
    headers: Vec<(String, String)>,
    earlier: Vec<bool>,
    cancel: bool,
}

/// The queue of download tasks, with the settings.
pub struct DownloadManager {
    next_id: u64,
    entries: Vec<TaskEntry>,
    settings: Settings,
}

/// A task with its headers, as a mathematical value.
pub struct EntryView {
    pub task: TaskView,
    pub headers: Seq<(Seq<char>, Seq<char>)>,
    /// Whether the workers of earlier runs are told to stop, by run.
    pub earlier: Seq<bool>,
    /// Whether the worker of the present run is told to stop.
    pub cancel: bool,
}

/// The queue as a mathematical value.
pub struct QueueView {
    /// The id that was given last.
    pub next_id: u64,
    /// The tasks by id, smallest first.
    pub tasks: Seq<EntryView>,
    pub settings: SettingsView,
}

impl View for TaskEntry {
    type V = EntryView;

    closed spec fn view(&self) -> EntryView {
        EntryView {
            task: self.task@,
            headers: http::header_views(self.headers@),
            earlier: self.earlier@,
            cancel: self.cancel,
        }
    }
}

/// The views of some entries.
spec fn entry_views(entries: Seq<TaskEntry>) -> Seq<EntryView> {
    entries.map_values(|e: TaskEntry| e@)
}

impl View for DownloadManager {
    type V = QueueView;

    closed spec fn view(&self) -> QueueView {
        QueueView {
            next_id: self.next_id,
            tasks: entry_views(self.entries@),
            settings: self.settings@,
        }
    }
}

/// Whether tasks stand by id, each id once.
pub open spec fn by_id(tasks: Seq<EntryView>) -> bool {
    forall|i: int, j: int|
        0 <= i < j < tasks.len() ==> (#[trigger] tasks[i]).task.id < (#[trigger] tasks[j]).task.id
}

/// How many tasks at the front have a smaller id.
pub open spec fn below(tasks: Seq<EntryView>, id: u64) -> int
    decreases tasks.len(),
{
    if tasks.len() == 0 || tasks[0].task.id >= id {
        0
    } else {
        1 + below(tasks.drop_first(), id)
    }
}

/// Whether there is a task with an id.
pub open spec fn has_task(tasks: Seq<EntryView>, id: u64) -> bool {
    below(tasks, id) < tasks.len() && tasks[below(tasks, id)].task.id == id
}

/// The task with an id.
pub open spec fn task_at(tasks: Seq<EntryView>, id: u64) -> EntryView {
    tasks[below(tasks, id)]
}

/// The tasks with one put in its place; it replaces a task with its id.
pub open spec fn put(tasks: Seq<EntryView>, entry: EntryView) -> Seq<EntryView> {
    let at = below(tasks, entry.task.id);
    if has_task(tasks, entry.task.id) {
        tasks.update(at, entry)
    } else {
        tasks.insert(at, entry)
    }
}

/// The tasks with the one with an id replaced by `entry`; unchanged where there
/// is none.
pub open spec fn replaced(tasks: Seq<EntryView>, id: u64, entry: EntryView) -> Seq<EntryView> {
    if has_task(tasks, id) {
        tasks.update(below(tasks, id), entry)
    } else {
        tasks
    }
}

/// A task with another status, and no error.
pub open spec fn with_status(entry: EntryView, status: Seq<char>) -> EntryView {
    EntryView { task: TaskView { status, error: None, ..entry.task }, ..entry }
}

// ---------------------------------------------------------------------------
// Looking up
// ---------------------------------------------------------------------------

/// Where `below` lands among tasks by id: smaller ids before it, none after it.
pub proof fn lemma_below(tasks: Seq<EntryView>, id: u64)
    requires
        by_id(tasks),
    ensures
        0 <= below(tasks, id) <= tasks.len(),
        forall|i: int| 0 <= i < below(tasks, id) ==> (#[trigger] tasks[i]).task.id < id,
        forall|i: int| below(tasks, id) <= i < tasks.len() ==> (#[trigger] tasks[i]).task.id >= id,
    decreases tasks.len(),
{
    if tasks.len() > 0 && tasks[0].task.id < id {
        let rest = tasks.drop_first();
        assert forall|i: int, j: int| 0 <= i < j < rest.len() implies (#[trigger] rest[i]).task.id
            < (#[trigger] rest[j]).task.id by {
            assert(rest[i] == tasks[i + 1] && rest[j] == tasks[j + 1]);
        }
        lemma_below(rest, id);
        assert forall|i: int| 0 <= i < below(tasks, id) implies (#[trigger] tasks[i]).task.id
            < id by {
            if i > 0 {
                assert(tasks[i] == rest[i - 1]);
            }
        }
        assert forall|i: int| below(tasks, id) <= i < tasks.len() implies (
        #[trigger] tasks[i]).task.id >= id by {
            assert(tasks[i] == rest[i - 1]);
        }
    }
}

/// A task is found by its id wherever it stands.
pub proof fn lemma_found(tasks: Seq<EntryView>, i: int)
    requires
        by_id(tasks),
        0 <= i < tasks.len(),
    ensures
        has_task(tasks, tasks[i].task.id),
        below(tasks, tasks[i].task.id) == i,
{
    let id = tasks[i].task.id;
    lemma_below(tasks, id);
    let p = below(tasks, id);
    if p < i {
        assert(tasks[p].task.id < tasks[i].task.id);
    }
}

/// Putting a task in its place keeps the order, and the task is then found;
/// every other task is as it was.
pub proof fn lemma_put(tasks: Seq<EntryView>, entry: EntryView, other: u64)
    requires
        by_id(tasks),
    ensures
        by_id(put(tasks, entry)),
        has_task(put(tasks, entry), entry.task.id),
        task_at(put(tasks, entry), entry.task.id) == entry,
        other != entry.task.id ==> has_task(put(tasks, entry), other) == has_task(tasks, other),
        other != entry.task.id && has_task(tasks, other) ==> task_at(put(tasks, entry), other)
            == task_at(tasks, other),
{
    let id = entry.task.id;
    let p = below(tasks, id);
    let out = put(tasks, entry);
    lemma_below(tasks, id);
    assert(by_id(out));
    assert(out[p] == entry);
    lemma_found(out, p);
    if other != id {
        lemma_below(tasks, other);
        lemma_below(out, other);
        if has_task(tasks, other) {
            let q = below(tasks, other);
            let r = if has_task(tasks, id) || q < p {
                q
            } else {
                q + 1
            };
            assert(out[r] == tasks[q]);
            lemma_found(out, r);
        } else if has_task(out, other) {
            let r = below(out, other);
            let q = if has_task(tasks, id) || r < p {
                r
            } else {
                r - 1
            };
            assert(out[r] == tasks[q]);
            lemma_found(tasks, q);
        }
    }
}

/// A task whose id is larger than all others goes to the end.
pub proof fn lemma_put_last(tasks: Seq<EntryView>, entry: EntryView)
    requires
        by_id(tasks),
        forall|i: int| 0 <= i < tasks.len() ==> (#[trigger] tasks[i]).task.id < entry.task.id,
    ensures
        put(tasks, entry) == tasks.push(entry),
{
    lemma_below(tasks, entry.task.id);
    let p = below(tasks, entry.task.id);
    if p < tasks.len() {
        assert(tasks[p].task.id < entry.task.id);
    }
    assert(put(tasks, entry) =~= tasks.push(entry));
}

/// Changing a task under its id keeps the order.
proof fn lemma_replaced(tasks: Seq<EntryView>, id: u64, entry: EntryView)
    requires
        by_id(tasks),
        entry.task.id == id,
    ensures
        by_id(replaced(tasks, id, entry)),
{
    lemma_below(tasks, id);
}

impl DownloadManager {
    /// Whether the tasks stand by id, each id once, and at least one of them
    /// may run.
    pub open spec fn wf(self) -> bool {
        by_id(self@.tasks) && self@.settings.max_concurrent >= 1
    }

    /// The position of the first task whose id is not smaller.
    fn position(&self, id: u64) -> (out: usize)
        requires
            self.wf(),
        ensures
            out == below(self@.tasks, id),
            out <= self.entries.len(),
    {
        let ghost all = self@.tasks;
        let mut i: usize = 0;
        assert(all.skip(0) =~= all);
        while i < self.entries.len() && self.entries[i].task.id < id
            invariant
                i <= self.entries.len(),
                all == entry_views(self.entries@),
                below(all, id) == i + below(all.skip(i as int), id),
            decreases self.entries.len() - i,
        {
            assert(all.skip(i as int)[0] == self.entries@[i as int]@);
            assert(all.skip(i as int).drop_first() =~= all.skip(i + 1));
            i += 1;
        }
        assert(i < all.len() ==> all.skip(i as int)[0] == self.entries@[i as int]@);
        i
    }

    /// The position of the task with an id.
    fn find(&self, id: u64) -> (out: Option<usize>)
        requires
            self.wf(),
        ensures
            match out {
                Some(i) => i < self.entries.len() && i == below(self@.tasks, id) && has_task(
                    self@.tasks,
                    id,
                ) && self.entries@[i as int]@ == task_at(self@.tasks, id)
                    && self.entries@[i as int].task.id == id,
                None => !has_task(self@.tasks, id),
            },
    {
        let i: usize = self.position(id);
        assert(i < self.entries.len() ==> self@.tasks[i as int] == self.entries@[i as int]@);
        if i < self.entries.len() && self.entries[i].task.id == id {
            Some(i)
        } else {
            None
        }
    }

    /// Puts a task in its place.
    fn put_entry(&mut self, entry: TaskEntry)
        requires
            old(self).wf(),
        ensures
            final(self).wf(),
            final(self)@ == (QueueView { tasks: put(old(self)@.tasks, entry@), ..old(self)@ }),
    {
        let ghost before = self.entries@;
        let id: u64 = entry.task.id;
        proof {
            lemma_put(self@.tasks, entry@, 0);
            lemma_below(self@.tasks, id);
        }
        match self.find(id) {
            Some(i) => {
                self.entries.set(i, entry);
                assert(entry_views(self.entries@) =~= entry_views(before).update(i as int, entry@));
            },
            None => {
                let i: usize = self.position(id);
                self.entries.insert(i, entry);
                assert(entry_views(self.entries@) =~= entry_views(before).insert(i as int, entry@));
            },
        }
    }

    /// An empty queue with the settings of a new installation.
    pub fn new() -> (out: DownloadManager)
        ensures
            out.wf(),
            out@ == (QueueView {
                next_id: 0,
                tasks: Seq::empty(),
                settings: settings::default_settings(),
            }),
    {
        let out = DownloadManager {
            next_id: 0,
            entries: Vec::new(),
            settings: Settings::default(),
        };
        assert(out@.tasks =~= Seq::empty());
        out
    }
}

// ---------------------------------------------------------------------------
// New tasks
// ---------------------------------------------------------------------------

/// A new task. It is scheduled where it is to start later, else queued.
pub open spec fn new_entry(
    id: u64,
    url: Seq<char>,
    destination: Seq<char>,
    connections: Option<usize>,
    start_at: Option<i64>,
    rep_id: Option<Seq<char>>,
    headers: Seq<(Seq<char>, Seq<char>)>,
    now: i64,
) -> EntryView {
    EntryView {
        task: TaskView {
            id,
            url,
            destination,
            status: if start_at is Some && start_at->0 > now {
                "scheduled"@
            } else {
                "queued"@
            },
            done_bytes: 0,
            total_bytes: 0,
            kind: names::kind_of(url),
            connections: match connections {
                Some(n) => n,
                None => DEFAULT_CONNECTIONS,
            },
            start_at,
            rep_id,
            error: None,
        },
        headers,
        earlier: Seq::empty(),
        cancel: false,
    }
}

/// The URL of a new task, without whitespace around it, and its kind.
pub fn accept_url(url: &str) -> (out: Result<(String, &'static str), String>)
    ensures
        match out {
            Ok(accepted) => text::trim(url@).len() > 0 && accepted.0@ == text::trim(url@)
                && accepted.1@ == names::kind_of(text::trim(url@)),
            Err(message) => text::trim(url@).len() == 0 && message@ == "URL is empty"@,
        },
{
    let url = text::trimmed(url);
    if url.as_str().is_empty() {
        return Err("URL is empty".to_owned());
    }
    let kind = detect_kind(url.as_str());
    Ok((url, kind))
}

impl DownloadManager {
    /// Whether the queue can give another id.
    pub fn has_ids_left(&self) -> (out: bool)
        ensures
            out == (self@.next_id < u64::MAX),
    {
        self.next_id < u64::MAX
    }

    /// Creates a task and puts it in the queue; returns its id. `now` is the
    /// time in Unix ms.
    pub fn enqueue(
        &mut self,
        url: &str,
        destination: String,
        connections: Option<usize>,
        start_at: Option<i64>,
        rep_id: Option<String>,
        headers: Vec<(String, String)>,
        now: i64,
    ) -> (out: Result<u64, String>)
        requires
            old(self).wf(),
            text::trim(url@).len() > 0 ==> old(self)@.next_id < u64::MAX,
        ensures
            final(self).wf(),
            match out {
                Ok(id) => text::trim(url@).len() > 0 && id == old(self)@.next_id + 1
                    && final(self)@ == (QueueView {
                    next_id: id,
                    tasks: put(
                        old(self)@.tasks,
                        new_entry(
                            id,
                            text::trim(url@),
                            destination@,
                            connections,
                            start_at,
                            model::text_view(rep_id),
                            http::header_views(headers@),
                            now,
                        ),
                    ),
                    ..old(self)@
                }),
                Err(message) => text::trim(url@).len() == 0 && message@ == "URL is empty"@
                    && final(self)@ == old(self)@,
            },
    {
        let (url, kind) = match accept_url(url) {
            Ok(accepted) => accepted,
            Err(message) => return Err(message),
        };
        self.next_id = self.next_id + 1;
        let id: u64 = self.next_id;
        let scheduled = match start_at {
            Some(t) => t > now,
            None => false,
        };
        let entry = TaskEntry {
            task: DownloadTask {
                id,
                url,
                destination,
                status: if scheduled {
                    "scheduled".to_owned()
                } else {
                    "queued".to_owned()
                },
                done_bytes: 0,
                total_bytes: 0,
                kind: kind.to_owned(),
                connections: match connections {
                    Some(n) => n,
                    None => DEFAULT_CONNECTIONS,
                },
                start_at,
                rep_id,
                error: None,
            },
            headers,
            earlier: Vec::new(),
            cancel: false,
        };
        self.put_entry(entry);
        Ok(id)
    }
}

// ---------------------------------------------------------------------------
// Starting tasks
// ---------------------------------------------------------------------------

/// Whether a task is running.
pub open spec fn is_active(task: TaskView) -> bool {
    task.status == "downloading"@
}

/// How many tasks are running.
pub open spec fn active_count(tasks: Seq<EntryView>) -> nat
    decreases tasks.len(),
{
    if tasks.len() == 0 {
        0
    } else {
        active_count(tasks.drop_last()) + if is_active(tasks.last().task) {
            1nat
        } else {
            0nat
        }
    }
}

/// Whether a task waits and its time has come.
pub open spec fn is_due(task: TaskView, now: i64) -> bool {
    (task.status == "queued"@ || task.status == "scheduled"@) && (match task.start_at {
        Some(t) => t <= now,
        None => true,
    })
}

/// A task that has been started.
pub open spec fn started(entry: EntryView) -> EntryView {
    EntryView { task: TaskView { status: "downloading"@, ..entry.task }, ..entry }
}

/// The ids of the first `slots` tasks that are due, in order.
pub open spec fn to_start(tasks: Seq<EntryView>, slots: nat, now: i64) -> Seq<u64>
    decreases tasks.len(),
{
    if tasks.len() == 0 {
        Seq::empty()
    } else {
        let before = to_start(tasks.drop_last(), slots, now);
        if before.len() < slots && is_due(tasks.last().task, now) {
            before.push(tasks.last().task.id)
        } else {
            before
        }
    }
}

/// The tasks once the first `slots` that are due have been started.
pub open spec fn after_start(tasks: Seq<EntryView>, slots: nat, now: i64) -> Seq<EntryView>
    decreases tasks.len(),
{
    if tasks.len() == 0 {
        Seq::empty()
    } else {
        let front = tasks.drop_last();
        after_start(front, slots, now).push(
            if to_start(front, slots, now).len() < slots && is_due(tasks.last().task, now) {
                started(tasks.last())
            } else {
                tasks.last()
            },
        )
    }
}

/// How many more tasks may run.
pub open spec fn free_slots(q: QueueView) -> nat {
    if q.settings.max_concurrent > active_count(q.tasks) {
        (q.settings.max_concurrent - active_count(q.tasks)) as nat
    } else {
        0
    }
}

impl DownloadManager {
    /// How many tasks are running.
    fn running(&self) -> (out: usize)
        ensures
            out == active_count(self@.tasks),
    {
        let ghost all = self@.tasks;
        let mut n: usize = 0;
        let mut i: usize = 0;
        while i < self.entries.len()
            invariant
                i <= self.entries.len(),
                n <= i,
                all == entry_views(self.entries@),
                n == active_count(all.take(i as int)),
            decreases self.entries.len() - i,
        {
            assert(all.take(i + 1).drop_last() =~= all.take(i as int));
            assert(all.take(i + 1).last() == self.entries@[i as int]@);
            if text::same(self.entries[i].task.status.as_str(), "downloading") {
                n += 1;
            }
            i += 1;
        }
        assert(all.take(all.len() as int) =~= all);
        n
    }

    /// Starts queued and due tasks while slots are free, the oldest first, and
    /// returns their ids. `now` is the time in Unix ms.
    pub fn pump_queue(&mut self, now: i64) -> (out: Vec<u64>)
        requires
            old(self).wf(),
        ensures
            final(self).wf(),
            out@ == to_start(old(self)@.tasks, free_slots(old(self)@), now),
            final(self)@ == (QueueView {
                tasks: after_start(old(self)@.tasks, free_slots(old(self)@), now),
                ..old(self)@
            }),
    {
        let ghost all = self@.tasks;
        let active: usize = self.running();
        let slots: usize = if self.settings.max_concurrent > active {
            self.settings.max_concurrent - active
        } else {
            0
        };
        let mut out: Vec<u64> = Vec::new();
        let mut i: usize = 0;
        let ghost q = self@;
        assert(all.take(0) =~= Seq::empty());
        assert(self@.tasks =~= after_start(all.take(0), slots as nat, now) + all.skip(0));
        while i < self.entries.len()
            invariant
                i <= self.entries.len(),
                self.entries.len() == all.len(),
                self@.tasks == after_start(all.take(i as int), slots as nat, now) + all.skip(
                    i as int,
                ),
                after_start(all.take(i as int), slots as nat, now).len() == i,
                self@.next_id == q.next_id,
                self@.settings == q.settings,
                out@ == to_start(all.take(i as int), slots as nat, now),
            decreases self.entries.len() - i,
        {
            let ghost done = after_start(all.take(i as int), slots as nat, now);
            proof {
                assert(all.take(i + 1).drop_last() =~= all.take(i as int));
                assert(all.take(i + 1).last() == all[i as int]);
                assert(self@.tasks[i as int] == all[i as int]);
                assert(self@.tasks[i as int] == self.entries@[i as int]@);
            }
            let due = {
                let task = &self.entries[i].task;
                let waits = text::same(task.status.as_str(), "queued") || text::same(
                    task.status.as_str(),
                    "scheduled",
                );
                let time = match task.start_at {
                    Some(t) => t <= now,
                    None => true,
                };
                waits && time
            };
            assert(due == is_due(all[i as int].task, now));
            let ghost before = self.entries@;
            if out.len() < slots && due {
                out.push(self.entries[i].task.id);
                self.entries[i].task.status = "downloading".to_owned();
                assert(self.entries@[i as int]@ == started(all[i as int]));
                assert(entry_views(self.entries@) =~= entry_views(before).update(
                    i as int,
                    started(all[i as int]),
                ));
            }
            i += 1;
            assert(self@.tasks =~= after_start(all.take(i as int), slots as nat, now) + all.skip(
                i as int,
            ));
        }
        proof {
            assert(all.take(all.len() as int) =~= all);
            assert(self@.tasks =~= after_start(all, slots as nat, now));
            lemma_after_start(all, slots as nat, now);
        }
        out
    }
}

/// Starting tasks changes nothing but the status of those that are started.
pub proof fn lemma_after_start(tasks: Seq<EntryView>, slots: nat, now: i64)
    ensures
        after_start(tasks, slots, now).len() == tasks.len(),
        forall|i: int|
            0 <= i < tasks.len() ==> (#[trigger] after_start(tasks, slots, now)[i] == tasks[i]
                || (is_due(tasks[i].task, now) && after_start(tasks, slots, now)[i] == started(
                tasks[i],
            ))),
        by_id(tasks) ==> by_id(after_start(tasks, slots, now)),
    decreases tasks.len(),
{
    if tasks.len() > 0 {
        let front = tasks.drop_last();
        let out = after_start(tasks, slots, now);
        lemma_after_start(front, slots, now);
        assert forall|i: int| 0 <= i < tasks.len() implies (#[trigger] out[i] == tasks[i] || (is_due(
            tasks[i].task,
            now,
        ) && out[i] == started(tasks[i]))) by {
            if i < front.len() {
                assert(out[i] == after_start(front, slots, now)[i]);
                assert(front[i] == tasks[i]);
            }
        }
        if by_id(tasks) {
            assert forall|i: int, j: int| 0 <= i < j < out.len() implies (#[trigger] out[i]).task.id
                < (#[trigger] out[j]).task.id by {
                assert(tasks[i].task.id < tasks[j].task.id);
            }
        }
    }
}

// ---------------------------------------------------------------------------
// Changing tasks
// ---------------------------------------------------------------------------

/// What a worker needs to know of its task.
#[derive(Debug)]
pub struct Snapshot {
    pub id: u64,
    pub url: String,
    pub dest: String,
    pub kind: String,
    pub connections: usize,
    pub rep_id: Option<String>,
    pub headers: Vec<(String, String)>,
    /// The run of the task that the worker does, from 0 on.
    pub run: usize,
}

/// Whether the workers of a task are told to stop, by run.
pub open spec fn flags_of(entry: EntryView) -> Seq<bool> {
    entry.earlier.push(entry.cancel)
}

/// Whether the worker that does a run of a task is told to stop. Where there is
/// no such task or run, nothing goes on.
pub open spec fn is_stopped(tasks: Seq<EntryView>, id: u64, run: int) -> bool {
    !has_task(tasks, id) || run >= flags_of(task_at(tasks, id)).len() || flags_of(
        task_at(tasks, id),
    )[run]
}

/// The tasks once a worker has ended with a status.
pub open spec fn finalized(
    tasks: Seq<EntryView>,
    id: u64,
    status: Seq<char>,
    error: Option<Seq<char>>,
) -> Seq<EntryView> {
    let entry = task_at(tasks, id);
    replaced(tasks, id, EntryView { task: TaskView { status, error, ..entry.task }, ..entry })
}

/// The tasks once one has been paused: a running task stops.
pub open spec fn paused(tasks: Seq<EntryView>, id: u64) -> Seq<EntryView> {
    if has_task(tasks, id) && is_active(task_at(tasks, id).task) {
        replaced(
            tasks,
            id,
            EntryView { cancel: true, ..with_status(task_at(tasks, id), "paused"@) },
        )
    } else {
        tasks
    }
}

/// The tasks once one has been resumed: a paused task waits again. It will run
/// anew, and what the worker of the present run was told stays told.
pub open spec fn resumed(tasks: Seq<EntryView>, id: u64) -> Seq<EntryView> {
    if has_task(tasks, id) && task_at(tasks, id).task.status == "paused"@ {
        replaced(
            tasks,
            id,
            EntryView {
                earlier: flags_of(task_at(tasks, id)),
                cancel: false,
                ..with_status(task_at(tasks, id), "queued"@)
            },
        )
    } else {
        tasks
    }
}

/// The tasks once one has been cancelled, whatever it was doing.
pub open spec fn cancelled(tasks: Seq<EntryView>, id: u64) -> Seq<EntryView> {
    replaced(
        tasks,
        id,
        EntryView { cancel: true, ..with_status(task_at(tasks, id), "cancelled"@) },
    )
}

/// The tasks with another destination for one of them.
pub open spec fn moved(tasks: Seq<EntryView>, id: u64, destination: Seq<char>) -> Seq<EntryView> {
    let entry = task_at(tasks, id);
    replaced(tasks, id, EntryView { task: TaskView { destination, ..entry.task }, ..entry })
}

/// Whether a task has come to its end.
pub open spec fn is_finished(task: TaskView) -> bool {
    task.status == "done"@ || task.status == "failed"@ || task.status == "cancelled"@
}

/// The tasks that have not come to their end.
pub open spec fn unfinished(tasks: Seq<EntryView>) -> Seq<EntryView>
    decreases tasks.len(),
{
    if tasks.len() == 0 {
        Seq::empty()
    } else if is_finished(tasks.last().task) {
        unfinished(tasks.drop_last())
    } else {
        unfinished(tasks.drop_last()).push(tasks.last())
    }
}

/// The tasks without what goes with them.
pub open spec fn task_list(tasks: Seq<EntryView>) -> Seq<TaskView> {
    tasks.map_values(|e: EntryView| e.task)
}

/// The views of some tasks.
pub open spec fn task_views(tasks: Seq<DownloadTask>) -> Seq<TaskView> {
    tasks.map_values(|t: DownloadTask| t@)
}

impl DownloadManager {
    /// What a worker needs to know of the task with an id.
    pub fn snapshot(&self, id: u64) -> (out: Option<Snapshot>)
        requires
            self.wf(),
        ensures
            match out {
                Some(s) => {
                    let entry = task_at(self@.tasks, id);
                    &&& has_task(self@.tasks, id)
                    &&& s.id == id
                    &&& s.url@ == entry.task.url
                    &&& s.dest@ == entry.task.destination
                    &&& s.kind@ == entry.task.kind
                    &&& s.connections == entry.task.connections
                    &&& model::text_view(s.rep_id) == entry.task.rep_id
                    &&& http::header_views(s.headers@) == entry.headers
                    &&& s.run == entry.earlier.len()
                },
                None => !has_task(self@.tasks, id),
            },
    {
        match self.find(id) {
            Some(i) => {
                let entry = &self.entries[i];
                Some(
                    Snapshot {
                        id,
                        url: entry.task.url.clone(),
                        dest: entry.task.destination.clone(),
                        kind: entry.task.kind.clone(),
                        connections: entry.task.connections,
                        rep_id: copy_text(&entry.task.rep_id),
                        headers: copy_headers(&entry.headers),
                        run: entry.earlier.len(),
                    },
                )
            },
            None => None,
        }
    }

    /// Whether the worker that does a run of a task is told to stop.
    pub fn stop_requested(&self, id: u64, run: usize) -> (out: bool)
        requires
            self.wf(),
        ensures
            out == is_stopped(self@.tasks, id, run as int),
    {
        match self.find(id) {
            Some(i) => {
                let entry = &self.entries[i];
                if run < entry.earlier.len() {
                    entry.earlier[run]
                } else {
                    run > entry.earlier.len() || entry.cancel
                }
            },
            None => true,
        }
    }

    /// Sets the status and error with which a worker ended; returns the event
    /// that tells of it.
    pub fn finalize(&mut self, id: u64, status: &str, error: Option<String>) -> (out: FinishedEvent)
        requires
            old(self).wf(),
        ensures
            final(self).wf(),
            final(self)@ == (QueueView {
                tasks: finalized(old(self)@.tasks, id, status@, model::text_view(error)),
                ..old(self)@
            }),
            out@ == (FinishedView {
                id,
                ok: status@ == "done"@,
                error: model::text_view(error),
            }),
    {
        let ok = text::same(status, "done");
        let ghost before = self.entries@;
        match self.find(id) {
            Some(i) => {
                self.entries[i].task.status = status.to_owned();
                self.entries[i].task.error = copy_text(&error);
                proof {
                    let entry = self.entries@[i as int]@;
                    assert(entry_views(self.entries@) =~= entry_views(before).update(
                        i as int,
                        entry,
                    ));
                    lemma_replaced(entry_views(before), id, entry);
                }
            },
            None => {},
        }
        FinishedEvent { id, ok, error }
    }

    /// Pauses a running task; returns whether that changed anything.
    pub fn pause_download(&mut self, id: u64) -> (out: Result<bool, String>)
        requires
            old(self).wf(),
        ensures
            final(self).wf(),
            final(self)@ == (QueueView { tasks: paused(old(self)@.tasks, id), ..old(self)@ }),
            match out {
                Ok(changed) => has_task(old(self)@.tasks, id) && changed == is_active(
                    task_at(old(self)@.tasks, id).task,
                ),
                Err(message) => !has_task(old(self)@.tasks, id) && message@ == "no such task"@,
            },
    {
        let ghost before = self.entries@;
        match self.find(id) {
            Some(i) => {
                if !text::same(self.entries[i].task.status.as_str(), "downloading") {
                    return Ok(false);
                }
                self.entries[i].cancel = true;
                self.entries[i].task.status = "paused".to_owned();
                self.entries[i].task.error = None;
                proof {
                    let entry = self.entries@[i as int]@;
                    assert(entry_views(self.entries@) =~= entry_views(before).update(
                        i as int,
                        entry,
                    ));
                    lemma_replaced(entry_views(before), id, entry);
                }
                Ok(true)
            },
            None => Err("no such task".to_owned()),
        }
    }

    /// Puts a paused task back in the queue; returns whether that changed
    /// anything.
    pub fn resume_download(&mut self, id: u64) -> (out: Result<bool, String>)
        requires
            old(self).wf(),
        ensures
            final(self).wf(),
            final(self)@ == (QueueView { tasks: resumed(old(self)@.tasks, id), ..old(self)@ }),
            match out {
                Ok(changed) => has_task(old(self)@.tasks, id) && changed == (task_at(
                    old(self)@.tasks,
                    id,
                ).task.status == "paused"@),
                Err(message) => !has_task(old(self)@.tasks, id) && message@ == "no such task"@,
            },
    {
        let ghost before = self.entries@;
        match self.find(id) {
            Some(i) => {
                if !text::same(self.entries[i].task.status.as_str(), "paused") {
                    return Ok(false);
                }
                let told = self.entries[i].cancel;
                self.entries[i].earlier.push(told);
                self.entries[i].cancel = false;
                self.entries[i].task.status = "queued".to_owned();
                self.entries[i].task.error = None;
                proof {
                    let entry = self.entries@[i as int]@;
                    assert(entry_views(self.entries@) =~= entry_views(before).update(
                        i as int,
                        entry,
                    ));
                    lemma_replaced(entry_views(before), id, entry);
                }
                Ok(true)
            },
            None => Err("no such task".to_owned()),
        }
    }

    /// Cancels a task.
    pub fn cancel_download(&mut self, id: u64) -> (out: Result<(), String>)
        requires
            old(self).wf(),
        ensures
            final(self).wf(),
            final(self)@ == (QueueView { tasks: cancelled(old(self)@.tasks, id), ..old(self)@ }),
            match out {
                Ok(()) => has_task(old(self)@.tasks, id),
                Err(message) => !has_task(old(self)@.tasks, id) && message@ == "no such task"@,
            },
    {
        let ghost before = self.entries@;
        match self.find(id) {
            Some(i) => {
                self.entries[i].cancel = true;
                self.entries[i].task.status = "cancelled".to_owned();
                self.entries[i].task.error = None;
                proof {
                    let entry = self.entries@[i as int]@;
                    assert(entry_views(self.entries@) =~= entry_views(before).update(
                        i as int,
                        entry,
                    ));
                    lemma_replaced(entry_views(before), id, entry);
                }
                Ok(())
            },
            None => Err("no such task".to_owned()),
        }
    }

    /// Keeps the path that a download was stored under.
    pub fn update_destination(&mut self, id: u64, dest: &str)
        requires
            old(self).wf(),
        ensures
            final(self).wf(),
            final(self)@ == (QueueView { tasks: moved(old(self)@.tasks, id, dest@), ..old(self)@ }),
    {
        let ghost before = self.entries@;
        match self.find(id) {
            Some(i) => {
                self.entries[i].task.destination = dest.to_owned();
                proof {
                    let entry = self.entries@[i as int]@;
                    assert(entry_views(self.entries@) =~= entry_views(before).update(
                        i as int,
                        entry,
                    ));
                    lemma_replaced(entry_views(before), id, entry);
                }
            },
            None => {},
        }
    }

    /// The tasks by id, smallest first.
    pub fn list_downloads(&self) -> (out: Vec<DownloadTask>)
        ensures
            task_views(out@) == task_list(self@.tasks),
    {
        let mut out: Vec<DownloadTask> = Vec::new();
        let mut i: usize = 0;
        while i < self.entries.len()
            invariant
                i <= self.entries.len(),
                task_views(out@) == task_list(self@.tasks).take(i as int),
            decreases self.entries.len() - i,
        {
            let ghost before = out@;
            let task = self.entries[i].task.clone();
            out.push(task);
            assert(task_views(out@) =~= task_views(before).push(task@));
            i += 1;
            assert(task_views(out@) =~= task_list(self@.tasks).take(i as int));
        }
        assert(task_list(self@.tasks).take(self.entries.len() as int) =~= task_list(self@.tasks));
        out
    }

    /// Drops the tasks that are done, failed or cancelled.
    pub fn clear_finished(&mut self)
        requires
            old(self).wf(),
        ensures
            final(self).wf(),
            final(self)@ == (QueueView { tasks: unfinished(old(self)@.tasks), ..old(self)@ }),
    {
        let ghost all = self@.tasks;
        let ghost mut seen: int = 0;
        let mut i: usize = 0;
        assert(self@.tasks =~= unfinished(all.take(0)) + all.skip(0));
        while i < self.entries.len()
            invariant
                0 <= seen <= all.len(),
                i == unfinished(all.take(seen)).len(),
                entry_views(self.entries@) == unfinished(all.take(seen)) + all.skip(seen),
                self.next_id == old(self).next_id,
                self.settings == old(self).settings,
            decreases self.entries.len() - i,
        {
            let ghost before = self.entries@;
            proof {
                assert(entry_views(before)[i as int] == before[i as int]@);
                assert(entry_views(before)[i as int] == all.skip(seen)[0]);
                assert(all.take(seen + 1).drop_last() =~= all.take(seen));
                assert(all.take(seen + 1).last() == all[seen]);
            }
            let status = self.entries[i].task.status.as_str();
            let over = text::same(status, "done") || text::same(status, "failed") || text::same(
                status,
                "cancelled",
            );
            if over {
                self.entries.remove(i);
                assert(entry_views(self.entries@) =~= entry_views(before).remove(i as int));
            } else {
                i += 1;
            }
            proof {
                seen = seen + 1;
            }
            assert(entry_views(self.entries@) =~= unfinished(all.take(seen)) + all.skip(seen));
        }
        proof {
            assert(all.take(seen) =~= all);
            assert(self@.tasks =~= unfinished(all));
            lemma_unfinished(all);
        }
    }
}

/// Clearing keeps exactly the tasks that are not finished, as they were and in
/// their order.
pub proof fn lemma_unfinished(tasks: Seq<EntryView>)
    ensures
        forall|i: int|
            0 <= i < unfinished(tasks).len() ==> tasks.contains(#[trigger] unfinished(tasks)[i])
                && !is_finished(unfinished(tasks)[i].task),
        forall|i: int|
            0 <= i < tasks.len() && !is_finished((#[trigger] tasks[i]).task) ==> unfinished(
                tasks,
            ).contains(tasks[i]),
        by_id(tasks) ==> by_id(unfinished(tasks)),
    decreases tasks.len(),
{
    if tasks.len() > 0 {
        let front = tasks.drop_last();
        let before = unfinished(front);
        let out = unfinished(tasks);
        lemma_unfinished(front);
        assert forall|i: int| 0 <= i < out.len() implies tasks.contains(#[trigger] out[i])
            && !is_finished(out[i].task) by {
            if i < before.len() {
                assert(out[i] == before[i]);
                let k = choose|k: int| 0 <= k < front.len() && front[k] == before[i];
                assert(tasks[k] == out[i]);
            } else {
                assert(tasks[tasks.len() - 1] == out[i]);
            }
        }
        assert forall|i: int| 0 <= i < tasks.len() && !is_finished(
            (#[trigger] tasks[i]).task,
        ) implies out.contains(tasks[i]) by {
            if i < front.len() {
                assert(front[i] == tasks[i]);
                let k = choose|k: int| 0 <= k < before.len() && before[k] == front[i];
                assert(out[k] == tasks[i]);
            } else {
                assert(out[out.len() - 1] == tasks[i]);
            }
        }
        if by_id(tasks) {
            assert(by_id(front));
            assert forall|i: int, j: int| 0 <= i < j < out.len() implies (#[trigger] out[i]).task.id
                < (#[trigger] out[j]).task.id by {
                assert(out[i] == before[i]);
                if j < before.len() {
                    assert(out[j] == before[j]);
                } else {
                    let k = choose|k: int| 0 <= k < front.len() && front[k] == before[i];
                    assert(tasks[k].task.id < tasks[tasks.len() - 1].task.id);
                }
            }
        }
    }
}

// ---------------------------------------------------------------------------
// Settings and persistence
// ---------------------------------------------------------------------------

/// What is kept of a queue across restarts.
#[derive(Debug)]
pub struct Persisted {
    pub next_id: u64,
    pub tasks: Vec<DownloadTask>,
    pub max_concurrent: usize,
    pub clipboard_enabled: bool,
    pub mp4_output: bool,
    pub default_dir: String,
}

/// What is kept of a queue, as a mathematical value.
pub struct PersistedView {
    pub next_id: u64,
    pub tasks: Seq<TaskView>,
    pub settings: SettingsView,
}

impl View for Persisted {
    type V = PersistedView;

    open spec fn view(&self) -> PersistedView {
        PersistedView {
            next_id: self.next_id,
            tasks: task_views(self.tasks@),
            settings: SettingsView {
                max_concurrent: self.max_concurrent,
                clipboard_enabled: self.clipboard_enabled,
                mp4_output: self.mp4_output,
                default_dir: self.default_dir@,
            },
        }
    }
}

/// What is kept of a queue: everything but the headers.
pub open spec fn saved(q: QueueView) -> PersistedView {
    PersistedView { next_id: q.next_id, tasks: task_list(q.tasks), settings: q.settings }
}

/// A task as it comes back: one that was running waits again.
pub open spec fn restored(task: TaskView) -> EntryView {
    EntryView {
        task: TaskView {
            status: if task.status == "downloading"@ || task.status == "starting"@ {
                "queued"@
            } else {
                task.status
            },
            ..task
        },
        headers: Seq::empty(),
        earlier: Seq::empty(),
        cancel: false,
    }
}

/// The tasks with some more that come back.
pub open spec fn with_restored(tasks: Seq<EntryView>, more: Seq<TaskView>) -> Seq<EntryView>
    decreases more.len(),
{
    if more.len() == 0 {
        tasks
    } else {
        put(with_restored(tasks, more.drop_last()), restored(more.last()))
    }
}

/// The queue once what was kept has been loaded. A directory that was set is
/// not replaced by none.
pub open spec fn loaded(q: QueueView, data: PersistedView) -> QueueView {
    QueueView {
        next_id: data.next_id,
        tasks: with_restored(q.tasks, data.tasks),
        settings: SettingsView {
            max_concurrent: if data.settings.max_concurrent < 1 {
                1
            } else {
                data.settings.max_concurrent
            },
            default_dir: if data.settings.default_dir.len() > 0 {
                data.settings.default_dir
            } else {
                q.settings.default_dir
            },
            ..data.settings
        },
    }
}

impl DownloadManager {
    /// The settings as they are now.
    pub fn settings_snapshot(&self) -> (out: Settings)
        ensures
            out@ == self@.settings,
    {
        self.settings.clone()
    }

    /// The settings as they are now.
    pub fn get_settings(&self) -> (out: Settings)
        ensures
            out@ == self@.settings,
    {
        self.settings_snapshot()
    }

    /// Changes the settings that are given.
    pub fn set_settings(
        &mut self,
        max_concurrent: Option<usize>,
        clipboard_enabled: Option<bool>,
        mp4_output: Option<bool>,
        default_dir: Option<String>,
    )
        requires
            old(self).wf(),
        ensures
            final(self).wf(),
            final(self)@ == (QueueView {
                settings: settings::changed(
                    old(self)@.settings,
                    max_concurrent,
                    clipboard_enabled,
                    mp4_output,
                    model::text_view(default_dir),
                ),
                ..old(self)@
            }),
    {
        match max_concurrent {
            Some(n) => {
                self.settings.max_concurrent = if n < 1 {
                    1
                } else if n > MAX_CONCURRENT {
                    MAX_CONCURRENT
                } else {
                    n
                };
            },
            None => {},
        }
        match clipboard_enabled {
            Some(v) => {
                self.settings.clipboard_enabled = v;
            },
            None => {},
        }
        match mp4_output {
            Some(v) => {
                self.settings.mp4_output = v;
            },
            None => {},
        }
        match default_dir {
            Some(d) => {
                self.settings.default_dir = d;
            },
            None => {},
        }
    }

    /// What is kept of the queue across restarts.
    pub fn save_state(&self) -> (out: Persisted)
        ensures
            out@ == saved(self@),
    {
        Persisted {
            next_id: self.next_id,
            tasks: self.list_downloads(),
            max_concurrent: self.settings.max_concurrent,
            clipboard_enabled: self.settings.clipboard_enabled,
            mp4_output: self.settings.mp4_output,
            default_dir: self.settings.default_dir.clone(),
        }
    }

    /// Loads what was kept of a queue.
    pub fn load_state(&mut self, data: Persisted)
        requires
            old(self).wf(),
        ensures
            final(self).wf(),
            final(self)@ == loaded(old(self)@, data@),
    {
        self.next_id = data.next_id;
        self.settings.max_concurrent = if data.max_concurrent < 1 {
            1
        } else {
            data.max_concurrent
        };
        self.settings.clipboard_enabled = data.clipboard_enabled;
        self.settings.mp4_output = data.mp4_output;
        if !data.default_dir.as_str().is_empty() {
            self.settings.default_dir = data.default_dir.clone();
        }
        let ghost q = self@;
        let ghost more = data@.tasks;
        let mut i: usize = 0;
        while i < data.tasks.len()
            invariant
                i <= data.tasks.len(),
                self.wf(),
                more == task_views(data.tasks@),
                self@ == (QueueView {
                    tasks: with_restored(old(self)@.tasks, more.take(i as int)),
                    ..q
                }),
            decreases data.tasks.len() - i,
        {
            assert(more.take(i + 1).drop_last() =~= more.take(i as int));
            assert(more.take(i + 1).last() == data.tasks@[i as int]@);
            let mut task = data.tasks[i].clone();
            if text::same(task.status.as_str(), "downloading") || text::same(
                task.status.as_str(),
                "starting",
            ) {
                task.status = "queued".to_owned();
            }
            let entry = TaskEntry {
                task,
                headers: Vec::new(),
                earlier: Vec::new(),
                cancel: false,
            };
            assert(entry@.headers =~= Seq::empty());
            assert(entry@ == restored(data.tasks@[i as int]@));
            self.put_entry(entry);
            i += 1;
        }
        assert(more.take(more.len() as int) =~= more);
    }
}

} // verus!
