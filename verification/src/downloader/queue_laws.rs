//! What is done to the tasks of a queue, field by field.

use crate::downloader::laws;
use crate::downloader::names;
use crate::downloader::queue::{EntryView, PersistedView, QueueView};
use crate::downloader::queue;
use crate::downloader::settings::SettingsView;
use crate::downloader::settings;
use crate::model::TaskView;
use vstd::prelude::*;

verus! {

/// Whether two tasks are the same but for their status and error.
pub open spec fn same_task(a: TaskView, b: TaskView) -> bool {
    &&& a.id == b.id
    &&& a.url == b.url
    &&& a.destination == b.destination
    &&& a.done_bytes == b.done_bytes
    &&& a.total_bytes == b.total_bytes
    &&& a.kind == b.kind
    &&& a.connections == b.connections
    &&& a.start_at == b.start_at
    &&& a.rep_id == b.rep_id
}

// ---------------------------------------------------------------------------
// Persistence
// ---------------------------------------------------------------------------

/// Saving a queue and loading it after a restart keeps every task in its place
/// with all of its fields. Only the status of a task that was running changes:
/// it waits again. The settings and the id given last are kept too.
pub proof fn lemma_reload_keeps(q: QueueView, fresh: QueueView, i: int)
    requires
        queue::by_id(q.tasks),
        q.settings.max_concurrent >= 1,
        fresh.tasks.len() == 0,
        fresh.settings == settings::default_settings(),
        0 <= i < q.tasks.len(),
    ensures
        ({
            let out = queue::loaded(fresh, queue::saved(q));
            let before = q.tasks[i].task;
            let after = out.tasks[i].task;
            &&& out.tasks.len() == q.tasks.len()
            &&& same_task(after, before)
            &&& after.error == before.error
            &&& before.status == "downloading"@ || before.status == "starting"@ ==> after.status
                == "queued"@
            &&& before.status != "downloading"@ && before.status != "starting"@ ==> after.status
                == before.status
            &&& !out.tasks[i].cancel && out.tasks[i].earlier.len() == 0
            &&& out.next_id == q.next_id
            &&& out.settings.max_concurrent == q.settings.max_concurrent
            &&& out.settings.clipboard_enabled == q.settings.clipboard_enabled
            &&& out.settings.mp4_output == q.settings.mp4_output
            &&& out.settings.default_dir == q.settings.default_dir
        }),
{
    laws::lemma_reload(q, fresh);
}

/// What is saved of a queue is every task as it is, in order, with the settings
/// and the id given last.
pub proof fn lemma_saved(q: QueueView)
    ensures
        queue::saved(q).next_id == q.next_id,
        queue::saved(q).settings == q.settings,
        queue::saved(q).tasks.len() == q.tasks.len(),
        forall|i: int|
            0 <= i < q.tasks.len() ==> #[trigger] queue::saved(q).tasks[i] == q.tasks[i].task,
{
}

/// Loading takes over the saved settings, with at least one download at once; a
/// directory that was saved as none does not replace one that is set. Each saved
/// task is there afterwards, the last where several have one id.
pub proof fn lemma_loaded(q: QueueView, data: PersistedView, k: int)
    requires
        queue::by_id(q.tasks),
        0 <= k < data.tasks.len(),
        forall|j: int| k < j < data.tasks.len() ==> (#[trigger] data.tasks[j]).id
            != data.tasks[k].id,
    ensures
        ({
            let out = queue::loaded(q, data);
            let saved = data.tasks[k];
            &&& out.next_id == data.next_id
            &&& out.settings.clipboard_enabled == data.settings.clipboard_enabled
            &&& out.settings.mp4_output == data.settings.mp4_output
            &&& data.settings.max_concurrent >= 1 ==> out.settings.max_concurrent
                == data.settings.max_concurrent
            &&& data.settings.max_concurrent == 0 ==> out.settings.max_concurrent == 1
            &&& data.settings.default_dir.len() > 0 ==> out.settings.default_dir
                == data.settings.default_dir
            &&& data.settings.default_dir.len() == 0 ==> out.settings.default_dir
                == q.settings.default_dir
            &&& queue::by_id(out.tasks)
            &&& queue::has_task(out.tasks, saved.id)
            &&& same_task(queue::task_at(out.tasks, saved.id).task, saved)
            &&& queue::task_at(out.tasks, saved.id).task.error == saved.error
            &&& queue::task_at(out.tasks, saved.id).headers.len() == 0
            &&& queue::task_at(out.tasks, saved.id).earlier.len() == 0
            &&& !queue::task_at(out.tasks, saved.id).cancel
            &&& saved.status == "downloading"@ || saved.status == "starting"@ ==> queue::task_at(
                out.tasks,
                saved.id,
            ).task.status == "queued"@
            &&& saved.status != "downloading"@ && saved.status != "starting"@ ==> queue::task_at(
                out.tasks,
                saved.id,
            ).task.status == saved.status
        }),
{
    lemma_loaded_task(q.tasks, data.tasks, k);
}

/// A task that is not among the saved ones stays as it is where others are
/// loaded.
pub proof fn lemma_loaded_beside(q: QueueView, data: PersistedView, id: u64)
    requires
        queue::by_id(q.tasks),
        forall|j: int| 0 <= j < data.tasks.len() ==> (#[trigger] data.tasks[j]).id != id,
    ensures
        queue::has_task(queue::loaded(q, data).tasks, id) <==> queue::has_task(q.tasks, id),
        queue::has_task(q.tasks, id) ==> queue::task_at(queue::loaded(q, data).tasks, id)
            == queue::task_at(q.tasks, id),
{
    lemma_restored_beside(q.tasks, data.tasks, id);
}

proof fn lemma_restored_beside(tasks: Seq<EntryView>, more: Seq<TaskView>, id: u64)
    requires
        queue::by_id(tasks),
        forall|j: int| 0 <= j < more.len() ==> (#[trigger] more[j]).id != id,
    ensures
        queue::has_task(queue::with_restored(tasks, more), id) <==> queue::has_task(tasks, id),
        queue::has_task(tasks, id) ==> queue::task_at(queue::with_restored(tasks, more), id)
            == queue::task_at(tasks, id),
    decreases more.len(),
{
    if more.len() > 0 {
        let front = more.drop_last();
        assert forall|j: int| 0 <= j < front.len() implies (#[trigger] front[j]).id != id by {
            assert(front[j] == more[j]);
        }
        assert(more[more.len() - 1].id != id);
        lemma_restored_beside(tasks, front, id);
        lemma_restored_order(tasks, front);
        queue::lemma_put(queue::with_restored(tasks, front), queue::restored(more.last()), id);
    }
}

proof fn lemma_loaded_task(tasks: Seq<EntryView>, more: Seq<TaskView>, k: int)
    requires
        queue::by_id(tasks),
        0 <= k < more.len(),
        forall|j: int| k < j < more.len() ==> (#[trigger] more[j]).id != more[k].id,
    ensures
        queue::by_id(queue::with_restored(tasks, more)),
        queue::has_task(queue::with_restored(tasks, more), more[k].id),
        queue::task_at(queue::with_restored(tasks, more), more[k].id) == queue::restored(more[k]),
    decreases more.len(),
{
    let front = more.drop_last();
    let entry = queue::restored(more.last());
    lemma_restored_order(tasks, front);
    let before = queue::with_restored(tasks, front);
    queue::lemma_put(before, entry, more[k].id);
    if k < front.len() {
        assert forall|j: int| k < j < front.len() implies (#[trigger] front[j]).id
            != front[k].id by {
            assert(front[j] == more[j]);
        }
        lemma_loaded_task(tasks, front, k);
        assert(more[more.len() - 1].id != more[k].id);
    }
}

proof fn lemma_restored_order(tasks: Seq<EntryView>, more: Seq<TaskView>)
    requires
        queue::by_id(tasks),
    ensures
        queue::by_id(queue::with_restored(tasks, more)),
    decreases more.len(),
{
    if more.len() > 0 {
        lemma_restored_order(tasks, more.drop_last());
        queue::lemma_put(
            queue::with_restored(tasks, more.drop_last()),
            queue::restored(more.last()),
            0,
        );
    }
}

// ---------------------------------------------------------------------------
// New tasks
// ---------------------------------------------------------------------------

/// A new task has what it was made with, nothing downloaded and no error. It is
/// scheduled where its time is yet to come and queued otherwise, with sixteen
/// connections unless another number is asked for.
pub proof fn lemma_new_task(
    id: u64,
    url: Seq<char>,
    destination: Seq<char>,
    connections: Option<usize>,
    start_at: Option<i64>,
    rep_id: Option<Seq<char>>,
    headers: Seq<(Seq<char>, Seq<char>)>,
    now: i64,
)
    ensures
        ({
            let entry = queue::new_entry(
                id,
                url,
                destination,
                connections,
                start_at,
                rep_id,
                headers,
                now,
            );
            let task = entry.task;
            &&& task.id == id && task.url == url && task.destination == destination
            &&& task.done_bytes == 0 && task.total_bytes == 0 && task.error is None
            &&& task.kind == names::kind_of(url)
            &&& task.rep_id == rep_id && task.start_at == start_at
            &&& connections matches Some(n) ==> task.connections == n
            &&& connections is None ==> task.connections == 16
            &&& start_at matches Some(t) ==> t > now ==> task.status == "scheduled"@
            &&& start_at matches Some(t) ==> t <= now ==> task.status == "queued"@
            &&& start_at is None ==> task.status == "queued"@
            &&& entry.headers == headers && !entry.cancel && entry.earlier.len() == 0
        }),
{
}

/// A new task waits until its time: it is due from then on and not before, and
/// at once where it has no time.
pub proof fn lemma_new_task_due(
    id: u64,
    url: Seq<char>,
    destination: Seq<char>,
    start_at: Option<i64>,
    now: i64,
    later: i64,
)
    ensures
        queue::is_due(
            queue::new_entry(
                id,
                url,
                destination,
                None,
                start_at,
                None,
                Seq::empty(),
                now,
            ).task,
            later,
        ) <==> (start_at matches Some(t) ==> t <= later),
{
}

// ---------------------------------------------------------------------------
// Starting tasks
// ---------------------------------------------------------------------------

/// A task is due where it is queued or scheduled and has no time that is yet to
/// come.
pub proof fn lemma_due(task: TaskView, now: i64)
    ensures
        queue::is_due(task, now) <==> (task.status == "queued"@ || task.status == "scheduled"@)
            && (task.start_at matches Some(t) ==> t <= now),
        queue::is_active(task) <==> task.status == "downloading"@,
{
}

/// Starting tasks changes nothing of a task but its status, and that only to
/// running and only where the task is due; as many tasks are there as before.
pub proof fn lemma_start_keeps(tasks: Seq<EntryView>, slots: nat, now: i64, i: int)
    requires
        0 <= i < tasks.len(),
    ensures
        ({
            let out = queue::after_start(tasks, slots, now);
            &&& out.len() == tasks.len()
            &&& same_task(out[i].task, tasks[i].task)
            &&& out[i].task.error == tasks[i].task.error
            &&& out[i].headers == tasks[i].headers
            &&& out[i].earlier == tasks[i].earlier && out[i].cancel == tasks[i].cancel
            &&& out[i].task.status == tasks[i].task.status || (out[i].task.status
                == "downloading"@ && (tasks[i].task.status == "queued"@ || tasks[i].task.status
                == "scheduled"@))
        }),
{
    queue::lemma_after_start(tasks, slots, now);
}

/// The running tasks are counted one by one, and the free slots are what the
/// settings allow beyond them.
pub proof fn lemma_active_count(q: QueueView, entry: EntryView)
    ensures
        queue::active_count(Seq::empty()) == 0,
        queue::active_count(q.tasks.push(entry)) == queue::active_count(q.tasks) + if entry.task.status
            == "downloading"@ {
            1int
        } else {
            0int
        },
        queue::active_count(q.tasks) >= q.settings.max_concurrent ==> queue::free_slots(q) == 0,
        queue::active_count(q.tasks) < q.settings.max_concurrent ==> queue::free_slots(q)
            + queue::active_count(q.tasks) == q.settings.max_concurrent,
{
    assert(q.tasks.push(entry).drop_last() =~= q.tasks);
}

// ---------------------------------------------------------------------------
// Changing tasks
// ---------------------------------------------------------------------------

/// Whether a change touched at most the task with an id, and of it nothing but
/// status, error and the orders to its workers.
pub open spec fn only_status(before: Seq<EntryView>, after: Seq<EntryView>, id: u64) -> bool {
    &&& after.len() == before.len()
    &&& forall|i: int|
        0 <= i < before.len() && before[i].task.id != id ==> #[trigger] after[i] == before[i]
    &&& forall|i: int|
        0 <= i < before.len() ==> same_task((#[trigger] after[i]).task, before[i].task)
            && after[i].headers == before[i].headers
}

/// Ending, pausing, resuming and cancelling a task touch no other task and
/// nothing of it but status, error and the orders to its workers.
pub proof fn lemma_others_untouched(
    tasks: Seq<EntryView>,
    id: u64,
    status: Seq<char>,
    error: Option<Seq<char>>,
)
    requires
        queue::by_id(tasks),
    ensures
        only_status(tasks, queue::finalized(tasks, id, status, error), id),
        only_status(tasks, queue::paused(tasks, id), id),
        only_status(tasks, queue::resumed(tasks, id), id),
        only_status(tasks, queue::cancelled(tasks, id), id),
{
    queue::lemma_below(tasks, id);
}

/// What each change does to the task that it is for, at place `i`. Only a running
/// task is paused and only a paused one resumed; any task is cancelled.
pub proof fn lemma_changes(
    tasks: Seq<EntryView>,
    i: int,
    status: Seq<char>,
    error: Option<Seq<char>>,
    destination: Seq<char>,
)
    requires
        queue::by_id(tasks),
        0 <= i < tasks.len(),
    ensures
        ({
            let id = tasks[i].task.id;
            let was = tasks[i].task.status;
            let ended = queue::finalized(tasks, id, status, error)[i];
            let held = queue::paused(tasks, id)[i];
            let again = queue::resumed(tasks, id)[i];
            let dropped = queue::cancelled(tasks, id)[i];
            let elsewhere = queue::moved(tasks, id, destination)[i];
            &&& ended.task.status == status && ended.task.error == error && ended.cancel
                == tasks[i].cancel
            &&& was == "downloading"@ ==> held.task.status == "paused"@ && held.task.error is None
                && held.cancel
            &&& was != "downloading"@ ==> held == tasks[i]
            &&& was == "paused"@ ==> again.task.status == "queued"@ && again.task.error is None
                && !again.cancel
            &&& was != "paused"@ ==> again == tasks[i]
            &&& dropped.task.status == "cancelled"@ && dropped.task.error is None && dropped.cancel
            &&& elsewhere.task.destination == destination
            &&& elsewhere.task.status == was && elsewhere.task.url == tasks[i].task.url
                && elsewhere.task.start_at == tasks[i].task.start_at && elsewhere.task.kind
                == tasks[i].task.kind && elsewhere.task.id == id && elsewhere.cancel
                == tasks[i].cancel && elsewhere.headers == tasks[i].headers
            &&& elsewhere.task.done_bytes == tasks[i].task.done_bytes && elsewhere.task.total_bytes
                == tasks[i].task.total_bytes && elsewhere.task.connections
                == tasks[i].task.connections && elsewhere.task.rep_id == tasks[i].task.rep_id
                && elsewhere.task.error == tasks[i].task.error && elsewhere.earlier
                == tasks[i].earlier
            &&& ended.earlier == tasks[i].earlier && held.earlier == tasks[i].earlier
                && dropped.earlier == tasks[i].earlier
        }),
{
    queue::lemma_found(tasks, i);
}

/// Moving a task touches no other task.
pub proof fn lemma_move_alone(tasks: Seq<EntryView>, id: u64, destination: Seq<char>, i: int)
    requires
        queue::by_id(tasks),
        0 <= i < tasks.len(),
        tasks[i].task.id != id,
    ensures
        queue::moved(tasks, id, destination)[i] == tasks[i],
        queue::moved(tasks, id, destination).len() == tasks.len(),
{
    queue::lemma_below(tasks, id);
}

/// Clearing drops a task exactly where it is done, failed or cancelled.
pub proof fn lemma_cleared(tasks: Seq<EntryView>, entry: EntryView)
    ensures
        queue::unfinished(Seq::empty()).len() == 0,
        entry.task.status == "done"@ || entry.task.status == "failed"@ || entry.task.status
            == "cancelled"@ ==> queue::unfinished(tasks.push(entry)) == queue::unfinished(tasks),
        entry.task.status != "done"@ && entry.task.status != "failed"@ && entry.task.status
            != "cancelled"@ ==> queue::unfinished(tasks.push(entry)) == queue::unfinished(
            tasks,
        ).push(entry),
{
    assert(tasks.push(entry).drop_last() =~= tasks);
}

// ---------------------------------------------------------------------------
// Settings
// ---------------------------------------------------------------------------

/// What is given is set, the number of downloads at once to no less than 1 and no
/// more than 16; what is not given stays.
pub proof fn lemma_settings(
    s: SettingsView,
    max_concurrent: Option<usize>,
    clipboard_enabled: Option<bool>,
    mp4_output: Option<bool>,
    default_dir: Option<Seq<char>>,
)
    ensures
        ({
            let out = settings::changed(
                s,
                max_concurrent,
                clipboard_enabled,
                mp4_output,
                default_dir,
            );
            &&& max_concurrent is None ==> out.max_concurrent == s.max_concurrent
            &&& max_concurrent matches Some(n) ==> {
                &&& 1 <= n <= 16 ==> out.max_concurrent == n
                &&& n < 1 ==> out.max_concurrent == 1
                &&& n > 16 ==> out.max_concurrent == 16
            }
            &&& clipboard_enabled is None ==> out.clipboard_enabled == s.clipboard_enabled
            &&& clipboard_enabled matches Some(v) ==> out.clipboard_enabled == v
            &&& mp4_output is None ==> out.mp4_output == s.mp4_output
            &&& mp4_output matches Some(v) ==> out.mp4_output == v
            &&& default_dir is None ==> out.default_dir == s.default_dir
            &&& default_dir matches Some(d) ==> out.default_dir == d
        }),
{
}

/// A new installation runs three downloads at once, watches the clipboard, writes
/// MP4 files and has no directory set.
pub proof fn lemma_defaults()
    ensures
        settings::default_settings().max_concurrent == 3,
        settings::default_settings().clipboard_enabled,
        settings::default_settings().mp4_output,
        settings::default_settings().default_dir.len() == 0,
{
}

// ---------------------------------------------------------------------------
// Orders to stop
// ---------------------------------------------------------------------------

/// A worker goes on exactly where its task is there and it was not told to stop:
/// the present run by the order that the task has now, an earlier one by the
/// order that it got.
pub proof fn lemma_orders(tasks: Seq<EntryView>, i: int, run: int)
    requires
        queue::by_id(tasks),
        0 <= i < tasks.len(),
        0 <= run,
    ensures
        ({
            let stopped = queue::is_stopped(tasks, tasks[i].task.id, run);
            let n = tasks[i].earlier.len();
            &&& run < n ==> stopped == tasks[i].earlier[run]
            &&& run == n ==> stopped == tasks[i].cancel
            &&& run > n ==> stopped
        }),
{
    queue::lemma_found(tasks, i);
}

/// The worker of a task that is gone is told to stop.
pub proof fn lemma_orders_gone(tasks: Seq<EntryView>, id: u64, run: int)
    requires
        queue::by_id(tasks),
        forall|i: int| 0 <= i < tasks.len() ==> (#[trigger] tasks[i]).task.id != id,
    ensures
        queue::is_stopped(tasks, id, run),
{
    queue::lemma_below(tasks, id);
}

/// A list of tasks has each of them in its place.
pub proof fn lemma_listed_tasks(tasks: Seq<EntryView>, i: int)
    requires
        0 <= i < tasks.len(),
    ensures
        queue::task_list(tasks).len() == tasks.len(),
        queue::task_list(tasks)[i] == tasks[i].task,
{
}

/// A task is found by its id, wherever it stands, and only a task that is there
/// is found.
pub proof fn lemma_found_by_id(tasks: Seq<EntryView>, i: int, id: u64)
    requires
        queue::by_id(tasks),
    ensures
        0 <= i < tasks.len() ==> queue::has_task(tasks, tasks[i].task.id) && queue::task_at(
            tasks,
            tasks[i].task.id,
        ) == tasks[i],
        queue::has_task(tasks, id) <==> exists|j: int|
            0 <= j < tasks.len() && (#[trigger] tasks[j]).task.id == id,
{
    if 0 <= i < tasks.len() {
        queue::lemma_found(tasks, i);
    }
    queue::lemma_below(tasks, id);
    if exists|j: int| 0 <= j < tasks.len() && (#[trigger] tasks[j]).task.id == id {
        let j = choose|j: int| 0 <= j < tasks.len() && (#[trigger] tasks[j]).task.id == id;
        queue::lemma_found(tasks, j);
    }
}

} // verus!
