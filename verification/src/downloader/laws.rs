//! What holds of the queue as a whole.

use crate::downloader::queue::{EntryView, QueueView};
use crate::downloader::queue;
use crate::downloader::settings;
use crate::model::TaskView;
use vstd::prelude::*;

verus! {

// ---------------------------------------------------------------------------
// Ids
// ---------------------------------------------------------------------------

/// Whether every id was given by the queue.
pub open spec fn ids_given(q: QueueView) -> bool {
    forall|i: int| 0 <= i < q.tasks.len() ==> (#[trigger] q.tasks[i]).task.id <= q.next_id
}

/// A new task gets an id that no other task has: it is added behind all others
/// and replaces none.
pub proof fn lemma_fresh_id(q: QueueView, entry: EntryView)
    requires
        queue::by_id(q.tasks),
        ids_given(q),
        entry.task.id == q.next_id + 1,
    ensures
        queue::put(q.tasks, entry) == q.tasks.push(entry),
        ids_given(
            QueueView { next_id: entry.task.id, tasks: queue::put(q.tasks, entry), ..q },
        ),
{
    queue::lemma_put_last(q.tasks, entry);
}

/// Nothing that is done to tasks gives one another id.
pub proof fn lemma_ids_kept(
    q: QueueView,
    id: u64,
    status: Seq<char>,
    error: Option<Seq<char>>,
    destination: Seq<char>,
    slots: nat,
    now: i64,
)
    requires
        queue::by_id(q.tasks),
        ids_given(q),
    ensures
        ids_given(QueueView { tasks: queue::after_start(q.tasks, slots, now), ..q }),
        ids_given(QueueView { tasks: queue::finalized(q.tasks, id, status, error), ..q }),
        ids_given(QueueView { tasks: queue::paused(q.tasks, id), ..q }),
        ids_given(QueueView { tasks: queue::resumed(q.tasks, id), ..q }),
        ids_given(QueueView { tasks: queue::cancelled(q.tasks, id), ..q }),
        ids_given(QueueView { tasks: queue::moved(q.tasks, id, destination), ..q }),
        ids_given(QueueView { tasks: queue::unfinished(q.tasks), ..q }),
{
    queue::lemma_below(q.tasks, id);
    queue::lemma_after_start(q.tasks, slots, now);
    queue::lemma_unfinished(q.tasks);
    let started = queue::after_start(q.tasks, slots, now);
    assert forall|i: int| 0 <= i < started.len() implies (#[trigger] started[i]).task.id
        <= q.next_id by {
        assert(q.tasks[i].task.id <= q.next_id);
    }
    let clear = queue::unfinished(q.tasks);
    assert forall|i: int| 0 <= i < clear.len() implies (#[trigger] clear[i]).task.id
        <= q.next_id by {
        let k = choose|k: int| 0 <= k < q.tasks.len() && q.tasks[k] == clear[i];
        assert(q.tasks[k].task.id <= q.next_id);
    }
}

// ---------------------------------------------------------------------------
// Starting tasks
// ---------------------------------------------------------------------------

/// Each started task runs, so that the running tasks grow by the started ones;
/// no more tasks are started than there are free slots.
pub proof fn lemma_started_count(tasks: Seq<EntryView>, slots: nat, now: i64)
    ensures
        queue::to_start(tasks, slots, now).len() <= slots,
        queue::active_count(queue::after_start(tasks, slots, now)) == queue::active_count(tasks)
            + queue::to_start(tasks, slots, now).len(),
    decreases tasks.len(),
{
    if tasks.len() > 0 {
        let front = tasks.drop_last();
        lemma_started_count(front, slots, now);
        let out = queue::after_start(tasks, slots, now);
        assert(out.drop_last() =~= queue::after_start(front, slots, now));
        reveal_strlit("queued");
        reveal_strlit("scheduled");
        reveal_strlit("downloading");
        assert("queued"@.len() != "downloading"@.len());
        assert("scheduled"@.len() != "downloading"@.len());
    }
}

/// The queue never runs more downloads at once than the settings allow, unless
/// more of them were running before.
pub proof fn lemma_concurrency_limit(q: QueueView, now: i64)
    ensures
        queue::active_count(queue::after_start(q.tasks, queue::free_slots(q), now))
            <= q.settings.max_concurrent || queue::after_start(
            q.tasks,
            queue::free_slots(q),
            now,
        ) == q.tasks,
{
    lemma_started_count(q.tasks, queue::free_slots(q), now);
    if queue::free_slots(q) == 0 {
        lemma_no_slots(q.tasks, now);
    }
}

proof fn lemma_no_slots(tasks: Seq<EntryView>, now: i64)
    ensures
        queue::after_start(tasks, 0, now) == tasks,
    decreases tasks.len(),
{
    if tasks.len() > 0 {
        lemma_no_slots(tasks.drop_last(), now);
        assert(queue::after_start(tasks, 0, now) =~= tasks);
    } else {
        assert(queue::after_start(tasks, 0, now) =~= tasks);
    }
}

/// Tasks are started in the order of their ids: a due task that is not started
/// finds all slots taken by tasks before it. Only due tasks are started.
pub proof fn lemma_oldest_first(tasks: Seq<EntryView>, slots: nat, now: i64)
    requires
        queue::by_id(tasks),
    ensures
        forall|k: int|
            0 <= k < queue::to_start(tasks, slots, now).len() ==> exists|i: int|
                0 <= i < tasks.len() && (#[trigger] tasks[i]).task.id == (
                #[trigger] queue::to_start(tasks, slots, now)[k]) && queue::is_due(
                    tasks[i].task,
                    now,
                ),
        forall|j: int, k: int|
            0 <= j < k < queue::to_start(tasks, slots, now).len() ==> queue::to_start(
                tasks,
                slots,
                now,
            )[j] < queue::to_start(tasks, slots, now)[k],
        forall|i: int|
            0 <= i < tasks.len() && queue::is_due((#[trigger] tasks[i]).task, now)
                && !queue::to_start(tasks, slots, now).contains(tasks[i].task.id)
                ==> queue::to_start(tasks, slots, now).len() == slots && forall|k: int|
                0 <= k < slots ==> #[trigger] queue::to_start(tasks, slots, now)[k]
                    < tasks[i].task.id,
    decreases tasks.len(),
{
    if tasks.len() > 0 {
        let front = tasks.drop_last();
        let before = queue::to_start(front, slots, now);
        let all = queue::to_start(tasks, slots, now);
        lemma_oldest_first(front, slots, now);
        lemma_started_count(front, slots, now);
        let last = tasks.len() - 1;
        assert forall|k: int| 0 <= k < before.len() implies #[trigger] before[k]
            < tasks[last].task.id by {
            let i = choose|i: int|
                0 <= i < front.len() && (#[trigger] front[i]).task.id == before[k]
                    && queue::is_due(front[i].task, now);
            assert(tasks[i].task.id < tasks[last].task.id);
        }
        assert forall|k: int| 0 <= k < all.len() implies exists|i: int|
            0 <= i < tasks.len() && (#[trigger] tasks[i]).task.id == (#[trigger] all[k])
                && queue::is_due(tasks[i].task, now) by {
            if k < before.len() {
                assert(all[k] == before[k]);
                let i = choose|i: int|
                    0 <= i < front.len() && (#[trigger] front[i]).task.id == before[k]
                        && queue::is_due(front[i].task, now);
                assert(tasks[i].task.id == all[k]);
            } else {
                assert(tasks[last].task.id == all[k]);
            }
        }
        assert forall|i: int|
            0 <= i < tasks.len() && queue::is_due((#[trigger] tasks[i]).task, now)
                && !all.contains(tasks[i].task.id) implies all.len() == slots && forall|k: int|
            0 <= k < slots ==> #[trigger] all[k] < tasks[i].task.id by {
            if i < last {
                assert(front[i] == tasks[i]);
                if before.contains(front[i].task.id) {
                    let k = choose|k: int| 0 <= k < before.len() && before[k] == front[i].task.id;
                    assert(all[k] == tasks[i].task.id);
                }
                assert(before.len() == slots);
                assert(all == before);
            } else {
                if before.len() < slots {
                    assert(all[before.len() as int] == tasks[last].task.id);
                }
                assert(all == before);
            }
        }
    }
}

/// The tasks whose ids are handed out are exactly those that run from then on.
pub proof fn lemma_started_are_reported(tasks: Seq<EntryView>, slots: nat, now: i64, i: int)
    requires
        queue::by_id(tasks),
        0 <= i < tasks.len(),
    ensures
        queue::after_start(tasks, slots, now)[i] == if queue::to_start(tasks, slots, now).contains(
            tasks[i].task.id,
        ) {
            queue::started(tasks[i])
        } else {
            tasks[i]
        },
    decreases tasks.len(),
{
    let front = tasks.drop_last();
    let before = queue::to_start(front, slots, now);
    let all = queue::to_start(tasks, slots, now);
    let last = tasks.len() - 1;
    queue::lemma_after_start(front, slots, now);
    lemma_oldest_first(front, slots, now);
    assert forall|k: int| 0 <= k < before.len() implies #[trigger] before[k]
        < tasks[last].task.id by {
        let j = choose|j: int|
            0 <= j < front.len() && (#[trigger] front[j]).task.id == before[k] && queue::is_due(
                front[j].task,
                now,
            );
        assert(tasks[j].task.id < tasks[last].task.id);
    }
    if i < last {
        lemma_started_are_reported(front, slots, now, i);
        assert(queue::after_start(tasks, slots, now)[i] == queue::after_start(front, slots, now)[i]);
        assert(front[i] == tasks[i]);
        assert(tasks[i].task.id < tasks[last].task.id);
        if before.contains(tasks[i].task.id) {
            let k = choose|k: int| 0 <= k < before.len() && before[k] == tasks[i].task.id;
            assert(all[k] == tasks[i].task.id);
        } else if all.contains(tasks[i].task.id) {
            let k = choose|k: int| 0 <= k < all.len() && all[k] == tasks[i].task.id;
            assert(k < before.len());
            assert(before[k] == tasks[i].task.id);
        }
    } else {
        if before.len() < slots && queue::is_due(tasks[last].task, now) {
            assert(all[before.len() as int] == tasks[last].task.id);
        } else if all.contains(tasks[last].task.id) {
            let k = choose|k: int| 0 <= k < all.len() && all[k] == tasks[last].task.id;
            assert(before[k] < tasks[last].task.id);
        }
    }
}

/// As long as slots are free no due task waits.
pub proof fn lemma_no_idle_slots(q: QueueView, now: i64, i: int)
    requires
        queue::by_id(q.tasks),
        0 <= i < q.tasks.len(),
        queue::is_due(q.tasks[i].task, now),
        queue::to_start(q.tasks, queue::free_slots(q), now).len() < queue::free_slots(q),
    ensures
        queue::to_start(q.tasks, queue::free_slots(q), now).contains(q.tasks[i].task.id),
{
    lemma_oldest_first(q.tasks, queue::free_slots(q), now);
}

/// A task that is not queued or scheduled, or whose time has not come, is not
/// started.
pub proof fn lemma_not_due_untouched(tasks: Seq<EntryView>, slots: nat, now: i64, i: int)
    requires
        0 <= i < tasks.len(),
        !queue::is_due(tasks[i].task, now),
    ensures
        queue::after_start(tasks, slots, now)[i] == tasks[i],
{
    queue::lemma_after_start(tasks, slots, now);
}

// ---------------------------------------------------------------------------
// Pausing and resuming
// ---------------------------------------------------------------------------

/// A running task that is paused and resumed waits again and is otherwise as it
/// was; no other task changes. The worker that was running is still told to
/// stop, and that of the next run is not.
pub proof fn lemma_pause_resume(tasks: Seq<EntryView>, id: u64)
    requires
        queue::by_id(tasks),
        queue::has_task(tasks, id),
        queue::is_active(queue::task_at(tasks, id).task),
    ensures
        queue::resumed(queue::paused(tasks, id), id) == queue::replaced(
            tasks,
            id,
            EntryView {
                earlier: queue::task_at(tasks, id).earlier.push(true),
                cancel: false,
                ..queue::with_status(queue::task_at(tasks, id), "queued"@)
            },
        ),
        queue::is_stopped(
            queue::resumed(queue::paused(tasks, id), id),
            id,
            queue::task_at(tasks, id).earlier.len() as int,
        ),
        !queue::is_stopped(
            queue::resumed(queue::paused(tasks, id), id),
            id,
            queue::task_at(tasks, id).earlier.len() as int + 1,
        ),
{
    let p = queue::below(tasks, id);
    let mid = queue::paused(tasks, id);
    queue::lemma_below(tasks, id);
    assert(mid[p].task.id == id);
    assert forall|i: int, j: int| 0 <= i < j < mid.len() implies (#[trigger] mid[i]).task.id < (
    #[trigger] mid[j]).task.id by {
        assert(tasks[i].task.id < tasks[j].task.id);
    }
    queue::lemma_found(mid, p);
    assert(queue::resumed(mid, id) =~= queue::replaced(
        tasks,
        id,
        EntryView {
            earlier: queue::task_at(tasks, id).earlier.push(true),
            cancel: false,
            ..queue::with_status(queue::task_at(tasks, id), "queued"@)
        },
    ));
    let out = queue::resumed(mid, id);
    assert(queue::by_id(out));
    queue::lemma_found(out, p);
}

/// A paused task that is resumed waits, without an error. Its next run has a
/// flag of its own that is not set, the flags of its earlier runs are as they
/// were, and so are its other fields and the other tasks.
pub proof fn lemma_resume(tasks: Seq<EntryView>, id: u64, other: u64)
    requires
        queue::by_id(tasks),
        queue::has_task(tasks, id),
        queue::task_at(tasks, id).task.status == "paused"@,
    ensures
        ({
            let before = queue::task_at(tasks, id);
            let out = queue::resumed(tasks, id);
            let after = queue::task_at(out, id);
            &&& queue::by_id(out) && queue::has_task(out, id)
            &&& after.task == (TaskView { status: "queued"@, error: None, ..before.task })
            &&& after.headers == before.headers
            &&& queue::flags_of(after) == queue::flags_of(before).push(false)
            &&& queue::has_task(out, other) == queue::has_task(tasks, other)
            &&& other != id && queue::has_task(tasks, other) ==> queue::task_at(out, other)
                == queue::task_at(tasks, other)
        }),
{
    let p = queue::below(tasks, id);
    let out = queue::resumed(tasks, id);
    queue::lemma_below(tasks, id);
    assert(out[p].task.id == id);
    assert(queue::by_id(out));
    queue::lemma_found(out, p);
    if other != id {
        queue::lemma_put(tasks, out[p], other);
        assert(queue::put(tasks, out[p]) == out);
    }
}

/// Whether a task has every flag set that another value of it has set.
spec fn keeps_flags(before: EntryView, after: EntryView) -> bool {
    forall|r: int|
        0 <= r < queue::flags_of(before).len() && #[trigger] queue::flags_of(before)[r] ==> r
            < queue::flags_of(after).len() && queue::flags_of(after)[r]
}

proof fn lemma_still_stopped(tasks: Seq<EntryView>, out: Seq<EntryView>, id: u64, run: int)
    requires
        queue::by_id(tasks),
        queue::by_id(out),
        queue::has_task(tasks, id),
        0 <= run < queue::flags_of(queue::task_at(tasks, id)).len(),
        queue::is_stopped(tasks, id, run),
        forall|i: int|
            0 <= i < out.len() ==> exists|j: int|
                0 <= j < tasks.len() && (#[trigger] tasks[j]).task.id == (
                #[trigger] out[i]).task.id && keeps_flags(tasks[j], out[i]),
    ensures
        queue::is_stopped(out, id, run),
{
    if queue::has_task(out, id) {
        queue::lemma_below(out, id);
        let i = queue::below(out, id);
        let j = choose|j: int|
            0 <= j < tasks.len() && (#[trigger] tasks[j]).task.id == out[i].task.id && keeps_flags(
                tasks[j],
                out[i],
            );
        queue::lemma_found(tasks, j);
        assert(queue::flags_of(tasks[j])[run]);
    }
}

proof fn lemma_replaced_stopped(
    tasks: Seq<EntryView>,
    at: u64,
    entry: EntryView,
    id: u64,
    run: int,
)
    requires
        queue::by_id(tasks),
        queue::has_task(tasks, id),
        0 <= run < queue::flags_of(queue::task_at(tasks, id)).len(),
        queue::is_stopped(tasks, id, run),
        entry.task.id == at,
        queue::has_task(tasks, at) ==> keeps_flags(queue::task_at(tasks, at), entry),
    ensures
        queue::is_stopped(queue::replaced(tasks, at, entry), id, run),
{
    let out = queue::replaced(tasks, at, entry);
    queue::lemma_below(tasks, at);
    assert(queue::by_id(out));
    assert forall|i: int| 0 <= i < out.len() implies exists|j: int|
        0 <= j < tasks.len() && (#[trigger] tasks[j]).task.id == (#[trigger] out[i]).task.id
            && keeps_flags(tasks[j], out[i]) by {
        assert(tasks[i].task.id == out[i].task.id && keeps_flags(tasks[i], out[i]));
    }
    lemma_still_stopped(tasks, out, id, run);
}

/// An order to stop stays: whatever is done to a queue, the worker that was told
/// to stop is not told otherwise, also where its task is resumed or cleared.
pub proof fn lemma_stop_orders_stay(
    tasks: Seq<EntryView>,
    id: u64,
    run: int,
    entry: EntryView,
    at: u64,
    status: Seq<char>,
    error: Option<Seq<char>>,
    destination: Seq<char>,
    slots: nat,
    now: i64,
)
    requires
        queue::by_id(tasks),
        queue::has_task(tasks, id),
        0 <= run < queue::flags_of(queue::task_at(tasks, id)).len(),
        queue::is_stopped(tasks, id, run),
        entry.task.id != id,
    ensures
        queue::is_stopped(queue::put(tasks, entry), id, run),
        queue::is_stopped(queue::after_start(tasks, slots, now), id, run),
        queue::is_stopped(queue::finalized(tasks, at, status, error), id, run),
        queue::is_stopped(queue::paused(tasks, at), id, run),
        queue::is_stopped(queue::resumed(tasks, at), id, run),
        queue::is_stopped(queue::cancelled(tasks, at), id, run),
        queue::is_stopped(queue::moved(tasks, at, destination), id, run),
        queue::is_stopped(queue::unfinished(tasks), id, run),
{
    let e = queue::task_at(tasks, at);
    queue::lemma_put(tasks, entry, id);
    let begun = queue::after_start(tasks, slots, now);
    queue::lemma_after_start(tasks, slots, now);
    assert forall|i: int| 0 <= i < begun.len() implies exists|j: int|
        0 <= j < tasks.len() && (#[trigger] tasks[j]).task.id == (#[trigger] begun[i]).task.id
            && keeps_flags(tasks[j], begun[i]) by {
        assert(tasks[i].task.id == begun[i].task.id && keeps_flags(tasks[i], begun[i]));
    }
    lemma_still_stopped(tasks, begun, id, run);
    let clear = queue::unfinished(tasks);
    queue::lemma_unfinished(tasks);
    assert forall|i: int| 0 <= i < clear.len() implies exists|j: int|
        0 <= j < tasks.len() && (#[trigger] tasks[j]).task.id == (#[trigger] clear[i]).task.id
            && keeps_flags(tasks[j], clear[i]) by {
        let j = choose|j: int| 0 <= j < tasks.len() && tasks[j] == clear[i];
        assert(tasks[j].task.id == clear[i].task.id && keeps_flags(tasks[j], clear[i]));
    }
    lemma_still_stopped(tasks, clear, id, run);
    if queue::has_task(tasks, at) {
        let ended = EntryView { task: TaskView { status, error, ..e.task }, ..e };
        lemma_replaced_stopped(tasks, at, ended, id, run);
        let held = EntryView { cancel: true, ..queue::with_status(e, "paused"@) };
        lemma_replaced_stopped(tasks, at, held, id, run);
        let again = EntryView {
            earlier: queue::flags_of(e),
            cancel: false,
            ..queue::with_status(e, "queued"@)
        };
        lemma_replaced_stopped(tasks, at, again, id, run);
        let dropped = EntryView { cancel: true, ..queue::with_status(e, "cancelled"@) };
        lemma_replaced_stopped(tasks, at, dropped, id, run);
        let elsewhere = EntryView { task: TaskView { destination, ..e.task }, ..e };
        lemma_replaced_stopped(tasks, at, elsewhere, id, run);
    }
}

/// The worker of a running task that is paused is told to stop, and so is that of
/// any task that is cancelled.
pub proof fn lemma_told_to_stop(tasks: Seq<EntryView>, id: u64)
    requires
        queue::by_id(tasks),
        queue::has_task(tasks, id),
    ensures
        queue::is_active(queue::task_at(tasks, id).task) ==> queue::is_stopped(
            queue::paused(tasks, id),
            id,
            queue::task_at(tasks, id).earlier.len() as int,
        ),
        queue::is_stopped(
            queue::cancelled(tasks, id),
            id,
            queue::task_at(tasks, id).earlier.len() as int,
        ),
{
    let p = queue::below(tasks, id);
    queue::lemma_below(tasks, id);
    let held = queue::paused(tasks, id);
    let dropped = queue::cancelled(tasks, id);
    assert(queue::by_id(held) && queue::by_id(dropped));
    queue::lemma_found(held, p);
    queue::lemma_found(dropped, p);
}

/// A task that is paused or cancelled is not started again by the queue.
pub proof fn lemma_stopped_stays(entry: EntryView, now: i64)
    ensures
        !queue::is_due(queue::with_status(entry, "paused"@).task, now),
        !queue::is_due(queue::with_status(entry, "cancelled"@).task, now),
{
    reveal_strlit("queued");
    reveal_strlit("scheduled");
    reveal_strlit("paused");
    reveal_strlit("cancelled");
    assert("paused"@[0] != "queued"@[0]);
    assert("paused"@.len() != "scheduled"@.len());
    assert("cancelled"@.len() != "queued"@.len());
    assert("cancelled"@[0] != "scheduled"@[0]);
}

// ---------------------------------------------------------------------------
// Statuses and kinds
// ---------------------------------------------------------------------------

/// The statuses that a task can have.
pub open spec fn is_status(status: Seq<char>) -> bool {
    status == "scheduled"@ || status == "queued"@ || status == "downloading"@ || status
        == "paused"@ || status == "done"@ || status == "failed"@ || status == "cancelled"@
}

/// The kinds that a task can have.
pub open spec fn is_kind(kind: Seq<char>) -> bool {
    kind == "http"@ || kind == "hls"@ || kind == "dash"@ || kind == "torrent"@
}

/// Whether every task has a status and a kind that it can have.
pub open spec fn well_labelled(tasks: Seq<EntryView>) -> bool {
    forall|i: int|
        0 <= i < tasks.len() ==> is_status((#[trigger] tasks[i]).task.status) && is_kind(
            tasks[i].task.kind,
        )
}

/// Whatever is done to a queue, every task keeps a status and a kind that it
/// can have.
pub proof fn lemma_labels_kept(
    tasks: Seq<EntryView>,
    entry: EntryView,
    id: u64,
    status: Seq<char>,
    error: Option<Seq<char>>,
    destination: Seq<char>,
    slots: nat,
    now: i64,
)
    requires
        queue::by_id(tasks),
        well_labelled(tasks),
        is_status(entry.task.status) && is_kind(entry.task.kind),
        is_status(status),
    ensures
        well_labelled(queue::put(tasks, entry)),
        well_labelled(queue::after_start(tasks, slots, now)),
        well_labelled(queue::finalized(tasks, id, status, error)),
        well_labelled(queue::paused(tasks, id)),
        well_labelled(queue::resumed(tasks, id)),
        well_labelled(queue::cancelled(tasks, id)),
        well_labelled(queue::moved(tasks, id, destination)),
        well_labelled(queue::unfinished(tasks)),
{
    queue::lemma_below(tasks, entry.task.id);
    queue::lemma_below(tasks, id);
    queue::lemma_after_start(tasks, slots, now);
    queue::lemma_unfinished(tasks);
    let clear = queue::unfinished(tasks);
    assert forall|i: int| 0 <= i < clear.len() implies is_status(
        (#[trigger] clear[i]).task.status,
    ) && is_kind(clear[i].task.kind) by {
        let k = choose|k: int| 0 <= k < tasks.len() && tasks[k] == clear[i];
        assert(is_status(tasks[k].task.status));
    }
}

/// A new task has a status and a kind that it can have.
pub proof fn lemma_new_labels(
    id: u64,
    url: Seq<char>,
    destination: Seq<char>,
    connections: Option<usize>,
    start_at: Option<i64>,
    rep_id: Option<Seq<char>>,
    headers: Seq<(Seq<char>, Seq<char>)>,
    now: i64,
)
    ensures
        ({
            let entry = queue::new_entry(
                id,
                url,
                destination,
                connections,
                start_at,
                rep_id,
                headers,
                now,
            );
            is_status(entry.task.status) && is_kind(entry.task.kind)
        }),
{
}

// ---------------------------------------------------------------------------
// Persistence
// ---------------------------------------------------------------------------

/// A queue that is saved and loaded after a restart has the same tasks, with
/// those that were running waiting again, and the same settings; only headers
/// and orders to stop are gone.
pub proof fn lemma_reload(q: QueueView, fresh: QueueView)
    requires
        queue::by_id(q.tasks),
        q.settings.max_concurrent >= 1,
        fresh.tasks.len() == 0,
        fresh.settings == settings::default_settings(),
    ensures
        queue::loaded(fresh, queue::saved(q)) == (QueueView {
            next_id: q.next_id,
            tasks: q.tasks.map_values(|e: EntryView| queue::restored(e.task)),
            settings: q.settings,
        }),
{
    lemma_restored(q.tasks);
    assert(fresh.tasks =~= Seq::empty());
    let out = queue::loaded(fresh, queue::saved(q));
    if q.settings.default_dir.len() == 0 {
        assert(q.settings.default_dir =~= Seq::empty());
    }
    assert(out.settings == q.settings);
}

proof fn lemma_restored(tasks: Seq<EntryView>)
    requires
        queue::by_id(tasks),
    ensures
        queue::with_restored(Seq::empty(), queue::task_list(tasks)) == tasks.map_values(
            |e: EntryView| queue::restored(e.task),
        ),
    decreases tasks.len(),
{
    let back = |e: EntryView| queue::restored(e.task);
    if tasks.len() > 0 {
        let front = tasks.drop_last();
        lemma_restored(front);
        assert(queue::task_list(tasks).drop_last() =~= queue::task_list(front));
        let before = front.map_values(back);
        let entry = back(tasks.last());
        assert forall|i: int, j: int| 0 <= i < j < before.len() implies (
        #[trigger] before[i]).task.id < (#[trigger] before[j]).task.id by {
            assert(tasks[i].task.id < tasks[j].task.id);
        }
        assert forall|i: int| 0 <= i < before.len() implies (#[trigger] before[i]).task.id
            < entry.task.id by {
            assert(tasks[i].task.id < tasks[tasks.len() - 1].task.id);
        }
        queue::lemma_put_last(before, entry);
        assert(before.push(entry) =~= tasks.map_values(back));
    } else {
        assert(tasks.map_values(back) =~= Seq::empty());
    }
}

/// Loading leaves no task running.
pub proof fn lemma_nothing_runs_after_load(task: TaskView)
    ensures
        !queue::is_active(queue::restored(task).task),
{
    reveal_strlit("queued");
    reveal_strlit("downloading");
    assert("queued"@.len() != "downloading"@.len());
}

} // verus!
