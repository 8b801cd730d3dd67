//! The library's standing guarantees, stated once over the spec model:
//! the queue holds at most one print task, histories stay bounded and
//! samples spaced, and leaving service errors every pending task.  The
//! per-transition guarantees (one outstanding line, consecutive line
//! numbers, the resend cycle) are stated on `ReadyState::consume` and its
//! helpers directly.

use vstd::prelude::*;
use crate::feedback::{
    FbError,
    FbHeater,
    FbTaskProgress,
    HeaterV,
    MachineStatus,
    Printing,
    TaskRecord,
    TaskRecordV,
    TaskStatus,
    TemperatureHistoryEntry,
    apply_fb_heater,
    apply_fb_heaters,
    apply_progress,
    cascade_fires,
    cascade_message,
    heaterv_index_from,
    map_progress_status,
    progress_has,
    push_sample,
    reconcile_status,
    rec_index_from,
    trim_history,
};
use crate::task::{Task, wf_queue};

verus! {

/// How many queued tasks are not overrides.
pub open spec fn count_non_override(tasks: Seq<Task>) -> nat
    decreases tasks.len(),
{
    if tasks.len() == 0 {
        0
    } else {
        count_non_override(tasks.drop_last()) + (if tasks.last().machine_override {
            0nat
        } else {
            1nat
        })
    }
}

/// A well-shaped queue holds at most one non-override task, and only as its
/// tail: every spool queue the driver builds satisfies this, because
/// `enqueue_task` preserves `wf_queue` and rejects a second print.
pub proof fn lemma_queue_one_print(tasks: Seq<Task>)
    requires
        wf_queue(tasks),
    ensures
        count_non_override(tasks) <= 1,
        count_non_override(tasks) == 1 ==> !tasks.last().machine_override,
    decreases tasks.len(),
{
    if tasks.len() > 0 {
        let prefix = tasks.drop_last();
        assert(wf_queue(prefix)) by {
            assert(forall|i: int|
                0 <= i < prefix.len() - 1 ==> (#[trigger] prefix[i]).machine_override);
        }
        lemma_queue_one_print(prefix);
        if prefix.len() > 0 {
            assert(prefix.last() == tasks[tasks.len() - 2]);
            assert(prefix.last().machine_override);
            assert(count_non_override(prefix) == 0) by {
                if count_non_override(prefix) == 1 {
                    assert(!prefix.last().machine_override);
                }
            }
        }
    }
}

/// Consecutive samples are spaced more than half a second apart.
pub open spec fn history_spaced(h: Seq<TemperatureHistoryEntry>) -> bool {
    forall|i: int|
        0 <= i < h.len() - 1 ==> (#[trigger] h[i]).created_at + 500 < h[i + 1].created_at
}

/// Appending on the half-second cadence keeps samples spaced.
pub proof fn lemma_push_sample_spaced(
    h: Seq<TemperatureHistoryEntry>,
    target: i64,
    actual: i64,
    now: u64,
)
    requires
        history_spaced(h),
    ensures
        history_spaced(push_sample(h, target, actual, now)),
        push_sample(h, target, actual, now).len() <= h.len() + 1,
{
    let h2 = push_sample(h, target, actual, now);
    if h.len() == 0 || now > h.last().created_at + 500 {
        assert forall|i: int| 0 <= i < h2.len() - 1 implies (#[trigger] h2[i]).created_at + 500 < h2[
            i + 1
        ].created_at by {
            if i < h.len() - 1 {
                assert(h2[i] == h[i] && h2[i + 1] == h[i + 1]);
            } else {
                assert(h2[i] == h.last() && h2[i + 1].created_at == now);
            }
        }
    }
}

/// Trimming keeps samples spaced and within the bound.
pub proof fn lemma_trim_history_spaced(h: Seq<TemperatureHistoryEntry>, cap: int)
    requires
        history_spaced(h),
        cap >= 0,
    ensures
        history_spaced(trim_history(h, cap)),
        trim_history(h, cap).len() <= cap || trim_history(h, cap).len() == h.len(),
{
    let t = trim_history(h, cap);
    if h.len() > cap {
        assert forall|i: int| 0 <= i < t.len() - 1 implies (#[trigger] t[i]).created_at + 500 < t[i
            + 1].created_at by {
            assert(t[i] == h[h.len() - cap + i]);
            assert(t[i + 1] == h[h.len() - cap + i + 1]);
        }
    }
}

/// Every heater's history stays within 60 samples and spaced, across any
/// run of temperature reports.
pub proof fn lemma_heater_histories_bounded(hs: Seq<HeaterV>, fs: Seq<FbHeater>, now: u64)
    requires
        forall|i: int|
            0 <= i < hs.len() ==> (#[trigger] hs[i]).history.len() <= 60 && history_spaced(
                hs[i].history,
            ),
    ensures
        ({
            let hs2 = apply_fb_heaters(hs, fs, now);
            forall|i: int|
                0 <= i < hs2.len() ==> (#[trigger] hs2[i]).history.len() <= 60 && history_spaced(
                    hs2[i].history,
                )
        }),
    decreases fs.len(),
{
    if fs.len() > 0 {
        lemma_heater_histories_bounded(hs, fs.drop_last(), now);
        let hs1 = apply_fb_heaters(hs, fs.drop_last(), now);
        let f = fs.last();
        let hs2 = apply_fb_heater(hs1, f, now);
        let j = heaterv_index_from(hs1, f.address@, 0);
        if j >= 0 {
            lemma_heaterv_index_in_range(hs1, f.address@, 0);
            lemma_push_sample_spaced(hs1[j].history, f.target_temperature, f.actual_temperature, now);
            lemma_trim_history_spaced(
                push_sample(hs1[j].history, f.target_temperature, f.actual_temperature, now),
                60,
            );
            assert forall|i: int| 0 <= i < hs2.len() implies (#[trigger] hs2[i]).history.len() <= 60
                && history_spaced(hs2[i].history) by {
                if i != j {
                    assert(hs2[i] == hs1[i]);
                }
            }
        }
    }
}

proof fn lemma_heaterv_index_in_range(hs: Seq<HeaterV>, addr: Seq<char>, i: int)
    requires
        0 <= i,
    ensures
        heaterv_index_from(hs, addr, i) == -1 || (i <= heaterv_index_from(hs, addr, i) < hs.len()),
    decreases hs.len() - i,
{
    if i < hs.len() && hs[i].address != addr {
        lemma_heaterv_index_in_range(hs, addr, i + 1);
    }
}

/// When the machine leaves service and its tasks are force-errored, no task
/// stays pending: the cascade of `update_machine` settles everything that
/// was running.
pub proof fn lemma_cascade_clears_pending(
    before: Seq<TaskRecord>,
    after: Seq<TaskRecord>,
    current: MachineStatus,
    code: i32,
    error: Option<FbError>,
    now: u64,
)
    requires
        cascade_fires(current, code, error, now),
        after.len() == before.len(),
        forall|i: int|
            #![auto]
            0 <= i < before.len() ==> {
                &&& (before[i].status.is_pending() ==> (after[i].status
                    matches TaskStatus::Errored { message, errored_at } && errored_at == now
                    && message@ == cascade_message(code, error)))
                &&& (!before[i].status.is_pending() ==> after[i].status == before[i].status)
            },
    ensures
        forall|i: int| 0 <= i < after.len() ==> !(#[trigger] after[i]).status.is_pending(),
        forall|i: int|
            0 <= i < after.len() ==> ((#[trigger] before[i]).status.is_pending()
                ==> after[i].status.is_settled()),
{
}

/// The last record that is still pending, named by the frame, and a print
/// — the one whose id the reconcile step leaves the machine printing.
pub open spec fn last_reported_print(recs: Seq<TaskRecordV>, ps: Seq<FbTaskProgress>) -> int
    decreases recs.len(),
{
    if recs.len() == 0 {
        -1
    } else if recs.last().status.is_pending() && progress_has(ps, recs.last().id)
        && recs.last().is_print {
        recs.len() - 1
    } else {
        last_reported_print(recs.drop_last(), ps)
    }
}

/// On the first feedback after a reconnect, a surviving pending print puts
/// the machine into printing it: the reconcile step ends on
/// `Printing{task_id, paused: false, paused_snapshot: None}` for the last
/// such record, and leaves the status alone when no record qualifies.
pub proof fn lemma_reconcile_resumes_the_print(
    s0: MachineStatus,
    recs: Seq<TaskRecordV>,
    ps: Seq<FbTaskProgress>,
)
    ensures
        -1 <= last_reported_print(recs, ps) < recs.len(),
        last_reported_print(recs, ps) >= 0 ==> reconcile_status(s0, recs, ps)
            == MachineStatus::Printing(
            Printing {
                task_id: recs[last_reported_print(recs, ps)].id,
                paused: false,
                paused_state: None,
            },
        ),
        last_reported_print(recs, ps) == -1 ==> reconcile_status(s0, recs, ps) == s0,
    decreases recs.len(),
{
    if recs.len() > 0 {
        lemma_reconcile_resumes_the_print(s0, recs.drop_last(), ps);
        let prev = recs.drop_last();
        let j = last_reported_print(prev, ps);
        if !(recs.last().status.is_pending() && progress_has(ps, recs.last().id)
            && recs.last().is_print) && j >= 0 {
            assert(recs[j] == prev[j]);
        }
    }
}

/// A progress entry that settles the task the machine is printing unpaused
/// returns the machine to ready; any other entry leaves the status alone.
pub proof fn lemma_settling_the_print_returns_ready(
    recs: Seq<TaskRecordV>,
    machine_status: MachineStatus,
    p: FbTaskProgress,
    error: Option<FbError>,
    now: u64,
)
    requires
        apply_progress(recs, machine_status, p, error, now) is Some,
    ensures
        ({
            let j = rec_index_from(recs, p.task_id, 0);
            let ns = map_progress_status(p.status, error, now).unwrap();
            let settles = !recs[j].status.is_settled() && !(recs[j].status is Paused
                && ns is Paused) && ns.is_settled();
            let st2 = apply_progress(recs, machine_status, p, error, now).unwrap().1;
            &&& (settles && (machine_status matches MachineStatus::Printing(pr) && !pr.paused
                && pr.task_id == p.task_id) ==> st2 == MachineStatus::Ready)
            &&& (!(settles && (machine_status matches MachineStatus::Printing(pr) && !pr.paused
                && pr.task_id == p.task_id)) ==> st2 == machine_status)
        }),
{
}

} // verus!
