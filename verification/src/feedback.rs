//! The feedback integrator: merges the driver's feedback frames into the
//! live machine view, reconciles the task repository with what the driver
//! reports, and enforces the history bounds and the paused-snapshot rule.
//!
//! Durable storage stays abstract: the caller passes the task records in and
//! persists them after the merge.

use vstd::prelude::*;
use crate::gcode::dec_of;

verus! {

/// The positioning units the firmware reports.
#[derive(Clone, Copy, Debug, PartialEq, Eq, Structural)]
pub enum PositioningUnits {
    Millimeters,
    Inches,
}

/// One temperature sample.  Temperatures are fixed-point thousandths of a
/// degree; timestamps are milliseconds.
#[derive(Clone, Copy, Debug, PartialEq, Eq, Structural)]
pub struct TemperatureHistoryEntry {
    pub target_temperature: Option<i64>,
    pub actual_temperature: Option<i64>,
    pub created_at: u64,
}

/// The live view of one heater, with its bounded sample history.
#[derive(Clone, Debug)]
pub struct HeaterEphemeral {
    pub address: String,
    pub target_temperature: Option<i64>,
    pub actual_temperature: Option<i64>,
    pub enabled: bool,
    pub blocking: bool,
    pub history: Vec<TemperatureHistoryEntry>,
}

/// The live view of one axis.  Positions are fixed-point thousandths.
#[derive(Clone, Debug)]
pub struct AxisEphemeral {
    pub address: String,
    pub target_position: Option<i64>,
    pub actual_position: Option<i64>,
    pub homed: bool,
}

/// The live view of one speed controller.
#[derive(Clone, Debug)]
pub struct SpeedControllerEphemeral {
    pub address: String,
    pub target_speed: Option<i64>,
    pub actual_speed: Option<i64>,
    pub enabled: bool,
}

/// The direction of one GCode history entry.
#[derive(Clone, Copy, Debug, PartialEq, Eq, Structural)]
pub enum GCodeHistoryDirection {
    Rx,
    Tx,
}

/// One GCode history entry.
#[derive(Clone, Debug)]
pub struct GCodeHistoryEntry {
    pub content: String,
    pub direction: GCodeHistoryDirection,
}

/// The machine view captured when a print pauses: everything but the GCode
/// history (the status at that moment is the paused print itself).
#[derive(Clone, Debug)]
pub struct PausedSnapshot {
    pub task_id: u32,
    pub absolute_positioning: bool,
    pub positioning_units: PositioningUnits,
    pub motors_enabled: bool,
    pub heaters: Vec<HeaterEphemeral>,
    pub axes: Vec<AxisEphemeral>,
    pub speed_controllers: Vec<SpeedControllerEphemeral>,
}

/// A print in progress.
#[derive(Clone, Debug)]
pub struct Printing {
    pub task_id: u32,
    pub paused: bool,
    pub paused_state: Option<Box<PausedSnapshot>>,
}

/// A machine failure: when and why.
#[derive(Clone, Debug)]
pub struct ErroredInfo {
    pub message: String,
    pub errored_at: u64,
}

/// The machine's top-level status.
#[derive(Clone, Debug)]
pub enum MachineStatus {
    Disconnected,
    Connecting,
    Ready,
    Printing(Printing),
    Errored(ErroredInfo),
    Stopped,
}

impl MachineStatus {
    /// Statuses under which the driver is still serving the machine; a
    /// change to any other status forces the running tasks to an error.
    pub open spec fn is_driver_ready(self) -> bool {
        match self {
            MachineStatus::Ready | MachineStatus::Printing(_) | MachineStatus::Connecting => true,
            _ => false,
        }
    }

    pub open spec fn is_printing(self) -> bool {
        self is Printing
    }
}

/// The live machine view.
#[derive(Clone, Debug)]
pub struct MachineData {
    pub status: MachineStatus,
    pub absolute_positioning: bool,
    pub positioning_units: PositioningUnits,
    pub motors_enabled: bool,
    pub heaters: Vec<HeaterEphemeral>,
    pub axes: Vec<AxisEphemeral>,
    pub speed_controllers: Vec<SpeedControllerEphemeral>,
    pub gcode_history: Vec<GCodeHistoryEntry>,
}

/// One machine, as the integrator sees it.
#[derive(Clone, Debug)]
pub struct Machine {
    pub data: MachineData,
    /// False until the first feedback after a (re)connect was merged.
    pub has_received_feedback: bool,
}

/// The status of one persisted task.  Timestamps are milliseconds.
#[derive(Clone, Debug)]
pub enum TaskStatus {
    Spooled,
    Started,
    Finished { finished_at: u64 },
    Paused { paused_at: u64 },
    Cancelled { cancelled_at: u64 },
    Errored { message: String, errored_at: u64 },
}

impl TaskStatus {
    /// Still being worked on by the driver.
    pub open spec fn is_pending(self) -> bool {
        self is Spooled || self is Started
    }

    /// Terminal: finished, cancelled or errored.
    pub open spec fn is_settled(self) -> bool {
        self is Finished || self is Cancelled || self is Errored
    }

    pub open spec fn is_paused(self) -> bool {
        self is Paused
    }
}

/// One persisted task record, as the repository hands it over.
#[derive(Clone, Debug)]
pub struct TaskRecord {
    pub id: u32,
    pub status: TaskStatus,
    pub despooled_line_number: Option<u64>,
    pub is_print: bool,
}

/// The error a feedback frame may carry.
#[derive(Clone, Debug)]
pub struct FbError {
    pub message: String,
}

/// Per-task progress carried by a feedback frame.
#[derive(Clone, Copy, Debug, PartialEq, Eq, Structural)]
pub struct FbTaskProgress {
    pub task_id: u32,
    pub despooled_line_number: u32,
    pub status: i32,
}

/// Heater state carried by a feedback frame.
#[derive(Clone, Debug)]
pub struct FbHeater {
    pub address: String,
    pub target_temperature: i64,
    pub actual_temperature: i64,
    pub enabled: bool,
    pub blocking: bool,
}

/// Axis state carried by a feedback frame.
#[derive(Clone, Debug)]
pub struct FbAxis {
    pub address: String,
    pub target_position: i64,
    pub actual_position: i64,
    pub homed: bool,
}

/// Speed-controller state carried by a feedback frame.
#[derive(Clone, Debug)]
pub struct FbSpeedController {
    pub address: String,
    pub target_speed: i64,
    pub actual_speed: i64,
    pub enabled: bool,
}

/// One GCode history entry carried by a feedback frame.
#[derive(Clone, Debug)]
pub struct FbGCodeHistoryEntry {
    pub content: String,
    pub direction: i32,
}

/// One feedback frame from the driver.
#[derive(Clone, Debug)]
pub struct Feedback {
    pub status: i32,
    pub error: Option<FbError>,
    pub task_progress: Vec<FbTaskProgress>,
    pub heaters: Vec<FbHeater>,
    pub axes: Vec<FbAxis>,
    pub speed_controllers: Vec<FbSpeedController>,
    pub gcode_history: Vec<FbGCodeHistoryEntry>,
    pub machine_flags: u32,
}

/// The machine status codes of the feedback frame.
pub const STATUS_ERRORED: i32 = 0;
pub const STATUS_ESTOPPED: i32 = 1;
pub const STATUS_DISCONNECTED: i32 = 2;
pub const STATUS_CONNECTING: i32 = 3;
pub const STATUS_READY: i32 = 4;

/// The task status codes of the feedback frame.
pub const TASK_SPOOLED: i32 = 0;
pub const TASK_STARTED: i32 = 1;
pub const TASK_FINISHED: i32 = 2;
pub const TASK_PAUSED: i32 = 3;
pub const TASK_CANCELLED: i32 = 4;
pub const TASK_ERRORED: i32 = 5;

/// The GCode history direction codes of the feedback frame.
pub const HISTORY_RX: i32 = 0;
pub const HISTORY_TX: i32 = 1;

/// The machine-flag bits of the feedback frame.
pub const FLAG_ABSOLUTE_POSITIONING: u32 = 1;
pub const FLAG_MILLIMETERS: u32 = 2;
pub const FLAG_MOTORS_ENABLED: u32 = 4;
pub const FLAG_PAUSED_STATE: u32 = 8;

/// Notices the integrator emits for the observer channel.
#[derive(Clone, Copy, Debug, PartialEq, Eq, Structural)]
pub enum MachineNotice {
    TaskSettled { task_id: u32 },
    DeleteTaskHistory { task_id: u32 },
}

/// The message recorded when a task vanished from the driver's reports.
pub open spec fn missing_task_message(id: u32) -> Seq<char> {
    "Task #"@ + dec_of(id as nat) + " missing from driver, possibly due to driver crash."@
}

/// The message recorded when tasks are errored by a machine status change
/// that carried no error of its own.
pub open spec fn task_desync_message() -> Seq<char> {
    "Task desync. Task not found in driver responses"@
}

/// Whether the frame mentions the given task id.
pub open spec fn progress_has(ps: Seq<FbTaskProgress>, id: u32) -> bool {
    exists|k: int| 0 <= k < ps.len() && (#[trigger] ps[k]).task_id == id
}

/// A progress status code the integrator accepts: the errored code needs no
/// frame error (a fallback message is used), so validity is the code alone.
pub open spec fn valid_task_status_code(code: i32) -> bool {
    code == TASK_SPOOLED || code == TASK_STARTED || code == TASK_FINISHED || code == TASK_PAUSED
        || code == TASK_CANCELLED || code == TASK_ERRORED
}

/// What a task status mapped from a progress entry looks like.
pub open spec fn status_from_progress_matches(
    ts: TaskStatus,
    code: i32,
    error: Option<FbError>,
    now: u64,
) -> bool {
    if code == TASK_SPOOLED {
        ts == TaskStatus::Spooled
    } else if code == TASK_STARTED {
        ts == TaskStatus::Started
    } else if code == TASK_FINISHED {
        ts == (TaskStatus::Finished { finished_at: now })
    } else if code == TASK_PAUSED {
        ts == (TaskStatus::Paused { paused_at: now })
    } else if code == TASK_CANCELLED {
        ts == (TaskStatus::Cancelled { cancelled_at: now })
    } else if code == TASK_ERRORED {
        ts matches TaskStatus::Errored { message, errored_at } && errored_at == now && message@
            == (match error {
            Some(e) => e.message@,
            None => "Task errored"@,
        })
    } else {
        false
    }
}

/// Maps one progress status code.
fn task_status_from_progress(code: i32, error: &Option<FbError>, now: u64) -> (r: Result<
    TaskStatus,
    String,
>)
    ensures
        r is Ok <==> valid_task_status_code(code),
        (r matches Ok(ts) ==> status_from_progress_matches(ts, code, *error, now)),
{
    proof {
        reveal_strlit("Task errored");
    }
    if code == TASK_SPOOLED {
        Ok(TaskStatus::Spooled)
    } else if code == TASK_STARTED {
        Ok(TaskStatus::Started)
    } else if code == TASK_FINISHED {
        Ok(TaskStatus::Finished { finished_at: now })
    } else if code == TASK_PAUSED {
        Ok(TaskStatus::Paused { paused_at: now })
    } else if code == TASK_CANCELLED {
        Ok(TaskStatus::Cancelled { cancelled_at: now })
    } else if code == TASK_ERRORED {
        let message = match error {
            Some(e) => e.message.clone(),
            None => String::from_str("Task errored"),
        };
        Ok(TaskStatus::Errored { message, errored_at: now })
    } else {
        Err(String::from_str("Invalid task status"))
    }
}

/// The spec-level view of a task status.
pub enum TaskStatusV {
    Spooled,
    Started,
    Finished(u64),
    Paused(u64),
    Cancelled(u64),
    Errored(Seq<char>, u64),
}

impl TaskStatusV {
    pub open spec fn is_pending(self) -> bool {
        self is Spooled || self is Started
    }

    pub open spec fn is_settled(self) -> bool {
        self is Finished || self is Cancelled || self is Errored
    }
}

/// The view of a task status.
pub open spec fn status_view(ts: TaskStatus) -> TaskStatusV {
    match ts {
        TaskStatus::Spooled => TaskStatusV::Spooled,
        TaskStatus::Started => TaskStatusV::Started,
        TaskStatus::Finished { finished_at } => TaskStatusV::Finished(finished_at),
        TaskStatus::Paused { paused_at } => TaskStatusV::Paused(paused_at),
        TaskStatus::Cancelled { cancelled_at } => TaskStatusV::Cancelled(cancelled_at),
        TaskStatus::Errored { message, errored_at } => TaskStatusV::Errored(message@, errored_at),
    }
}

/// The spec-level view of a task record.
pub struct TaskRecordV {
    pub id: u32,
    pub status: TaskStatusV,
    pub despooled: Option<u64>,
    pub is_print: bool,
}

/// The view of one task record.
pub open spec fn record_view(t: TaskRecord) -> TaskRecordV {
    TaskRecordV {
        id: t.id,
        status: status_view(t.status),
        despooled: t.despooled_line_number,
        is_print: t.is_print,
    }
}

/// The views of a record list.
pub open spec fn record_views(ts: Seq<TaskRecord>) -> Seq<TaskRecordV> {
    ts.map_values(|t: TaskRecord| record_view(t))
}

/// The reconcile step on the first feedback after a reconnect: every task
/// the repository holds as pending whose id the driver does not report is
/// errored as missing.
pub open spec fn reconcile_views(
    recs: Seq<TaskRecordV>,
    ps: Seq<FbTaskProgress>,
    now: u64,
) -> Seq<TaskRecordV> {
    recs.map_values(
        |r: TaskRecordV|
            if r.status.is_pending() && !progress_has(ps, r.id) {
                TaskRecordV { status: TaskStatusV::Errored(missing_task_message(r.id), now), ..r }
            } else {
                r
            },
    )
}

/// The machine status after the reconcile step: each pending print the
/// driver still knows puts the machine into printing it, in record order,
/// so the last such record wins; with none, the status is unchanged.
pub open spec fn reconcile_status(
    s0: MachineStatus,
    recs: Seq<TaskRecordV>,
    ps: Seq<FbTaskProgress>,
) -> MachineStatus
    decreases recs.len(),
{
    if recs.len() == 0 {
        s0
    } else {
        let prev = reconcile_status(s0, recs.drop_last(), ps);
        let r = recs.last();
        if r.status.is_pending() && progress_has(ps, r.id) && r.is_print {
            MachineStatus::Printing(Printing { task_id: r.id, paused: false, paused_state: None })
        } else {
            prev
        }
    }
}

/// What a progress status code maps to, if it is valid.
pub open spec fn map_progress_status(code: i32, error: Option<FbError>, now: u64) -> Option<
    TaskStatusV,
> {
    if code == TASK_SPOOLED {
        Some(TaskStatusV::Spooled)
    } else if code == TASK_STARTED {
        Some(TaskStatusV::Started)
    } else if code == TASK_FINISHED {
        Some(TaskStatusV::Finished(now))
    } else if code == TASK_PAUSED {
        Some(TaskStatusV::Paused(now))
    } else if code == TASK_CANCELLED {
        Some(TaskStatusV::Cancelled(now))
    } else if code == TASK_ERRORED {
        Some(
            TaskStatusV::Errored(
                match error {
                    Some(e) => e.message@,
                    None => "Task errored"@,
                },
                now,
            ),
        )
    } else {
        None
    }
}

/// The first record at a position `>= i` with this id, or `-1`.
pub open spec fn rec_index_from(recs: Seq<TaskRecordV>, id: u32, i: int) -> int
    decreases recs.len() - i,
    when 0 <= i
{
    if i >= recs.len() {
        -1
    } else if recs[i].id == id {
        i
    } else {
        rec_index_from(recs, id, i + 1)
    }
}

/// One progress entry applied to the records and the machine status: the
/// despooled counter is taken over; the status is taken over unless the
/// task has settled or a pause would be re-applied; settling emits a
/// settled notice, and settling or pausing emits a history-deletion notice;
/// settling the task that is the current unpaused print returns the machine
/// to ready.  `None` when the task is unknown or the code invalid.
pub open spec fn apply_progress(
    recs: Seq<TaskRecordV>,
    machine_status: MachineStatus,
    p: FbTaskProgress,
    error: Option<FbError>,
    now: u64,
) -> Option<(Seq<TaskRecordV>, MachineStatus, Seq<MachineNotice>)> {
    let j = rec_index_from(recs, p.task_id, 0);
    if j < 0 {
        None
    } else {
        match map_progress_status(p.status, error, now) {
            None => None,
            Some(ns) => {
                let r0 = recs[j];
                let changed = !r0.status.is_settled() && !(r0.status is Paused && ns is Paused);
                let new_status = if changed {
                    ns
                } else {
                    r0.status
                };
                let rec1 = TaskRecordV {
                    despooled: Some(p.despooled_line_number as u64),
                    status: new_status,
                    ..r0
                };
                let settled = changed && new_status.is_settled();
                let dropped = changed && (new_status.is_settled() || new_status is Paused);
                let machine_status2 = if settled && (machine_status
                    matches MachineStatus::Printing(pr) && !pr.paused && pr.task_id == p.task_id) {
                    MachineStatus::Ready
                } else {
                    machine_status
                };
                let notes = (if settled {
                    seq![MachineNotice::TaskSettled { task_id: p.task_id }]
                } else {
                    Seq::<MachineNotice>::empty()
                }) + (if dropped {
                    seq![MachineNotice::DeleteTaskHistory { task_id: p.task_id }]
                } else {
                    Seq::<MachineNotice>::empty()
                });
                Some((recs.update(j, rec1), machine_status2, notes))
            },
        }
    }
}

/// All progress entries applied, first to last, collecting the notices and
/// carrying the machine status along.
pub open spec fn apply_progresses(
    recs: Seq<TaskRecordV>,
    machine_status: MachineStatus,
    ps: Seq<FbTaskProgress>,
    error: Option<FbError>,
    now: u64,
) -> Option<(Seq<TaskRecordV>, MachineStatus, Seq<MachineNotice>)>
    decreases ps.len(),
{
    if ps.len() == 0 {
        Some((recs, machine_status, Seq::empty()))
    } else {
        match apply_progresses(recs, machine_status, ps.drop_last(), error, now) {
            None => None,
            Some((recs1, st1, notes1)) => {
                match apply_progress(recs1, st1, ps.last(), error, now) {
                    None => None,
                    Some((recs2, st2, notes2)) => Some((recs2, st2, notes1 + notes2)),
                }
            },
        }
    }
}

proof fn lemma_rec_index_skip(recs: Seq<TaskRecordV>, id: u32, from: int, i: int)
    requires
        0 <= from <= i <= recs.len(),
        forall|j: int| from <= j < i ==> recs[j].id != id,
    ensures
        rec_index_from(recs, id, from) == rec_index_from(recs, id, i),
    decreases i - from,
{
    if from < i {
        lemma_rec_index_skip(recs, id, from + 1, i);
    }
}

/// Splitting an `apply_progresses` run at position `m`.
proof fn lemma_apply_split(
    recs: Seq<TaskRecordV>,
    st: MachineStatus,
    ps: Seq<FbTaskProgress>,
    error: Option<FbError>,
    now: u64,
    m: int,
)
    requires
        0 <= m <= ps.len(),
    ensures
        match apply_progresses(recs, st, ps.take(m), error, now) {
            None => apply_progresses(recs, st, ps, error, now) is None,
            Some((r1, s1, n1)) => apply_progresses(recs, st, ps, error, now) == (
            match apply_progresses(r1, s1, ps.skip(m), error, now) {
                None => None::<(Seq<TaskRecordV>, MachineStatus, Seq<MachineNotice>)>,
                Some((r2, s2, n2)) => Some((r2, s2, n1 + n2)),
            }),
        },
    decreases ps.len(),
{
    if m == ps.len() {
        assert(ps.take(m) =~= ps);
        assert(ps.skip(m) =~= Seq::<FbTaskProgress>::empty());
        match apply_progresses(recs, st, ps, error, now) {
            None => {},
            Some((r1, s1, n1)) => {
                assert(apply_progresses(r1, s1, ps.skip(m), error, now) == Some(
                    (r1, s1, Seq::<MachineNotice>::empty()),
                ));
                assert(n1 + Seq::<MachineNotice>::empty() =~= n1);
            },
        }
    } else {
        let ps2 = ps.drop_last();
        assert(ps.take(m) =~= ps2.take(m));
        lemma_apply_split(recs, st, ps2, error, now, m);
        assert(ps.skip(m).drop_last() =~= ps2.skip(m));
        assert(ps.skip(m).last() == ps.last());
        match apply_progresses(recs, st, ps.take(m), error, now) {
            None => {},
            Some((r1, s1, n1)) => {
                match apply_progresses(r1, s1, ps2.skip(m), error, now) {
                    None => {},
                    Some((r2, s2, n2)) => {
                        match apply_progress(r2, s2, ps.last(), error, now) {
                            None => {},
                            Some((r3, s3, n3)) => {
                                assert(n1 + (n2 + n3) =~= (n1 + n2) + n3);
                            },
                        }
                    },
                }
            },
        }
    }
}

/// Merges the task progress of one feedback frame into the task records.
///
/// On the first feedback after a reconnect, every pending record the driver
/// does not report is errored as missing, and a reported pending print puts
/// the machine into `Printing`.  Each progress entry then takes over the
/// despooled counter and the mapped status (unless the record has settled,
/// or a pause would be re-applied); a record settling while it is the
/// unpaused current print returns the machine to `Ready`.  Fails if and
/// only if the driver reports an unknown task or an invalid status code.
pub fn update_tasks(
    machine: &mut Machine,
    tasks: &mut Vec<TaskRecord>,
    feedback: &Feedback,
    now: u64,
) -> (r: Result<Vec<MachineNotice>, String>)
    ensures
        final(machine).has_received_feedback == old(machine).has_received_feedback,
        final(machine).data.absolute_positioning == old(machine).data.absolute_positioning,
        final(machine).data.positioning_units == old(machine).data.positioning_units,
        final(machine).data.motors_enabled == old(machine).data.motors_enabled,
        final(machine).data.heaters == old(machine).data.heaters,
        final(machine).data.axes == old(machine).data.axes,
        final(machine).data.speed_controllers == old(machine).data.speed_controllers,
        final(machine).data.gcode_history == old(machine).data.gcode_history,
        final(tasks)@.len() == old(tasks)@.len(),
        forall|i: int|
            0 <= i < old(tasks)@.len() ==> (#[trigger] final(tasks)@[i]).id == old(tasks)@[i].id
                && final(tasks)@[i].is_print == old(tasks)@[i].is_print,
        ({
            let recs0 = record_views(old(tasks)@);
            let ps = feedback.task_progress@;
            let recs1 = if old(machine).has_received_feedback {
                recs0
            } else {
                reconcile_views(recs0, ps, now)
            };
            let status1 = if old(machine).has_received_feedback {
                old(machine).data.status
            } else {
                reconcile_status(old(machine).data.status, recs0, ps)
            };
            match apply_progresses(recs1, status1, ps, feedback.error, now) {
                Some((recs2, st2, notes)) => r matches Ok(ns) && record_views(final(tasks)@)
                    == recs2 && final(machine).data.status == st2 && ns@ == notes,
                None => r is Err,
            }
        }),
        (final(machine).data.status == old(machine).data.status || (final(machine).data.status
            matches MachineStatus::Printing(pr) && pr.paused == false && pr.paused_state is None)
            || final(machine).data.status is Ready),
{
    let ghost recs0 = record_views(old(tasks)@);
    let ghost ps = feedback.task_progress@;
    if !machine.has_received_feedback {
        let mut i: usize = 0;
        while i < tasks.len()
            invariant
                i <= tasks@.len(),
                tasks@.len() == old(tasks)@.len(),
                recs0 == record_views(old(tasks)@),
                ps == feedback.task_progress@,
                forall|x: int| i <= x < tasks@.len() ==> tasks@[x] == old(tasks)@[x],
                forall|x: int|
                    0 <= x < tasks@.len() ==> (#[trigger] tasks@[x]).id == old(tasks)@[x].id
                        && tasks@[x].is_print == old(tasks)@[x].is_print,
                forall|x: int|
                    0 <= x < i ==> record_view(#[trigger] tasks@[x]) == reconcile_views(
                        recs0,
                        ps,
                        now,
                    )[x],
                machine.has_received_feedback == old(machine).has_received_feedback,
                machine.data.absolute_positioning == old(machine).data.absolute_positioning,
                machine.data.positioning_units == old(machine).data.positioning_units,
                machine.data.motors_enabled == old(machine).data.motors_enabled,
                machine.data.heaters == old(machine).data.heaters,
                machine.data.axes == old(machine).data.axes,
                machine.data.speed_controllers == old(machine).data.speed_controllers,
                machine.data.gcode_history == old(machine).data.gcode_history,
                (machine.data.status == old(machine).data.status || (machine.data.status
                    matches MachineStatus::Printing(pr) && pr.paused == false
                    && pr.paused_state is None)),
                machine.data.status == reconcile_status(
                    old(machine).data.status,
                    recs0.take(i as int),
                    ps,
                ),
            decreases tasks@.len() - i,
        {
            let ghost st_pre = machine.data.status;
            let pending = task_status_is_pending(&tasks[i].status);
            if pending {
                let id = tasks[i].id;
                let mut present: bool = false;
                let mut k: usize = 0;
                while k < feedback.task_progress.len() && !present
                    invariant
                        k <= ps.len(),
                        ps == feedback.task_progress@,
                        present ==> k < ps.len() && ps[k as int].task_id == id,
                        forall|x: int| 0 <= x < k ==> (#[trigger] ps[x]).task_id != id,
                    decreases ps.len() - k, (if present {
                        0int
                    } else {
                        1int
                    }),
                {
                    if feedback.task_progress[k].task_id == id {
                        present = true;
                    } else {
                        k = k + 1;
                    }
                }
                if !present {
                    proof {
                        assert(!progress_has(ps, id));
                    }
                    let mut message = String::from_str("Task #");
                    crate::gcode::append_dec(&mut message, id);
                    message.append(" missing from driver, possibly due to driver crash.");
                    proof {
                        assert(message@ =~= missing_task_message(id));
                    }
                    tasks[i].status = TaskStatus::Errored { message, errored_at: now };
                } else if tasks[i].is_print {
                    machine.data.status = MachineStatus::Printing(
                        Printing { task_id: id, paused: false, paused_state: None },
                    );
                }
            }
            proof {
                assert(recs0.take(i + 1).drop_last() =~= recs0.take(i as int));
                assert(recs0.take(i + 1).last() == recs0[i as int]);
                assert(recs0[i as int] == record_view(old(tasks)@[i as int]));
                assert(recs0[i as int].status.is_pending() == old(
                    tasks,
                )@[i as int].status.is_pending());
                assert(machine.data.status == reconcile_status(
                    old(machine).data.status,
                    recs0.take(i + 1),
                    ps,
                ));
            }
            i = i + 1;
        }
        proof {
            assert(record_views(tasks@) =~= reconcile_views(recs0, ps, now));
            assert(recs0.take(recs0.len() as int) =~= recs0);
        }
    }
    let ghost recs1 = if old(machine).has_received_feedback {
        recs0
    } else {
        reconcile_views(recs0, ps, now)
    };
    let ghost status1 = if old(machine).has_received_feedback {
        old(machine).data.status
    } else {
        reconcile_status(old(machine).data.status, recs0, ps)
    };
    proof {
        if old(machine).has_received_feedback {
            assert(record_views(tasks@) =~= recs1);
        }
        assert(machine.data.status == status1);
        assert(ps.take(0) =~= Seq::<FbTaskProgress>::empty());
    }
    let mut notices: Vec<MachineNotice> = Vec::new();
    let mut k: usize = 0;
    while k < feedback.task_progress.len()
        invariant
            k <= ps.len(),
            ps == feedback.task_progress@,
            recs1 == (if old(machine).has_received_feedback {
                record_views(old(tasks)@)
            } else {
                reconcile_views(record_views(old(tasks)@), ps, now)
            }),
            tasks@.len() == old(tasks)@.len(),
            forall|x: int|
                0 <= x < tasks@.len() ==> (#[trigger] tasks@[x]).id == old(tasks)@[x].id
                    && tasks@[x].is_print == old(tasks)@[x].is_print,
            status1 == (if old(machine).has_received_feedback {
                old(machine).data.status
            } else {
                reconcile_status(old(machine).data.status, record_views(old(tasks)@), ps)
            }),
            apply_progresses(recs1, status1, ps.take(k as int), feedback.error, now) == Some(
                (record_views(tasks@), machine.data.status, notices@),
            ),
            machine.has_received_feedback == old(machine).has_received_feedback,
            machine.data.absolute_positioning == old(machine).data.absolute_positioning,
            machine.data.positioning_units == old(machine).data.positioning_units,
            machine.data.motors_enabled == old(machine).data.motors_enabled,
            machine.data.heaters == old(machine).data.heaters,
            machine.data.axes == old(machine).data.axes,
            machine.data.speed_controllers == old(machine).data.speed_controllers,
            machine.data.gcode_history == old(machine).data.gcode_history,
            (machine.data.status == old(machine).data.status || (machine.data.status
                matches MachineStatus::Printing(pr) && pr.paused == false
                && pr.paused_state is None) || machine.data.status is Ready),
        decreases ps.len() - k,
    {
        let ghost recs_cur = record_views(tasks@);
        let ghost notes_cur = notices@;
        let ghost st_cur = machine.data.status;
        let p = feedback.task_progress[k];
        proof {
            assert(ps.take(k + 1).drop_last() =~= ps.take(k as int));
            assert(ps.take(k + 1).last() == ps[k as int]);
        }
        let mut ti: usize = 0;
        let mut found: bool = false;
        while ti < tasks.len() && !found
            invariant
                ti <= tasks@.len(),
                recs_cur == record_views(tasks@),
                found ==> ti < tasks@.len() && tasks@[ti as int].id == p.task_id,
                forall|x: int| 0 <= x < ti ==> (#[trigger] tasks@[x]).id != p.task_id,
            decreases tasks@.len() - ti, (if found {
                0int
            } else {
                1int
            }),
        {
            if tasks[ti].id == p.task_id {
                found = true;
            } else {
                ti = ti + 1;
            }
        }
        proof {
            if found {
                assert(forall|x: int| 0 <= x < ti ==> (#[trigger] recs_cur[x]).id != p.task_id);
                lemma_rec_index_skip(recs_cur, p.task_id, 0, ti as int);
                assert(rec_index_from(recs_cur, p.task_id, 0) == ti);
            } else {
                assert(forall|x: int|
                    0 <= x < recs_cur.len() ==> (#[trigger] recs_cur[x]).id != p.task_id);
                lemma_rec_index_skip(recs_cur, p.task_id, 0, recs_cur.len() as int);
                assert(rec_index_from(recs_cur, p.task_id, 0) == -1);
            }
        }
        if !found {
            proof {
                assert(apply_progress(recs_cur, st_cur, ps[k as int], feedback.error, now)
                    is None);
                assert(apply_progresses(recs1, status1, ps.take(k + 1), feedback.error, now)
                    is None);
                lemma_apply_split(recs1, status1, ps, feedback.error, now, k + 1);
            }
            return Err(String::from_str("Task not found"));
        }
        let mapped = task_status_from_progress(p.status, &feedback.error, now);
        let new_status = match mapped {
            Ok(ns) => ns,
            Err(e) => {
                proof {
                    assert(map_progress_status(p.status, feedback.error, now) is None);
                    assert(apply_progress(recs_cur, st_cur, ps[k as int], feedback.error, now)
                        is None);
                    assert(apply_progresses(recs1, status1, ps.take(k + 1), feedback.error, now)
                        is None);
                    lemma_apply_split(recs1, status1, ps, feedback.error, now, k + 1);
                }
                return Err(e);
            },
        };
        proof {
            assert(map_progress_status(p.status, feedback.error, now) matches Some(ns)
                && status_view(new_status) == ns);
        }
        tasks[ti].despooled_line_number = Some(p.despooled_line_number as u64);
        let was_settled = task_status_is_settled(&tasks[ti].status);
        let was_paused = match &tasks[ti].status {
            TaskStatus::Paused { .. } => true,
            _ => false,
        };
        let changed = !was_settled && !(was_paused && p.status == TASK_PAUSED);
        if changed {
            tasks[ti].status = new_status;
        }
        let now_settled = changed && task_status_is_settled(&tasks[ti].status);
        let now_paused = changed && p.status == TASK_PAUSED;
        if now_settled {
            let to_ready = match &machine.data.status {
                MachineStatus::Printing(pr) => !pr.paused && pr.task_id == p.task_id,
                _ => false,
            };
            if to_ready {
                machine.data.status = MachineStatus::Ready;
            }
            notices.push(MachineNotice::TaskSettled { task_id: p.task_id });
        }
        if now_settled || now_paused {
            notices.push(MachineNotice::DeleteTaskHistory { task_id: p.task_id });
        }
        proof {
            let step = apply_progress(recs_cur, st_cur, ps[k as int], feedback.error, now);
            assert(step matches Some((recs2, st2, notes2)) && record_views(tasks@) =~= recs2
                && machine.data.status == st2 && notices@ =~= notes_cur + notes2) by {
                let ns = map_progress_status(p.status, feedback.error, now).unwrap();
                let r0 = recs_cur[ti as int];
                let spec_changed = !r0.status.is_settled() && !(r0.status is Paused
                    && ns is Paused);
                assert(spec_changed == changed);
                let new_st = if spec_changed {
                    ns
                } else {
                    r0.status
                };
                let rec1 = TaskRecordV {
                    despooled: Some(p.despooled_line_number as u64),
                    status: new_st,
                    ..r0
                };
                assert(record_view(tasks@[ti as int]) == rec1);
                assert(record_views(tasks@) =~= recs_cur.update(ti as int, rec1));
                assert((spec_changed && new_st.is_settled()) == now_settled);
                assert((spec_changed && (new_st.is_settled() || new_st is Paused)) == (now_settled
                    || now_paused));
            }
        }
        k = k + 1;
    }
    proof {
        assert(ps.take(ps.len() as int) =~= ps);
    }
    Ok(notices)
}

/// Decides `TaskStatus::is_settled`.
pub fn task_status_is_settled(ts: &TaskStatus) -> (r: bool)
    ensures
        r == ts.is_settled(),
{
    match ts {
        TaskStatus::Finished { .. } => true,
        TaskStatus::Cancelled { .. } => true,
        TaskStatus::Errored { .. } => true,
        _ => false,
    }
}

/// Decides `TaskStatus::is_pending`.
pub fn task_status_is_pending(ts: &TaskStatus) -> (r: bool)
    ensures
        r == ts.is_pending(),
{
    match ts {
        TaskStatus::Spooled => true,
        TaskStatus::Started => true,
        _ => false,
    }
}

/// The spec-level view of a heater.
#[verifier::ext_equal]
pub struct HeaterV {
    pub address: Seq<char>,
    pub target_temperature: Option<i64>,
    pub actual_temperature: Option<i64>,
    pub enabled: bool,
    pub blocking: bool,
    pub history: Seq<TemperatureHistoryEntry>,
}

/// The view of one heater.
pub open spec fn heater_view(h: HeaterEphemeral) -> HeaterV {
    HeaterV {
        address: h.address@,
        target_temperature: h.target_temperature,
        actual_temperature: h.actual_temperature,
        enabled: h.enabled,
        blocking: h.blocking,
        history: h.history@,
    }
}

/// The views of the heater list.
pub open spec fn heater_views(hs: Seq<HeaterEphemeral>) -> Seq<HeaterV> {
    hs.map_values(|h: HeaterEphemeral| heater_view(h))
}

/// A sample is appended only if at least half a second passed since the
/// last one (or there is none yet).
pub open spec fn push_sample(
    h: Seq<TemperatureHistoryEntry>,
    target: i64,
    actual: i64,
    now: u64,
) -> Seq<TemperatureHistoryEntry> {
    if h.len() == 0 || now > h.last().created_at + 500 {
        h.push(
            TemperatureHistoryEntry {
                target_temperature: Some(target),
                actual_temperature: Some(actual),
                created_at: now,
            },
        )
    } else {
        h
    }
}

/// The last `cap` entries of a history.
pub open spec fn trim_history<T>(h: Seq<T>, cap: int) -> Seq<T> {
    if h.len() <= cap {
        h
    } else {
        h.skip(h.len() - cap)
    }
}

/// The first heater view at a position `>= i` with this address, or `-1`.
pub open spec fn heaterv_index_from(hs: Seq<HeaterV>, addr: Seq<char>, i: int) -> int
    decreases hs.len() - i,
    when 0 <= i
{
    if i >= hs.len() {
        -1
    } else if hs[i].address == addr {
        i
    } else {
        heaterv_index_from(hs, addr, i + 1)
    }
}

proof fn lemma_heaterv_index_skip(hs: Seq<HeaterV>, addr: Seq<char>, from: int, i: int)
    requires
        0 <= from <= i <= hs.len(),
        forall|j: int| from <= j < i ==> hs[j].address != addr,
    ensures
        heaterv_index_from(hs, addr, from) == heaterv_index_from(hs, addr, i),
    decreases i - from,
{
    if from < i {
        lemma_heaterv_index_skip(hs, addr, from + 1, i);
    }
}

/// One heater report applied: a sample is recorded on the half-second
/// cadence, the history is trimmed to 60 samples, and the live fields are
/// taken over.  An unknown address changes nothing.
pub open spec fn apply_fb_heater(hs: Seq<HeaterV>, f: FbHeater, now: u64) -> Seq<HeaterV> {
    let j = heaterv_index_from(hs, f.address@, 0);
    if j < 0 {
        hs
    } else {
        hs.update(
            j,
            HeaterV {
                target_temperature: Some(f.target_temperature),
                actual_temperature: Some(f.actual_temperature),
                enabled: f.enabled,
                blocking: f.blocking,
                history: trim_history(
                    push_sample(hs[j].history, f.target_temperature, f.actual_temperature, now),
                    60,
                ),
                address: hs[j].address,
            },
        )
    }
}

/// All heater reports applied, first to last.
pub open spec fn apply_fb_heaters(hs: Seq<HeaterV>, fs: Seq<FbHeater>, now: u64) -> Seq<HeaterV>
    decreases fs.len(),
{
    if fs.len() == 0 {
        hs
    } else {
        apply_fb_heater(apply_fb_heaters(hs, fs.drop_last(), now), fs.last(), now)
    }
}

/// Merges one frame's heater reports into the live heater views: samples on
/// the half-second cadence, histories trimmed to 60 entries, live fields
/// taken over; unknown addresses are skipped.
pub fn update_heaters(data: &mut MachineData, feedback: &Feedback, now: u64)
    ensures
        heater_views(final(data).heaters@) == apply_fb_heaters(
            heater_views(old(data).heaters@),
            feedback.heaters@,
            now,
        ),
        final(data).status == old(data).status,
        final(data).absolute_positioning == old(data).absolute_positioning,
        final(data).positioning_units == old(data).positioning_units,
        final(data).motors_enabled == old(data).motors_enabled,
        final(data).axes == old(data).axes,
        final(data).speed_controllers == old(data).speed_controllers,
        final(data).gcode_history == old(data).gcode_history,
{
    let mut k: usize = 0;
    while k < feedback.heaters.len()
        invariant
            k <= feedback.heaters@.len(),
            heater_views(data.heaters@) == apply_fb_heaters(
                heater_views(old(data).heaters@),
                feedback.heaters@.take(k as int),
                now,
            ),
            data.status == old(data).status,
            data.absolute_positioning == old(data).absolute_positioning,
            data.positioning_units == old(data).positioning_units,
            data.motors_enabled == old(data).motors_enabled,
            data.axes == old(data).axes,
            data.speed_controllers == old(data).speed_controllers,
            data.gcode_history == old(data).gcode_history,
        decreases feedback.heaters@.len() - k,
    {
        let ghost hs_before = heater_views(data.heaters@);
        let f_addr = &feedback.heaters[k].address;
        let mut j: usize = 0;
        let mut found: bool = false;
        while j < data.heaters.len() && !found
            invariant
                j <= data.heaters@.len(),
                hs_before == heater_views(data.heaters@),
                found ==> j < data.heaters@.len() && data.heaters@[j as int].address@ == f_addr@,
                forall|x: int| 0 <= x < j ==> heater_views(data.heaters@)[x].address != f_addr@,
            decreases data.heaters@.len() - j, (if found {
                0int
            } else {
                1int
            }),
        {
            if data.heaters[j].address == *f_addr {
                found = true;
            } else {
                j = j + 1;
            }
        }
        proof {
            if found {
                lemma_heaterv_index_skip(hs_before, f_addr@, 0, j as int);
                assert(heaterv_index_from(hs_before, f_addr@, 0) == j);
            } else {
                lemma_heaterv_index_skip(hs_before, f_addr@, 0, hs_before.len() as int);
                assert(heaterv_index_from(hs_before, f_addr@, 0) == -1);
            }
            assert(feedback.heaters@.take(k + 1).drop_last() =~= feedback.heaters@.take(k as int));
            assert(feedback.heaters@.take(k + 1).last() == feedback.heaters@[k as int]);
        }
        if found {
            let ghost hvals = data.heaters@;
            let f = &feedback.heaters[k];
            let mut h = data.heaters.remove(j);
            let ghost h0 = h;
            proof {
                assert(h0 == hvals[j as int]);
                assert(hs_before[j as int] == heater_view(hvals[j as int]));
                assert(hs_before[j as int].history == h0.history@);
                assert(hs_before[j as int].address == h0.address@);
            }
            let push_due = if h.history.len() == 0 {
                true
            } else {
                let last_at = h.history[h.history.len() - 1].created_at;
                last_at < now && now - last_at > 500
            };
            if push_due {
                h.history.push(
                    TemperatureHistoryEntry {
                        target_temperature: Some(f.target_temperature),
                        actual_temperature: Some(f.actual_temperature),
                        created_at: now,
                    },
                );
            }
            proof {
                assert(h.history@ =~= push_sample(
                    hs_before[j as int].history,
                    f.target_temperature,
                    f.actual_temperature,
                    now,
                ));
            }
            let ghost pushed = h.history@;
            if h.history.len() > 60 {
                let excess = h.history.len() - 60;
                let mut t: usize = 0;
                while t < excess
                    invariant
                        t <= excess,
                        excess + 60 == pushed.len(),
                        h.history@ == pushed.skip(t as int),
                        h.address == h0.address,
                    decreases excess - t,
                {
                    let _ = h.history.remove(0);
                    proof {
                        assert(pushed.skip(t as int).remove(0) =~= pushed.skip(t + 1));
                    }
                    t = t + 1;
                }
            }
            proof {
                assert(h.history@ =~= trim_history(pushed, 60));
            }
            h.target_temperature = Some(f.target_temperature);
            h.actual_temperature = Some(f.actual_temperature);
            h.enabled = f.enabled;
            h.blocking = f.blocking;
            data.heaters.insert(j, h);
            proof {
                assert(data.heaters@ =~= hvals.update(j as int, h));
                assert(heater_view(h) == apply_fb_heater(
                    hs_before,
                    feedback.heaters@[k as int],
                    now,
                )[j as int]) by {
                    assert(h.history@ == trim_history(
                        push_sample(
                            hs_before[j as int].history,
                            feedback.heaters@[k as int].target_temperature,
                            feedback.heaters@[k as int].actual_temperature,
                            now,
                        ),
                        60,
                    ));
                }
                assert(heater_views(data.heaters@) =~~= apply_fb_heater(
                    hs_before,
                    feedback.heaters@[k as int],
                    now,
                ));
            }
        } else {
            proof {
                assert(heater_views(data.heaters@) =~~= apply_fb_heater(
                    hs_before,
                    feedback.heaters@[k as int],
                    now,
                ));
            }
        }
        k = k + 1;
    }
    proof {
        assert(feedback.heaters@.take(feedback.heaters@.len() as int) =~= feedback.heaters@);
    }
}

/// The first axis at a position `>= i` with this address, or `-1`.
pub open spec fn axisv_index_from(axes: Seq<AxisEphemeral>, addr: Seq<char>, i: int) -> int
    decreases axes.len() - i,
    when 0 <= i
{
    if i >= axes.len() {
        -1
    } else if axes[i].address@ == addr {
        i
    } else {
        axisv_index_from(axes, addr, i + 1)
    }
}

proof fn lemma_axisv_index_skip(axes: Seq<AxisEphemeral>, addr: Seq<char>, from: int, i: int)
    requires
        0 <= from <= i <= axes.len(),
        forall|j: int| from <= j < i ==> axes[j].address@ != addr,
    ensures
        axisv_index_from(axes, addr, from) == axisv_index_from(axes, addr, i),
    decreases i - from,
{
    if from < i {
        lemma_axisv_index_skip(axes, addr, from + 1, i);
    }
}

/// One axis report applied; an unknown address changes nothing.
pub open spec fn apply_fb_axis(axes: Seq<AxisEphemeral>, f: FbAxis) -> Seq<AxisEphemeral> {
    let j = axisv_index_from(axes, f.address@, 0);
    if j < 0 {
        axes
    } else {
        axes.update(
            j,
            AxisEphemeral {
                target_position: Some(f.target_position),
                actual_position: Some(f.actual_position),
                homed: f.homed,
                ..axes[j]
            },
        )
    }
}

/// All axis reports applied, first to last.
pub open spec fn apply_fb_axes(axes: Seq<AxisEphemeral>, fs: Seq<FbAxis>) -> Seq<AxisEphemeral>
    decreases fs.len(),
{
    if fs.len() == 0 {
        axes
    } else {
        apply_fb_axis(apply_fb_axes(axes, fs.drop_last()), fs.last())
    }
}

/// Merges one frame's axis reports into the live axis views.
pub fn update_axes(data: &mut MachineData, feedback: &Feedback)
    ensures
        final(data).axes@ == apply_fb_axes(old(data).axes@, feedback.axes@),
        final(data).status == old(data).status,
        final(data).absolute_positioning == old(data).absolute_positioning,
        final(data).positioning_units == old(data).positioning_units,
        final(data).motors_enabled == old(data).motors_enabled,
        final(data).heaters == old(data).heaters,
        final(data).speed_controllers == old(data).speed_controllers,
        final(data).gcode_history == old(data).gcode_history,
{
    let mut k: usize = 0;
    while k < feedback.axes.len()
        invariant
            k <= feedback.axes@.len(),
            data.axes@ == apply_fb_axes(old(data).axes@, feedback.axes@.take(k as int)),
            data.status == old(data).status,
            data.absolute_positioning == old(data).absolute_positioning,
            data.positioning_units == old(data).positioning_units,
            data.motors_enabled == old(data).motors_enabled,
            data.heaters == old(data).heaters,
            data.speed_controllers == old(data).speed_controllers,
            data.gcode_history == old(data).gcode_history,
        decreases feedback.axes@.len() - k,
    {
        let ghost axes_before = data.axes@;
        let f_addr = &feedback.axes[k].address;
        let mut j: usize = 0;
        let mut found: bool = false;
        while j < data.axes.len() && !found
            invariant
                j <= data.axes@.len(),
                axes_before == data.axes@,
                found ==> j < data.axes@.len() && data.axes@[j as int].address@ == f_addr@,
                forall|x: int| 0 <= x < j ==> data.axes@[x].address@ != f_addr@,
            decreases data.axes@.len() - j, (if found {
                0int
            } else {
                1int
            }),
        {
            if data.axes[j].address == *f_addr {
                found = true;
            } else {
                j = j + 1;
            }
        }
        proof {
            if found {
                lemma_axisv_index_skip(axes_before, f_addr@, 0, j as int);
            } else {
                lemma_axisv_index_skip(axes_before, f_addr@, 0, axes_before.len() as int);
            }
            assert(feedback.axes@.take(k + 1).drop_last() =~= feedback.axes@.take(k as int));
            assert(feedback.axes@.take(k + 1).last() == feedback.axes@[k as int]);
        }
        if found {
            let f = &feedback.axes[k];
            data.axes[j].target_position = Some(f.target_position);
            data.axes[j].actual_position = Some(f.actual_position);
            data.axes[j].homed = f.homed;
            proof {
                assert(data.axes@ =~= apply_fb_axis(axes_before, feedback.axes@[k as int]));
            }
        } else {
            proof {
                assert(data.axes@ =~= apply_fb_axis(axes_before, feedback.axes@[k as int]));
            }
        }
        k = k + 1;
    }
    proof {
        assert(feedback.axes@.take(feedback.axes@.len() as int) =~= feedback.axes@);
    }
}

/// The first speed controller at a position `>= i` with this address, or
/// `-1`.
pub open spec fn scv_index_from(scs: Seq<SpeedControllerEphemeral>, addr: Seq<char>, i: int) -> int
    decreases scs.len() - i,
    when 0 <= i
{
    if i >= scs.len() {
        -1
    } else if scs[i].address@ == addr {
        i
    } else {
        scv_index_from(scs, addr, i + 1)
    }
}

proof fn lemma_scv_index_skip(scs: Seq<SpeedControllerEphemeral>, addr: Seq<char>, from: int, i: int)
    requires
        0 <= from <= i <= scs.len(),
        forall|j: int| from <= j < i ==> scs[j].address@ != addr,
    ensures
        scv_index_from(scs, addr, from) == scv_index_from(scs, addr, i),
    decreases i - from,
{
    if from < i {
        lemma_scv_index_skip(scs, addr, from + 1, i);
    }
}

/// One speed-controller report applied; an unknown address changes nothing.
pub open spec fn apply_fb_sc(scs: Seq<SpeedControllerEphemeral>, f: FbSpeedController) -> Seq<
    SpeedControllerEphemeral,
> {
    let j = scv_index_from(scs, f.address@, 0);
    if j < 0 {
        scs
    } else {
        scs.update(
            j,
            SpeedControllerEphemeral {
                target_speed: Some(f.target_speed),
                actual_speed: Some(f.actual_speed),
                enabled: f.enabled,
                ..scs[j]
            },
        )
    }
}

/// All speed-controller reports applied, first to last.
pub open spec fn apply_fb_scs(
    scs: Seq<SpeedControllerEphemeral>,
    fs: Seq<FbSpeedController>,
) -> Seq<SpeedControllerEphemeral>
    decreases fs.len(),
{
    if fs.len() == 0 {
        scs
    } else {
        apply_fb_sc(apply_fb_scs(scs, fs.drop_last()), fs.last())
    }
}

/// Merges one frame's speed-controller reports into the live views.
pub fn update_speed_controllers(data: &mut MachineData, feedback: &Feedback)
    ensures
        final(data).speed_controllers@ == apply_fb_scs(
            old(data).speed_controllers@,
            feedback.speed_controllers@,
        ),
        final(data).status == old(data).status,
        final(data).absolute_positioning == old(data).absolute_positioning,
        final(data).positioning_units == old(data).positioning_units,
        final(data).motors_enabled == old(data).motors_enabled,
        final(data).heaters == old(data).heaters,
        final(data).axes == old(data).axes,
        final(data).gcode_history == old(data).gcode_history,
{
    let mut k: usize = 0;
    while k < feedback.speed_controllers.len()
        invariant
            k <= feedback.speed_controllers@.len(),
            data.speed_controllers@ == apply_fb_scs(
                old(data).speed_controllers@,
                feedback.speed_controllers@.take(k as int),
            ),
            data.status == old(data).status,
            data.absolute_positioning == old(data).absolute_positioning,
            data.positioning_units == old(data).positioning_units,
            data.motors_enabled == old(data).motors_enabled,
            data.heaters == old(data).heaters,
            data.axes == old(data).axes,
            data.gcode_history == old(data).gcode_history,
        decreases feedback.speed_controllers@.len() - k,
    {
        let ghost scs_before = data.speed_controllers@;
        let f_addr = &feedback.speed_controllers[k].address;
        let mut j: usize = 0;
        let mut found: bool = false;
        while j < data.speed_controllers.len() && !found
            invariant
                j <= data.speed_controllers@.len(),
                scs_before == data.speed_controllers@,
                found ==> j < data.speed_controllers@.len() && data.speed_controllers@[
                    j as int
                ].address@ == f_addr@,
                forall|x: int| 0 <= x < j ==> data.speed_controllers@[x].address@ != f_addr@,
            decreases data.speed_controllers@.len() - j, (if found {
                0int
            } else {
                1int
            }),
        {
            if data.speed_controllers[j].address == *f_addr {
                found = true;
            } else {
                j = j + 1;
            }
        }
        proof {
            if found {
                lemma_scv_index_skip(scs_before, f_addr@, 0, j as int);
            } else {
                lemma_scv_index_skip(scs_before, f_addr@, 0, scs_before.len() as int);
            }
            assert(feedback.speed_controllers@.take(k + 1).drop_last()
                =~= feedback.speed_controllers@.take(k as int));
            assert(feedback.speed_controllers@.take(k + 1).last() == feedback.speed_controllers@[
                k as int
            ]);
        }
        if found {
            let f = &feedback.speed_controllers[k];
            data.speed_controllers[j].target_speed = Some(f.target_speed);
            data.speed_controllers[j].actual_speed = Some(f.actual_speed);
            data.speed_controllers[j].enabled = f.enabled;
            proof {
                assert(data.speed_controllers@ =~= apply_fb_sc(
                    scs_before,
                    feedback.speed_controllers@[k as int],
                ));
            }
        } else {
            proof {
                assert(data.speed_controllers@ =~= apply_fb_sc(
                    scs_before,
                    feedback.speed_controllers@[k as int],
                ));
            }
        }
        k = k + 1;
    }
    proof {
        assert(feedback.speed_controllers@.take(feedback.speed_controllers@.len() as int)
            =~= feedback.speed_controllers@);
    }
}


/// Clones one axis view, field for field.
fn clone_axis_eph(a: &AxisEphemeral) -> (r: AxisEphemeral)
    ensures
        r == *a,
{
    AxisEphemeral {
        address: a.address.clone(),
        target_position: a.target_position,
        actual_position: a.actual_position,
        homed: a.homed,
    }
}

/// Clones the axis list, element for element.
fn clone_axes_eph(v: &Vec<AxisEphemeral>) -> (r: Vec<AxisEphemeral>)
    ensures
        r@ == v@,
{
    let mut r: Vec<AxisEphemeral> = Vec::new();
    let mut i: usize = 0;
    while i < v.len()
        invariant
            i <= v@.len(),
            r@ == v@.take(i as int),
        decreases v@.len() - i,
    {
        r.push(clone_axis_eph(&v[i]));
        proof {
            assert(v@.take(i + 1) =~= v@.take(i as int).push(v@[i as int]));
        }
        i = i + 1;
    }
    proof {
        assert(v@.take(v@.len() as int) =~= v@);
    }
    r
}

/// Clones one speed-controller view, field for field.
fn clone_sc_eph(a: &SpeedControllerEphemeral) -> (r: SpeedControllerEphemeral)
    ensures
        r == *a,
{
    SpeedControllerEphemeral {
        address: a.address.clone(),
        target_speed: a.target_speed,
        actual_speed: a.actual_speed,
        enabled: a.enabled,
    }
}

/// Clones the speed-controller list, element for element.
fn clone_scs_eph(v: &Vec<SpeedControllerEphemeral>) -> (r: Vec<SpeedControllerEphemeral>)
    ensures
        r@ == v@,
{
    let mut r: Vec<SpeedControllerEphemeral> = Vec::new();
    let mut i: usize = 0;
    while i < v.len()
        invariant
            i <= v@.len(),
            r@ == v@.take(i as int),
        decreases v@.len() - i,
    {
        r.push(clone_sc_eph(&v[i]));
        proof {
            assert(v@.take(i + 1) =~= v@.take(i as int).push(v@[i as int]));
        }
        i = i + 1;
    }
    proof {
        assert(v@.take(v@.len() as int) =~= v@);
    }
    r
}

/// Clones one heater, sample for sample.
fn clone_heater_eph(h: &HeaterEphemeral) -> (r: HeaterEphemeral)
    ensures
        heater_view(r) == heater_view(*h),
{
    let mut history: Vec<TemperatureHistoryEntry> = Vec::new();
    let mut i: usize = 0;
    while i < h.history.len()
        invariant
            i <= h.history@.len(),
            history@ == h.history@.take(i as int),
        decreases h.history@.len() - i,
    {
        history.push(h.history[i]);
        proof {
            assert(h.history@.take(i + 1) =~= h.history@.take(i as int).push(
                h.history@[i as int],
            ));
        }
        i = i + 1;
    }
    proof {
        assert(history@ =~= h.history@);
    }
    HeaterEphemeral {
        address: h.address.clone(),
        target_temperature: h.target_temperature,
        actual_temperature: h.actual_temperature,
        enabled: h.enabled,
        blocking: h.blocking,
        history,
    }
}

/// Clones the heater list, element for element.
fn clone_heaters_eph(v: &Vec<HeaterEphemeral>) -> (r: Vec<HeaterEphemeral>)
    ensures
        heater_views(r@) == heater_views(v@),
{
    let mut r: Vec<HeaterEphemeral> = Vec::new();
    let mut i: usize = 0;
    while i < v.len()
        invariant
            i <= v@.len(),
            heater_views(r@) == heater_views(v@.take(i as int)),
        decreases v@.len() - i,
    {
        r.push(clone_heater_eph(&v[i]));
        proof {
            assert(heater_views(r@) =~= heater_views(r@.drop_last()).push(
                heater_view(r@.last()),
            ));
            assert(v@.take(i + 1).drop_last() =~= v@.take(i as int));
            assert(heater_views(v@.take(i + 1)) =~= heater_views(v@.take(i as int)).push(
                heater_view(v@.take(i + 1).last()),
            ));
            assert(v@.take(i + 1).last() == v@[i as int]);
            assert(heater_views(r@) =~= heater_views(v@.take(i + 1)));
        }
        i = i + 1;
    }
    proof {
        assert(v@.take(v@.len() as int) =~= v@);
    }
    r
}

/// A machine status code the integrator accepts: an error report must carry
/// its error.
pub open spec fn valid_machine_status(code: i32, error: Option<FbError>) -> bool {
    (code == STATUS_ERRORED && error is Some) || code == STATUS_ESTOPPED || code
        == STATUS_DISCONNECTED || code == STATUS_CONNECTING || code == STATUS_READY
}

/// What the machine status mapped from a frame looks like.
pub open spec fn mapped_status_matches(
    s: MachineStatus,
    code: i32,
    error: Option<FbError>,
    now: u64,
) -> bool {
    if code == STATUS_ERRORED {
        s matches MachineStatus::Errored(info) && info.errored_at == now && (error matches Some(e)
            && info.message@ == e.message@)
    } else if code == STATUS_ESTOPPED {
        s is Stopped
    } else if code == STATUS_DISCONNECTED {
        s is Disconnected
    } else if code == STATUS_CONNECTING {
        s is Connecting
    } else if code == STATUS_READY {
        s is Ready
    } else {
        false
    }
}

/// Whether the current status already equals what the frame maps to.
pub open spec fn status_eq_mapped(
    current: MachineStatus,
    code: i32,
    error: Option<FbError>,
    now: u64,
) -> bool {
    match current {
        MachineStatus::Errored(info) => code == STATUS_ERRORED && (error matches Some(e)
            && info.message@ == e.message@) && info.errored_at == now,
        MachineStatus::Stopped => code == STATUS_ESTOPPED,
        MachineStatus::Disconnected => code == STATUS_DISCONNECTED,
        MachineStatus::Connecting => code == STATUS_CONNECTING,
        MachineStatus::Ready => code == STATUS_READY,
        MachineStatus::Printing(_) => false,
    }
}

/// The message tasks are errored with when the machine leaves service.
pub open spec fn cascade_message(code: i32, error: Option<FbError>) -> Seq<char> {
    if code == STATUS_ERRORED && error is Some {
        error.unwrap().message@
    } else {
        task_desync_message()
    }
}

/// Tasks are force-errored when the status changes to a non-serving one.
pub open spec fn cascade_fires(
    current: MachineStatus,
    code: i32,
    error: Option<FbError>,
    now: u64,
) -> bool {
    &&& !status_eq_mapped(current, code, error, now)
    &&& (code == STATUS_ERRORED || code == STATUS_ESTOPPED || code == STATUS_DISCONNECTED)
}

/// The id of the printing task (zero when not printing).
pub open spec fn printing_task_id(s: MachineStatus) -> u32 {
    match s {
        MachineStatus::Printing(pr) => pr.task_id,
        _ => 0,
    }
}

/// The machine flags fit the four known bits.
pub open spec fn flags_valid(flags: u32) -> bool {
    flags < 16
}

/// The view of one GCode history entry.
pub open spec fn hist_view(e: GCodeHistoryEntry) -> (Seq<char>, GCodeHistoryDirection) {
    (e.content@, e.direction)
}

/// The views of the GCode history.
pub open spec fn hist_views(h: Seq<GCodeHistoryEntry>) -> Seq<(Seq<char>, GCodeHistoryDirection)> {
    h.map_values(|e: GCodeHistoryEntry| hist_view(e))
}

/// The view of one frame history entry.
pub open spec fn fb_hist_view(e: FbGCodeHistoryEntry) -> (Seq<char>, GCodeHistoryDirection) {
    (
        e.content@,
        if e.direction == HISTORY_RX {
            GCodeHistoryDirection::Rx
        } else {
            GCodeHistoryDirection::Tx
        },
    )
}

/// The views of the frame's history entries.
pub open spec fn fb_hist_views(h: Seq<FbGCodeHistoryEntry>) -> Seq<
    (Seq<char>, GCodeHistoryDirection),
> {
    h.map_values(|e: FbGCodeHistoryEntry| fb_hist_view(e))
}

/// Merges one frame's machine-level state: maps the status integer, errors
/// every pending task when the machine leaves service, applies the machine
/// flags, takes the paused snapshot exactly once per pause, and appends the
/// GCode history, trimmed to 400 entries.  Fails, changing nothing, if and
/// only if the status integer is unknown or an error status carries no
/// error.
#[verifier::rlimit(100)]
#[verifier::spinoff_prover]
pub fn update_machine(
    data: &mut MachineData,
    tasks: &mut Vec<TaskRecord>,
    feedback: &Feedback,
    now: u64,
) -> (r: Result<(), String>)
    ensures
        r is Ok <==> valid_machine_status(feedback.status, feedback.error),
        r is Err ==> *final(data) == *old(data) && *final(tasks) == *old(tasks),
        final(data).heaters == old(data).heaters,
        final(data).axes == old(data).axes,
        final(data).speed_controllers == old(data).speed_controllers,
        final(tasks)@.len() == old(tasks)@.len(),
        forall|i: int|
            0 <= i < old(tasks)@.len() ==> (#[trigger] final(tasks)@[i]).id == old(tasks)@[i].id
                && final(tasks)@[i].is_print == old(tasks)@[i].is_print && final(tasks)@[i].despooled_line_number == old(tasks)@[i].despooled_line_number,
        r is Ok ==> {
            let code = feedback.status;
            let error = feedback.error;
            let cascade = cascade_fires(old(data).status, code, error, now);
            &&& (forall|i: int|
                #![auto]
                0 <= i < old(tasks)@.len() ==> {
                    &&& ((cascade && old(tasks)@[i].status.is_pending()) ==> (final(tasks)@[i].status matches TaskStatus::Errored { message, errored_at } && errored_at
                        == now && message@ == cascade_message(code, error)))
                    &&& (!(cascade && old(tasks)@[i].status.is_pending()) ==> final(tasks)@[i].status == old(tasks)@[i].status)
                })
            &&& ({
                let set_new = !status_eq_mapped(old(data).status, code, error, now) && !(old(
                    data,
                ).status is Printing && code == STATUS_READY);
                &&& (set_new ==> mapped_status_matches(final(data).status, code, error, now))
                &&& (!set_new && !(flags_valid(feedback.machine_flags) && feedback.machine_flags
                    & FLAG_PAUSED_STATE != 0) ==> final(data).status == old(data).status)
                &&& (!set_new && flags_valid(feedback.machine_flags) && feedback.machine_flags
                    & FLAG_PAUSED_STATE != 0 ==> {
                    &&& ((old(data).status matches MachineStatus::Printing(pr) && pr.paused
                        && pr.paused_state is None) ==> (final(data).status
                        matches MachineStatus::Printing(pr2) && pr2.task_id == printing_task_id(
                        old(data).status,
                    ) && pr2.paused && (pr2.paused_state matches Some(b) && b.task_id
                        == printing_task_id(old(data).status) && b.absolute_positioning == final(data).absolute_positioning && b.positioning_units == final(data).positioning_units
                        && b.motors_enabled == final(data).motors_enabled && heater_views(b.heaters@)
                        == heater_views(old(data).heaters@) && b.axes@ == old(data).axes@
                        && b.speed_controllers@ == old(data).speed_controllers@)))
                    &&& (!(old(data).status matches MachineStatus::Printing(pr) && pr.paused
                        && pr.paused_state is None) ==> final(data).status == old(data).status)
                })
            })
            &&& (flags_valid(feedback.machine_flags) ==> final(data).absolute_positioning == (
            feedback.machine_flags & FLAG_ABSOLUTE_POSITIONING != 0) && final(data).positioning_units == (if feedback.machine_flags & FLAG_MILLIMETERS != 0 {
                PositioningUnits::Millimeters
            } else {
                PositioningUnits::Inches
            }) && final(data).motors_enabled == (feedback.machine_flags & FLAG_MOTORS_ENABLED != 0))
            &&& (!flags_valid(feedback.machine_flags) ==> final(data).absolute_positioning == old(
                data,
            ).absolute_positioning && final(data).positioning_units == old(data).positioning_units
                && final(data).motors_enabled == old(data).motors_enabled)
            &&& (feedback.gcode_history@.len() > 0 ==> hist_views(final(data).gcode_history@)
                == trim_history(
                hist_views(old(data).gcode_history@) + fb_hist_views(feedback.gcode_history@),
                400,
            ) && final(data).gcode_history@.len() <= 400)
            &&& (feedback.gcode_history@.len() == 0 ==> final(data).gcode_history == old(
                data,
            ).gcode_history)
        },
{
    let code = feedback.status;
    let valid = if code == STATUS_ERRORED {
        feedback.error.is_some()
    } else {
        code == STATUS_ESTOPPED || code == STATUS_DISCONNECTED || code == STATUS_CONNECTING || code
            == STATUS_READY
    };
    if !valid {
        return Err(String::from_str("Invalid machine status"));
    }
    let eq_current = match &data.status {
        MachineStatus::Errored(info) => {
            if code == STATUS_ERRORED {
                match &feedback.error {
                    Some(e) => info.message == e.message && info.errored_at == now,
                    None => false,
                }
            } else {
                false
            }
        },
        MachineStatus::Stopped => code == STATUS_ESTOPPED,
        MachineStatus::Disconnected => code == STATUS_DISCONNECTED,
        MachineStatus::Connecting => code == STATUS_CONNECTING,
        MachineStatus::Ready => code == STATUS_READY,
        MachineStatus::Printing(_) => false,
    };
    proof {
        assert(eq_current == status_eq_mapped(data.status, code, feedback.error, now));
    }
    let cascade = !eq_current && (code == STATUS_ERRORED || code == STATUS_ESTOPPED || code
        == STATUS_DISCONNECTED);
    proof {
        reveal_strlit("Task desync. Task not found in driver responses");
    }
    if cascade {
        let mut i: usize = 0;
        while i < tasks.len()
            invariant
                i <= tasks@.len(),
                tasks@.len() == old(tasks)@.len(),
                forall|x: int| i <= x < tasks@.len() ==> tasks@[x] == old(tasks)@[x],
                forall|x: int|
                    0 <= x < tasks@.len() ==> (#[trigger] tasks@[x]).id == old(tasks)@[x].id
                        && tasks@[x].is_print == old(tasks)@[x].is_print
                        && tasks@[x].despooled_line_number == old(
                        tasks,
                    )@[x].despooled_line_number,
                forall|x: int|
                    #![auto]
                    0 <= x < i ==> {
                        &&& (old(tasks)@[x].status.is_pending() ==> (tasks@[x].status
                            matches TaskStatus::Errored { message, errored_at } && errored_at
                            == now && message@ == cascade_message(code, feedback.error)))
                        &&& (!old(tasks)@[x].status.is_pending() ==> tasks@[x].status == old(
                            tasks,
                        )@[x].status)
                    },
            decreases tasks@.len() - i,
        {
            let pending = task_status_is_pending(&tasks[i].status);
            if pending {
                let message = if code == STATUS_ERRORED {
                    match &feedback.error {
                        Some(e) => e.message.clone(),
                        None => String::from_str("Task desync. Task not found in driver responses"),
                    }
                } else {
                    String::from_str("Task desync. Task not found in driver responses")
                };
                tasks[i].status = TaskStatus::Errored { message, errored_at: now };
            }
            i = i + 1;
        }
    }
    let is_printing_now = match &data.status {
        MachineStatus::Printing(_) => true,
        _ => false,
    };
    let set_new = !eq_current && !(is_printing_now && code == STATUS_READY);
    if set_new {
        let next_status = if code == STATUS_ERRORED {
            let message = match &feedback.error {
                Some(e) => e.message.clone(),
                None => String::new(),
            };
            MachineStatus::Errored(ErroredInfo { message, errored_at: now })
        } else if code == STATUS_ESTOPPED {
            MachineStatus::Stopped
        } else if code == STATUS_DISCONNECTED {
            MachineStatus::Disconnected
        } else if code == STATUS_CONNECTING {
            MachineStatus::Connecting
        } else {
            MachineStatus::Ready
        };
        data.status = next_status;
    }
    let flags = feedback.machine_flags;
    if flags < 16 {
        data.absolute_positioning = flags & FLAG_ABSOLUTE_POSITIONING != 0;
        data.positioning_units = if flags & FLAG_MILLIMETERS != 0 {
            PositioningUnits::Millimeters
        } else {
            PositioningUnits::Inches
        };
        data.motors_enabled = flags & FLAG_MOTORS_ENABLED != 0;
        if flags & FLAG_PAUSED_STATE != 0 {
            let fire = match &data.status {
                MachineStatus::Printing(pr) => pr.paused && pr.paused_state.is_none(),
                _ => false,
            };
            if fire {
                let tid = match &data.status {
                    MachineStatus::Printing(pr) => pr.task_id,
                    _ => 0,
                };
                let snapshot = PausedSnapshot {
                    task_id: tid,
                    absolute_positioning: data.absolute_positioning,
                    positioning_units: data.positioning_units,
                    motors_enabled: data.motors_enabled,
                    heaters: clone_heaters_eph(&data.heaters),
                    axes: clone_axes_eph(&data.axes),
                    speed_controllers: clone_scs_eph(&data.speed_controllers),
                };
                data.status = MachineStatus::Printing(
                    Printing { task_id: tid, paused: true, paused_state: Some(Box::new(snapshot)) },
                );
            }
        }
    }
    if feedback.gcode_history.len() > 0 {
        let ghost mid = *data;
        let ghost hist0 = hist_views(data.gcode_history@);
        let mut k: usize = 0;
        while k < feedback.gcode_history.len()
            invariant
                k <= feedback.gcode_history@.len(),
                hist0 == hist_views(mid.gcode_history@),
                hist_views(data.gcode_history@) == hist0 + fb_hist_views(
                    feedback.gcode_history@.take(k as int),
                ),
                data.status == mid.status,
                data.absolute_positioning == mid.absolute_positioning,
                data.positioning_units == mid.positioning_units,
                data.motors_enabled == mid.motors_enabled,
                data.heaters == mid.heaters,
                data.axes == mid.axes,
                data.speed_controllers == mid.speed_controllers,
            decreases feedback.gcode_history@.len() - k,
        {
            let e = &feedback.gcode_history[k];
            let direction = if e.direction == HISTORY_RX {
                GCodeHistoryDirection::Rx
            } else {
                GCodeHistoryDirection::Tx
            };
            data.gcode_history.push(GCodeHistoryEntry { content: e.content.clone(), direction });
            proof {
                let prev = data.gcode_history@.drop_last();
                let e2 = data.gcode_history@.last();
                let fbs = feedback.gcode_history@;
                assert(hist_views(data.gcode_history@) =~= hist_views(prev).push(hist_view(e2)));
                assert(fbs.take(k + 1).drop_last() =~= fbs.take(k as int));
                assert(fb_hist_views(fbs.take(k + 1)) =~= fb_hist_views(fbs.take(k as int)).push(
                    fb_hist_view(fbs[k as int]),
                ));
                assert(hist_view(e2) == fb_hist_view(fbs[k as int]));
                assert((hist0 + fb_hist_views(fbs.take(k as int))).push(fb_hist_view(fbs[k as int]))
                    =~= hist0 + fb_hist_views(fbs.take(k as int)).push(
                    fb_hist_view(fbs[k as int]),
                ));
                assert(hist_views(data.gcode_history@) =~= hist0 + fb_hist_views(fbs.take(k + 1)));
            }
            k = k + 1;
        }
        proof {
            assert(feedback.gcode_history@.take(feedback.gcode_history@.len() as int)
                =~= feedback.gcode_history@);
        }
        let ghost total = hist_views(data.gcode_history@);
        if data.gcode_history.len() > 400 {
            let excess = data.gcode_history.len() - 400;
            let mut t: usize = 0;
            while t < excess
                invariant
                    t <= excess,
                    excess + 400 == total.len(),
                    total.len() == data.gcode_history@.len() + t,
                    hist_views(data.gcode_history@) == total.skip(t as int),
                    data.status == mid.status,
                    data.absolute_positioning == mid.absolute_positioning,
                    data.positioning_units == mid.positioning_units,
                    data.motors_enabled == mid.motors_enabled,
                    data.heaters == mid.heaters,
                    data.axes == mid.axes,
                    data.speed_controllers == mid.speed_controllers,
                decreases excess - t,
            {
                let ghost prev = data.gcode_history@;
                let _ = data.gcode_history.remove(0);
                proof {
                    assert(data.gcode_history@ =~= prev.skip(1));
                    assert(hist_views(prev.skip(1)) =~= hist_views(prev).skip(1));
                    assert(hist_views(data.gcode_history@) =~= total.skip(t + 1));
                }
                t = t + 1;
            }
        }
        proof {
            assert(hist_views(data.gcode_history@) =~= trim_history(
                hist0 + fb_hist_views(feedback.gcode_history@),
                400,
            ));
        }
    }
    Ok(())
}

/// Merges one feedback frame: the task progress, the heaters, the axes, the
/// speed controllers, and the machine-level state, in that order, and marks
/// the machine as having received feedback.  Fails if and only if the frame
/// names an unknown task, carries an invalid task status code, or carries an
/// invalid machine status.
pub fn record_feedback(
    machine: &mut Machine,
    tasks: &mut Vec<TaskRecord>,
    feedback: &Feedback,
    now: u64,
) -> (r: Result<Vec<MachineNotice>, String>)
    ensures
        final(tasks)@.len() == old(tasks)@.len(),
        forall|i: int|
            0 <= i < old(tasks)@.len() ==> (#[trigger] final(tasks)@[i]).id == old(tasks)@[i].id
                && final(tasks)@[i].is_print == old(tasks)@[i].is_print,
        ({
            let recs0 = record_views(old(tasks)@);
            let ps = feedback.task_progress@;
            let recs1 = if old(machine).has_received_feedback {
                recs0
            } else {
                reconcile_views(recs0, ps, now)
            };
            let status1 = if old(machine).has_received_feedback {
                old(machine).data.status
            } else {
                reconcile_status(old(machine).data.status, recs0, ps)
            };
            r is Ok <==> (apply_progresses(recs1, status1, ps, feedback.error, now) is Some
                && valid_machine_status(feedback.status, feedback.error))
        }),
        r is Ok ==> final(machine).has_received_feedback,
        r is Err ==> final(machine).has_received_feedback == old(machine).has_received_feedback,
        ({
            let recs0 = record_views(old(tasks)@);
            let ps = feedback.task_progress@;
            let recs1 = if old(machine).has_received_feedback {
                recs0
            } else {
                reconcile_views(recs0, ps, now)
            };
            let status1 = if old(machine).has_received_feedback {
                old(machine).data.status
            } else {
                reconcile_status(old(machine).data.status, recs0, ps)
            };
            match apply_progresses(recs1, status1, ps, feedback.error, now) {
                Some((recs2, st2, notes)) => r matches Ok(ns) ==> ns@ == notes,
                None => true,
            }
        }),
        r is Ok ==> heater_views(final(machine).data.heaters@) == apply_fb_heaters(
            heater_views(old(machine).data.heaters@),
            feedback.heaters@,
            now,
        ),
        r is Ok ==> final(machine).data.axes@ == apply_fb_axes(
            old(machine).data.axes@,
            feedback.axes@,
        ),
        r is Ok ==> final(machine).data.speed_controllers@ == apply_fb_scs(
            old(machine).data.speed_controllers@,
            feedback.speed_controllers@,
        ),
        r is Ok ==> (feedback.gcode_history@.len() > 0 ==> hist_views(
            final(machine).data.gcode_history@,
        ) == trim_history(
            hist_views(old(machine).data.gcode_history@) + fb_hist_views(feedback.gcode_history@),
            400,
        ) && final(machine).data.gcode_history@.len() <= 400),
        r is Ok ==> (feedback.gcode_history@.len() == 0 ==> final(machine).data.gcode_history
            == old(machine).data.gcode_history),
        r is Ok ==> (flags_valid(feedback.machine_flags) ==> final(machine).data.absolute_positioning == (feedback.machine_flags & FLAG_ABSOLUTE_POSITIONING != 0)
            && final(machine).data.positioning_units == (if feedback.machine_flags
            & FLAG_MILLIMETERS != 0 {
            PositioningUnits::Millimeters
        } else {
            PositioningUnits::Inches
        }) && final(machine).data.motors_enabled == (feedback.machine_flags & FLAG_MOTORS_ENABLED
            != 0)),
{
    let notices = match update_tasks(machine, tasks, feedback, now) {
        Ok(ns) => ns,
        Err(e) => {
            return Err(e);
        },
    };
    update_heaters(&mut machine.data, feedback, now);
    update_axes(&mut machine.data, feedback);
    update_speed_controllers(&mut machine.data, feedback);
    match update_machine(&mut machine.data, tasks, feedback, now) {
        Ok(_) => {},
        Err(e) => {
            return Err(e);
        },
    }
    machine.has_received_feedback = true;
    Ok(notices)
}

} // verus!
