//! The driver's context: configuration, the live component view it reports
//! to clients, and the notices it records about tasks.

use vstd::prelude::*;
use crate::config::ControllerConfig;
use crate::task::Task;

verus! {

/// The live view of one axis.  Positions are fixed-point: thousandths of
/// the machine's unit.
#[derive(Clone, Debug)]
pub struct Axis {
    pub address: String,
    pub target_position: i64,
    pub actual_position: i64,
    pub homed: bool,
}

/// The live view of one heater.  Temperatures are fixed-point: thousandths
/// of a degree.
#[derive(Clone, Debug)]
pub struct Heater {
    pub address: String,
    pub target_temperature: i64,
    pub actual_temperature: i64,
    pub enabled: bool,
    pub blocking: bool,
}

/// The live feedback the driver assembles for its clients.
#[derive(Clone, Debug)]
pub struct FeedbackState {
    /// How many lines of the current non-override task have been despooled.
    pub despooled_line_number: u32,
    pub axes: Vec<Axis>,
    pub heaters: Vec<Heater>,
}

/// A notice about a task, recorded for the observer channel.
#[derive(Clone, Debug)]
pub enum TaskNotice {
    Started { task_id: u32 },
    Paused { task_id: u32 },
    Finished { task_id: u32 },
    TaskError { task_id: u32, message: String },
}

/// Everything the state machine reads and writes besides its own state.
#[derive(Clone, Debug)]
pub struct Context {
    pub controller: ControllerConfig,
    /// When set, the driver schedules a process exit once the queue idles.
    pub reset_when_idle: bool,
    pub feedback: FeedbackState,
    /// Task notices in the order they were recorded.
    pub notices: Vec<TaskNotice>,
    /// Raw received serial lines, in order, for the GCode history.
    pub gcode_rx: Vec<String>,
}

impl Context {
    /// Records that `task` started.
    pub fn push_start_task(&mut self, task: &Task)
        ensures
            final(self).notices@ == old(self).notices@.push(
                TaskNotice::Started { task_id: task.id },
            ),
            final(self).controller == old(self).controller,
            final(self).reset_when_idle == old(self).reset_when_idle,
            final(self).feedback == old(self).feedback,
            final(self).gcode_rx == old(self).gcode_rx,
    {
        self.notices.push(TaskNotice::Started { task_id: task.id });
    }

    /// Records that `task` was paused and removed from the queue.
    pub fn push_pause_task(&mut self, task: &Task)
        ensures
            final(self).notices@ == old(self).notices@.push(
                TaskNotice::Paused { task_id: task.id },
            ),
            final(self).controller == old(self).controller,
            final(self).reset_when_idle == old(self).reset_when_idle,
            final(self).feedback == old(self).feedback,
            final(self).gcode_rx == old(self).gcode_rx,
    {
        self.notices.push(TaskNotice::Paused { task_id: task.id });
    }

    /// Records that `task` despooled its last line and finished.
    pub fn push_finish_task(&mut self, task: &Task)
        ensures
            final(self).notices@ == old(self).notices@.push(
                TaskNotice::Finished { task_id: task.id },
            ),
            final(self).controller == old(self).controller,
            final(self).reset_when_idle == old(self).reset_when_idle,
            final(self).feedback == old(self).feedback,
            final(self).gcode_rx == old(self).gcode_rx,
    {
        self.notices.push(TaskNotice::Finished { task_id: task.id });
    }

    /// Records a task-scoped error notice.
    pub fn push_error(&mut self, task_id: u32, message: String)
        ensures
            final(self).notices@ == old(self).notices@.push(
                TaskNotice::TaskError { task_id, message },
            ),
            final(self).controller == old(self).controller,
            final(self).reset_when_idle == old(self).reset_when_idle,
            final(self).feedback == old(self).feedback,
            final(self).gcode_rx == old(self).gcode_rx,
    {
        self.notices.push(TaskNotice::TaskError { task_id, message });
    }

    /// Records one raw received serial line.
    pub fn push_gcode_rx(&mut self, raw: String)
        ensures
            final(self).gcode_rx@ == old(self).gcode_rx@.push(raw),
            final(self).controller == old(self).controller,
            final(self).reset_when_idle == old(self).reset_when_idle,
            final(self).feedback == old(self).feedback,
            final(self).notices == old(self).notices,
    {
        self.gcode_rx.push(raw);
    }
}

/// Clones one axis, field for field.
pub fn clone_axis(a: &Axis) -> (r: Axis)
    ensures
        r == *a,
{
    let r = Axis {
        address: a.address.clone(),
        target_position: a.target_position,
        actual_position: a.actual_position,
        homed: a.homed,
    };
    r
}

/// Clones the axis list, element for element.
pub fn clone_axes(axes: &Vec<Axis>) -> (r: Vec<Axis>)
    ensures
        r@ == axes@,
{
    let mut r: Vec<Axis> = Vec::new();
    let mut i: usize = 0;
    while i < axes.len()
        invariant
            i <= axes@.len(),
            r@ == axes@.take(i as int),
        decreases axes@.len() - i,
    {
        r.push(clone_axis(&axes[i]));
        proof {
            assert(axes@.take(i + 1) =~= axes@.take(i as int).push(axes@[i as int]));
        }
        i = i + 1;
    }
    proof {
        assert(axes@.take(axes@.len() as int) =~= axes@);
    }
    r
}

} // verus!
