//! Tasks spooled onto the driver: a finite list of GCode lines consumed one
//! at a time.

use vstd::prelude::*;

verus! {

/// One spooled task.  `next_line` is the cursor of the line iterator: lines
/// before it have been despooled already.
#[derive(Clone, Debug)]
pub struct Task {
    pub id: u32,
    pub client_id: u32,
    pub gcode_lines: Vec<String>,
    pub next_line: usize,
    /// An override task is a short interrupt (a jog) allowed to interleave
    /// with a non-override print.
    pub machine_override: bool,
    pub started: bool,
}

impl Task {
    /// The cursor never runs past the end of the line list.
    pub open spec fn wf(self) -> bool {
        self.next_line <= self.gcode_lines@.len()
    }

    /// How many lines have not been despooled yet.
    pub open spec fn remaining(self) -> nat {
        if self.next_line <= self.gcode_lines@.len() {
            (self.gcode_lines@.len() - self.next_line) as nat
        } else {
            0
        }
    }

    /// The lines that have not been despooled yet, in order.
    pub open spec fn remaining_lines(self) -> Seq<String> {
        if self.next_line <= self.gcode_lines@.len() {
            self.gcode_lines@.skip(self.next_line as int)
        } else {
            Seq::empty()
        }
    }

    /// Builds a fresh, unstarted task.
    pub fn new(id: u32, client_id: u32, gcode_lines: Vec<String>, machine_override: bool) -> (t:
        Task)
        ensures
            t == (Task {
                id,
                client_id,
                gcode_lines,
                next_line: 0,
                machine_override,
                started: false,
            }),
            t.wf(),
    {
        Task { id, client_id, gcode_lines, next_line: 0, machine_override, started: false }
    }
}

/// The queue shape the spooler maintains: every task except possibly the
/// tail is an override task, so at most one non-override task is queued and
/// it is always last.
pub open spec fn wf_queue(tasks: Seq<Task>) -> bool {
    forall|i: int| 0 <= i < tasks.len() - 1 ==> (#[trigger] tasks[i]).machine_override
}

/// Every queued task is well formed.
pub open spec fn wf_tasks(tasks: Seq<Task>) -> bool {
    forall|i: int| 0 <= i < tasks.len() ==> (#[trigger] tasks[i]).wf()
}

/// Termination measure for the despool step: the lines still to despool,
/// plus one per queued task (popping an exhausted task shrinks it).
pub open spec fn spool_measure(tasks: Seq<Task>) -> nat
    decreases tasks.len(),
{
    if tasks.len() == 0 {
        0
    } else {
        tasks[0].remaining() + 1 + spool_measure(tasks.skip(1))
    }
}

/// Popping the head of a queue whose head has no lines left shrinks the
/// measure by exactly one.
pub proof fn lemma_spool_measure_pop(tasks: Seq<Task>)
    requires
        tasks.len() > 0,
    ensures
        spool_measure(tasks) == tasks[0].remaining() + 1 + spool_measure(tasks.skip(1)),
{
}

/// Consuming a line of the head task shrinks the measure by exactly one.
pub proof fn lemma_spool_measure_consume(tasks: Seq<Task>, tasks2: Seq<Task>)
    requires
        tasks.len() > 0,
        tasks2.len() == tasks.len(),
        tasks2.skip(1) == tasks.skip(1),
        tasks2[0].remaining() + 1 == tasks[0].remaining(),
    ensures
        spool_measure(tasks2) + 1 == spool_measure(tasks),
{
}

} // verus!
