//! The `Ready` protocol state machine: what is sent next, how responses are
//! matched to expectations, and how retry and resend are enforced.
//!
//! Transitions keep two protocol invariants: at most one checksummed line is
//! ever outstanding (a fresh line is committed only when nothing is awaiting
//! acknowledgement or the event acknowledges it), and the serial line number
//! never decreases, incrementing by exactly one per freshly committed line.

use vstd::prelude::*;
use crate::config::ControllerConfig;
use crate::context::{Axis, Context, Heater, TaskNotice};
use crate::context::clone_axes;
use crate::gcode::GCodeLine;
use crate::gcode::{append_dec, dec_of};
use crate::host::{HostDirective, HostDirectiveSpec, parse_host, parse_host_directive};
use crate::message::{
    lemma_numbered_sends_none,
    CombinatorPayload,
    DelayKey,
    DelayedEvent,
    Effect,
    Event,
    PositionsFeedback,
    Response,
    SerialFeedback,
    TaskContent,
    numbered_sends,
    lemma_numbered_sends_add,
    lemma_numbered_sends_one,
};
use crate::state::{Loop, State, disconnect, errored, send_serial, tickle_delay, tickle_timeout};
use crate::task::{Task, lemma_spool_measure_consume, lemma_spool_measure_pop, spool_measure, wf_queue, wf_tasks};
use crate::text::lower_eq;
use crate::text::lower_matches;

verus! {

/// What the driver will poll for next, when nothing else is pending.
#[derive(Copy, Clone, Debug, PartialEq, Eq, Structural)]
pub enum Polling {
    PollTemperature,
    PollPosition,
}

/// What to do when the next `ok` arrives.
#[derive(Copy, Clone, Debug, PartialEq, Eq, Structural)]
pub enum OnOK {
    TransitionToReady,
    Resend,
    IgnoreOK,
    Despool,
    NotAwaitingOk,
}

/// One axis of a wait-to-reach-mark directive: the driver waits until the
/// axis's actual position passes `target_position` in the direction given by
/// `forward`.
#[derive(Clone, Debug)]
pub struct MarkAxis {
    pub address: String,
    pub forward: bool,
    pub target_position: i64,
}

/// The mark state of the host-GCode machinery.
#[derive(Clone, Debug)]
pub enum Mark {
    /// A snapshot of the axes at the time of `markTargetPosition`.
    MarkSet(Vec<Axis>),
    /// Despooling is suspended until every listed axis reaches its mark.
    WaitingToReachMark(Vec<MarkAxis>),
}

/// The `Ready` substate: the expectation machine, the polling rotation, the
/// tickle budget, and the task queue.
#[derive(Clone, Debug)]
pub struct ReadyState {
    pub mark: Option<Mark>,
    pub poll_for: Option<Polling>,
    pub awaiting_polling_delay: bool,
    pub tickles_attempted: u32,
    pub last_gcode_sent: Option<String>,
    pub on_ok: OnOK,
    pub next_serial_line_number: u32,
    pub loading_gcode: bool,
    /// Head at index 0; every task but the tail has `machine_override`.
    pub tasks: Vec<Task>,
}

impl ReadyState {
    /// Well-formedness: the queue shape, the cursor bounds, a positive line
    /// number, and a recorded line whenever a resend is owed.
    pub open spec fn wf(self) -> bool {
        &&& wf_queue(self.tasks@)
        &&& wf_tasks(self.tasks@)
        &&& self.next_serial_line_number >= 1
        &&& (self.last_gcode_sent is Some ==> self.next_serial_line_number >= 2)
        &&& (self.on_ok is Resend ==> self.last_gcode_sent is Some)
    }

    /// How many committed lines are awaiting acknowledgement: one unless the
    /// driver is idle.
    pub open spec fn outstanding(self) -> nat {
        if self.on_ok is NotAwaitingOk {
            0
        } else {
            1
        }
    }

    /// The state a fresh connection starts from.
    pub fn default() -> (s: ReadyState)
        ensures
            s.mark is None,
            s.on_ok == OnOK::TransitionToReady,
            s.last_gcode_sent is None,
            s.poll_for == Some(Polling::PollPosition),
            s.awaiting_polling_delay == false,
            s.tickles_attempted == 0,
            s.next_serial_line_number == 1,
            s.loading_gcode == false,
            s.tasks@ == Seq::<Task>::empty(),
            s.wf(),
    {
        ReadyState {
            mark: None,
            on_ok: OnOK::TransitionToReady,
            last_gcode_sent: None,
            poll_for: Some(Polling::PollPosition),
            awaiting_polling_delay: false,
            tickles_attempted: 0,
            next_serial_line_number: 1,
            loading_gcode: false,
            tasks: Vec::new(),
        }
    }
}

/// The polling rotation: position, then temperature, then nothing.
pub open spec fn rotate_poll(p: Polling) -> Option<Polling> {
    match p {
        Polling::PollPosition => Some(Polling::PollTemperature),
        Polling::PollTemperature => None,
    }
}

/// The GCode that performs a poll.
pub open spec fn poll_gcode(p: Polling) -> Seq<char> {
    match p {
        Polling::PollTemperature => "M105"@,
        Polling::PollPosition => "M114"@,
    }
}

/// `e0` extended by exactly one send of `gcode` (as line number `ln`, with
/// or without checksum) and its tickle delay.
pub open spec fn push_send(e0: Seq<Effect>, l: GCodeLine, timeout_ms: u64) -> Seq<Effect> {
    e0.push(Effect::SendSerial(l)).push(tickle_delay(timeout_ms))
}

/// `e1` is `e0` plus one send with the given shape and its tickle delay.
pub open spec fn sent_one(
    e0: Seq<Effect>,
    e1: Seq<Effect>,
    gcode: Seq<char>,
    ln: Option<u32>,
    csum: bool,
    timeout_ms: u64,
) -> bool {
    exists|l: GCodeLine|
        e1 == #[trigger] push_send(e0, l, timeout_ms) && l.gcode@ == gcode && l.line_number == ln
            && l.checksum == csum
}

/// What a send appends to the numbered-send record.
pub proof fn lemma_sent_one_numbered(
    e0: Seq<Effect>,
    e1: Seq<Effect>,
    gcode: Seq<char>,
    ln: Option<u32>,
    csum: bool,
    timeout_ms: u64,
)
    requires
        sent_one(e0, e1, gcode, ln, csum, timeout_ms),
    ensures
        e0.is_prefix_of(e1),
        e1.len() == e0.len() + 2,
        ln is Some ==> numbered_sends(e1).len() == numbered_sends(e0).len() + 1
            && numbered_sends(e1).take(numbered_sends(e0).len() as int) == numbered_sends(e0)
            && numbered_sends(e1).last().gcode@ == gcode && numbered_sends(e1).last().line_number
            == ln && numbered_sends(e1).last().checksum == csum,
        ln is None ==> numbered_sends(e1) == numbered_sends(e0),
{
    let l = choose|l: GCodeLine|
        e1 == #[trigger] push_send(e0, l, timeout_ms) && l.gcode@ == gcode && l.line_number == ln
            && l.checksum == csum;
    assert(e1 =~= e0 + seq![Effect::SendSerial(l), tickle_delay(timeout_ms)]);
    lemma_numbered_sends_add(e0, seq![Effect::SendSerial(l), tickle_delay(timeout_ms)]);
    let two = seq![Effect::SendSerial(l), tickle_delay(timeout_ms)];
    assert(two =~= seq![Effect::SendSerial(l)] + seq![tickle_delay(timeout_ms)]);
    lemma_numbered_sends_add(seq![Effect::SendSerial(l)], seq![tickle_delay(timeout_ms)]);
    lemma_numbered_sends_one(Effect::SendSerial(l));
    lemma_numbered_sends_one(tickle_delay(timeout_ms));
    if ln is Some {
        assert(numbered_sends(two) =~= seq![l]);
        assert(numbered_sends(e1) =~= numbered_sends(e0).push(l));
        assert(numbered_sends(e1).take(numbered_sends(e0).len() as int) =~= numbered_sends(e0));
    } else {
        assert(numbered_sends(two) =~= Seq::<GCodeLine>::empty());
        assert(numbered_sends(e1) =~= numbered_sends(e0));
    }
    assert(e1.take(e0.len() as int) =~= e0);
}

/// Extending effects never drops recorded numbered sends.
pub proof fn lemma_prefix_numbered(e0: Seq<Effect>, e1: Seq<Effect>)
    requires
        e0.is_prefix_of(e1),
    ensures
        numbered_sends(e1) == numbered_sends(e0) + numbered_sends(e1.skip(e0.len() as int)),
        numbered_sends(e1).len() >= numbered_sends(e0).len(),
{
    assert(e1 =~= e0 + e1.skip(e0.len() as int));
    lemma_numbered_sends_add(e0, e1.skip(e0.len() as int));
}

/// The bookkeeping every despool-side step keeps: effects only grow, at most
/// one fresh numbered line is committed, the line number advances in step
/// with the committed lines, and the tickle and loading bookkeeping is
/// untouched.
pub open spec fn despool_frame(
    s0: ReadyState,
    s1: ReadyState,
    e0: Seq<Effect>,
    e1: Seq<Effect>,
) -> bool {
    &&& e0.is_prefix_of(e1)
    &&& numbered_sends(e1).len() <= numbered_sends(e0).len() + 1
    &&& s1.next_serial_line_number - s0.next_serial_line_number == numbered_sends(e1).len()
        - numbered_sends(e0).len()
    &&& (numbered_sends(e1).len() == numbered_sends(e0).len() + 1 ==> numbered_sends(e1).last().line_number
        == Some(s0.next_serial_line_number) && numbered_sends(e1).last().checksum
        && numbered_sends(e1).take(numbered_sends(e0).len() as int) == numbered_sends(e0))
    &&& s1.tickles_attempted == s0.tickles_attempted
    &&& s1.loading_gcode == s0.loading_gcode
}

/// The context fields no despool-side step may touch; notices only grow.
pub open spec fn ctx_frame(c0: Context, c1: Context) -> bool {
    &&& c1.controller == c0.controller
    &&& c1.reset_when_idle == c0.reset_when_idle
    &&& c1.gcode_rx == c0.gcode_rx
    &&& c1.feedback.axes == c0.feedback.axes
    &&& c1.feedback.heaters == c0.feedback.heaters
    &&& c0.notices@.is_prefix_of(c1.notices@)
}

/// The exact outcome of emitting the poll `p`: the poll is committed under
/// the line number of `s0`, the rotation advances, and the next `ok` will
/// despool.
pub open spec fn poll_result(
    s0: ReadyState,
    s1: ReadyState,
    e0: Seq<Effect>,
    e1: Seq<Effect>,
    c: ControllerConfig,
    p: Polling,
) -> bool {
    &&& s1.poll_for == rotate_poll(p)
    &&& s1.on_ok == OnOK::Despool
    &&& s1.next_serial_line_number == s0.next_serial_line_number + 1
    &&& (s1.last_gcode_sent matches Some(g) && g@ == poll_gcode(p))
    &&& s1.mark == s0.mark
    &&& s1.tasks == s0.tasks
    &&& s1.awaiting_polling_delay == s0.awaiting_polling_delay
    &&& s1.tickles_attempted == s0.tickles_attempted
    &&& s1.loading_gcode == s0.loading_gcode
    &&& sent_one(
        e0,
        e1,
        poll_gcode(p),
        Some(s0.next_serial_line_number),
        true,
        tickle_timeout(poll_gcode(p), c),
    )
}

/// A line that is a host directive rather than firmware GCode.
pub open spec fn is_host_line(g: Seq<char>) -> bool {
    g.len() > 0 && g[0] == '!'
}

/// The head task can hand out a plain (non-directive) line and nothing
/// suspends despooling.
pub open spec fn plain_line_case(s0: ReadyState) -> bool {
    &&& !(s0.mark matches Some(Mark::WaitingToReachMark(_)))
    &&& s0.tasks@.len() > 0
    &&& s0.tasks@[0].remaining() > 0
    &&& !is_host_line(s0.tasks@[0].remaining_lines()[0]@)
}

/// The exact outcome of despooling one plain line of the head task.
pub open spec fn plain_line_result(
    s0: ReadyState,
    s1: ReadyState,
    c0: Context,
    c1: Context,
    e0: Seq<Effect>,
    e1: Seq<Effect>,
) -> bool {
    let t = s0.tasks@[0];
    let line = t.remaining_lines()[0];
    let e_mid = if t.started {
        e0
    } else {
        e0.push(Effect::ProtobufSend)
    };
    &&& s1.tasks@ == s0.tasks@.update(
        0,
        Task { started: true, next_line: (t.next_line + 1) as usize, ..t },
    )
    &&& s1.on_ok == OnOK::Despool
    &&& s1.next_serial_line_number == s0.next_serial_line_number + 1
    &&& (s1.last_gcode_sent matches Some(g) && g@ == line@)
    &&& s1.poll_for == s0.poll_for
    &&& s1.mark == s0.mark
    &&& sent_one(
        e_mid,
        e1,
        line@,
        Some(s0.next_serial_line_number),
        true,
        tickle_timeout(line@, c0.controller),
    )
    &&& c1.feedback.despooled_line_number == (if t.machine_override {
        c0.feedback.despooled_line_number as int
    } else if c0.feedback.despooled_line_number < u32::MAX {
        c0.feedback.despooled_line_number + 1
    } else {
        c0.feedback.despooled_line_number as int
    })
    &&& c1.notices@ == (if t.started {
        c0.notices@
    } else {
        c0.notices@.push(TaskNotice::Started { task_id: t.id })
    })
}

/// The exact per-shape outcomes of one despool-task step.  The case where
/// the head line is a host directive is pinned by `execute_host_gcode`'s own
/// contract.
/// What a despool-side step leaves of the context: the notices and the
/// despooled-line counter (other fields are framed elsewhere).
pub open spec fn same_spool_ctx(c0: Context, c1: Context) -> bool {
    &&& c1.notices == c0.notices
    &&& c1.feedback.despooled_line_number == c0.feedback.despooled_line_number
}

pub open spec fn despool_base_cases(
    s0: ReadyState,
    s1: ReadyState,
    c0: Context,
    c1: Context,
    e0: Seq<Effect>,
    e1: Seq<Effect>,
    ok: bool,
) -> bool {
    &&& (s0.mark matches Some(Mark::WaitingToReachMark(_)) ==> ok && s1 == (ReadyState {
        on_ok: OnOK::NotAwaitingOk,
        ..s0
    }) && e1 == e0 && same_spool_ctx(c0, c1))
    &&& (!(s0.mark matches Some(Mark::WaitingToReachMark(_))) && s0.tasks@.len() == 0 ==> ok && s1
        == (ReadyState { on_ok: OnOK::NotAwaitingOk, ..s0 }) && same_spool_ctx(c0, c1) && e1
        == e0.push(
        Effect::CancelDelay { key: DelayKey::TickleDelay },
    ) + (if c0.reset_when_idle {
        seq![Effect::ExitProcessAfterDelay]
    } else {
        Seq::<Effect>::empty()
    }))
    &&& (plain_line_case(s0) ==> ok && plain_line_result(s0, s1, c0, c1, e0, e1))
}

/// A despool step that stops at one level: emit the pending poll, or take
/// one of the non-recursive despool-task shapes.  Used to pin the step a
/// popped task or a host directive hands over to.
pub open spec fn despool_base_result(
    s0: ReadyState,
    s1: ReadyState,
    c0: Context,
    c1: Context,
    e0: Seq<Effect>,
    e1: Seq<Effect>,
    ok: bool,
) -> bool {
    &&& (s0.poll_for matches Some(p) ==> ok && poll_result(s0, s1, e0, e1, c0.controller, p)
        && same_spool_ctx(c0, c1))
    &&& (s0.poll_for is None ==> despool_base_cases(s0, s1, c0, c1, e0, e1, ok))
}

/// The head task can hand out a host-directive line.
pub open spec fn host_line_case(s0: ReadyState) -> bool {
    &&& !(s0.mark matches Some(Mark::WaitingToReachMark(_)))
    &&& s0.tasks@.len() > 0
    &&& s0.tasks@[0].remaining() > 0
    &&& is_host_line(s0.tasks@[0].remaining_lines()[0]@)
}

/// The head task has no lines left to hand out.
pub open spec fn finished_head_case(s0: ReadyState) -> bool {
    &&& !(s0.mark matches Some(Mark::WaitingToReachMark(_)))
    &&& s0.tasks@.len() > 0
    &&& s0.tasks@[0].remaining() == 0
}

/// What one host directive does, run from the state reached once its line
/// was consumed: a malformed directive fails the task and changes nothing;
/// `markTargetPosition` snapshots the axes and despooling continues one
/// step; `waitToReachMark` over a set mark builds the wait list and forces
/// the position poll, and without one fails the task.
pub open spec fn host_step_result(
    s0: ReadyState,
    s1: ReadyState,
    c0: Context,
    c1: Context,
    e0: Seq<Effect>,
    e1: Seq<Effect>,
    line: Seq<char>,
    ok: bool,
) -> bool {
    let d = parse_host(line.skip(1));
    &&& (d is None ==> !ok && s1 == s0 && e1 == e0 && same_spool_ctx(c0, c1))
    &&& (d matches Some(HostDirectiveSpec::Mark) ==> exists|v: Vec<Axis>|
        (#[trigger] v@) == c0.feedback.axes@ && despool_base_result(
            ReadyState { mark: Some(Mark::MarkSet(v)), ..s0 },
            s1,
            c0,
            c1,
            e0,
            e1,
            ok,
        ))
    &&& (d matches Some(HostDirectiveSpec::Wait(args)) ==> ((s0.mark matches Some(
        Mark::MarkSet(snapshot),
    ) ==> ok && exists|m: Vec<MarkAxis>|
        #[trigger] mark_axes_views(m@) == build_mark(snapshot@, args) && poll_result(
            ReadyState {
                mark: Some(Mark::WaitingToReachMark(m)),
                poll_for: Some(Polling::PollPosition),
                ..s0
            },
            s1,
            e0,
            e1,
            c0.controller,
            Polling::PollPosition,
        ) && same_spool_ctx(c0, c1)) && (!(s0.mark matches Some(Mark::MarkSet(_))) ==> !ok && s1
        == s0 && e1 == e0 && same_spool_ctx(c0, c1))))
}

/// The exact per-shape outcomes of one despool-task step: the three base
/// shapes, plus an exhausted head task (finished notice, counter reset,
/// pop, and the despool step this recurses into) and a host-directive head
/// line (start bookkeeping, then the directive's outcome).
pub open spec fn despool_task_cases(
    s0: ReadyState,
    s1: ReadyState,
    c0: Context,
    c1: Context,
    e0: Seq<Effect>,
    e1: Seq<Effect>,
    ok: bool,
) -> bool {
    &&& despool_base_cases(s0, s1, c0, c1, e0, e1, ok)
    &&& (finished_head_case(s0) ==> ({
        let t = s0.tasks@[0];
        exists|s_mid: ReadyState, c_mid: Context|
            #![trigger s_mid.tasks, c_mid.notices]
            s_mid.tasks@ == s0.tasks@.skip(1) && s_mid == (ReadyState { tasks: s_mid.tasks, ..s0 })
                && c_mid.notices@ == c0.notices@.push(TaskNotice::Finished { task_id: t.id })
                && c_mid.feedback.despooled_line_number == (if t.machine_override {
                c0.feedback.despooled_line_number as int
            } else {
                0int
            }) && c_mid.controller == c0.controller && c_mid.reset_when_idle == c0.reset_when_idle
                && c_mid.feedback.axes == c0.feedback.axes && despool_base_result(
                s_mid,
                s1,
                c_mid,
                c1,
                e0.push(Effect::ProtobufSend),
                e1,
                ok,
            )
    }))
    &&& (host_line_case(s0) ==> ({
        let t = s0.tasks@[0];
        let line = t.remaining_lines()[0];
        exists|s_mid: ReadyState, c_mid: Context|
            #![trigger s_mid.tasks, c_mid.notices]
            s_mid.tasks@ == s0.tasks@.update(
                0,
                Task { started: true, next_line: (t.next_line + 1) as usize, ..t },
            ) && s_mid == (ReadyState { tasks: s_mid.tasks, ..s0 }) && c_mid.notices@ == (
            if t.started {
                c0.notices@
            } else {
                c0.notices@.push(TaskNotice::Started { task_id: t.id })
            }) && c_mid.feedback.despooled_line_number == (if t.machine_override {
                c0.feedback.despooled_line_number as int
            } else if c0.feedback.despooled_line_number < u32::MAX {
                c0.feedback.despooled_line_number + 1
            } else {
                c0.feedback.despooled_line_number as int
            }) && c_mid.controller == c0.controller && c_mid.reset_when_idle == c0.reset_when_idle
                && c_mid.feedback.axes == c0.feedback.axes && host_step_result(
                s_mid,
                s1,
                c_mid,
                c1,
                (if t.started {
                    e0
                } else {
                    e0.push(Effect::ProtobufSend)
                }),
                e1,
                line@,
                ok,
            )
    }))
}

/// What a despool step does: emit the pending poll if one is due, otherwise
/// take a despool-task step.
pub open spec fn despool_result(
    s0: ReadyState,
    s1: ReadyState,
    c0: Context,
    c1: Context,
    e0: Seq<Effect>,
    e1: Seq<Effect>,
    ok: bool,
) -> bool {
    &&& (s0.poll_for matches Some(p) ==> ok && poll_result(s0, s1, e0, e1, c0.controller, p)
        && same_spool_ctx(c0, c1))
    &&& (s0.poll_for is None ==> despool_task_cases(s0, s1, c0, c1, e0, e1, ok))
}

/// A sequence is an initial segment of itself.
pub proof fn lemma_prefix_refl<T>(s: Seq<T>)
    ensures
        s.is_prefix_of(s),
{
    assert(s.take(s.len() as int) =~= s);
}

/// Initial segments compose.
pub proof fn lemma_prefix_trans<T>(a: Seq<T>, b: Seq<T>, c: Seq<T>)
    requires
        a.is_prefix_of(b),
        b.is_prefix_of(c),
    ensures
        a.is_prefix_of(c),
{
    assert(c.take(a.len() as int) =~= a);
}

/// The first position `>= i` in `args` whose address is `addr`, or `-1`.
pub open spec fn arg_index_from(args: Seq<(Seq<char>, bool)>, addr: Seq<char>, i: int) -> int
    decreases args.len() - i,
    when 0 <= i
{
    if i >= args.len() {
        -1
    } else if args[i].0 == addr {
        i
    } else {
        arg_index_from(args, addr, i + 1)
    }
}

proof fn lemma_arg_index_skip(args: Seq<(Seq<char>, bool)>, addr: Seq<char>, from: int, i: int)
    requires
        0 <= from <= i <= args.len(),
        forall|j: int| from <= j < i ==> args[j].0 != addr,
    ensures
        arg_index_from(args, addr, from) == arg_index_from(args, addr, i),
    decreases i - from,
{
    if from < i {
        lemma_arg_index_skip(args, addr, from + 1, i);
    }
}

/// The wait list built from a mark snapshot and the directive's axes: every
/// snapshot axis named in the directive, in snapshot order, as
/// `(address, forward, target position)`.
pub open spec fn build_mark(axes: Seq<Axis>, args: Seq<(Seq<char>, bool)>) -> Seq<
    (Seq<char>, bool, i64),
>
    decreases axes.len(),
{
    if axes.len() == 0 {
        Seq::empty()
    } else {
        let rest = build_mark(axes.drop_last(), args);
        let a = axes.last();
        let j = arg_index_from(args, a.address@, 0);
        if j >= 0 {
            rest + seq![(a.address@, args[j].1, a.target_position)]
        } else {
            rest
        }
    }
}

/// The view of a wait list.
pub open spec fn mark_axes_views(v: Seq<MarkAxis>) -> Seq<(Seq<char>, bool, i64)> {
    v.map_values(|a: MarkAxis| (a.address@, a.forward, a.target_position))
}

/// Finds the first directive axis with this address.
fn find_arg(args: &Vec<(String, bool)>, addr: &String) -> (r: Option<usize>)
    ensures
        ({
            let argsv = args@.map_values(|p: (String, bool)| (p.0@, p.1));
            match r {
                Some(j) => arg_index_from(argsv, addr@, 0) == j && j < args@.len() && argsv[
                    j as int
                ].0 == addr@,
                None => arg_index_from(argsv, addr@, 0) == -1,
            }
        }),
{
    let ghost argsv = args@.map_values(|p: (String, bool)| (p.0@, p.1));
    let mut j: usize = 0;
    while j < args.len()
        invariant
            j <= args@.len(),
            argsv == args@.map_values(|p: (String, bool)| (p.0@, p.1)),
            forall|k: int| 0 <= k < j ==> argsv[k].0 != addr@,
        decreases args@.len() - j,
    {
        if args[j].0 == *addr {
            proof {
                lemma_arg_index_skip(argsv, addr@, 0, j as int);
            }
            return Some(j);
        }
        j = j + 1;
    }
    proof {
        lemma_arg_index_skip(argsv, addr@, 0, argsv.len() as int);
    }
    None
}

/// Builds the wait list of a `waitToReachMark` from the mark snapshot.
pub fn build_mark_exec(snapshot: &Vec<Axis>, args: &Vec<(String, bool)>) -> (out: Vec<MarkAxis>)
    ensures
        mark_axes_views(out@) == build_mark(
            snapshot@,
            args@.map_values(|p: (String, bool)| (p.0@, p.1)),
        ),
{
    let ghost argsv = args@.map_values(|p: (String, bool)| (p.0@, p.1));
    let mut out: Vec<MarkAxis> = Vec::new();
    let mut i: usize = 0;
    while i < snapshot.len()
        invariant
            i <= snapshot@.len(),
            argsv == args@.map_values(|p: (String, bool)| (p.0@, p.1)),
            mark_axes_views(out@) == build_mark(snapshot@.take(i as int), argsv),
        decreases snapshot@.len() - i,
    {
        let ghost views0 = mark_axes_views(out@);
        let axis = &snapshot[i];
        proof {
            assert(snapshot@.take(i + 1).drop_last() =~= snapshot@.take(i as int));
            assert(snapshot@.take(i + 1).last() == snapshot@[i as int]);
        }
        match find_arg(args, &axis.address) {
            Some(j) => {
                let m = MarkAxis {
                    address: axis.address.clone(),
                    forward: args[j].1,
                    target_position: axis.target_position,
                };
                out.push(m);
                proof {
                    assert(mark_axes_views(out@) =~= views0 + seq![
                        (axis.address@, argsv[j as int].1, axis.target_position),
                    ]);
                    assert(argsv[j as int].1 == args@[j as int].1);
                }
            },
            None => {
                proof {
                    assert(mark_axes_views(out@) =~= views0);
                    assert(build_mark(snapshot@.take(i + 1), argsv) == views0);
                }
            },
        }
        i = i + 1;
    }
    proof {
        assert(snapshot@.take(snapshot@.len() as int) =~= snapshot@);
    }
    out
}

/// The first heater at a position `>= i` with exactly this address, or `-1`.
pub open spec fn heater_index_from(hs: Seq<Heater>, addr: Seq<char>, i: int) -> int
    decreases hs.len() - i,
    when 0 <= i
{
    if i >= hs.len() {
        -1
    } else if hs[i].address@ == addr {
        i
    } else {
        heater_index_from(hs, addr, i + 1)
    }
}

proof fn lemma_heater_index_skip(hs: Seq<Heater>, addr: Seq<char>, from: int, i: int)
    requires
        0 <= from <= i <= hs.len(),
        forall|j: int| from <= j < i ==> hs[j].address@ != addr,
    ensures
        heater_index_from(hs, addr, from) == heater_index_from(hs, addr, i),
    decreases i - from,
{
    if from < i {
        lemma_heater_index_skip(hs, addr, from + 1, i);
    }
}

/// One temperature report applied: the first heater with this address takes
/// the actual temperature; an unknown address is a warning and changes
/// nothing.
pub open spec fn apply_temp(hs: Seq<Heater>, addr: Seq<char>, v: i64) -> Seq<Heater> {
    let j = heater_index_from(hs, addr, 0);
    if j < 0 {
        hs
    } else {
        hs.update(j, Heater { actual_temperature: v, ..hs[j] })
    }
}

/// All temperature reports applied, first to last.
pub open spec fn apply_temps(hs: Seq<Heater>, temps: Seq<(String, i64)>) -> Seq<Heater>
    decreases temps.len(),
{
    if temps.len() == 0 {
        hs
    } else {
        apply_temps(apply_temp(hs, temps[0].0@, temps[0].1), temps.skip(1))
    }
}

proof fn lemma_apply_temps_snoc(hs: Seq<Heater>, temps: Seq<(String, i64)>, t: (String, i64))
    ensures
        apply_temps(hs, temps.push(t)) == apply_temp(apply_temps(hs, temps), t.0@, t.1),
    decreases temps.len(),
{
    let one = temps.push(t);
    if temps.len() == 0 {
        assert(one[0] == t);
        assert(one.skip(1) =~= Seq::<(String, i64)>::empty());
        assert(apply_temps(hs, one) == apply_temps(apply_temp(hs, t.0@, t.1), one.skip(1)));
        assert(apply_temps(apply_temp(hs, t.0@, t.1), one.skip(1)) == apply_temp(hs, t.0@, t.1));
        assert(apply_temps(hs, temps) == hs);
    } else {
        assert(one[0] == temps[0]);
        assert(one.skip(1) =~= temps.skip(1).push(t));
        assert(apply_temps(hs, one) == apply_temps(apply_temp(hs, one[0].0@, one[0].1), one.skip(1)));
        assert(apply_temps(hs, temps) == apply_temps(apply_temp(hs, temps[0].0@, temps[0].1), temps.skip(1)));
        lemma_apply_temps_snoc(apply_temp(hs, temps[0].0@, temps[0].1), temps.skip(1), t);
    }
}

/// Applies the temperature reports to the live heater views.
fn apply_temps_exec(heaters: &mut Vec<Heater>, temps: &Vec<(String, i64)>)
    ensures
        final(heaters)@ == apply_temps(old(heaters)@, temps@),
{
    let mut k: usize = 0;
    while k < temps.len()
        invariant
            k <= temps@.len(),
            heaters@ == apply_temps(old(heaters)@, temps@.take(k as int)),
        decreases temps@.len() - k,
    {
        let ghost hs_before = heaters@;
        let addr = &temps[k].0;
        let v = temps[k].1;
        let mut j: usize = 0;
        let mut found: bool = false;
        while j < heaters.len() && !found
            invariant
                j <= heaters@.len(),
                heaters@ == hs_before,
                found ==> j < heaters@.len() && heaters@[j as int].address@ == addr@,
                forall|x: int| 0 <= x < j ==> heaters@[x].address@ != addr@,
            decreases heaters@.len() - j, (if found { 0int } else { 1int }),
    {
            if heaters[j].address == *addr {
                found = true;
            } else {
                j = j + 1;
            }
        }
        proof {
            if found {
                lemma_heater_index_skip(hs_before, addr@, 0, j as int);
                assert(heater_index_from(hs_before, addr@, 0) == j);
            } else {
                lemma_heater_index_skip(hs_before, addr@, 0, hs_before.len() as int);
                assert(heater_index_from(hs_before, addr@, 0) == -1);
            }
        }
        if found {
            heaters[j].actual_temperature = v;
            proof {
                assert(heaters@ =~= apply_temp(hs_before, addr@, v));
            }
        } else {
            proof {
                assert(heaters@ =~= apply_temp(hs_before, addr@, v));
            }
        }
        proof {
            assert(temps@.take(k + 1).drop_last() =~= temps@.take(k as int));
            assert(temps@.take(k + 1) =~= temps@.take(k as int).push(temps@[k as int]));
            lemma_apply_temps_snoc(old(heaters)@, temps@.take(k as int), temps@[k as int]);
        }
        k = k + 1;
    }
    proof {
        assert(temps@.take(temps@.len() as int) =~= temps@);
    }
}

/// The first axis at a position `>= i` whose lower-cased address is `addr`,
/// or `-1`.
pub open spec fn axis_index_lower_from(axes: Seq<Axis>, addr: Seq<char>, i: int) -> int
    decreases axes.len() - i,
    when 0 <= i
{
    if i >= axes.len() {
        -1
    } else if lower_eq(axes[i].address@, addr) {
        i
    } else {
        axis_index_lower_from(axes, addr, i + 1)
    }
}

proof fn lemma_axis_index_lower_skip(axes: Seq<Axis>, addr: Seq<char>, from: int, i: int)
    requires
        0 <= from <= i <= axes.len(),
        forall|j: int| from <= j < i ==> !lower_eq(axes[j].address@, addr),
    ensures
        axis_index_lower_from(axes, addr, from) == axis_index_lower_from(axes, addr, i),
    decreases i - from,
{
    if from < i {
        lemma_axis_index_lower_skip(axes, addr, from + 1, i);
    }
}

/// One actual-position report applied, matching addresses case-folded.
pub open spec fn apply_actual(axes: Seq<Axis>, addr: Seq<char>, v: i64) -> Seq<Axis> {
    let j = axis_index_lower_from(axes, addr, 0);
    if j < 0 {
        axes
    } else {
        axes.update(j, Axis { actual_position: v, ..axes[j] })
    }
}

/// All actual-position reports applied, first to last.
pub open spec fn apply_actuals(axes: Seq<Axis>, ps: Seq<(String, i64)>) -> Seq<Axis>
    decreases ps.len(),
{
    if ps.len() == 0 {
        axes
    } else {
        apply_actuals(apply_actual(axes, ps[0].0@, ps[0].1), ps.skip(1))
    }
}

proof fn lemma_apply_actuals_snoc(axes: Seq<Axis>, ps: Seq<(String, i64)>, p: (String, i64))
    ensures
        apply_actuals(axes, ps.push(p)) == apply_actual(apply_actuals(axes, ps), p.0@, p.1),
    decreases ps.len(),
{
    let one = ps.push(p);
    if ps.len() == 0 {
        assert(one[0] == p);
        assert(one.skip(1) =~= Seq::<(String, i64)>::empty());
        assert(apply_actuals(axes, one) == apply_actuals(apply_actual(axes, p.0@, p.1), one.skip(1)));
        assert(apply_actuals(apply_actual(axes, p.0@, p.1), one.skip(1)) == apply_actual(axes, p.0@, p.1));
        assert(apply_actuals(axes, ps) == axes);
    } else {
        assert(one[0] == ps[0]);
        assert(one.skip(1) =~= ps.skip(1).push(p));
        assert(apply_actuals(axes, one) == apply_actuals(apply_actual(axes, one[0].0@, one[0].1), one.skip(1)));
        assert(apply_actuals(axes, ps) == apply_actuals(apply_actual(axes, ps[0].0@, ps[0].1), ps.skip(1)));
        lemma_apply_actuals_snoc(apply_actual(axes, ps[0].0@, ps[0].1), ps.skip(1), p);
    }
}

/// One target-position report applied, matching addresses case-folded.
pub open spec fn apply_target(axes: Seq<Axis>, addr: Seq<char>, v: i64) -> Seq<Axis> {
    let j = axis_index_lower_from(axes, addr, 0);
    if j < 0 {
        axes
    } else {
        axes.update(j, Axis { target_position: v, ..axes[j] })
    }
}

/// All target-position reports applied, first to last.
pub open spec fn apply_targets(axes: Seq<Axis>, ps: Seq<(String, i64)>) -> Seq<Axis>
    decreases ps.len(),
{
    if ps.len() == 0 {
        axes
    } else {
        apply_targets(apply_target(axes, ps[0].0@, ps[0].1), ps.skip(1))
    }
}

proof fn lemma_apply_targets_snoc(axes: Seq<Axis>, ps: Seq<(String, i64)>, p: (String, i64))
    ensures
        apply_targets(axes, ps.push(p)) == apply_target(apply_targets(axes, ps), p.0@, p.1),
    decreases ps.len(),
{
    let one = ps.push(p);
    if ps.len() == 0 {
        assert(one[0] == p);
        assert(one.skip(1) =~= Seq::<(String, i64)>::empty());
        assert(apply_targets(axes, one) == apply_targets(apply_target(axes, p.0@, p.1), one.skip(1)));
        assert(apply_targets(apply_target(axes, p.0@, p.1), one.skip(1)) == apply_target(axes, p.0@, p.1));
        assert(apply_targets(axes, ps) == axes);
    } else {
        assert(one[0] == ps[0]);
        assert(one.skip(1) =~= ps.skip(1).push(p));
        assert(apply_targets(axes, one) == apply_targets(apply_target(axes, one[0].0@, one[0].1), one.skip(1)));
        assert(apply_targets(axes, ps) == apply_targets(apply_target(axes, ps[0].0@, ps[0].1), ps.skip(1)));
        lemma_apply_targets_snoc(apply_target(axes, ps[0].0@, ps[0].1), ps.skip(1), p);
    }
}

/// What a whole positions report does to the axis views: actual positions,
/// then target positions when the report carries them.
pub open spec fn apply_positions(axes: Seq<Axis>, p: PositionsFeedback) -> Seq<Axis> {
    let axes1 = apply_actuals(axes, p.actual_positions@);
    match p.target_positions {
        Some(ts) => apply_targets(axes1, ts@),
        None => axes1,
    }
}

/// Applies the actual-position reports to the live axis views.
fn apply_actuals_exec(axes: &mut Vec<Axis>, ps: &Vec<(String, i64)>)
    ensures
        final(axes)@ == apply_actuals(old(axes)@, ps@),
{
    let mut k: usize = 0;
    while k < ps.len()
        invariant
            k <= ps@.len(),
            axes@ == apply_actuals(old(axes)@, ps@.take(k as int)),
        decreases ps@.len() - k,
    {
        let ghost axes_before = axes@;
        let addr = &ps[k].0;
        let v = ps[k].1;
        let mut j: usize = 0;
        let mut found: bool = false;
        while j < axes.len() && !found
            invariant
                j <= axes@.len(),
                axes@ == axes_before,
                found ==> j < axes@.len() && lower_eq(axes@[j as int].address@, addr@),
                forall|x: int| 0 <= x < j ==> !lower_eq(axes@[x].address@, addr@),
            decreases axes@.len() - j, (if found { 0int } else { 1int }),
        {
            if lower_matches(axes[j].address.as_str(), addr.as_str()) {
                found = true;
            } else {
                j = j + 1;
            }
        }
        proof {
            if found {
                lemma_axis_index_lower_skip(axes_before, addr@, 0, j as int);
            } else {
                lemma_axis_index_lower_skip(axes_before, addr@, 0, axes_before.len() as int);
            }
        }
        if found {
            axes[j].actual_position = v;
            proof {
                assert(axes@ =~= apply_actual(axes_before, addr@, v));
            }
        } else {
            proof {
                assert(axes@ =~= apply_actual(axes_before, addr@, v));
            }
        }
        proof {
            assert(ps@.take(k + 1) =~= ps@.take(k as int).push(ps@[k as int]));
            lemma_apply_actuals_snoc(old(axes)@, ps@.take(k as int), ps@[k as int]);
        }
        k = k + 1;
    }
    proof {
        assert(ps@.take(ps@.len() as int) =~= ps@);
    }
}

/// Applies the target-position reports to the live axis views.
fn apply_targets_exec(axes: &mut Vec<Axis>, ps: &Vec<(String, i64)>)
    ensures
        final(axes)@ == apply_targets(old(axes)@, ps@),
{
    let mut k: usize = 0;
    while k < ps.len()
        invariant
            k <= ps@.len(),
            axes@ == apply_targets(old(axes)@, ps@.take(k as int)),
        decreases ps@.len() - k,
    {
        let ghost axes_before = axes@;
        let addr = &ps[k].0;
        let v = ps[k].1;
        let mut j: usize = 0;
        let mut found: bool = false;
        while j < axes.len() && !found
            invariant
                j <= axes@.len(),
                axes@ == axes_before,
                found ==> j < axes@.len() && lower_eq(axes@[j as int].address@, addr@),
                forall|x: int| 0 <= x < j ==> !lower_eq(axes@[x].address@, addr@),
            decreases axes@.len() - j, (if found { 0int } else { 1int }),
        {
            if lower_matches(axes[j].address.as_str(), addr.as_str()) {
                found = true;
            } else {
                j = j + 1;
            }
        }
        proof {
            if found {
                lemma_axis_index_lower_skip(axes_before, addr@, 0, j as int);
            } else {
                lemma_axis_index_lower_skip(axes_before, addr@, 0, axes_before.len() as int);
            }
        }
        if found {
            axes[j].target_position = v;
            proof {
                assert(axes@ =~= apply_target(axes_before, addr@, v));
            }
        } else {
            proof {
                assert(axes@ =~= apply_target(axes_before, addr@, v));
            }
        }
        proof {
            assert(ps@.take(k + 1) =~= ps@.take(k as int).push(ps@[k as int]));
            lemma_apply_targets_snoc(old(axes)@, ps@.take(k as int), ps@[k as int]);
        }
        k = k + 1;
    }
    proof {
        assert(ps@.take(ps@.len() as int) =~= ps@);
    }
}

/// The first axis at a position `>= i` with exactly this address, or `-1`.
pub open spec fn axis_index_exact_from(axes: Seq<Axis>, addr: Seq<char>, i: int) -> int
    decreases axes.len() - i,
    when 0 <= i
{
    if i >= axes.len() {
        -1
    } else if axes[i].address@ == addr {
        i
    } else {
        axis_index_exact_from(axes, addr, i + 1)
    }
}

proof fn lemma_axis_index_exact_skip(axes: Seq<Axis>, addr: Seq<char>, from: int, i: int)
    requires
        0 <= from <= i <= axes.len(),
        forall|j: int| from <= j < i ==> axes[j].address@ != addr,
    ensures
        axis_index_exact_from(axes, addr, from) == axis_index_exact_from(axes, addr, i),
    decreases i - from,
{
    if from < i {
        lemma_axis_index_exact_skip(axes, addr, from + 1, i);
    }
}

/// Every marked axis has reached or passed its target in its direction of
/// travel: forward means at or above the target, backward at or below.
pub open spec fn reached_mark(ms: Seq<MarkAxis>, axes: Seq<Axis>) -> bool {
    forall|i: int|
        0 <= i < ms.len() ==> {
            let j = axis_index_exact_from(axes, (#[trigger] ms[i]).address@, 0);
            &&& j >= 0
            &&& (if ms[i].forward {
                axes[j].actual_position >= ms[i].target_position
            } else {
                axes[j].actual_position <= ms[i].target_position
            })
        }
}

/// Decides `reached_mark(ms@, axes@)`.
fn reached_mark_exec(ms: &Vec<MarkAxis>, axes: &Vec<Axis>) -> (r: bool)
    ensures
        r == reached_mark(ms@, axes@),
{
    let mut i: usize = 0;
    while i < ms.len()
        invariant
            i <= ms@.len(),
            forall|x: int|
                0 <= x < i ==> {
                    let j = axis_index_exact_from(axes@, (#[trigger] ms@[x]).address@, 0);
                    j >= 0 && (if ms@[x].forward {
                        axes@[j].actual_position >= ms@[x].target_position
                    } else {
                        axes@[j].actual_position <= ms@[x].target_position
                    })
                },
        decreases ms@.len() - i,
    {
        let addr = &ms[i].address;
        let mut j: usize = 0;
        let mut found: bool = false;
        while j < axes.len() && !found
            invariant
                j <= axes@.len(),
                found ==> j < axes@.len() && axes@[j as int].address@ == addr@,
                forall|x: int| 0 <= x < j ==> axes@[x].address@ != addr@,
            decreases axes@.len() - j, (if found { 0int } else { 1int }),
        {
            if axes[j].address == *addr {
                found = true;
            } else {
                j = j + 1;
            }
        }
        proof {
            if found {
                lemma_axis_index_exact_skip(axes@, addr@, 0, j as int);
            } else {
                lemma_axis_index_exact_skip(axes@, addr@, 0, axes@.len() as int);
            }
        }
        if !found {
            return false;
        }
        let ok = if ms[i].forward {
            axes[j].actual_position >= ms[i].target_position
        } else {
            axes[j].actual_position <= ms[i].target_position
        };
        if !ok {
            return false;
        }
        i = i + 1;
    }
    true
}

/// The polling delay that temperature feedback re-arms.
pub open spec fn polling_delay_effect(interval_ms: u64) -> Effect {
    Effect::Delay {
        key: DelayKey::PollingDelay,
        duration_ms: interval_ms,
        event: DelayedEvent::PollFeedback,
    }
}

/// Events that carry a task must carry a well-formed one.
pub open spec fn event_wf(event: Event) -> bool {
    match event {
        Event::GCodeLoaded(t) => t.wf(),
        _ => true,
    }
}

/// The event acknowledges the outstanding line.
pub open spec fn is_ok_event(event: Event) -> bool {
    match event {
        Event::SerialRec { raw: _, response } => response is Okay,
        _ => false,
    }
}

/// Termination helper: a spool request re-enters `consume` as a loaded task.
pub open spec fn consume_fuel(event: Event) -> nat {
    match event {
        Event::ProtobufRec(_) => 1,
        _ => 0,
    }
}

/// The exact outcome of a loaded task arriving: rejection of a second
/// non-override task, or insertion per the queue shape and, when the driver
/// was idle, the despool step this triggers.
pub open spec fn gcode_loaded_outcome(
    s0: ReadyState,
    task: Task,
    r: Loop,
    c0: Context,
    c1: Context,
) -> bool {
    let reject = has_print_task(s0.tasks@) && !task.machine_override;
    let queued = if has_print_task(s0.tasks@) {
        s0.tasks@.insert(s0.tasks@.len() - 1, task)
    } else {
        s0.tasks@.push(task)
    };
    &&& (reject ==> r.next_state == State::Ready(s0) && r.effects@ == Seq::<Effect>::empty()
        && c1.notices@.len() == c0.notices@.len() + 1 && c1.notices@.take(c0.notices@.len() as int)
        == c0.notices@ && (c1.notices@.last() matches TaskNotice::TaskError { task_id, message }
        && task_id == task.id && message@ == "Attempted to print 2 non-override tasks at once"@)
        && c1.feedback == c0.feedback && c1.gcode_rx == c0.gcode_rx)
    &&& (!reject && !(s0.on_ok is NotAwaitingOk) ==> (r.next_state matches State::Ready(s2)
        && s2.tasks@ == queued && s2 == (ReadyState { tasks: s2.tasks, ..s0 })) && r.effects@
        == Seq::<Effect>::empty() && c1 == c0)
    &&& ((!reject && s0.on_ok is NotAwaitingOk) ==> (r.next_state matches State::Ready(s2) ==> exists|
        s_q: ReadyState,
    |
        (#[trigger] s_q.tasks)@ == queued && s_q == (ReadyState { tasks: s_q.tasks, ..s0 })
            && despool_task_cases(s_q, s2, c0, c1, Seq::empty(), r.effects@, true) && despool_frame(
            s_q,
            s2,
            Seq::empty(),
            r.effects@,
        )))
}

/// The first position `>= i` of a task with this id, or `-1`.
pub open spec fn task_index_from(tasks: Seq<Task>, id: u32, i: int) -> int
    decreases tasks.len() - i,
    when 0 <= i
{
    if i >= tasks.len() {
        -1
    } else if tasks[i].id == id {
        i
    } else {
        task_index_from(tasks, id, i + 1)
    }
}

proof fn lemma_task_index_skip(tasks: Seq<Task>, id: u32, from: int, i: int)
    requires
        0 <= from <= i <= tasks.len(),
        forall|j: int| from <= j < i ==> tasks[j].id != id,
    ensures
        task_index_from(tasks, id, from) == task_index_from(tasks, id, i),
    decreases i - from,
{
    if from < i {
        lemma_task_index_skip(tasks, id, from + 1, i);
    }
}

/// Whether a non-override (print) task is queued; it is always the tail.
pub open spec fn has_print_task(tasks: Seq<Task>) -> bool {
    tasks.len() > 0 && !tasks.last().machine_override
}

/// The message of a resend whose line number is not the one last sent.
pub open spec fn resend_mismatch_message(requested: u32, sent: u32) -> Seq<char> {
    "resend line number "@ + dec_of(requested as nat) + " does not match sent line number "@
        + dec_of(sent as nat)
}

/// The tickle that provokes a silent firmware: a bare `M105`, un-numbered,
/// checksummed only when configured.
pub open spec fn tickle_gcode() -> Seq<char> {
    "M105"@
}

/// The view of the line recorded as last sent (empty if none was).
pub open spec fn last_sent_view(s: ReadyState) -> Seq<char> {
    match s.last_gcode_sent {
        Some(g) => g@,
        None => Seq::empty(),
    }
}

impl ReadyState {
    /// Wraps this state as a transition result with no effects.
    pub fn and_no_effects(self) -> (r: Loop)
        ensures
            r.next_state == State::Ready(self),
            r.effects@ == Seq::<Effect>::empty(),
    {
        let effects: Vec<Effect> = Vec::new();
        Loop::new(State::Ready(self), effects)
    }

    /// Commits the poll `poll_for` to the wire under the next line number
    /// and advances the polling rotation.
    pub fn poll_feedback(
        &mut self,
        effects: &mut Vec<Effect>,
        context: &Context,
        poll_for: Polling,
    )
        requires
            old(self).next_serial_line_number < u32::MAX,
            old(self).wf(),
        ensures
            final(self).wf(),
            poll_result(
                *old(self),
                *final(self),
                old(effects)@,
                final(effects)@,
                context.controller,
                poll_for,
            ),
    {
        let gcode = match poll_for {
            Polling::PollTemperature => String::from_str("M105"),
            Polling::PollPosition => String::from_str("M114"),
        };
        let recorded = match poll_for {
            Polling::PollTemperature => String::from_str("M105"),
            Polling::PollPosition => String::from_str("M114"),
        };
        let ln = self.next_serial_line_number;
        let line = GCodeLine { gcode, line_number: Some(ln), checksum: true };
        send_serial(effects, line, context);
        self.last_gcode_sent = Some(recorded);
        self.on_ok = OnOK::Despool;
        self.next_serial_line_number = ln + 1;
        self.poll_for = match poll_for {
            Polling::PollPosition => Some(Polling::PollTemperature),
            Polling::PollTemperature => None,
        };
        proof {
            assert(effects@ == push_send(
                old(effects)@,
                line,
                tickle_timeout(poll_gcode(poll_for), context.controller),
            ));
        }
    }

    /// A response timeout fired: provoke the firmware with a bare `M105`, or
    /// give up once the configured attempts are exhausted.
    pub fn tickle_serial_port(self, context: &mut Context) -> (r: Loop)
        requires
            self.wf(),
        ensures
            *final(context) == *old(context),
            self.tickles_attempted >= old(context).controller.response_timeout_tickle_attempts
                ==> (r.next_state matches State::Errored { message } && message@
                == "Serial port communication timed out."@) && r.effects@ == seq![
                Effect::ProtobufSend,
            ],
            self.tickles_attempted < old(context).controller.response_timeout_tickle_attempts
                ==> (r.next_state matches State::Ready(s2) && s2 == (ReadyState {
                tickles_attempted: (self.tickles_attempted + 1) as u32,
                ..self
            }) && s2.wf()) && sent_one(
                Seq::<Effect>::empty(),
                r.effects@,
                tickle_gcode(),
                None::<u32>,
                old(context).controller.checksum_tickles,
                tickle_timeout(tickle_gcode(), old(context).controller),
            ),
    {
        let mut this = self;
        if this.tickles_attempted >= context.controller.response_timeout_tickle_attempts {
            let message = String::from_str("Serial port communication timed out.");
            errored(message)
        } else {
            let mut effects: Vec<Effect> = Vec::new();
            let line = GCodeLine {
                gcode: String::from_str("M105"),
                line_number: None,
                checksum: context.controller.checksum_tickles,
            };
            send_serial(&mut effects, line, context);
            this.tickles_attempted = this.tickles_attempted + 1;
            proof {
                assert(effects@ == push_send(
                    Seq::<Effect>::empty(),
                    line,
                    tickle_timeout(tickle_gcode(), context.controller),
                ));
            }
            Loop::new(State::Ready(this), effects)
        }
    }

    /// A `resend: N` arrived.  The driver sends one line at a time, so `N`
    /// must be the line last sent; anything else is a protocol violation and
    /// fails the machine.
    pub fn receive_resend_request(self, line_number: u32, context: &mut Context) -> (r: Loop)
        requires
            self.wf(),
        ensures
            *final(context) == *old(context),
            ({
                let sent = (self.next_serial_line_number - 1) as u32;
                &&& (line_number == sent && self.last_gcode_sent is Some ==> (r.next_state
                    matches State::Ready(s2) && s2 == (ReadyState { on_ok: OnOK::Resend, ..self })
                    && s2.wf()) && r.effects@ == Seq::<Effect>::empty())
                &&& (line_number != sent ==> (r.next_state matches State::Errored { message }
                    && message@ == resend_mismatch_message(line_number, sent)) && r.effects@
                    == seq![Effect::ProtobufSend])
                &&& (line_number == sent && self.last_gcode_sent is None ==> (r.next_state
                    matches State::Errored { message } && message@
                    == "resend requested before any line was sent"@) && r.effects@ == seq![
                    Effect::ProtobufSend,
                ])
            }),
    {
        let mut this = self;
        let sent_line_number = this.next_serial_line_number - 1;
        if line_number != sent_line_number {
            let mut message = String::from_str("resend line number ");
            append_dec(&mut message, line_number);
            message.append(" does not match sent line number ");
            append_dec(&mut message, sent_line_number);
            proof {
                assert(message@ =~= resend_mismatch_message(line_number, sent_line_number));
            }
            errored(message)
        } else if this.last_gcode_sent.is_none() {
            let message = String::from_str("resend requested before any line was sent");
            errored(message)
        } else {
            this.on_ok = OnOK::Resend;
            this.and_no_effects()
        }
    }

    /// Emits the pending poll if one is due, otherwise takes a despool-task
    /// step.
    pub fn despool(&mut self, effects: &mut Vec<Effect>, context: &mut Context) -> (r: Result<
        (),
        String,
    >)
        requires
            old(self).wf(),
            old(self).next_serial_line_number < u32::MAX,
        ensures
            final(self).wf(),
            final(self).next_serial_line_number < u32::MAX || final(self).next_serial_line_number
                == old(self).next_serial_line_number + 1,
            despool_frame(*old(self), *final(self), old(effects)@, final(effects)@),
            ctx_frame(*old(context), *final(context)),
            despool_result(
                *old(self),
                *final(self),
                *old(context),
                *final(context),
                old(effects)@,
                final(effects)@,
                r is Ok,
            ),
        decreases spool_measure(self.tasks@), 1int,
    {
        let poll = self.poll_for;
        match poll {
            Some(p) => {
                self.poll_feedback(effects, context, p);
                proof {
                    lemma_sent_one_numbered(
                        old(effects)@,
                        effects@,
                        poll_gcode(p),
                        Some(old(self).next_serial_line_number),
                        true,
                        tickle_timeout(poll_gcode(p), context.controller),
                    );
                    lemma_prefix_refl(old(context).notices@);
                }
                Ok(())
            },
            None => {
                let r = self.despool_task(effects, context);
                r
            },
        }
    }

    /// One despool-task step: suspend while a mark is awaited, idle out an
    /// empty queue, hand the head task's next line to the wire or to the
    /// host-directive machinery, and pop and recurse past an exhausted task.
    #[verifier::rlimit(100)]
    #[verifier::spinoff_prover]
    pub fn despool_task(&mut self, effects: &mut Vec<Effect>, context: &mut Context) -> (r: Result<
        (),
        String,
    >)
        requires
            old(self).wf(),
            old(self).next_serial_line_number < u32::MAX,
        ensures
            final(self).wf(),
            final(self).next_serial_line_number < u32::MAX || final(self).next_serial_line_number
                == old(self).next_serial_line_number + 1,
            despool_frame(*old(self), *final(self), old(effects)@, final(effects)@),
            ctx_frame(*old(context), *final(context)),
            despool_task_cases(
                *old(self),
                *final(self),
                *old(context),
                *final(context),
                old(effects)@,
                final(effects)@,
                r is Ok,
            ),
        decreases spool_measure(self.tasks@), 0int,
    {
        let waiting = match &self.mark {
            Some(Mark::WaitingToReachMark(_)) => true,
            _ => false,
        };
        if waiting {
            self.on_ok = OnOK::NotAwaitingOk;
            proof {
                lemma_prefix_refl(effects@);
                lemma_prefix_refl(numbered_sends(effects@));
                lemma_prefix_refl(context.notices@);
            }
            return Ok(());
        }
        if self.tasks.len() == 0 {
            self.on_ok = OnOK::NotAwaitingOk;
            effects.push(Effect::CancelDelay { key: DelayKey::TickleDelay });
            if context.reset_when_idle {
                effects.push(Effect::ExitProcessAfterDelay);
            }
            proof {
                let tail = if context.reset_when_idle {
                    seq![
                        Effect::CancelDelay { key: DelayKey::TickleDelay },
                        Effect::ExitProcessAfterDelay,
                    ]
                } else {
                    seq![Effect::CancelDelay { key: DelayKey::TickleDelay }]
                };
                assert(effects@ =~= old(effects)@ + tail);
                assert(effects@ =~= old(effects)@.push(
                    Effect::CancelDelay { key: DelayKey::TickleDelay },
                ) + (if context.reset_when_idle {
                    seq![Effect::ExitProcessAfterDelay]
                } else {
                    Seq::<Effect>::empty()
                }));
                lemma_numbered_sends_add(old(effects)@, tail);
                if context.reset_when_idle {
                    assert(tail =~= seq![Effect::CancelDelay { key: DelayKey::TickleDelay }]
                        + seq![Effect::ExitProcessAfterDelay]);
                    lemma_numbered_sends_add(
                        seq![Effect::CancelDelay { key: DelayKey::TickleDelay }],
                        seq![Effect::ExitProcessAfterDelay],
                    );
                    lemma_numbered_sends_one(Effect::CancelDelay { key: DelayKey::TickleDelay });
                    lemma_numbered_sends_one(Effect::ExitProcessAfterDelay);
                    assert(numbered_sends(tail) =~= Seq::<GCodeLine>::empty());
                } else {
                    lemma_numbered_sends_one(Effect::CancelDelay { key: DelayKey::TickleDelay });
                    assert(numbered_sends(tail) =~= Seq::<GCodeLine>::empty());
                }
                assert(numbered_sends(effects@) =~= numbered_sends(old(effects)@));
                assert(effects@.take(old(effects)@.len() as int) =~= old(effects)@);
                lemma_prefix_refl(context.notices@);
            }
            return Ok(());
        }
        let ghost tasks0 = self.tasks@;
        let mut task = self.tasks.remove(0);
        if task.next_line < task.gcode_lines.len() {
            let gcode = task.gcode_lines[task.next_line].clone();
            task.next_line = task.next_line + 1;
            let was_started = task.started;
            if !was_started {
                task.started = true;
                context.push_start_task(&task);
                effects.push(Effect::ProtobufSend);
            }
            if !task.machine_override {
                if context.feedback.despooled_line_number < u32::MAX {
                    context.feedback.despooled_line_number = context.feedback.despooled_line_number
                        + 1;
                }
            }
            let glen = gcode.as_str().unicode_len();
            let is_host = glen > 0 && gcode.as_str().get_char(0) == '!';
            self.tasks.insert(0, task);
            proof {
                let t0 = tasks0[0];
                let t1 = Task {
                    started: true,
                    next_line: (t0.next_line + 1) as usize,
                    ..t0
                };
                assert(self.tasks@ =~= tasks0.update(0, t1));
                assert(wf_queue(self.tasks@)) by {
                    assert forall|i: int| 0 <= i < self.tasks@.len() - 1 implies (
                    #[trigger] self.tasks@[i]).machine_override by {
                        assert(tasks0[i].machine_override);
                    }
                }
                assert(wf_tasks(self.tasks@)) by {
                    assert forall|i: int| 0 <= i < self.tasks@.len() implies (
                    #[trigger] self.tasks@[i]).wf() by {
                        if i != 0 {
                            assert(self.tasks@[i] == tasks0[i]);
                        }
                    }
                }
                assert(self.tasks@.skip(1) =~= tasks0.skip(1));
                lemma_spool_measure_consume(tasks0, self.tasks@);
                assert(gcode@ == t0.remaining_lines()[0]@);
            }
            let ghost e_mid = effects@;
            let ghost notices_mid = context.notices@;
            if is_host {
                let r = self.execute_host_gcode(effects, context, &gcode);
                proof {
                    if !was_started {
                        lemma_numbered_sends_one(Effect::ProtobufSend);
                        assert(e_mid =~= old(effects)@ + seq![Effect::ProtobufSend]);
                        lemma_numbered_sends_add(old(effects)@, seq![Effect::ProtobufSend]);
                        assert(numbered_sends(e_mid) =~= numbered_sends(old(effects)@));
                    } else {
                        assert(e_mid =~= old(effects)@);
                        assert(numbered_sends(e_mid) =~= numbered_sends(old(effects)@));
                    }
                    assert(e_mid.take(old(effects)@.len() as int) =~= old(effects)@);
                    lemma_prefix_trans(old(effects)@, e_mid, effects@);
                    assert(notices_mid.take(old(context).notices@.len() as int) =~= old(
                        context,
                    ).notices@);
                    lemma_prefix_trans(old(context).notices@, notices_mid, context.notices@);
                }
                r
            } else {
                let gcode_recorded = gcode.clone();
                let line = GCodeLine {
                    gcode,
                    line_number: Some(self.next_serial_line_number),
                    checksum: true,
                };
                send_serial(effects, line, context);
                self.last_gcode_sent = Some(gcode_recorded);
                self.on_ok = OnOK::Despool;
                self.next_serial_line_number = self.next_serial_line_number + 1;
                proof {
                    assert(effects@ == push_send(
                        e_mid,
                        line,
                        tickle_timeout(line.gcode@, context.controller),
                    ));
                    lemma_sent_one_numbered(
                        e_mid,
                        effects@,
                        line.gcode@,
                        Some(old(self).next_serial_line_number),
                        true,
                        tickle_timeout(line.gcode@, context.controller),
                    );
                    if !was_started {
                        lemma_numbered_sends_one(Effect::ProtobufSend);
                        assert(e_mid =~= old(effects)@ + seq![Effect::ProtobufSend]);
                        lemma_numbered_sends_add(old(effects)@, seq![Effect::ProtobufSend]);
                        assert(numbered_sends(e_mid) =~= numbered_sends(old(effects)@));
                    }
                    assert(numbered_sends(e_mid) =~= numbered_sends(old(effects)@));
                    lemma_prefix_trans(old(effects)@, e_mid, effects@);
                    lemma_prefix_refl(old(context).notices@);
                    assert(context.notices@.take(old(context).notices@.len() as int) =~= old(
                        context,
                    ).notices@);
                }
                Ok(())
            }
        } else {
            context.push_finish_task(&task);
            if !task.machine_override {
                context.feedback.despooled_line_number = 0;
            }
            effects.push(Effect::ProtobufSend);
            let ghost e_mid = effects@;
            let ghost notices_mid = context.notices@;
            proof {
                lemma_spool_measure_pop(tasks0);
                assert(self.tasks@ =~= tasks0.skip(1));
                assert(wf_queue(self.tasks@)) by {
                    assert forall|i: int| 0 <= i < self.tasks@.len() - 1 implies (
                    #[trigger] self.tasks@[i]).machine_override by {
                        assert(tasks0[i + 1].machine_override);
                    }
                }
                assert(wf_tasks(self.tasks@)) by {
                    assert forall|i: int| 0 <= i < self.tasks@.len() implies (
                    #[trigger] self.tasks@[i]).wf() by {
                        assert(tasks0[i + 1].wf());
                    }
                }
            }
            let r = self.despool(effects, context);
            proof {
                lemma_prefix_trans(old(effects)@, e_mid, effects@);
                assert(e_mid =~= old(effects)@ + seq![Effect::ProtobufSend]);
                lemma_numbered_sends_add(old(effects)@, seq![Effect::ProtobufSend]);
                lemma_numbered_sends_one(Effect::ProtobufSend);
                assert(numbered_sends(e_mid) =~= numbered_sends(old(effects)@));
                assert(notices_mid.take(old(context).notices@.len() as int) =~= old(
                    context,
                ).notices@);
                lemma_prefix_trans(old(context).notices@, notices_mid, context.notices@);
            }
            r
        }
    }

    /// Integrates feedback carried by a serial response: temperature reports
    /// update the heaters and re-arm the polling delay (forced to 50 ms
    /// while a mark is awaited); position reports update the axes and, when
    /// every marked axis has reached its target, release the mark so that
    /// despooling can resume.
    pub fn receive_feedback(&mut self, feedback: &SerialFeedback, context: &mut Context) -> (effects: Vec<Effect>)
        requires
            old(self).wf(),
        ensures
            final(self).wf(),
            final(self).next_serial_line_number == old(self).next_serial_line_number,
            final(self).on_ok == old(self).on_ok,
            final(self).tickles_attempted == old(self).tickles_attempted,
            final(self).loading_gcode == old(self).loading_gcode,
            final(self).poll_for == old(self).poll_for,
            final(self).last_gcode_sent == old(self).last_gcode_sent,
            final(self).tasks == old(self).tasks,
            final(context).controller == old(context).controller,
            final(context).reset_when_idle == old(context).reset_when_idle,
            final(context).gcode_rx == old(context).gcode_rx,
            final(context).notices == old(context).notices,
            final(context).feedback.despooled_line_number == old(
                context,
            ).feedback.despooled_line_number,
            (feedback matches SerialFeedback::ActualTemperatures(temps) ==> final(context).feedback.heaters@ == apply_temps(old(context).feedback.heaters@, temps@) && final(context).feedback.axes == old(context).feedback.axes && *final(self) == (ReadyState {
                awaiting_polling_delay: true,
                ..*old(self)
            }) && effects@ == seq![
                polling_delay_effect(
                    if old(self).mark is Some {
                        50u64
                    } else {
                        old(context).controller.polling_interval
                    },
                ),
                Effect::ProtobufSend,
            ]),
            (feedback matches SerialFeedback::Positions(p) ==> final(context).feedback.axes@
                == apply_positions(old(context).feedback.axes@, *p) && final(context).feedback.heaters == old(context).feedback.heaters && effects@ == Seq::<
                Effect,
            >::empty() && ({
                let released = (old(self).mark matches Some(Mark::WaitingToReachMark(m))
                    && reached_mark(m@, apply_positions(old(context).feedback.axes@, *p)));
                &&& (released ==> *final(self) == (ReadyState { mark: None, ..*old(self) }))
                &&& (!released ==> *final(self) == *old(self))
            })),
    {
        match feedback {
            SerialFeedback::ActualTemperatures(temps) => {
                apply_temps_exec(&mut context.feedback.heaters, temps);
                self.awaiting_polling_delay = true;
                let polling_interval: u64 = if self.mark.is_some() {
                    50
                } else {
                    context.controller.polling_interval
                };
                let mut effects: Vec<Effect> = Vec::new();
                effects.push(
                    Effect::Delay {
                        key: DelayKey::PollingDelay,
                        duration_ms: polling_interval,
                        event: DelayedEvent::PollFeedback,
                    },
                );
                effects.push(Effect::ProtobufSend);
                proof {
                    assert(effects@ =~= seq![
                        polling_delay_effect(polling_interval),
                        Effect::ProtobufSend,
                    ]);
                }
                effects
            },
            SerialFeedback::Positions(p) => {
                apply_actuals_exec(&mut context.feedback.axes, &p.actual_positions);
                match &p.target_positions {
                    Some(ts) => {
                        apply_targets_exec(&mut context.feedback.axes, ts);
                    },
                    None => {},
                }
                let released = match &self.mark {
                    Some(Mark::WaitingToReachMark(ms)) => reached_mark_exec(
                        ms,
                        &context.feedback.axes,
                    ),
                    _ => false,
                };
                if released {
                    self.mark = None;
                }
                Vec::new()
            },
        }
    }

    /// Acts on an acknowledgement per the expectation machine: ignore a
    /// stray `ok`, re-send the last line (under its original number) when a
    /// resend is owed, swallow the `ok` that follows a re-send, publish
    /// `Ready` once the connect probe is answered, or despool.
    pub fn receive_ok(&mut self, effects: &mut Vec<Effect>, context: &mut Context) -> (r: Result<
        (),
        String,
    >)
        requires
            old(self).wf(),
            old(self).next_serial_line_number < u32::MAX,
        ensures
            final(self).wf(),
            final(self).tickles_attempted == old(self).tickles_attempted,
            final(self).loading_gcode == old(self).loading_gcode,
            old(effects)@.is_prefix_of(final(effects)@),
            ctx_frame(*old(context), *final(context)),
            numbered_sends(final(effects)@).len() <= numbered_sends(old(effects)@).len() + 1,
            final(self).next_serial_line_number >= old(self).next_serial_line_number,
            final(self).next_serial_line_number - old(self).next_serial_line_number == (if old(
                self,
            ).on_ok is Resend {
                0int
            } else {
                numbered_sends(final(effects)@).len() - numbered_sends(old(effects)@).len()
            }),
            (numbered_sends(final(effects)@).len() == numbered_sends(old(effects)@).len() + 1
                ==> numbered_sends(final(effects)@).take(numbered_sends(old(effects)@).len() as int)
                == numbered_sends(old(effects)@) && numbered_sends(final(effects)@).last().checksum
                && numbered_sends(final(effects)@).last().line_number == Some(
                (if old(self).on_ok is Resend {
                    (old(self).next_serial_line_number - 1) as u32
                } else {
                    old(self).next_serial_line_number
                }),
            )),
            (old(self).on_ok is NotAwaitingOk ==> r is Ok && *final(self) == *old(self)
                && final(effects)@ == old(effects)@ && *final(context) == *old(context)),
            (old(self).on_ok is Resend ==> r is Ok && *final(self) == (ReadyState {
                on_ok: OnOK::IgnoreOK,
                ..*old(self)
            }) && *final(context) == *old(context) && sent_one(
                old(effects)@,
                final(effects)@,
                last_sent_view(*old(self)),
                Some((old(self).next_serial_line_number - 1) as u32),
                true,
                tickle_timeout(last_sent_view(*old(self)), old(context).controller),
            )),
            (old(self).on_ok is IgnoreOK ==> r is Ok && *final(self) == (ReadyState {
                on_ok: OnOK::Despool,
                ..*old(self)
            }) && final(effects)@ == old(effects)@ && *final(context) == *old(context)),
            (old(self).on_ok is Despool ==> despool_frame(
                *old(self),
                *final(self),
                old(effects)@,
                final(effects)@,
            ) && despool_result(
                *old(self),
                *final(self),
                *old(context),
                *final(context),
                old(effects)@,
                final(effects)@,
                r is Ok,
            )),
            (old(self).on_ok is TransitionToReady ==> despool_result(
                ReadyState { on_ok: OnOK::Despool, ..*old(self) },
                *final(self),
                *old(context),
                *final(context),
                old(effects)@.push(Effect::ProtobufSend),
                final(effects)@,
                r is Ok,
            )),
    {
        match self.on_ok {
            OnOK::NotAwaitingOk => {
                proof {
                    lemma_prefix_refl(old(effects)@);
                    lemma_prefix_refl(old(context).notices@);
                }
                Ok(())
            },
            OnOK::Resend => {
                let gcode = match &self.last_gcode_sent {
                    Some(g) => g.clone(),
                    None => {
                        proof {
                            assert(false);
                        }
                        return Ok(());
                    },
                };
                let line = GCodeLine {
                    gcode,
                    line_number: Some(self.next_serial_line_number - 1),
                    checksum: true,
                };
                send_serial(effects, line, context);
                self.on_ok = OnOK::IgnoreOK;
                proof {
                    assert(effects@ == push_send(
                        old(effects)@,
                        line,
                        tickle_timeout(last_sent_view(*old(self)), context.controller),
                    ));
                    lemma_sent_one_numbered(
                        old(effects)@,
                        effects@,
                        last_sent_view(*old(self)),
                        Some((old(self).next_serial_line_number - 1) as u32),
                        true,
                        tickle_timeout(last_sent_view(*old(self)), context.controller),
                    );
                    lemma_prefix_refl(old(context).notices@);
                }
                Ok(())
            },
            OnOK::IgnoreOK => {
                self.on_ok = OnOK::Despool;
                proof {
                    lemma_prefix_refl(old(effects)@);
                    lemma_prefix_refl(old(context).notices@);
                }
                Ok(())
            },
            OnOK::TransitionToReady => {
                effects.push(Effect::ProtobufSend);
                self.on_ok = OnOK::Despool;
                let ghost s_mid = *self;
                let ghost e_mid = effects@;
                let r = self.despool(effects, context);
                proof {
                    assert(s_mid == (ReadyState { on_ok: OnOK::Despool, ..*old(self) }));
                    assert(e_mid == old(effects)@.push(Effect::ProtobufSend));
                    assert(e_mid =~= old(effects)@ + seq![Effect::ProtobufSend]);
                    lemma_numbered_sends_add(old(effects)@, seq![Effect::ProtobufSend]);
                    lemma_numbered_sends_one(Effect::ProtobufSend);
                    assert(numbered_sends(e_mid) =~= numbered_sends(old(effects)@));
                    assert(e_mid.take(old(effects)@.len() as int) =~= old(effects)@);
                    lemma_prefix_trans(old(effects)@, e_mid, effects@);
                    lemma_prefix_numbered(e_mid, effects@);
                }
                r
            },
            OnOK::Despool => {
                let r = self.despool(effects, context);
                proof {
                    lemma_prefix_numbered(old(effects)@, effects@);
                }
                r
            },
        }
    }

    /// Runs one host directive (the line after its leading `!`).
    /// `markTargetPosition` snapshots the axes into the mark;
    /// `waitToReachMark` turns the snapshot into a wait list and forces
    /// position polling.  A malformed directive, or a wait without a prior
    /// mark, fails the task.  Despooling then continues.
    pub fn execute_host_gcode(
        &mut self,
        effects: &mut Vec<Effect>,
        context: &mut Context,
        gcode: &String,
    ) -> (r: Result<(), String>)
        requires
            old(self).wf(),
            old(self).next_serial_line_number < u32::MAX,
            is_host_line(gcode@),
        ensures
            final(self).wf(),
            final(self).next_serial_line_number < u32::MAX || final(self).next_serial_line_number
                == old(self).next_serial_line_number + 1,
            despool_frame(*old(self), *final(self), old(effects)@, final(effects)@),
            ctx_frame(*old(context), *final(context)),
            ({
                let d = parse_host(gcode@.skip(1));
                &&& (d is None ==> (r matches Err(m) && m@ == "Invalid host GCode"@) && *final(self)
                    == *old(self) && final(effects)@ == old(effects)@
                    && *final(context) == *old(context))
                &&& (d matches Some(HostDirectiveSpec::Mark) ==> exists|v: Vec<Axis>|
                    (#[trigger] v@) == old(context).feedback.axes@ && despool_result(
                        ReadyState { mark: Some(Mark::MarkSet(v)), ..*old(self) },
                        *final(self),
                        *old(context),
                        *final(context),
                        old(effects)@,
                        final(effects)@,
                        r is Ok,
                    ))
                &&& (d matches Some(HostDirectiveSpec::Wait(args)) ==> ((old(self).mark
                    matches Some(Mark::MarkSet(snapshot)) ==> r is Ok && exists|m: Vec<MarkAxis>|
                    #[trigger] mark_axes_views(m@) == build_mark(snapshot@, args) && poll_result(
                        ReadyState {
                            mark: Some(Mark::WaitingToReachMark(m)),
                            poll_for: Some(Polling::PollPosition),
                            ..*old(self)
                        },
                        *final(self),
                        old(effects)@,
                        final(effects)@,
                        old(context).controller,
                        Polling::PollPosition,
                    ) && *final(context) == *old(context)) && (!(old(self).mark matches Some(
                    Mark::MarkSet(_),
                )) ==> (r matches Err(m) && m@ == "Cannot wait to reach mark if mark is not set"@)
                    && *final(self) == *old(self) && final(effects)@ == old(effects)@
                    && *final(context) == *old(context))))
            }),
        decreases spool_measure(self.tasks@), 2int,
    {
        let glen = gcode.as_str().unicode_len();
        let directive_str = gcode.as_str().substring_char(1, glen);
        proof {
            assert(directive_str@ =~= gcode@.skip(1));
            lemma_prefix_refl(old(effects)@);
            lemma_prefix_refl(numbered_sends(old(effects)@));
            lemma_prefix_refl(old(context).notices@);
        }
        let parsed = parse_host_directive(directive_str);
        match parsed {
            None => Err(String::from_str("Invalid host GCode")),
            Some(HostDirective::MarkTargetPosition) => {
                let snapshot = clone_axes(&context.feedback.axes);
                self.mark = Some(Mark::MarkSet(snapshot));
                let ghost s_mid = *self;
                let r = self.despool(effects, context);
                proof {
                    assert(s_mid == (ReadyState {
                        mark: Some(Mark::MarkSet(snapshot)),
                        ..*old(self)
                    }));
                    assert(despool_result(
                        ReadyState { mark: Some(Mark::MarkSet(snapshot)), ..*old(self) },
                        *self,
                        *old(context),
                        *context,
                        old(effects)@,
                        effects@,
                        r is Ok,
                    ));
                }
                r
            },
            Some(HostDirective::WaitToReachMark { axes: args }) => {
                let ghost old_mark = self.mark;
                let built_opt = match &self.mark {
                    Some(Mark::MarkSet(snapshot)) => Some(build_mark_exec(snapshot, &args)),
                    _ => None,
                };
                match built_opt {
                    None => Err(String::from_str("Cannot wait to reach mark if mark is not set")),
                    Some(built) => {
                        self.mark = Some(Mark::WaitingToReachMark(built));
                        self.poll_for = Some(Polling::PollPosition);
                        let ghost s_mid = *self;
                        let r = self.despool(effects, context);
                        proof {
                            assert(s_mid == (ReadyState {
                                mark: Some(Mark::WaitingToReachMark(built)),
                                poll_for: Some(Polling::PollPosition),
                                ..*old(self)
                            }));
                            match old_mark {
                                Some(Mark::MarkSet(sv)) => {
                                    assert(mark_axes_views(built@) == build_mark(
                                        sv@,
                                        args@.map_values(|p: (String, bool)| (p.0@, p.1)),
                                    ));
                                },
                                _ => {},
                            }
                            assert(poll_result(
                                s_mid,
                                *self,
                                old(effects)@,
                                effects@,
                                old(context).controller,
                                Polling::PollPosition,
                            ));
                        }
                        r
                    },
                }
            },
        }
    }

    /// Queues a loaded task.  A second non-override task is rejected with a
    /// task-scoped error notice; an override task spooled during a print is
    /// inserted just before the print, which stays the tail.
    pub fn enqueue_task(&mut self, task: Task, context: &mut Context) -> (accepted: bool)
        requires
            old(self).wf(),
            task.wf(),
        ensures
            final(self).wf(),
            accepted == !(has_print_task(old(self).tasks@) && !task.machine_override),
            !accepted ==> *final(self) == *old(self) && final(context).notices@.len() == old(
                context,
            ).notices@.len() + 1 && final(context).notices@.take(old(context).notices@.len() as int)
                == old(context).notices@ && (final(context).notices@.last()
                matches TaskNotice::TaskError { task_id: tid, message } && tid == task.id
                && message@ == "Attempted to print 2 non-override tasks at once"@),
            accepted ==> final(self).tasks@ == (if has_print_task(old(self).tasks@) {
                old(self).tasks@.insert(old(self).tasks@.len() - 1, task)
            } else {
                old(self).tasks@.push(task)
            }) && *final(self) == (ReadyState { tasks: final(self).tasks, ..*old(self) })
                && *final(context) == *old(context),
            ctx_frame(*old(context), *final(context)),
            final(context).feedback == old(context).feedback,
    {
        let len = self.tasks.len();
        let is_printing = len > 0 && !self.tasks[len - 1].machine_override;
        proof {
            assert(is_printing == has_print_task(self.tasks@));
        }
        if is_printing && !task.machine_override {
            let message = String::from_str("Attempted to print 2 non-override tasks at once");
            let task_id = task.id;
            context.push_error(task_id, message);
            proof {
                assert(context.notices@.take(old(context).notices@.len() as int) =~= old(
                    context,
                ).notices@);
            }
            return false;
        }
        if is_printing {
            self.tasks.insert(len - 1, task);
        } else {
            self.tasks.push(task);
        }
        proof {
            assert(wf_queue(self.tasks@)) by {
                let ts0 = old(self).tasks@;
                let ts1 = self.tasks@;
                assert forall|i: int| 0 <= i < ts1.len() - 1 implies (
                #[trigger] ts1[i]).machine_override by {
                    if has_print_task(ts0) {
                        if i < ts0.len() - 1 {
                            assert(ts1[i] == ts0[i]);
                        } else {
                            assert(ts1[i] == task);
                        }
                    } else {
                        assert(ts1[i] == ts0[i]);
                        if ts0.len() > 0 && i == ts0.len() - 1 {
                            assert(ts0.last().machine_override);
                        }
                    }
                }
            }
            assert(wf_tasks(self.tasks@)) by {
                let ts0 = old(self).tasks@;
                let ts1 = self.tasks@;
                assert forall|i: int| 0 <= i < ts1.len() implies (#[trigger] ts1[i]).wf() by {
                    if has_print_task(ts0) {
                        if i < ts0.len() - 1 {
                            assert(ts1[i] == ts0[i]);
                        } else if i == ts0.len() - 1 {
                            assert(ts1[i] == task);
                        } else {
                            assert(ts1[i] == ts0[i - 1]);
                        }
                    } else if i < ts0.len() {
                        assert(ts1[i] == ts0[i]);
                    } else {
                        assert(ts1[i] == task);
                    }
                }
            }
        }
        true
    }

    /// Consumes one event in the `Ready` state and returns the next state
    /// with the effects to perform.
    ///
    /// Whatever the event: at most one numbered line is committed, a fresh
    /// one only when nothing was outstanding or the event acknowledged the
    /// outstanding line, and the serial line number advances by exactly the
    /// number of freshly committed lines (a re-send re-uses the previous
    /// number and advances nothing).
    #[verifier::rlimit(100)]
    #[verifier::spinoff_prover]
    pub fn consume(self, event: Event, context: &mut Context) -> (r: Loop)
        requires
            self.wf(),
            self.next_serial_line_number < u32::MAX,
            event_wf(event),
        ensures
            (r.next_state matches State::Ready(s2) ==> s2.wf() && s2.next_serial_line_number
                >= self.next_serial_line_number),
            numbered_sends(r.effects@).len() <= 1,
            (r.next_state matches State::Ready(s2) ==> {
                ||| (numbered_sends(r.effects@).len() == 0 && s2.next_serial_line_number
                    == self.next_serial_line_number)
                ||| (numbered_sends(r.effects@).len() == 1 && numbered_sends(
                    r.effects@,
                )[0].line_number == Some(self.next_serial_line_number)
                    && s2.next_serial_line_number == self.next_serial_line_number + 1 && (
                self.on_ok is NotAwaitingOk || is_ok_event(event)))
                ||| (numbered_sends(r.effects@).len() == 1 && self.on_ok is Resend && is_ok_event(
                    event,
                ) && numbered_sends(r.effects@)[0].line_number == Some(
                    (self.next_serial_line_number - 1) as u32,
                ) && s2.next_serial_line_number == self.next_serial_line_number)
            }),
            (!(r.next_state matches State::Ready(_)) ==> numbered_sends(r.effects@).len() == 0),
            final(context).controller == old(context).controller,
            final(context).reset_when_idle == old(context).reset_when_idle,
            (event matches Event::SerialRec { raw, response } ==> final(context).gcode_rx@ == old(
                context,
            ).gcode_rx@.push(raw)),
            (!(event matches Event::SerialRec { .. }) ==> final(context).gcode_rx == old(
                context,
            ).gcode_rx),
            (event matches Event::ProtobufRec(m) ==> {
                &&& (m.payload is None ==> r.next_state == State::Ready(self) && r.effects@
                    == Seq::<Effect>::empty() && *final(context) == *old(context))
                &&& (m.payload matches Some(CombinatorPayload::Other) ==> r.next_state
                    == State::Ready(self) && r.effects@ == Seq::<Effect>::empty() && *final(context)
                    == *old(context))
                &&& (m.payload matches Some(CombinatorPayload::SpoolTask(st)) ==> {
                    let s_l = ReadyState { loading_gcode: true, ..self };
                    &&& (st.content is None ==> r.next_state == State::Ready(s_l) && r.effects@
                        == Seq::<Effect>::empty() && *final(context) == *old(context))
                    &&& (st.content matches Some(TaskContent::FilePath { path }) ==> r.next_state
                        == State::Ready(s_l) && r.effects@ == seq![
                        Effect::LoadGCode {
                            file_path: path,
                            task_id: st.task_id,
                            client_id: st.client_id,
                            machine_override: st.machine_override,
                        },
                    ] && *final(context) == *old(context))
                    &&& (st.content matches Some(TaskContent::Inline { commands })
                        ==> gcode_loaded_outcome(
                        s_l,
                        Task {
                            id: st.task_id,
                            client_id: st.client_id,
                            gcode_lines: commands,
                            next_line: 0,
                            machine_override: st.machine_override,
                            started: false,
                        },
                        r,
                        *old(context),
                        *final(context),
                    ))
                })
                &&& (m.payload matches Some(CombinatorPayload::PauseTask { task_id }) ==> {
                    let idx = task_index_from(self.tasks@, task_id, 0);
                    &&& (idx == -1 ==> r.next_state == State::Ready(
                        ReadyState { loading_gcode: true, ..self },
                    ) && r.effects@ == Seq::<Effect>::empty() && *final(context) == *old(context))
                    &&& (idx >= 0 ==> (r.next_state matches State::Ready(s2) && s2.tasks@
                        == self.tasks@.remove(idx) && s2 == (ReadyState {
                        tasks: s2.tasks,
                        loading_gcode: true,
                        ..self
                    })) && final(context).notices@ == old(context).notices@.push(
                        TaskNotice::Paused { task_id: self.tasks@[idx].id },
                    ) && final(context).feedback.despooled_line_number == (if self.tasks@[
                        idx
                    ].machine_override {
                        old(context).feedback.despooled_line_number as int
                    } else {
                        0int
                    }) && final(context).feedback.axes == old(context).feedback.axes && final(context).feedback.heaters == old(context).feedback.heaters && r.effects@ == (if old(
                        context,
                    ).reset_when_idle && self.tasks@.len() == 1 {
                        seq![Effect::ExitProcessAfterDelay]
                    } else {
                        Seq::<Effect>::empty()
                    }))
                })
            }),
            (event matches Event::GCodeLoaded(task) ==> gcode_loaded_outcome(
                self,
                task,
                r,
                *old(context),
                *final(context),
            )),
            (event is SerialPortDisconnected ==> r.next_state is Disconnected && *final(context)
                == *old(context)),
            (event is PollFeedback ==> {
                let s_p = ReadyState { poll_for: Some(Polling::PollPosition), ..self };
                &&& (self.on_ok is NotAwaitingOk ==> (r.next_state matches State::Ready(s2)
                    && poll_result(
                    s_p,
                    s2,
                    Seq::empty(),
                    r.effects@,
                    old(context).controller,
                    Polling::PollPosition,
                )) && *final(context) == *old(context))
                &&& (!(self.on_ok is NotAwaitingOk) ==> r.next_state == State::Ready(s_p)
                    && r.effects@ == Seq::<Effect>::empty() && *final(context) == *old(context))
            }),
            (event is TickleSerialPort ==> *final(context) == *old(context) && (
            self.tickles_attempted >= old(context).controller.response_timeout_tickle_attempts
                ==> (r.next_state matches State::Errored { message } && message@
                == "Serial port communication timed out."@)) && (self.tickles_attempted < old(
                context,
            ).controller.response_timeout_tickle_attempts ==> (r.next_state matches State::Ready(
                s2,
            ) && s2 == (ReadyState {
                tickles_attempted: (self.tickles_attempted + 1) as u32,
                ..self
            })) && sent_one(
                Seq::<Effect>::empty(),
                r.effects@,
                tickle_gcode(),
                None::<u32>,
                old(context).controller.checksum_tickles,
                tickle_timeout(tickle_gcode(), old(context).controller),
            ))),
            (event is GreetingToReadyDelayDone ==> (r.next_state matches State::Errored { message }
                && message@ == "invalid event for the ready state"@) && *final(context) == *old(
                context,
            )),
            (event matches Event::SerialRec { raw: _, response } ==> {
                &&& ((response is Unknown || response is Echo || response is Debug
                    || response is Warning) ==> r.next_state == State::Ready(self) && r.effects@
                    == Seq::<Effect>::empty())
                &&& (response matches Response::Error(e) ==> r.next_state == (State::Errored {
                    message: e,
                }) && r.effects@ == seq![Effect::ProtobufSend])
                &&& (response is Greeting ==> (r.next_state matches State::Errored { message }
                    && message@ == "Unexpected printer firmware restart."@) && r.effects@ == seq![
                    Effect::ProtobufSend,
                ])
                &&& (response matches Response::Resend { line_number } ==> {
                    let sent = (self.next_serial_line_number - 1) as u32;
                    &&& (line_number == sent && self.last_gcode_sent is Some ==> (r.next_state
                        matches State::Ready(s2) && s2 == (ReadyState {
                        on_ok: OnOK::Resend,
                        ..self
                    })) && r.effects@ == Seq::<Effect>::empty())
                    &&& (line_number != sent ==> (r.next_state matches State::Errored { message }
                        && message@ == resend_mismatch_message(line_number, sent)))
                })
                &&& (response matches Response::Feedback(fb) ==> (r.next_state
                    matches State::Ready(s2) && {
                    &&& (fb matches SerialFeedback::ActualTemperatures(temps) ==> s2 == (ReadyState {
                        awaiting_polling_delay: true,
                        ..self
                    }) && final(context).feedback.heaters@ == apply_temps(
                        old(context).feedback.heaters@,
                        temps@,
                    ) && final(context).feedback.axes == old(context).feedback.axes && r.effects@
                        == seq![
                        polling_delay_effect(
                            if self.mark is Some {
                                50u64
                            } else {
                                old(context).controller.polling_interval
                            },
                        ),
                        Effect::ProtobufSend,
                        Effect::CancelDelay { key: DelayKey::TickleDelay },
                    ])
                    &&& (fb matches SerialFeedback::Positions(p) ==> final(context).feedback.axes@
                        == apply_positions(old(context).feedback.axes@, p) && final(context).feedback.heaters == old(context).feedback.heaters && r.effects@ == seq![
                        Effect::CancelDelay { key: DelayKey::TickleDelay },
                    ] && ({
                        let released = (self.mark matches Some(Mark::WaitingToReachMark(m))
                            && reached_mark(
                            m@,
                            apply_positions(old(context).feedback.axes@, p),
                        ));
                        &&& (released ==> s2 == (ReadyState { mark: None, ..self }))
                        &&& (!released ==> s2 == self)
                    }))
                }))
                &&& (response matches Response::Okay(fb_opt) ==> {
                    &&& (r.next_state matches State::Ready(_) || r.next_state
                        matches State::Errored { .. })
                    &&& (r.next_state matches State::Ready(s2) ==> s2.tickles_attempted
                        == self.tickles_attempted && s2.loading_gcode == self.loading_gcode && (
                    self.on_ok is Resend ==> s2.on_ok == OnOK::IgnoreOK
                        && s2.next_serial_line_number == self.next_serial_line_number
                        && numbered_sends(r.effects@).len() == 1 && numbered_sends(
                        r.effects@,
                    )[0].line_number == Some((self.next_serial_line_number - 1) as u32)
                        && numbered_sends(r.effects@)[0].gcode@ == last_sent_view(self)) && (
                    self.on_ok is IgnoreOK ==> s2.on_ok == OnOK::Despool
                        && s2.next_serial_line_number == self.next_serial_line_number
                        && numbered_sends(r.effects@).len() == 0) && (self.on_ok is NotAwaitingOk
                        ==> s2.on_ok == OnOK::NotAwaitingOk && numbered_sends(r.effects@).len()
                        == 0 && s2.next_serial_line_number == self.next_serial_line_number))
                    &&& ((fb_opt is None && self.on_ok is Despool) ==> (r.next_state
                        matches State::Ready(s2) ==> despool_result(
                        self,
                        s2,
                        *old(context),
                        *final(context),
                        Seq::empty(),
                        r.effects@,
                        true,
                    )))
                    &&& ((fb_opt is None && self.on_ok is TransitionToReady) ==> (r.next_state
                        matches State::Ready(s2) ==> despool_result(
                        ReadyState { on_ok: OnOK::Despool, ..self },
                        s2,
                        *old(context),
                        *final(context),
                        seq![Effect::ProtobufSend],
                        r.effects@,
                        true,
                    )))
                    &&& (fb_opt is None ==> final(context).feedback.heaters == old(
                        context,
                    ).feedback.heaters && final(context).feedback.axes == old(
                        context,
                    ).feedback.axes)
                    &&& (fb_opt matches Some(SerialFeedback::ActualTemperatures(temps)) ==> final(context).feedback.heaters@ == apply_temps(old(context).feedback.heaters@, temps@)
                        && final(context).feedback.axes == old(context).feedback.axes)
                    &&& (fb_opt matches Some(SerialFeedback::Positions(p)) ==> final(context).feedback.axes@ == apply_positions(old(context).feedback.axes@, p) && final(context).feedback.heaters == old(context).feedback.heaters)
                })
            }),
        decreases consume_fuel(event),
    {
        let ghost s0 = self;
        match event {
            Event::ProtobufRec(msg) => {
                match msg.payload {
                    None => self.and_no_effects(),
                    Some(CombinatorPayload::Other) => self.and_no_effects(),
                    Some(CombinatorPayload::SpoolTask(st)) => {
                        let mut this = self;
                        this.loading_gcode = true;
                        match st.content {
                            None => this.and_no_effects(),
                            Some(TaskContent::FilePath { path }) => {
                                let effects: Vec<Effect> = vec![
                                    Effect::LoadGCode {
                                        file_path: path,
                                        task_id: st.task_id,
                                        client_id: st.client_id,
                                        machine_override: st.machine_override,
                                    },
                                ];
                                proof {
                                    assert(effects@ =~= seq![effects@[0]]);
                                    lemma_numbered_sends_none(effects@);
                                }
                                Loop::new(State::Ready(this), effects)
                            },
                            Some(TaskContent::Inline { commands }) => {
                                let task = Task {
                                    id: st.task_id,
                                    client_id: st.client_id,
                                    gcode_lines: commands,
                                    next_line: 0,
                                    machine_override: st.machine_override,
                                    started: false,
                                };
                                this.consume(Event::GCodeLoaded(task), context)
                            },
                        }
                    },
                    Some(CombinatorPayload::PauseTask { task_id }) => {
                        let mut this = self;
                        this.loading_gcode = true;
                        let mut i: usize = 0;
                        let mut found: bool = false;
                        while i < this.tasks.len() && !found
                            invariant
                                i <= this.tasks@.len(),
                                found ==> i < this.tasks@.len() && this.tasks@[i as int].id
                                    == task_id,
                                forall|x: int| 0 <= x < i ==> this.tasks@[x].id != task_id,
                            decreases this.tasks@.len() - i, (if found {
                                0int
                            } else {
                                1int
                            }),
                        {
                            if this.tasks[i].id == task_id {
                                found = true;
                            } else {
                                i = i + 1;
                            }
                        }
                        proof {
                            if found {
                                lemma_task_index_skip(this.tasks@, task_id, 0, i as int);
                            } else {
                                lemma_task_index_skip(
                                    this.tasks@,
                                    task_id,
                                    0,
                                    this.tasks@.len() as int,
                                );
                            }
                        }
                        if !found {
                            return this.and_no_effects();
                        }
                        let ghost tasks0 = this.tasks@;
                        let task = this.tasks.remove(i);
                        context.push_pause_task(&task);
                        if !task.machine_override {
                            context.feedback.despooled_line_number = 0;
                        }
                        proof {
                            assert(this.tasks@ =~= tasks0.remove(i as int));
                            assert(wf_queue(this.tasks@)) by {
                                assert forall|x: int| 0 <= x < this.tasks@.len() - 1 implies (
                                #[trigger] this.tasks@[x]).machine_override by {
                                    if x < i {
                                        assert(this.tasks@[x] == tasks0[x]);
                                        assert(x < tasks0.len() - 1);
                                    } else {
                                        assert(this.tasks@[x] == tasks0[x + 1]);
                                        assert(x + 1 < tasks0.len() - 1);
                                    }
                                }
                            }
                            assert(wf_tasks(this.tasks@)) by {
                                assert forall|x: int| 0 <= x < this.tasks@.len() implies (
                                #[trigger] this.tasks@[x]).wf() by {
                                    if x < i {
                                        assert(this.tasks@[x] == tasks0[x]);
                                    } else {
                                        assert(this.tasks@[x] == tasks0[x + 1]);
                                    }
                                }
                            }
                        }
                        if context.reset_when_idle && this.tasks.len() == 0 {
                            let effects: Vec<Effect> = vec![Effect::ExitProcessAfterDelay];
                            proof {
                                assert(effects@ =~= seq![Effect::ExitProcessAfterDelay]);
                                lemma_numbered_sends_none(effects@);
                            }
                            return Loop::new(State::Ready(this), effects);
                        }
                        this.and_no_effects()
                    },
                }
            },
            Event::SerialPortDisconnected => {
                let r = disconnect();
                proof {
                    lemma_numbered_sends_none(r.effects@);
                }
                r
            },
            Event::GCodeLoaded(task) => {
                let mut this = self;
                let ghost task0 = task;
                let accepted = this.enqueue_task(task, context);
                if !accepted {
                    return this.and_no_effects();
                }
                let is_idle = match this.on_ok {
                    OnOK::NotAwaitingOk => true,
                    _ => false,
                };
                if is_idle {
                    let ghost s_q = this;
                    let mut effects: Vec<Effect> = Vec::new();
                    let result = this.despool_task(&mut effects, context);
                    match result {
                        Err(err) => {
                            let r = errored(err);
                            proof {
                                lemma_numbered_sends_one(Effect::ProtobufSend);
                                assert(numbered_sends(seq![Effect::ProtobufSend]) =~= Seq::<
                                    GCodeLine,
                                >::empty());
                            }
                            r
                        },
                        Ok(_) => {
                            proof {
                                lemma_prefix_numbered(Seq::<Effect>::empty(), effects@);
                                assert(numbered_sends(Seq::<Effect>::empty()) =~= Seq::<
                                    GCodeLine,
                                >::empty());
                                assert(numbered_sends(effects@) =~= numbered_sends(
                                    effects@.skip(0),
                                ));
                            }
                            Loop::new(State::Ready(this), effects)
                        },
                    }
                } else {
                    this.and_no_effects()
                }
            },
            Event::SerialRec { raw, response } => {
                context.push_gcode_rx(raw);
                match response {
                    Response::Unknown => self.and_no_effects(),
                    Response::Echo(_) => self.and_no_effects(),
                    Response::Debug(_) => self.and_no_effects(),
                    Response::Warning(_) => self.and_no_effects(),
                    Response::Error(e) => {
                        let r = errored(e);
                        proof {
                            lemma_numbered_sends_one(Effect::ProtobufSend);
                            assert(numbered_sends(seq![Effect::ProtobufSend]) =~= Seq::<
                                GCodeLine,
                            >::empty());
                        }
                        r
                    },
                    Response::Greeting => {
                        let message = String::from_str("Unexpected printer firmware restart.");
                        let r = errored(message);
                        proof {
                            lemma_numbered_sends_one(Effect::ProtobufSend);
                            assert(numbered_sends(seq![Effect::ProtobufSend]) =~= Seq::<
                                GCodeLine,
                            >::empty());
                        }
                        r
                    },
                    Response::Resend { line_number } => {
                        let r = self.receive_resend_request(line_number, context);
                        proof {
                            lemma_numbered_sends_one(Effect::ProtobufSend);
                            assert(numbered_sends(seq![Effect::ProtobufSend]) =~= Seq::<
                                GCodeLine,
                            >::empty());
                            assert(numbered_sends(Seq::<Effect>::empty()) =~= Seq::<
                                GCodeLine,
                            >::empty());
                        }
                        r
                    },
                    Response::Okay(fb_opt) => {
                        let mut this = self;
                        let mut effects: Vec<Effect> = match &fb_opt {
                            Some(fb) => this.receive_feedback(fb, context),
                            None => Vec::new(),
                        };
                        let ghost e_fb = effects@;
                        proof {
                            match fb_opt {
                                Some(SerialFeedback::ActualTemperatures(_)) => {
                                    assert(e_fb.len() == 2);
                                    assert(e_fb[1] == Effect::ProtobufSend);
                                },
                                Some(SerialFeedback::Positions(_)) => {
                                    assert(e_fb.len() == 0);
                                },
                                None => {
                                    assert(e_fb.len() == 0);
                                },
                            }
                            lemma_numbered_sends_none(e_fb);
                        }
                        let result = this.receive_ok(&mut effects, context);
                        match result {
                            Err(err) => {
                                let r = errored(err);
                                proof {
                                    lemma_numbered_sends_one(Effect::ProtobufSend);
                                    assert(numbered_sends(seq![Effect::ProtobufSend]) =~= Seq::<
                                        GCodeLine,
                                    >::empty());
                                }
                                r
                            },
                            Ok(_) => {
                                proof {
                                    lemma_prefix_numbered(e_fb, effects@);
                                    if s0.on_ok is Resend {
                                        lemma_sent_one_numbered(
                                            e_fb,
                                            effects@,
                                            last_sent_view(s0),
                                            Some((s0.next_serial_line_number - 1) as u32),
                                            true,
                                            tickle_timeout(last_sent_view(s0), context.controller),
                                        );
                                    }
                                    if numbered_sends(effects@).len() == 1 {
                                        assert(numbered_sends(effects@)[0] == numbered_sends(effects@).last());
                                    }
                                    if fb_opt is None {
                                        assert(e_fb =~= Seq::<Effect>::empty());
                                        assert(effects@.skip(0) =~= effects@);
                                    }
                                    if s0.on_ok is TransitionToReady && fb_opt is None {
                                        assert(e_fb.push(Effect::ProtobufSend) =~= seq![
                                            Effect::ProtobufSend,
                                        ]);
                                    }
                                }
                                Loop::new(State::Ready(this), effects)
                            },
                        }
                    },
                    Response::Feedback(fb) => {
                        let mut this = self;
                        let mut effects = this.receive_feedback(&fb, context);
                        effects.push(Effect::CancelDelay { key: DelayKey::TickleDelay });
                        proof {
                            match fb {
                                SerialFeedback::ActualTemperatures(_) => {
                                    assert(effects@ =~= seq![
                                        effects@[0],
                                        Effect::ProtobufSend,
                                        Effect::CancelDelay { key: DelayKey::TickleDelay },
                                    ]);
                                },
                                SerialFeedback::Positions(_) => {
                                    assert(effects@ =~= seq![
                                        Effect::CancelDelay { key: DelayKey::TickleDelay },
                                    ]);
                                },
                            }
                            lemma_numbered_sends_none(effects@);
                        }
                        Loop::new(State::Ready(this), effects)
                    },
                }
            },
            Event::PollFeedback => {
                let mut this = self;
                this.poll_for = Some(Polling::PollPosition);
                let is_idle = match this.on_ok {
                    OnOK::NotAwaitingOk => true,
                    _ => false,
                };
                if is_idle {
                    let mut effects: Vec<Effect> = Vec::new();
                    this.poll_feedback(&mut effects, context, Polling::PollPosition);
                    proof {
                        lemma_sent_one_numbered(
                            Seq::<Effect>::empty(),
                            effects@,
                            poll_gcode(Polling::PollPosition),
                            Some(s0.next_serial_line_number),
                            true,
                            tickle_timeout(poll_gcode(Polling::PollPosition), context.controller),
                        );
                        assert(numbered_sends(Seq::<Effect>::empty()) =~= Seq::<
                            GCodeLine,
                        >::empty());
                    }
                    Loop::new(State::Ready(this), effects)
                } else {
                    this.and_no_effects()
                }
            },
            Event::TickleSerialPort => {
                let r = self.tickle_serial_port(context);
                proof {
                    if s0.tickles_attempted < context.controller.response_timeout_tickle_attempts {
                        lemma_sent_one_numbered(
                            Seq::<Effect>::empty(),
                            r.effects@,
                            tickle_gcode(),
                            None::<u32>,
                            context.controller.checksum_tickles,
                            tickle_timeout(tickle_gcode(), context.controller),
                        );
                        assert(numbered_sends(Seq::<Effect>::empty()) =~= Seq::<
                            GCodeLine,
                        >::empty());
                    } else {
                        lemma_numbered_sends_one(Effect::ProtobufSend);
                        assert(numbered_sends(seq![Effect::ProtobufSend]) =~= Seq::<
                            GCodeLine,
                        >::empty());
                    }
                }
                r
            },
            Event::GreetingToReadyDelayDone => {
                let message = String::from_str("invalid event for the ready state");
                let r = errored(message);
                proof {
                    lemma_numbered_sends_one(Effect::ProtobufSend);
                    assert(numbered_sends(seq![Effect::ProtobufSend]) =~= Seq::<
                        GCodeLine,
                    >::empty());
                }
                r
            },
        }
    }
}

} // verus!

