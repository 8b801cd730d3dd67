//! Messages crossing the driver's boundaries: control messages from clients,
//! parsed serial responses from the firmware, and the events and effects of
//! the state machine.

use vstd::prelude::*;
use crate::gcode::GCodeLine;
use crate::task::Task;

verus! {

/// The content of a spool request: either the GCode lines inline, or a path
/// for the runner to load them from.
#[derive(Clone, Debug)]
pub enum TaskContent {
    Inline { commands: Vec<String> },
    FilePath { path: String },
}

/// A request to spool a task.
#[derive(Clone, Debug)]
pub struct SpoolTask {
    pub task_id: u32,
    pub client_id: u32,
    pub content: Option<TaskContent>,
    pub machine_override: bool,
}

/// The payload of a control message from a client.
#[derive(Clone, Debug)]
pub enum CombinatorPayload {
    SpoolTask(SpoolTask),
    PauseTask { task_id: u32 },
    /// A payload kind this driver does not act on.
    Other,
}

/// A control message from a client; the payload may be missing.
#[derive(Clone, Debug)]
pub struct CombinatorMessage {
    pub payload: Option<CombinatorPayload>,
}

/// Position feedback carried by a serial response.  Positions are
/// fixed-point: thousandths of the firmware's unit.
#[derive(Clone, Debug)]
pub struct PositionsFeedback {
    /// `(axis address, actual position)`, addresses lower case.
    pub actual_positions: Vec<(String, i64)>,
    /// `(axis address, target position)`, when the report carries targets.
    pub target_positions: Option<Vec<(String, i64)>>,
}

/// Feedback carried by a serial response.  Temperatures are fixed-point:
/// thousandths of a degree.
#[derive(Clone, Debug)]
pub enum SerialFeedback {
    /// `(heater address, actual temperature)`, addresses lower case.
    ActualTemperatures(Vec<(String, i64)>),
    Positions(PositionsFeedback),
}

/// One parsed line from the firmware.
#[derive(Clone, Debug)]
pub enum Response {
    Unknown,
    Echo(String),
    Debug(String),
    Warning(String),
    Error(String),
    Greeting,
    Okay(Option<SerialFeedback>),
    Feedback(SerialFeedback),
    Resend { line_number: u32 },
}

/// The keys under which the driver schedules cancellable delays.
#[derive(Clone, Copy, Debug, PartialEq, Eq, Structural)]
pub enum DelayKey {
    PollingDelay,
    TickleDelay,
    ExitDelay,
    GreetingDelay,
}

/// The event a delay posts back into the state machine when it fires.
#[derive(Clone, Copy, Debug, PartialEq, Eq, Structural)]
pub enum DelayedEvent {
    PollFeedback,
    TickleSerialPort,
    GreetingToReadyDelayDone,
}

/// One input to the state machine.
#[derive(Clone, Debug)]
pub enum Event {
    ProtobufRec(CombinatorMessage),
    /// A raw serial line and its parsed form.
    SerialRec { raw: String, response: Response },
    /// A task whose lines are loaded and ready to enter the queue.
    GCodeLoaded(Task),
    SerialPortDisconnected,
    PollFeedback,
    TickleSerialPort,
    GreetingToReadyDelayDone,
}

/// One output of the state machine, performed by the outer runner.
#[derive(Clone, Debug)]
pub enum Effect {
    SendSerial(GCodeLine),
    /// Schedule `event` to fire after `duration_ms`, replacing any delay
    /// already scheduled under `key`.
    Delay { key: DelayKey, duration_ms: u64, event: DelayedEvent },
    /// Cancel the delay under `key`, if one is scheduled.
    CancelDelay { key: DelayKey },
    /// Load GCode lines from a file and post `Event::GCodeLoaded` back.
    LoadGCode { file_path: String, task_id: u32, client_id: u32, machine_override: bool },
    /// Publish a machine feedback snapshot to the connected clients.
    ProtobufSend,
    ExitProcess,
    ExitProcessAfterDelay,
}

/// The lines `effects` sends under a protocol line number (and checksum):
/// the lines that count as committed to the wire.
pub open spec fn numbered_sends(effects: Seq<Effect>) -> Seq<GCodeLine>
    decreases effects.len(),
{
    if effects.len() == 0 {
        Seq::empty()
    } else {
        numbered_sends(effects.drop_last()) + (match effects.last() {
            Effect::SendSerial(line) => if line.line_number is Some {
                seq![line]
            } else {
                Seq::empty()
            },
            _ => Seq::empty(),
        })
    }
}

/// Distributing `numbered_sends` over concatenation.
pub proof fn lemma_numbered_sends_add(a: Seq<Effect>, b: Seq<Effect>)
    ensures
        numbered_sends(a + b) == numbered_sends(a) + numbered_sends(b),
    decreases b.len(),
{
    if b.len() == 0 {
        assert(a + b =~= a);
        assert(numbered_sends(a) + numbered_sends(b) =~= numbered_sends(a));
    } else {
        lemma_numbered_sends_add(a, b.drop_last());
        assert((a + b).drop_last() =~= a + b.drop_last());
        assert((a + b).last() == b.last());
        assert(numbered_sends(a) + numbered_sends(b) =~= numbered_sends(a + b.drop_last())
            + (match b.last() {
            Effect::SendSerial(line) => if line.line_number is Some {
                seq![line]
            } else {
                Seq::empty()
            },
            _ => Seq::empty(),
        }));
    }
}

/// A run of effects with no numbered send records nothing.
pub proof fn lemma_numbered_sends_none(s: Seq<Effect>)
    requires
        forall|i: int|
            0 <= i < s.len() ==> match #[trigger] s[i] {
                Effect::SendSerial(l) => l.line_number is None,
                _ => true,
            },
    ensures
        numbered_sends(s) == Seq::<GCodeLine>::empty(),
    decreases s.len(),
{
    if s.len() > 0 {
        lemma_numbered_sends_none(s.drop_last());
        assert(numbered_sends(s) =~= Seq::<GCodeLine>::empty());
    } else {
        assert(numbered_sends(s) =~= Seq::<GCodeLine>::empty());
    }
}

/// `numbered_sends` of a single non-send effect is empty; of a single send
/// it is that line.
pub proof fn lemma_numbered_sends_one(e: Effect)
    ensures
        numbered_sends(seq![e]) == (match e {
            Effect::SendSerial(line) => if line.line_number is Some {
                seq![line]
            } else {
                Seq::<GCodeLine>::empty()
            },
            _ => Seq::<GCodeLine>::empty(),
        }),
{
    assert(seq![e].drop_last() =~= Seq::<Effect>::empty());
    assert(numbered_sends(seq![e].drop_last()) =~= Seq::<GCodeLine>::empty());
    match e {
        Effect::SendSerial(line) => {
            if line.line_number is Some {
                assert(numbered_sends(seq![e]) =~= seq![line]);
            } else {
                assert(numbered_sends(seq![e]) =~= Seq::<GCodeLine>::empty());
            }
        },
        _ => {
            assert(numbered_sends(seq![e]) =~= Seq::<GCodeLine>::empty());
        },
    }
}

} // verus!
