//! The top-level connection states and the common transition helpers.

use vstd::prelude::*;
use crate::config::ControllerConfig;
use crate::connecting::ConnectingState;
use crate::context::Context;
use crate::gcode::GCodeLine;
use crate::message::{DelayKey, DelayedEvent, Effect};
use crate::ready::ReadyState;
use crate::text::token_in_codes;
use crate::text::token_in_codes_exec;

verus! {

/// The connection lifecycle of one driver instance.
#[derive(Clone, Debug)]
pub enum State {
    Disconnected,
    Connecting(ConnectingState),
    Ready(ReadyState),
    Errored { message: String },
}

/// The result of one transition: the next state and the effects the runner
/// must perform, in order.
#[derive(Clone, Debug)]
pub struct Loop {
    pub next_state: State,
    pub effects: Vec<Effect>,
}

impl Loop {
    /// Packs a transition result.
    pub fn new(next_state: State, effects: Vec<Effect>) -> (r: Loop)
        ensures
            r.next_state == next_state,
            r.effects == effects,
    {
        Loop { next_state, effects }
    }
}

/// The response timeout armed for `gcode`: the long one when its command
/// token is configured as long running, the fast one otherwise.
pub open spec fn tickle_timeout(gcode: Seq<char>, c: ControllerConfig) -> u64 {
    if token_in_codes(gcode, c.long_running_codes@) {
        c.long_running_code_timeout
    } else {
        c.fast_code_timeout
    }
}

/// The tickle delay armed alongside every send.
pub open spec fn tickle_delay(ms: u64) -> Effect {
    Effect::Delay { key: DelayKey::TickleDelay, duration_ms: ms, event: DelayedEvent::TickleSerialPort }
}

/// Queues `line` for the wire and (re)arms the tickle delay with the
/// timeout that `line`'s command token calls for.
pub fn send_serial(effects: &mut Vec<Effect>, line: GCodeLine, context: &Context)
    ensures
        final(effects)@ == old(effects)@.push(Effect::SendSerial(line)).push(
            tickle_delay(tickle_timeout(line.gcode@, context.controller)),
        ),
{
    let long = token_in_codes_exec(line.gcode.as_str(), &context.controller.long_running_codes);
    let timeout_ms = if long {
        context.controller.long_running_code_timeout
    } else {
        context.controller.fast_code_timeout
    };
    effects.push(Effect::SendSerial(line));
    effects.push(
        Effect::Delay {
            key: DelayKey::TickleDelay,
            duration_ms: timeout_ms,
            event: DelayedEvent::TickleSerialPort,
        },
    );
}

/// Fails the machine: the next state is `Errored` with `message`, and the
/// clients are notified of the change.
pub fn errored(message: String) -> (r: Loop)
    ensures
        r.next_state == (State::Errored { message }),
        r.effects@ == seq![Effect::ProtobufSend],
{
    let effects: Vec<Effect> = vec![Effect::ProtobufSend];
    proof {
        assert(effects@ =~= seq![Effect::ProtobufSend]);
    }
    Loop { next_state: State::Errored { message }, effects }
}

/// Handles the serial port dropping: pending delays are cancelled, the
/// clients are notified, and a reconnect restarts the connecting flow.
pub fn disconnect() -> (r: Loop)
    ensures
        r.next_state is Disconnected,
        r.effects@ == seq![
            Effect::CancelDelay { key: DelayKey::TickleDelay },
            Effect::CancelDelay { key: DelayKey::PollingDelay },
            Effect::ProtobufSend,
        ],
{
    let effects: Vec<Effect> = vec![
        Effect::CancelDelay { key: DelayKey::TickleDelay },
        Effect::CancelDelay { key: DelayKey::PollingDelay },
        Effect::ProtobufSend,
    ];
    proof {
        assert(effects@ =~= seq![
            Effect::CancelDelay { key: DelayKey::TickleDelay },
            Effect::CancelDelay { key: DelayKey::PollingDelay },
            Effect::ProtobufSend,
        ]);
    }
    Loop { next_state: State::Disconnected, effects }
}

} // verus!
