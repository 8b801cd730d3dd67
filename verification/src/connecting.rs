//! The connecting flow: optionally await the firmware greeting, reset the
//! line-number counter, and probe the firmware before declaring `Ready`.

use vstd::prelude::*;
use crate::context::Context;
use crate::gcode::GCodeLine;
use crate::message::{CombinatorPayload, DelayKey, DelayedEvent, Effect, Event, Response, TaskContent};
use crate::ready::{OnOK, ReadyState, has_print_task, sent_one};
use crate::task::Task;
use crate::state::{Loop, State, disconnect, errored, send_serial, tickle_timeout};

verus! {

/// The `Connecting` substate: the `Ready` state being prepared, and whether
/// the firmware greeting is still awaited before the handshake starts.
#[derive(Clone, Debug)]
pub struct ConnectingState {
    pub awaiting_greeting: bool,
    pub ready: ReadyState,
}

impl ConnectingState {
    pub open spec fn wf(self) -> bool {
        &&& self.ready.wf()
        &&& (self.awaiting_greeting ==> self.ready.next_serial_line_number == 1)
    }

    /// Enters the connecting flow.  Unless a greeting must be awaited first,
    /// the handshake begins at once: `M110 N0` resets the firmware's line
    /// counter and the greeting-to-ready delay is scheduled.
    pub fn connect(context: &Context) -> (r: Loop)
        ensures
            context.controller.await_greeting_from_firmware ==> (r.next_state
                matches State::Connecting(c) && c.awaiting_greeting && c.ready.wf()
                && c.ready.next_serial_line_number == 1) && r.effects@ == Seq::<Effect>::empty(),
            !context.controller.await_greeting_from_firmware ==> (r.next_state
                matches State::Connecting(c) && !c.awaiting_greeting && c.ready.wf()
                && c.ready.next_serial_line_number == 2) && Self::begin_effects(
                r.effects@,
                context.controller.delay_from_greeting_to_ready,
                *context,
            ),
    {
        let ready = ReadyState::default();
        if context.controller.await_greeting_from_firmware {
            Loop::new(
                State::Connecting(ConnectingState { awaiting_greeting: true, ready }),
                Vec::new(),
            )
        } else {
            Self::begin(ready, context)
        }
    }

    /// `M110 N0` was sent and the greeting-to-ready delay scheduled.
    pub open spec fn begin_effects(effects: Seq<Effect>, delay_ms: u64, context: Context) -> bool {
        &&& effects.len() == 3
        &&& (effects[0] matches Effect::SendSerial(l) && l.gcode@ == "M110 N0"@ && l.line_number
            == Some(1u32) && l.checksum)
        &&& effects[1] == tickle_delay_of(context)
        &&& effects[2] == (Effect::Delay {
            key: DelayKey::GreetingDelay,
            duration_ms: delay_ms,
            event: DelayedEvent::GreetingToReadyDelayDone,
        })
    }

    /// The handshake: send the line-number reset and arm the ready delay.
    fn begin(ready: ReadyState, context: &Context) -> (r: Loop)
        requires
            ready.wf(),
            ready.next_serial_line_number == 1,
        ensures
            (r.next_state matches State::Connecting(c) && !c.awaiting_greeting && c.ready.wf()
                && c.ready.next_serial_line_number == 2 && c.ready.on_ok == ready.on_ok
                && c.ready.tasks == ready.tasks && c.ready.poll_for == ready.poll_for),
            Self::begin_effects(
                r.effects@,
                context.controller.delay_from_greeting_to_ready,
                *context,
            ),
    {
        let mut ready = ready;
        let mut effects: Vec<Effect> = Vec::new();
        let gcode = String::from_str("M110 N0");
        let line = GCodeLine { gcode, line_number: Some(1), checksum: true };
        send_serial(&mut effects, line, context);
        ready.last_gcode_sent = Some(String::from_str("M110 N0"));
        ready.next_serial_line_number = 2;
        effects.push(
            Effect::Delay {
                key: DelayKey::GreetingDelay,
                duration_ms: context.controller.delay_from_greeting_to_ready,
                event: DelayedEvent::GreetingToReadyDelayDone,
            },
        );
        Loop::new(State::Connecting(ConnectingState { awaiting_greeting: false, ready }), effects)
    }
}

/// The tickle delay that `M110 N0` arms.
pub open spec fn tickle_delay_of(context: Context) -> Effect {
    crate::state::tickle_delay(tickle_timeout("M110 N0"@, context.controller))
}

/// The probe that closes the handshake: `M105`, committed under the next
/// line number; its `ok` makes the `Ready` state publish itself.
pub open spec fn probe_effects(effects: Seq<Effect>, nsln: u32, context: Context) -> bool {
    crate::ready::sent_one(
        Seq::empty(),
        effects,
        "M105"@,
        Some(nsln),
        true,
        tickle_timeout("M105"@, context.controller),
    )
}

impl ConnectingState {
    /// Consumes one event while connecting.  The greeting starts the
    /// handshake when one is awaited; the greeting-to-ready delay firing
    /// sends the probe and hands over to `Ready` (with polling idle until
    /// the first polling tick); tasks may already be queued; everything
    /// else is ignored.
    pub fn consume(self, event: Event, context: &mut Context) -> (r: Loop)
        requires
            self.wf(),
            self.ready.next_serial_line_number < u32::MAX,
            crate::ready::event_wf(event),
        ensures
            (event matches Event::SerialRec { raw, response } ==> final(context).gcode_rx@ == old(
                context,
            ).gcode_rx@.push(raw)),
            (event matches Event::SerialRec { raw: _, response } ==> {
                &&& (response is Greeting && self.awaiting_greeting ==> (r.next_state
                    matches State::Connecting(c) && !c.awaiting_greeting && c.wf()
                    && c.ready.next_serial_line_number == 2 && c.ready.tasks == self.ready.tasks)
                    && Self::begin_effects(
                    r.effects@,
                    old(context).controller.delay_from_greeting_to_ready,
                    *old(context),
                ))
                &&& (response is Greeting && !self.awaiting_greeting ==> r.next_state
                    == State::Connecting(self) && r.effects@ == Seq::<Effect>::empty())
                &&& (response matches Response::Error(e) ==> r.next_state == (State::Errored {
                    message: e,
                }))
                &&& (!(response is Greeting) && !(response is Error) ==> r.next_state
                    == State::Connecting(self) && r.effects@ == Seq::<Effect>::empty())
            }),
            (event is GreetingToReadyDelayDone ==> {
                &&& (self.awaiting_greeting ==> r.next_state == State::Connecting(self)
                    && r.effects@ == Seq::<Effect>::empty())
                &&& (!self.awaiting_greeting ==> (r.next_state matches State::Ready(s2) && s2.wf()
                    && s2.on_ok == OnOK::TransitionToReady && s2.poll_for is None
                    && s2.next_serial_line_number == self.ready.next_serial_line_number + 1
                    && s2.tasks == self.ready.tasks && (s2.last_gcode_sent matches Some(g) && g@
                    == "M105"@)) && probe_effects(
                    r.effects@,
                    self.ready.next_serial_line_number,
                    *old(context),
                ))
            }),
            (event is SerialPortDisconnected ==> r.next_state is Disconnected),
            (event matches Event::GCodeLoaded(task) ==> (r.next_state matches State::Connecting(c)
                && c.awaiting_greeting == self.awaiting_greeting && c.wf()) && r.effects@ == Seq::<
                Effect,
            >::empty()),
            ((event is PollFeedback || event is TickleSerialPort) ==> r.next_state
                == State::Connecting(self) && r.effects@ == Seq::<Effect>::empty()),
            (event matches Event::ProtobufRec(m) ==> (r.next_state matches State::Connecting(c)
                && c.wf() && c.awaiting_greeting == self.awaiting_greeting
                && c.ready.next_serial_line_number == self.ready.next_serial_line_number && (
            m.payload matches Some(CombinatorPayload::SpoolTask(st)) ==> (st.content matches Some(
                TaskContent::Inline { commands },
            ) ==> (!(has_print_task(self.ready.tasks@) && !st.machine_override) ==> c.ready.tasks@
                == (if has_print_task(self.ready.tasks@) {
                self.ready.tasks@.insert(
                    self.ready.tasks@.len() - 1,
                    Task {
                        id: st.task_id,
                        client_id: st.client_id,
                        gcode_lines: commands,
                        next_line: 0,
                        machine_override: st.machine_override,
                        started: false,
                    },
                )
            } else {
                self.ready.tasks@.push(
                    Task {
                        id: st.task_id,
                        client_id: st.client_id,
                        gcode_lines: commands,
                        next_line: 0,
                        machine_override: st.machine_override,
                        started: false,
                    },
                )
            })))))),
    {
        match event {
            Event::SerialRec { raw, response } => {
                context.push_gcode_rx(raw);
                match response {
                    Response::Greeting => {
                        if self.awaiting_greeting {
                            Self::begin(self.ready, context)
                        } else {
                            Loop::new(State::Connecting(self), Vec::new())
                        }
                    },
                    Response::Error(e) => errored(e),
                    _ => Loop::new(State::Connecting(self), Vec::new()),
                }
            },
            Event::GreetingToReadyDelayDone => {
                if self.awaiting_greeting {
                    Loop::new(State::Connecting(self), Vec::new())
                } else {
                    let mut ready = self.ready;
                    let mut effects: Vec<Effect> = Vec::new();
                    let ln = ready.next_serial_line_number;
                    let line = GCodeLine {
                        gcode: String::from_str("M105"),
                        line_number: Some(ln),
                        checksum: true,
                    };
                    send_serial(&mut effects, line, context);
                    ready.last_gcode_sent = Some(String::from_str("M105"));
                    ready.on_ok = OnOK::TransitionToReady;
                    ready.poll_for = None;
                    ready.next_serial_line_number = ln + 1;
                    proof {
                        assert(effects@ == crate::ready::push_send(
                            Seq::<Effect>::empty(),
                            line,
                            tickle_timeout("M105"@, context.controller),
                        ));
                    }
                    Loop::new(State::Ready(ready), effects)
                }
            },
            Event::SerialPortDisconnected => disconnect(),
            Event::GCodeLoaded(task) => {
                let mut this = self;
                let _accepted = this.ready.enqueue_task(task, context);
                Loop::new(State::Connecting(this), Vec::new())
            },
            Event::ProtobufRec(msg) => {
                let mut this = self;
                match msg.payload {
                    Some(CombinatorPayload::SpoolTask(st)) => {
                        this.ready.loading_gcode = true;
                        match st.content {
                            Some(TaskContent::Inline { commands }) => {
                                let task = Task {
                                    id: st.task_id,
                                    client_id: st.client_id,
                                    gcode_lines: commands,
                                    next_line: 0,
                                    machine_override: st.machine_override,
                                    started: false,
                                };
                                let _accepted = this.ready.enqueue_task(task, context);
                                Loop::new(State::Connecting(this), Vec::new())
                            },
                            Some(TaskContent::FilePath { path }) => {
                                let effects: Vec<Effect> = vec![
                                    Effect::LoadGCode {
                                        file_path: path,
                                        task_id: st.task_id,
                                        client_id: st.client_id,
                                        machine_override: st.machine_override,
                                    },
                                ];
                                Loop::new(State::Connecting(this), effects)
                            },
                            None => Loop::new(State::Connecting(this), Vec::new()),
                        }
                    },
                    _ => Loop::new(State::Connecting(this), Vec::new()),
                }
            },
            _ => Loop::new(State::Connecting(self), Vec::new()),
        }
    }
}

} // verus!
