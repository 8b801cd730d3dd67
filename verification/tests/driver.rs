use marlin_driver::config::{BaudRate, ControllerConfig};
use marlin_driver::connecting::ConnectingState;
use marlin_driver::context::{Axis, Context, FeedbackState, TaskNotice};
use marlin_driver::message::{
    CombinatorMessage, CombinatorPayload, DelayKey, DelayedEvent, Effect, Event, PositionsFeedback,
    Response, SerialFeedback, SpoolTask, TaskContent,
};
use marlin_driver::ready::{OnOK, Polling, ReadyState};
use marlin_driver::state::State;
use marlin_driver::task::Task;

fn config() -> ControllerConfig {
    ControllerConfig {
        name: String::from("test printer"),
        serial_port_id: String::from("/dev/ttyACM0"),
        automatic_baud_rate_detection: false,
        baud_rate: BaudRate::Baud115K,
        simulate: false,
        await_greeting_from_firmware: false,
        gcode_history_buffer_size: 400,
        delay_from_greeting_to_ready: 300,
        polling_interval: 1000,
        fast_code_timeout: 5000,
        long_running_code_timeout: 30000,
        serial_connection_timeout: 3000,
        response_timeout_tickle_attempts: 2,
        long_running_codes: vec![String::from("G28")],
        blocking_codes: vec![],
        checksum_tickles: false,
    }
}

fn context() -> Context {
    Context {
        controller: config(),
        reset_when_idle: false,
        feedback: FeedbackState {
            despooled_line_number: 0,
            axes: vec![Axis {
                address: String::from("X"),
                target_position: 0,
                actual_position: 0,
                homed: false,
            }],
            heaters: vec![],
        },
        notices: vec![],
        gcode_rx: vec![],
    }
}

fn sent_gcodes(effects: &[Effect]) -> Vec<(String, Option<u32>, bool)> {
    effects
        .iter()
        .filter_map(|e| match e {
            Effect::SendSerial(l) => Some((l.gcode.clone(), l.line_number, l.checksum)),
            _ => None,
        })
        .collect()
}

fn ok_event() -> Event {
    Event::SerialRec {
        raw: String::from("ok"),
        response: Response::Okay(None),
    }
}

fn ready_of(state: State) -> ReadyState {
    match state {
        State::Ready(r) => r,
        other => panic!("expected the ready state, got {:?}", other),
    }
}

#[test]
fn happy_path_two_line_print() {
    let mut ctx = context();

    // Connect: the line-number reset goes out as N1, then the ready delay.
    let l1 = ConnectingState::connect(&ctx);
    let sends = sent_gcodes(&l1.effects);
    assert_eq!(sends, vec![(String::from("M110 N0"), Some(1), true)]);
    let connecting = match l1.next_state {
        State::Connecting(c) => c,
        other => panic!("expected connecting, got {:?}", other),
    };

    // The greeting-to-ready delay fires: the probe goes out as N2.
    let l2 = connecting.consume(Event::GreetingToReadyDelayDone, &mut ctx);
    assert_eq!(sent_gcodes(&l2.effects), vec![(String::from("M105"), Some(2), true)]);
    let ready = ready_of(l2.next_state);
    assert_eq!(ready.on_ok, OnOK::TransitionToReady);
    assert_eq!(ready.next_serial_line_number, 3);

    // The probe's ok publishes Ready; the queue is empty, so the driver idles.
    let l3 = ready.consume(ok_event(), &mut ctx);
    let ready = ready_of(l3.next_state);
    assert_eq!(ready.on_ok, OnOK::NotAwaitingOk);
    assert!(sent_gcodes(&l3.effects).is_empty());

    // Spooling a two-line task starts it and commits the first line as N3.
    let spool = Event::ProtobufRec(CombinatorMessage {
        payload: Some(CombinatorPayload::SpoolTask(SpoolTask {
            task_id: 1,
            client_id: 7,
            content: Some(TaskContent::Inline {
                commands: vec![String::from("G28"), String::from("G1 X10")],
            }),
            machine_override: false,
        })),
    });
    let l4 = ready.consume(spool, &mut ctx);
    assert_eq!(sent_gcodes(&l4.effects), vec![(String::from("G28"), Some(3), true)]);
    assert!(matches!(ctx.notices.last(), Some(TaskNotice::Started { task_id: 1 })));
    assert_eq!(ctx.feedback.despooled_line_number, 1);
    let ready = ready_of(l4.next_state);
    assert_eq!(ready.next_serial_line_number, 4);

    // G28's ok commits the second line as N4.
    let l5 = ready.consume(ok_event(), &mut ctx);
    assert_eq!(sent_gcodes(&l5.effects), vec![(String::from("G1 X10"), Some(4), true)]);
    assert_eq!(ctx.feedback.despooled_line_number, 2);
    let ready = ready_of(l5.next_state);

    // The final ok finishes the task and the driver idles again.
    let l6 = ready.consume(ok_event(), &mut ctx);
    assert!(sent_gcodes(&l6.effects).is_empty());
    assert!(matches!(ctx.notices.last(), Some(TaskNotice::Finished { task_id: 1 })));
    assert_eq!(ctx.feedback.despooled_line_number, 0);
    let ready = ready_of(l6.next_state);
    assert_eq!(ready.on_ok, OnOK::NotAwaitingOk);
    assert!(ready.tasks.is_empty());
}

#[test]
fn long_running_code_gets_long_timeout() {
    let mut ctx = context();
    let mut ready = ReadyState::default();
    ready.on_ok = OnOK::NotAwaitingOk;
    ready.poll_for = None;
    let task = Task::new(1, 7, vec![String::from("G28"), String::from("G1 X5")], false);
    let l = ready.consume(Event::GCodeLoaded(task), &mut ctx);
    let timeouts: Vec<(DelayKey, u64)> = l
        .effects
        .iter()
        .filter_map(|e| match e {
            Effect::Delay { key, duration_ms, event: DelayedEvent::TickleSerialPort } => {
                Some((*key, *duration_ms))
            }
            _ => None,
        })
        .collect();
    // G28 is configured as long running.
    assert_eq!(timeouts, vec![(DelayKey::TickleDelay, 30000)]);
}

#[test]
fn polling_rotation_interleaves_with_the_print() {
    let mut ctx = context();
    let mut ready = ReadyState::default();
    ready.on_ok = OnOK::Despool;
    ready.poll_for = None;
    ready.next_serial_line_number = 4;
    ready.last_gcode_sent = Some(String::from("G28"));
    ready.tasks = vec![Task {
        id: 1,
        client_id: 7,
        gcode_lines: vec![String::from("G28"), String::from("G1 X10")],
        next_line: 1,
        machine_override: false,
        started: true,
    }];

    // A polling tick arrives while G28 is still unacknowledged.
    let l1 = ready.consume(Event::PollFeedback, &mut ctx);
    assert!(sent_gcodes(&l1.effects).is_empty());
    let ready = ready_of(l1.next_state);
    assert_eq!(ready.poll_for, Some(Polling::PollPosition));

    // G28's ok: the position poll goes out first.
    let l2 = ready.consume(ok_event(), &mut ctx);
    assert_eq!(sent_gcodes(&l2.effects), vec![(String::from("M114"), Some(4), true)]);
    let ready = ready_of(l2.next_state);
    assert_eq!(ready.poll_for, Some(Polling::PollTemperature));

    // M114's ok: the temperature poll follows.
    let l3 = ready.consume(ok_event(), &mut ctx);
    assert_eq!(sent_gcodes(&l3.effects), vec![(String::from("M105"), Some(5), true)]);
    let ready = ready_of(l3.next_state);
    assert_eq!(ready.poll_for, None);

    // M105's ok: the rotation is spent, the task line goes out.
    let l4 = ready.consume(ok_event(), &mut ctx);
    assert_eq!(sent_gcodes(&l4.effects), vec![(String::from("G1 X10"), Some(6), true)]);
}

#[test]
fn resend_reuses_the_previous_line_number() {
    let mut ctx = context();
    let mut ready = ReadyState::default();
    ready.on_ok = OnOK::Despool;
    ready.poll_for = None;
    ready.next_serial_line_number = 6;
    ready.last_gcode_sent = Some(String::from("G1 X10"));

    // `Resend: 5` matches the line last sent (N5): a resend is owed.
    let l1 = ready.consume(
        Event::SerialRec {
            raw: String::from("Resend: 5"),
            response: Response::Resend { line_number: 5 },
        },
        &mut ctx,
    );
    assert!(sent_gcodes(&l1.effects).is_empty());
    let ready = ready_of(l1.next_state);
    assert_eq!(ready.on_ok, OnOK::Resend);

    // The next ok re-emits N5 (not N6) and swallows the ok that follows.
    let l2 = ready.consume(ok_event(), &mut ctx);
    assert_eq!(sent_gcodes(&l2.effects), vec![(String::from("G1 X10"), Some(5), true)]);
    let ready = ready_of(l2.next_state);
    assert_eq!(ready.on_ok, OnOK::IgnoreOK);
    assert_eq!(ready.next_serial_line_number, 6);

    // The swallowed ok advances the cycle to despool.
    let l3 = ready.consume(ok_event(), &mut ctx);
    assert!(sent_gcodes(&l3.effects).is_empty());
    let ready = ready_of(l3.next_state);
    assert_eq!(ready.on_ok, OnOK::Despool);
}

#[test]
fn wrong_resend_number_is_fatal() {
    let mut ctx = context();
    let mut ready = ReadyState::default();
    ready.on_ok = OnOK::Despool;
    ready.next_serial_line_number = 6;
    ready.last_gcode_sent = Some(String::from("G1 X10"));

    let l = ready.consume(
        Event::SerialRec {
            raw: String::from("Resend: 4"),
            response: Response::Resend { line_number: 4 },
        },
        &mut ctx,
    );
    match l.next_state {
        State::Errored { message } => {
            assert_eq!(message, "resend line number 4 does not match sent line number 5");
        }
        other => panic!("expected an errored machine, got {:?}", other),
    }
}

#[test]
fn tickle_exhaustion_times_out() {
    let mut ctx = context();
    let mut ready = ReadyState::default();
    ready.on_ok = OnOK::Despool;
    ready.last_gcode_sent = Some(String::from("G28"));
    ready.next_serial_line_number = 4;

    // First tickle: a bare M105, no line number, no checksum.
    let l1 = ready.consume(Event::TickleSerialPort, &mut ctx);
    assert_eq!(sent_gcodes(&l1.effects), vec![(String::from("M105"), None, false)]);
    let ready = ready_of(l1.next_state);
    assert_eq!(ready.tickles_attempted, 1);

    // Second tickle.
    let l2 = ready.consume(Event::TickleSerialPort, &mut ctx);
    assert_eq!(sent_gcodes(&l2.effects), vec![(String::from("M105"), None, false)]);
    let ready = ready_of(l2.next_state);
    assert_eq!(ready.tickles_attempted, 2);

    // The budget of two attempts is exhausted: the machine fails.
    let l3 = ready.consume(Event::TickleSerialPort, &mut ctx);
    match l3.next_state {
        State::Errored { message } => {
            assert_eq!(message, "Serial port communication timed out.");
        }
        other => panic!("expected an errored machine, got {:?}", other),
    }
}

#[test]
fn override_interleaving_keeps_the_print_last() {
    let mut ctx = context();
    let mut ready = ReadyState::default();
    ready.on_ok = OnOK::Despool;
    ready.poll_for = None;
    ready.next_serial_line_number = 10;
    ready.last_gcode_sent = Some(String::from("G1 X1"));
    ready.tasks = vec![Task {
        id: 1,
        client_id: 7,
        gcode_lines: vec![String::from("G1 X1"), String::from("G1 X2")],
        next_line: 1,
        machine_override: false,
        started: true,
    }];
    ctx.feedback.despooled_line_number = 1;

    // An override jog arrives mid-print: it is queued before the print.
    let jog = Task::new(2, 7, vec![String::from("G91")], true);
    let l1 = ready.consume(Event::GCodeLoaded(jog), &mut ctx);
    let ready = ready_of(l1.next_state);
    assert_eq!(ready.tasks.len(), 2);
    assert_eq!(ready.tasks[0].id, 2);
    assert_eq!(ready.tasks[1].id, 1);

    // The next ok pulls from the jog; the print's counter does not move.
    let l2 = ready.consume(ok_event(), &mut ctx);
    assert_eq!(sent_gcodes(&l2.effects), vec![(String::from("G91"), Some(10), true)]);
    assert_eq!(ctx.feedback.despooled_line_number, 1);
    let ready = ready_of(l2.next_state);

    // The jog finishes; the print resumes at its own next line.
    let l3 = ready.consume(ok_event(), &mut ctx);
    assert_eq!(sent_gcodes(&l3.effects), vec![(String::from("G1 X2"), Some(11), true)]);
    assert_eq!(ctx.feedback.despooled_line_number, 2);
    let ready = ready_of(l3.next_state);
    assert_eq!(ready.tasks.len(), 1);
    assert_eq!(ready.tasks[0].id, 1);
}

#[test]
fn second_print_is_rejected() {
    let mut ctx = context();
    let mut ready = ReadyState::default();
    ready.on_ok = OnOK::Despool;
    ready.tasks = vec![Task::new(1, 7, vec![String::from("G1 X1")], false)];

    let second = Task::new(2, 7, vec![String::from("G1 X9")], false);
    let l = ready.consume(Event::GCodeLoaded(second), &mut ctx);
    let ready = ready_of(l.next_state);
    assert_eq!(ready.tasks.len(), 1);
    match ctx.notices.last() {
        Some(TaskNotice::TaskError { task_id, message }) => {
            assert_eq!(*task_id, 2);
            assert_eq!(message, "Attempted to print 2 non-override tasks at once");
        }
        other => panic!("expected a task error notice, got {:?}", other),
    }
}

#[test]
fn wait_to_reach_mark_suspends_and_resumes() {
    let mut ctx = context();
    ctx.feedback.axes[0].target_position = 10_000;
    let mut ready = ReadyState::default();
    ready.on_ok = OnOK::NotAwaitingOk;
    ready.poll_for = None;
    let task = Task::new(
        1,
        7,
        vec![
            String::from("!{\"markTargetPosition\":{}}"),
            String::from("!{\"waitToReachMark\":{\"axes\":{\"X\":{\"forward\":true}}}}"),
            String::from("G1 X20"),
        ],
        false,
    );

    // Both directives run off the spool; waiting forces a position poll.
    let l1 = ready.consume(Event::GCodeLoaded(task), &mut ctx);
    assert_eq!(sent_gcodes(&l1.effects), vec![(String::from("M114"), Some(1), true)]);
    let ready = ready_of(l1.next_state);

    // Positions short of the mark: despooling stays suspended.
    let below = Event::SerialRec {
        raw: String::from("ok X:5.0"),
        response: Response::Okay(Some(SerialFeedback::Positions(PositionsFeedback {
            actual_positions: vec![(String::from("X"), 5_000)],
            target_positions: None,
        }))),
    };
    let l2 = ready.consume(below, &mut ctx);
    let sends = sent_gcodes(&l2.effects);
    assert!(!sends.iter().any(|(g, _, _)| g == "G1 X20"));
    let ready = ready_of(l2.next_state);

    // Walk the polling rotation until the driver idles against the mark.
    let mut ready = ready;
    for _ in 0..4 {
        if ready.on_ok == OnOK::NotAwaitingOk {
            break;
        }
        let l = ready.consume(ok_event(), &mut ctx);
        assert!(!sent_gcodes(&l.effects).iter().any(|(g, _, _)| g == "G1 X20"));
        ready = ready_of(l.next_state);
    }
    assert_eq!(ready.on_ok, OnOK::NotAwaitingOk);

    // The axis reaches the mark: the next polling cycle resumes the task.
    let reached = Event::SerialRec {
        raw: String::from("X:10.0"),
        response: Response::Feedback(SerialFeedback::Positions(PositionsFeedback {
            actual_positions: vec![(String::from("X"), 10_000)],
            target_positions: None,
        })),
    };
    let l3 = ready.consume(reached, &mut ctx);
    let mut ready = ready_of(l3.next_state);
    assert!(ready.mark.is_none());

    // Poll, then its ok despools the suspended line.
    let l4 = ready.consume(Event::PollFeedback, &mut ctx);
    ready = ready_of(l4.next_state);
    let mut got_line = false;
    for _ in 0..4 {
        let l = ready.consume(ok_event(), &mut ctx);
        if sent_gcodes(&l.effects).iter().any(|(g, _, _)| g == "G1 X20") {
            got_line = true;
            ready = ready_of(l.next_state);
            break;
        }
        ready = ready_of(l.next_state);
    }
    assert!(got_line, "the suspended task line was not despooled after the mark was reached");
}

#[test]
fn pause_removes_the_task_and_resets_the_counter() {
    let mut ctx = context();
    ctx.reset_when_idle = true;
    ctx.feedback.despooled_line_number = 3;
    let mut ready = ReadyState::default();
    ready.on_ok = OnOK::Despool;
    ready.tasks = vec![Task {
        id: 1,
        client_id: 7,
        gcode_lines: vec![String::from("G1 X1"), String::from("G1 X2")],
        next_line: 1,
        machine_override: false,
        started: true,
    }];

    let pause = Event::ProtobufRec(CombinatorMessage {
        payload: Some(CombinatorPayload::PauseTask { task_id: 1 }),
    });
    let l = ready.consume(pause, &mut ctx);
    let ready = ready_of(l.next_state);
    assert!(ready.tasks.is_empty());
    assert_eq!(ctx.feedback.despooled_line_number, 0);
    assert!(matches!(ctx.notices.last(), Some(TaskNotice::Paused { task_id: 1 })));
    assert!(matches!(l.effects.as_slice(), [Effect::ExitProcessAfterDelay]));
}

#[test]
fn firmware_error_and_unexpected_greeting_fail_the_machine() {
    let mut ctx = context();
    let ready = ReadyState::default();
    let l = ready.consume(
        Event::SerialRec {
            raw: String::from("error:Printer halted"),
            response: Response::Error(String::from("Printer halted")),
        },
        &mut ctx,
    );
    match l.next_state {
        State::Errored { message } => assert_eq!(message, "Printer halted"),
        other => panic!("expected an errored machine, got {:?}", other),
    }

    let ready = ReadyState::default();
    let l = ready.consume(
        Event::SerialRec {
            raw: String::from("start"),
            response: Response::Greeting,
        },
        &mut ctx,
    );
    match l.next_state {
        State::Errored { message } => {
            assert_eq!(message, "Unexpected printer firmware restart.");
        }
        other => panic!("expected an errored machine, got {:?}", other),
    }
}

#[test]
fn temperature_feedback_rearms_polling_and_notifies() {
    let mut ctx = context();
    ctx.feedback.heaters = vec![marlin_driver::context::Heater {
        address: String::from("T"),
        target_temperature: 0,
        actual_temperature: 0,
        enabled: false,
        blocking: false,
    }];
    let ready = ReadyState::default();
    let l = ready.consume(
        Event::SerialRec {
            raw: String::from("T:210.5"),
            response: Response::Feedback(SerialFeedback::ActualTemperatures(vec![(
                String::from("T"),
                210_500,
            )])),
        },
        &mut ctx,
    );
    assert_eq!(ctx.feedback.heaters[0].actual_temperature, 210_500);
    assert!(matches!(
        l.effects.as_slice(),
        [
            Effect::Delay { key: DelayKey::PollingDelay, duration_ms: 1000, event: DelayedEvent::PollFeedback },
            Effect::ProtobufSend,
            Effect::CancelDelay { key: DelayKey::TickleDelay },
        ]
    ));
}

#[test]
fn spooled_n_lines_go_out_consecutively_numbered() {
    let mut ctx = context();
    let mut ready = ReadyState::default();
    ready.on_ok = OnOK::NotAwaitingOk;
    ready.poll_for = None;
    ready.next_serial_line_number = 5;
    let lines = vec![
        String::from("G1 X1"),
        String::from("G1 X2"),
        String::from("G1 X3"),
    ];
    let task = Task::new(9, 7, lines.clone(), false);

    let mut sent: Vec<(String, Option<u32>, bool)> = Vec::new();
    let l = ready.consume(Event::GCodeLoaded(task), &mut ctx);
    sent.extend(sent_gcodes(&l.effects));
    let mut ready = ready_of(l.next_state);
    let mut finished = false;
    for _ in 0..5 {
        let l = ready.consume(ok_event(), &mut ctx);
        sent.extend(sent_gcodes(&l.effects));
        ready = ready_of(l.next_state);
        if matches!(ctx.notices.last(), Some(TaskNotice::Finished { task_id: 9 })) {
            finished = true;
            break;
        }
    }
    assert!(finished, "the task never finished");
    let expected: Vec<(String, Option<u32>, bool)> = lines
        .iter()
        .enumerate()
        .map(|(k, g)| (g.clone(), Some(5 + k as u32), true))
        .collect();
    assert_eq!(sent, expected);
}

#[test]
fn spool_during_connect_runs_after_the_handshake() {
    let mut ctx = context();
    let l1 = ConnectingState::connect(&ctx);
    let connecting = match l1.next_state {
        State::Connecting(c) => c,
        other => panic!("expected connecting, got {:?}", other),
    };

    // The client spools while the handshake is still running.
    let spool = Event::ProtobufRec(CombinatorMessage {
        payload: Some(CombinatorPayload::SpoolTask(SpoolTask {
            task_id: 3,
            client_id: 7,
            content: Some(TaskContent::Inline { commands: vec![String::from("G1 X1")] }),
            machine_override: false,
        })),
    });
    let l2 = connecting.consume(spool, &mut ctx);
    let connecting = match l2.next_state {
        State::Connecting(c) => c,
        other => panic!("expected connecting, got {:?}", other),
    };
    assert_eq!(connecting.ready.tasks.len(), 1);

    // Handshake: probe out, probe ok, and the queued task starts.
    let l3 = connecting.consume(Event::GreetingToReadyDelayDone, &mut ctx);
    let ready = ready_of(l3.next_state);
    let l4 = ready.consume(ok_event(), &mut ctx);
    assert!(sent_gcodes(&l4.effects)
        .iter()
        .any(|(g, _, _)| g == "G1 X1"));
    assert!(matches!(ctx.notices.last(), Some(TaskNotice::Started { task_id: 3 })));
}

#[test]
fn wait_without_a_mark_fails_the_machine() {
    let mut ctx = context();
    let mut ready = ReadyState::default();
    ready.on_ok = OnOK::NotAwaitingOk;
    ready.poll_for = None;
    let task = Task::new(
        1,
        7,
        vec![String::from("!{\"waitToReachMark\":{\"axes\":{\"X\":{\"forward\":true}}}}")],
        false,
    );
    let l = ready.consume(Event::GCodeLoaded(task), &mut ctx);
    match l.next_state {
        State::Errored { message } => {
            assert_eq!(message, "Cannot wait to reach mark if mark is not set");
        }
        other => panic!("expected an errored machine, got {:?}", other),
    }
}

#[test]
fn malformed_host_gcode_fails_the_machine() {
    let mut ctx = context();
    let mut ready = ReadyState::default();
    ready.on_ok = OnOK::NotAwaitingOk;
    ready.poll_for = None;
    let task = Task::new(1, 7, vec![String::from("!markTargetPosition")], false);
    let l = ready.consume(Event::GCodeLoaded(task), &mut ctx);
    match l.next_state {
        State::Errored { message } => assert_eq!(message, "Invalid host GCode"),
        other => panic!("expected an errored machine, got {:?}", other),
    }
}

#[test]
fn directive_first_task_still_starts_before_running() {
    let mut ctx = context();
    let mut ready = ReadyState::default();
    ready.on_ok = OnOK::NotAwaitingOk;
    ready.poll_for = None;
    let task = Task::new(
        4,
        7,
        vec![String::from("!{\"markTargetPosition\":{}}"), String::from("G1 X3")],
        false,
    );
    let l = ready.consume(Event::GCodeLoaded(task), &mut ctx);
    // The start notice lands before the first committed line, even though
    // the first spooled line was a directive; both lines count as despooled.
    assert!(matches!(ctx.notices.first(), Some(TaskNotice::Started { task_id: 4 })));
    assert_eq!(sent_gcodes(&l.effects), vec![(String::from("G1 X3"), Some(1), true)]);
    assert_eq!(ctx.feedback.despooled_line_number, 2);
    let ready = ready_of(l.next_state);
    assert!(matches!(ready.mark, Some(marlin_driver::ready::Mark::MarkSet(_))));
}

#[test]
fn finishing_one_task_hands_over_to_the_next_in_one_step() {
    let mut ctx = context();
    let mut ready = ReadyState::default();
    ready.on_ok = OnOK::Despool;
    ready.poll_for = None;
    ready.next_serial_line_number = 8;
    ready.last_gcode_sent = Some(String::from("G91"));
    // The override jog is exhausted; the print still has a line.
    ready.tasks = vec![
        Task {
            id: 2,
            client_id: 7,
            gcode_lines: vec![String::from("G91")],
            next_line: 1,
            machine_override: true,
            started: true,
        },
        Task {
            id: 1,
            client_id: 7,
            gcode_lines: vec![String::from("G1 X2")],
            next_line: 0,
            machine_override: false,
            started: true,
        },
    ];
    let l = ready.consume(ok_event(), &mut ctx);
    // One ok: the jog finishes (notice + publish) and the print's line goes
    // out in the same transition.
    assert!(matches!(ctx.notices.first(), Some(TaskNotice::Finished { task_id: 2 })));
    assert_eq!(sent_gcodes(&l.effects), vec![(String::from("G1 X2"), Some(8), true)]);
    let ready = ready_of(l.next_state);
    assert_eq!(ready.tasks.len(), 1);
    assert_eq!(ready.tasks[0].id, 1);
}
