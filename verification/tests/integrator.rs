use marlin_driver::feedback::{
    AxisEphemeral, FbAxis, FbError, FbGCodeHistoryEntry, FbHeater, FbTaskProgress, Feedback,
    GCodeHistoryDirection, HeaterEphemeral, Machine, MachineData, MachineNotice, MachineStatus,
    PositioningUnits, Printing, SpeedControllerEphemeral, TaskRecord, TaskStatus,
    record_feedback, update_heaters, update_machine, update_tasks,
    FLAG_ABSOLUTE_POSITIONING, FLAG_MILLIMETERS, FLAG_MOTORS_ENABLED, FLAG_PAUSED_STATE,
    HISTORY_RX, HISTORY_TX, STATUS_DISCONNECTED, STATUS_ERRORED, STATUS_READY, TASK_ERRORED,
    TASK_FINISHED, TASK_STARTED,
};

fn machine() -> Machine {
    Machine {
        data: MachineData {
            status: MachineStatus::Ready,
            absolute_positioning: false,
            positioning_units: PositioningUnits::Inches,
            motors_enabled: false,
            heaters: vec![HeaterEphemeral {
                address: String::from("e0"),
                target_temperature: None,
                actual_temperature: None,
                enabled: false,
                blocking: false,
                history: vec![],
            }],
            axes: vec![AxisEphemeral {
                address: String::from("x"),
                target_position: None,
                actual_position: None,
                homed: false,
            }],
            speed_controllers: vec![SpeedControllerEphemeral {
                address: String::from("f0"),
                target_speed: None,
                actual_speed: None,
                enabled: false,
            }],
            gcode_history: vec![],
        },
        has_received_feedback: false,
    }
}

fn frame() -> Feedback {
    Feedback {
        status: STATUS_READY,
        error: None,
        task_progress: vec![],
        heaters: vec![],
        axes: vec![],
        speed_controllers: vec![],
        gcode_history: vec![],
        machine_flags: 0,
    }
}

#[test]
fn task_desync_on_reconnect_errors_the_missing_task() {
    let mut m = machine();
    let mut tasks = vec![
        TaskRecord {
            id: 1,
            status: TaskStatus::Started,
            despooled_line_number: None,
            is_print: true,
        },
        TaskRecord {
            id: 2,
            status: TaskStatus::Started,
            despooled_line_number: None,
            is_print: true,
        },
    ];
    let mut fb = frame();
    fb.task_progress = vec![FbTaskProgress {
        task_id: 1,
        despooled_line_number: 42,
        status: TASK_STARTED,
    }];

    let notices = record_feedback(&mut m, &mut tasks, &fb, 1_000).expect("the frame is valid");

    // The reported task carries on; the machine is printing it.
    assert!(matches!(tasks[0].status, TaskStatus::Started));
    assert_eq!(tasks[0].despooled_line_number, Some(42));
    match &m.data.status {
        MachineStatus::Printing(p) => {
            assert_eq!(p.task_id, 1);
            assert!(!p.paused);
            assert!(p.paused_state.is_none());
        }
        other => panic!("expected a printing machine, got {:?}", other),
    }

    // The unreported task is errored as missing.
    match &tasks[1].status {
        TaskStatus::Errored { message, errored_at } => {
            assert_eq!(
                message,
                "Task #2 missing from driver, possibly due to driver crash."
            );
            assert_eq!(*errored_at, 1_000);
        }
        other => panic!("expected an errored task, got {:?}", other),
    }
    assert!(m.has_received_feedback);
    assert!(notices.is_empty());
}

#[test]
fn settling_the_print_returns_the_machine_to_ready() {
    let mut m = machine();
    m.has_received_feedback = true;
    m.data.status = MachineStatus::Printing(Printing {
        task_id: 5,
        paused: false,
        paused_state: None,
    });
    let mut tasks = vec![TaskRecord {
        id: 5,
        status: TaskStatus::Started,
        despooled_line_number: Some(9),
        is_print: true,
    }];
    let mut fb = frame();
    fb.task_progress = vec![FbTaskProgress {
        task_id: 5,
        despooled_line_number: 10,
        status: TASK_FINISHED,
    }];

    let notices = update_tasks(&mut m, &mut tasks, &fb, 2_000).expect("the frame is valid");
    assert!(matches!(tasks[0].status, TaskStatus::Finished { finished_at: 2_000 }));
    assert!(matches!(m.data.status, MachineStatus::Ready));
    assert_eq!(
        notices,
        vec![
            MachineNotice::TaskSettled { task_id: 5 },
            MachineNotice::DeleteTaskHistory { task_id: 5 },
        ]
    );
}

#[test]
fn settled_tasks_never_change_again() {
    let mut m = machine();
    m.has_received_feedback = true;
    let mut tasks = vec![TaskRecord {
        id: 3,
        status: TaskStatus::Cancelled { cancelled_at: 10 },
        despooled_line_number: Some(1),
        is_print: false,
    }];
    let mut fb = frame();
    fb.task_progress = vec![FbTaskProgress {
        task_id: 3,
        despooled_line_number: 7,
        status: TASK_ERRORED,
    }];
    let notices = update_tasks(&mut m, &mut tasks, &fb, 99).expect("the frame is valid");
    assert!(matches!(tasks[0].status, TaskStatus::Cancelled { cancelled_at: 10 }));
    assert_eq!(tasks[0].despooled_line_number, Some(7));
    assert!(notices.is_empty());
}

#[test]
fn unknown_task_or_status_fails_the_frame() {
    let mut m = machine();
    m.has_received_feedback = true;
    let mut tasks: Vec<TaskRecord> = vec![];
    let mut fb = frame();
    fb.task_progress = vec![FbTaskProgress {
        task_id: 9,
        despooled_line_number: 0,
        status: TASK_STARTED,
    }];
    assert!(update_tasks(&mut m, &mut tasks, &fb, 0).is_err());

    let mut tasks = vec![TaskRecord {
        id: 9,
        status: TaskStatus::Started,
        despooled_line_number: None,
        is_print: false,
    }];
    fb.task_progress[0].status = 77;
    assert!(update_tasks(&mut m, &mut tasks, &fb, 0).is_err());
}

#[test]
fn leaving_service_errors_every_pending_task() {
    let mut m = machine();
    let mut tasks = vec![
        TaskRecord {
            id: 1,
            status: TaskStatus::Started,
            despooled_line_number: None,
            is_print: true,
        },
        TaskRecord {
            id: 2,
            status: TaskStatus::Finished { finished_at: 5 },
            despooled_line_number: None,
            is_print: false,
        },
    ];
    let mut fb = frame();
    fb.status = STATUS_ERRORED;
    fb.error = Some(FbError { message: String::from("thermal runaway") });

    update_machine(&mut m.data, &mut tasks, &fb, 3_000).expect("the frame is valid");
    match &tasks[0].status {
        TaskStatus::Errored { message, errored_at } => {
            assert_eq!(message, "thermal runaway");
            assert_eq!(*errored_at, 3_000);
        }
        other => panic!("expected an errored task, got {:?}", other),
    }
    // The already settled task is untouched.
    assert!(matches!(tasks[1].status, TaskStatus::Finished { finished_at: 5 }));
    match &m.data.status {
        MachineStatus::Errored(info) => assert_eq!(info.message, "thermal runaway"),
        other => panic!("expected an errored machine, got {:?}", other),
    }
}

#[test]
fn disconnect_uses_the_desync_message() {
    let mut m = machine();
    let mut tasks = vec![TaskRecord {
        id: 4,
        status: TaskStatus::Spooled,
        despooled_line_number: None,
        is_print: true,
    }];
    let mut fb = frame();
    fb.status = STATUS_DISCONNECTED;
    update_machine(&mut m.data, &mut tasks, &fb, 8).expect("the frame is valid");
    match &tasks[0].status {
        TaskStatus::Errored { message, .. } => {
            assert_eq!(message, "Task desync. Task not found in driver responses");
        }
        other => panic!("expected an errored task, got {:?}", other),
    }
    assert!(matches!(m.data.status, MachineStatus::Disconnected));
}

#[test]
fn unknown_status_integer_fails_and_changes_nothing() {
    let mut m = machine();
    let mut tasks: Vec<TaskRecord> = vec![];
    let mut fb = frame();
    fb.status = 42;
    assert!(update_machine(&mut m.data, &mut tasks, &fb, 0).is_err());
    assert!(matches!(m.data.status, MachineStatus::Ready));

    // An errored status without an error is invalid too.
    fb.status = STATUS_ERRORED;
    fb.error = None;
    assert!(update_machine(&mut m.data, &mut tasks, &fb, 0).is_err());
}

#[test]
fn machine_flags_apply_and_paused_snapshot_is_taken_once() {
    let mut m = machine();
    m.data.status = MachineStatus::Printing(Printing {
        task_id: 6,
        paused: true,
        paused_state: None,
    });
    let mut tasks: Vec<TaskRecord> = vec![];
    let mut fb = frame();
    fb.machine_flags =
        FLAG_ABSOLUTE_POSITIONING | FLAG_MILLIMETERS | FLAG_MOTORS_ENABLED | FLAG_PAUSED_STATE;

    update_machine(&mut m.data, &mut tasks, &fb, 100).expect("the frame is valid");
    assert!(m.data.absolute_positioning);
    assert!(matches!(m.data.positioning_units, PositioningUnits::Millimeters));
    assert!(m.data.motors_enabled);
    let first_snapshot_motors = match &m.data.status {
        MachineStatus::Printing(p) => {
            assert!(p.paused);
            let snap = p.paused_state.as_ref().expect("the snapshot is taken");
            assert_eq!(snap.task_id, 6);
            assert!(snap.motors_enabled);
            snap.motors_enabled
        }
        other => panic!("expected a paused print, got {:?}", other),
    };

    // A second PAUSED_STATE flag (with different flags) leaves the snapshot.
    fb.machine_flags = FLAG_PAUSED_STATE;
    update_machine(&mut m.data, &mut tasks, &fb, 200).expect("the frame is valid");
    assert!(!m.data.motors_enabled);
    match &m.data.status {
        MachineStatus::Printing(p) => {
            let snap = p.paused_state.as_ref().expect("the snapshot stays");
            assert_eq!(snap.motors_enabled, first_snapshot_motors);
        }
        other => panic!("expected a paused print, got {:?}", other),
    }
}

#[test]
fn heater_history_keeps_the_cadence_and_the_bound() {
    let mut m = machine();
    let mut fb = frame();
    fb.heaters = vec![FbHeater {
        address: String::from("e0"),
        target_temperature: 210_000,
        actual_temperature: 25_000,
        enabled: true,
        blocking: false,
    }];

    // Two frames 200 ms apart: only the first records a sample.
    update_heaters(&mut m.data, &fb, 1_000);
    update_heaters(&mut m.data, &fb, 1_200);
    assert_eq!(m.data.heaters[0].history.len(), 1);
    assert_eq!(m.data.heaters[0].history[0].created_at, 1_000);

    // A frame past the half-second cadence records another.
    update_heaters(&mut m.data, &fb, 1_600);
    assert_eq!(m.data.heaters[0].history.len(), 2);

    // Many spaced frames never push the history past 60 samples.
    let mut now = 2_000;
    for _ in 0..100 {
        now += 600;
        update_heaters(&mut m.data, &fb, now);
    }
    assert_eq!(m.data.heaters[0].history.len(), 60);
    assert_eq!(m.data.heaters[0].target_temperature, Some(210_000));
    assert_eq!(m.data.heaters[0].actual_temperature, Some(25_000));
    assert!(m.data.heaters[0].enabled);
}

#[test]
fn gcode_history_trims_to_four_hundred() {
    let mut m = machine();
    let mut tasks: Vec<TaskRecord> = vec![];
    let mut fb = frame();
    for i in 0..450 {
        fb.gcode_history.push(FbGCodeHistoryEntry {
            content: format!("G1 X{}", i),
            direction: if i % 2 == 0 { HISTORY_TX } else { HISTORY_RX },
        });
    }
    update_machine(&mut m.data, &mut tasks, &fb, 0).expect("the frame is valid");
    assert_eq!(m.data.gcode_history.len(), 400);
    // The oldest fifty entries were dropped.
    assert_eq!(m.data.gcode_history[0].content, "G1 X50");
    assert!(matches!(m.data.gcode_history[0].direction, GCodeHistoryDirection::Tx));
    assert_eq!(m.data.gcode_history[399].content, "G1 X449");
}

#[test]
fn axes_and_speed_controllers_take_the_frame_values() {
    let mut m = machine();
    m.has_received_feedback = true;
    let mut tasks: Vec<TaskRecord> = vec![];
    let mut fb = frame();
    fb.axes = vec![FbAxis {
        address: String::from("x"),
        target_position: 10_000,
        actual_position: 9_500,
        homed: true,
    }];
    fb.speed_controllers = vec![marlin_driver::feedback::FbSpeedController {
        address: String::from("f0"),
        target_speed: 255_000,
        actual_speed: 128_000,
        enabled: true,
    }];
    record_feedback(&mut m, &mut tasks, &fb, 0).expect("the frame is valid");
    assert_eq!(m.data.axes[0].target_position, Some(10_000));
    assert_eq!(m.data.axes[0].actual_position, Some(9_500));
    assert!(m.data.axes[0].homed);
    assert_eq!(m.data.speed_controllers[0].target_speed, Some(255_000));
    assert_eq!(m.data.speed_controllers[0].actual_speed, Some(128_000));
    assert!(m.data.speed_controllers[0].enabled);
}
