use marlin_driver::config::BaudRate;
use marlin_driver::config::baud_rate_candidates;
use marlin_driver::gcode::{GCodeLine, checksum_of, encode_line, u32_to_dec};
use marlin_driver::host::{HostDirective, parse_host_directive};
use marlin_driver::message::{Response, SerialFeedback};
use marlin_driver::response::parse_response;

#[test]
fn baud_rates_have_their_numeric_values() {
    assert_eq!(BaudRate::Baud250K.to_u32(), 250_000);
    assert_eq!(BaudRate::Baud230K.to_u32(), 230_400);
    assert_eq!(BaudRate::Baud115K.to_u32(), 115_200);
    assert_eq!(BaudRate::Baud057K.to_u32(), 57_600);
    assert_eq!(BaudRate::Baud038K.to_u32(), 38_400);
    assert_eq!(BaudRate::Baud019K.to_u32(), 19_200);
    assert_eq!(BaudRate::Baud009K.to_u32(), 9_600);
    let rates = baud_rate_candidates();
    let values: Vec<u32> = rates.iter().map(|r| r.to_u32()).collect();
    assert_eq!(values, vec![250_000, 230_400, 115_200, 57_600, 38_400, 19_200, 9_600]);
}

#[test]
fn decimal_rendering_is_exact() {
    assert_eq!(u32_to_dec(0), "0");
    assert_eq!(u32_to_dec(7), "7");
    assert_eq!(u32_to_dec(10), "10");
    assert_eq!(u32_to_dec(115200), "115200");
    assert_eq!(u32_to_dec(u32::MAX), "4294967295");
}

#[test]
fn checksum_is_the_xor_of_all_bytes() {
    assert_eq!(checksum_of(b""), 0);
    assert_eq!(checksum_of(b"A"), 65);
    // XOR over "N1 M110 N0", computed by hand.
    assert_eq!(checksum_of(b"N1 M110 N0"), 124);
}

#[test]
fn encode_line_frames_number_and_checksum() {
    let wire = encode_line(&GCodeLine {
        gcode: String::from("M110 N0"),
        line_number: Some(1),
        checksum: true,
    });
    assert_eq!(wire, "N1 M110 N0*124\n");

    let wire = encode_line(&GCodeLine {
        gcode: String::from("G28"),
        line_number: Some(3),
        checksum: true,
    });
    assert_eq!(wire, "N3 G28*16\n");

    // A tickle goes out bare.
    let wire = encode_line(&GCodeLine {
        gcode: String::from("M105"),
        line_number: None,
        checksum: false,
    });
    assert_eq!(wire, "M105\n");
}

#[test]
fn ok_lines_parse_with_and_without_feedback() {
    assert!(matches!(parse_response("ok"), Response::Okay(None)));

    match parse_response("ok T:210.5 B:60.0") {
        Response::Okay(Some(SerialFeedback::ActualTemperatures(temps))) => {
            assert_eq!(temps.len(), 2);
            assert_eq!(temps[0].0, "T");
            assert_eq!(temps[0].1, 210_500);
            assert_eq!(temps[1].0, "B");
            assert_eq!(temps[1].1, 60_000);
        }
        other => panic!("expected temperatures, got {:?}", other),
    }

    match parse_response("ok X:1.5 Y:-2.25 Z:0.0") {
        Response::Okay(Some(SerialFeedback::Positions(p))) => {
            assert_eq!(p.actual_positions.len(), 3);
            assert_eq!(p.actual_positions[0], (String::from("X"), 1_500));
            assert_eq!(p.actual_positions[1], (String::from("Y"), -2_250));
            assert_eq!(p.actual_positions[2], (String::from("Z"), 0));
            assert!(p.target_positions.is_none());
        }
        other => panic!("expected positions, got {:?}", other),
    }

    // Trailing text that is not a report leaves the ok bare.
    assert!(matches!(parse_response("ok something"), Response::Okay(None)));
}

#[test]
fn unsolicited_reports_parse() {
    match parse_response("T:20.0 B:19.5") {
        Response::Feedback(SerialFeedback::ActualTemperatures(temps)) => {
            assert_eq!(temps[0], (String::from("T"), 20_000));
            assert_eq!(temps[1], (String::from("B"), 19_500));
        }
        other => panic!("expected temperatures, got {:?}", other),
    }
    match parse_response("X:0.0 Y:12.345 E:100.0") {
        Response::Feedback(SerialFeedback::Positions(p)) => {
            assert_eq!(p.actual_positions[1], (String::from("Y"), 12_345));
            assert_eq!(p.actual_positions[2], (String::from("E"), 100_000));
        }
        other => panic!("expected positions, got {:?}", other),
    }
}

#[test]
fn resend_lines_parse_in_all_spellings() {
    assert!(matches!(parse_response("Resend: 5"), Response::Resend { line_number: 5 }));
    assert!(matches!(parse_response("resend:12"), Response::Resend { line_number: 12 }));
    assert!(matches!(parse_response("rs 7"), Response::Resend { line_number: 7 }));
    // A resend without a number is not a resend.
    assert!(matches!(parse_response("Resend: x"), Response::Unknown));
}

#[test]
fn messages_and_greeting_parse() {
    assert!(matches!(parse_response("start"), Response::Greeting));
    match parse_response("echo:busy") {
        Response::Echo(m) => assert_eq!(m, "busy"),
        other => panic!("expected an echo, got {:?}", other),
    }
    match parse_response("Error:Printer halted. kill() called!") {
        Response::Error(m) => assert_eq!(m, "Printer halted. kill() called!"),
        other => panic!("expected an error, got {:?}", other),
    }
    match parse_response("Warning:thermal runaway") {
        Response::Warning(m) => assert_eq!(m, "thermal runaway"),
        other => panic!("expected a warning, got {:?}", other),
    }
    assert!(matches!(parse_response("wait"), Response::Unknown));
    assert!(matches!(parse_response(""), Response::Unknown));
}

#[test]
fn host_directives_parse_and_reject() {
    assert!(matches!(
        parse_host_directive("{\"markTargetPosition\":{}}"),
        Some(HostDirective::MarkTargetPosition)
    ));

    match parse_host_directive(
        "{\"waitToReachMark\":{\"axes\":{\"X\":{\"forward\":true},\"y\":{\"forward\":false}}}}",
    ) {
        Some(HostDirective::WaitToReachMark { axes }) => {
            assert_eq!(axes.len(), 2);
            assert_eq!(axes[0], (String::from("X"), true));
            assert_eq!(axes[1], (String::from("y"), false));
        }
        other => panic!("expected a wait directive, got {:?}", other),
    }

    match parse_host_directive("{\"waitToReachMark\":{\"axes\":{}}}") {
        Some(HostDirective::WaitToReachMark { axes }) => assert!(axes.is_empty()),
        other => panic!("expected an empty wait directive, got {:?}", other),
    }

    assert!(parse_host_directive("").is_none());
    assert!(parse_host_directive("{\"markTargetPosition\":{}").is_none());
    assert!(parse_host_directive("{\"waitToReachMark\":{\"axes\":{\"X\":{\"forward\":tru}}}}")
        .is_none());
    assert!(parse_host_directive("G1 X10").is_none());
}
