use eyes::engine::PortOutcome;
use eyes::report::{completion_line, report_line, u16_to_dec};

#[test]
fn ports_render_in_decimal() {
    assert_eq!(u16_to_dec(0), "0");
    assert_eq!(u16_to_dec(7), "7");
    assert_eq!(u16_to_dec(10), "10");
    assert_eq!(u16_to_dec(9001), "9001");
    assert_eq!(u16_to_dec(65535), "65535");
}

#[test]
fn open_ports_are_always_reported() {
    assert_eq!(
        report_line(9001, PortOutcome::Open, false),
        Some(String::from("9001: open"))
    );
    assert_eq!(
        report_line(9001, PortOutcome::Open, true),
        Some(String::from("9001: open"))
    );
}

#[test]
fn non_open_outcomes_collapse_to_closed_in_verbose_mode() {
    assert_eq!(
        report_line(9000, PortOutcome::Closed, true),
        Some(String::from("9000: closed"))
    );
    assert_eq!(
        report_line(9000, PortOutcome::TimedOut, true),
        Some(String::from("9000: closed"))
    );
    assert_eq!(
        report_line(9000, PortOutcome::ConnectionError, true),
        Some(String::from("9000: closed"))
    );
}

#[test]
fn non_open_outcomes_are_suppressed_without_verbose() {
    assert_eq!(report_line(9000, PortOutcome::Closed, false), None);
    assert_eq!(report_line(9000, PortOutcome::TimedOut, false), None);
    assert_eq!(report_line(9002, PortOutcome::ConnectionError, false), None);
}

#[test]
fn the_completion_line_is_fixed() {
    assert_eq!(completion_line(), "[eyes] Finished scan");
}

#[test]
fn quiet_scan_of_9000_to_9002_with_9001_open_prints_one_line() {
    // A listener on 9001 and nothing else in 9000-9002, verbose off: the
    // visible output is exactly "9001: open" followed by the completion
    // line; 9000 and 9002 produce no visible output.
    let outcomes = [
        (9000u16, PortOutcome::ConnectionError),
        (9001u16, PortOutcome::Open),
        (9002u16, PortOutcome::TimedOut),
    ];
    let mut printed: Vec<String> = Vec::new();
    for (port, outcome) in outcomes {
        if let Some(line) = report_line(port, outcome, false) {
            printed.push(line);
        }
    }
    printed.push(completion_line());
    assert_eq!(printed, vec!["9001: open", "[eyes] Finished scan"]);
}

#[test]
fn verbose_scan_of_9000_to_9002_with_9001_open_prints_every_port() {
    let outcomes = [
        (9000u16, PortOutcome::ConnectionError),
        (9001u16, PortOutcome::Open),
        (9002u16, PortOutcome::TimedOut),
    ];
    let mut printed: Vec<String> = Vec::new();
    for (port, outcome) in outcomes {
        if let Some(line) = report_line(port, outcome, true) {
            printed.push(line);
        }
    }
    // One line per port, the completion line strictly last.
    assert_eq!(printed, vec!["9000: closed", "9001: open", "9002: closed"]);
    printed.push(completion_line());
    assert_eq!(printed.last().unwrap(), "[eyes] Finished scan");
}
