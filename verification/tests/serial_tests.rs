use costanza::application::{Command, Message, SerialCommand, SerialMap, SerialParser};
use costanza::eff::{Effect, EffectError};
use costanza::serial::{Serial, SerialConfiguration, SerialLink, BACKOFF_MS};

fn manager() -> Serial<Command, Message, SerialParser> {
    Serial::new(None, SerialParser {})
}

#[test]
fn connected_is_emitted_once_per_rising_edge() {
    let mut link = SerialLink::new();
    // First successful open: the edge.
    assert!(link.note_open_result(1000, true));
    // Further successful opens while connected never re-emit.
    assert!(!link.note_open_result(1100, true));
    assert!(!link.note_open_result(1200, true));
    // The connection drops, then comes back: a second edge.
    assert!(link.note_no_port(2000));
    assert!(link.note_open_result(5000, true));
}

#[test]
fn disconnected_is_emitted_once_per_falling_edge() {
    let mut link = SerialLink::new();
    assert!(!link.note_no_port(100));
    link.note_open_result(1000, true);
    assert!(link.note_no_port(2000));
    assert!(!link.note_no_port(4100));
}

#[test]
fn open_failures_wait_out_the_backoff_interval() {
    let serial = {
        let mut s = manager();
        s.config = Some(SerialConfiguration { device: "/dev/null".to_string(), baud: 9600 });
        s
    };
    let mut link = SerialLink::new();
    assert!(serial.should_open(&link, 0));
    assert!(!link.note_open_result(1000, false));
    assert!(!serial.should_open(&link, 1000));
    assert!(!serial.should_open(&link, 1000 + BACKOFF_MS - 1));
    assert!(serial.should_open(&link, 1000 + BACKOFF_MS));
}

#[test]
fn unconfigured_or_latched_links_never_open() {
    let mut serial = manager();
    let mut link = SerialLink::new();
    assert!(!serial.should_open(&link, 10_000));
    serial.config = Some(SerialConfiguration { device: "/dev/null".to_string(), baud: 9600 });
    link.manual_disconnect = true;
    assert!(!serial.should_open(&link, 10_000));
    link.manual_disconnect = false;
    assert!(serial.should_open(&link, 10_000));
}

#[test]
fn commands_drive_the_latch_and_the_configuration() {
    let mut serial = manager();
    let mut link = SerialLink::new();
    link.has_port = true;

    let w = serial.apply_command(
        &SerialMap {},
        &mut link,
        Some(Command::Serial(SerialCommand::Control(false))),
    );
    assert!(w.is_none());
    assert!(link.manual_disconnect);
    assert!(!link.has_port);

    let w = serial.apply_command(
        &SerialMap {},
        &mut link,
        Some(Command::Serial(SerialCommand::Control(true))),
    );
    assert!(w.is_none());
    assert!(!link.manual_disconnect);

    let config = SerialConfiguration { device: "/dev/ttyUSB1".to_string(), baud: 250000 };
    let w = serial.apply_command(
        &SerialMap {},
        &mut link,
        Some(Command::Serial(SerialCommand::Configure(config))),
    );
    assert!(w.is_none());
    assert_eq!(serial.config.as_ref().unwrap().device, "/dev/ttyUSB1");

    let w = serial.apply_command(
        &SerialMap {},
        &mut link,
        Some(Command::Serial(SerialCommand::Raw("G0 X1".to_string()))),
    );
    assert_eq!(w.unwrap(), "G0 X1\n");

    let w = serial.apply_command(
        &SerialMap {},
        &mut link,
        Some(Command::Serial(SerialCommand::Status)),
    );
    assert_eq!(w.unwrap(), "?\n");

    // A gateway command does not concern the serial manager.
    let w = serial.apply_command(
        &SerialMap {},
        &mut link,
        Some(Command::Http(costanza::http::Command::SendState(
            "c".to_string(),
            "{}".to_string(),
        ))),
    );
    assert!(w.is_none());
}

#[test]
fn parse_drains_one_frame_per_call() {
    let mut serial = manager();
    serial.extend_buffer("<Idle>\nok\npar".as_bytes());

    let first = serial.parse_step();
    assert!(matches!(first, Some(Message::Serial(line)) if line == "<Idle>"));

    let second = serial.parse_step();
    assert!(matches!(second, Some(Message::Serial(line)) if line == "ok"));

    // Only a trailing partial frame is left; nothing more is decoded and the
    // partial bytes stay buffered.
    assert!(serial.parse_step().is_none());
    assert_eq!(serial.buffer.len(), 3);
}

#[test]
fn parse_reads_bytes_as_text() {
    let mut serial = manager();
    serial.extend_buffer(&[b'o', b'k', 0xFF, b'\n']);
    let parsed = serial.parse_step();
    assert!(matches!(parsed, Some(Message::Serial(line)) if line == "ok\u{fffd}"));
}

#[test]
fn io_errors_drop_the_handle_and_schedule_a_retry() {
    let mut link = SerialLink::new();
    link.note_open_result(1000, true);
    assert!(link.has_port);
    link.note_io_error(3000);
    assert!(!link.has_port);
    assert_eq!(link.retry_at_ms, 3000 + BACKOFF_MS);
    // The connected flag only falls on the next no-port iteration.
    assert!(link.is_connected);
    assert!(link.note_no_port(3000));
}

#[test]
fn detach_hands_the_endpoints_over_exactly_once() {
    let mut serial = manager();
    assert!(serial.detach().is_ok());
    assert_eq!(
        serial.detach().map(|_| ()),
        Err(EffectError::AlreadyDetached)
    );
}
