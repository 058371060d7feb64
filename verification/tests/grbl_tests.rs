use costanza::grbl::{Command, Decimal, MachinePosition, MachineState, Response, ResponseParseError};

#[test]
fn status_line_parses_to_run_position() {
    let r = Response::from_str("<Run,MPos:1.000,2.000,3.000,WPos:0,0,0>");
    let expected = Response::Status(
        MachineState::Run,
        MachinePosition {
            x: Decimal { negative: false, mantissa: 1000, scale: 3 },
            y: Decimal { negative: false, mantissa: 2000, scale: 3 },
            z: Decimal { negative: false, mantissa: 3000, scale: 3 },
        },
    );
    assert_eq!(r, Ok(expected));
}

#[test]
fn bogus_state_is_a_parse_error() {
    let r = Response::from_str("<Bogus,MPos:1.000,2.000,3.000,WPos:0,0,0>");
    assert_eq!(r, Err(ResponseParseError::BadMachineState));
}

#[test]
fn ok_line_is_the_acknowledgment() {
    assert_eq!(Response::from_str("ok"), Ok(Response::Ack));
}

#[test]
fn other_lines_are_unknown_responses() {
    assert_eq!(Response::from_str("hello"), Err(ResponseParseError::UnknownResponse));
    assert_eq!(Response::from_str(""), Err(ResponseParseError::UnknownResponse));
}

#[test]
fn missing_fields_are_a_parse_error() {
    assert_eq!(
        Response::from_str("<Idle,MPos:1.0,2.0>"),
        Err(ResponseParseError::BadStatusFields)
    );
    // Without any comma the state token runs to the end of the line and is
    // no known state.
    assert_eq!(Response::from_str("<Idle>"), Err(ResponseParseError::BadMachineState));
}

#[test]
fn missing_mpos_header_is_a_parse_error() {
    assert_eq!(
        Response::from_str("<Idle,WPos:1.0,2.0,3.0,0,0,0>"),
        Err(ResponseParseError::BadStatusFields)
    );
}

#[test]
fn non_numeric_coordinates_are_a_parse_error() {
    assert_eq!(
        Response::from_str("<Idle,MPos:abc,2.000,3.000,WPos:0,0,0>"),
        Err(ResponseParseError::BadPosition)
    );
    assert_eq!(
        Response::from_str("<Idle,MPos:1.0.0,2.000,3.000,WPos:0,0,0>"),
        Err(ResponseParseError::BadPosition)
    );
}

#[test]
fn signed_coordinates_parse() {
    let r = Response::from_str("<Idle,MPos:-1.5,+2,.25,WPos:0,0,0>");
    let expected = Response::Status(
        MachineState::Idle,
        MachinePosition {
            x: Decimal { negative: true, mantissa: 15, scale: 1 },
            y: Decimal { negative: false, mantissa: 2, scale: 0 },
            z: Decimal { negative: false, mantissa: 25, scale: 2 },
        },
    );
    assert_eq!(r, Ok(expected));
}

#[test]
fn machine_states_parse_by_name() {
    assert_eq!(MachineState::from_str("Idle"), Ok(MachineState::Idle));
    assert_eq!(MachineState::from_str("Run"), Ok(MachineState::Run));
    assert_eq!(MachineState::from_str("Home"), Ok(MachineState::Home));
    assert_eq!(MachineState::from_str("Alarm"), Ok(MachineState::Alarm));
    assert_eq!(
        MachineState::from_str("idle"),
        Err(ResponseParseError::BadMachineState)
    );
}

#[test]
fn status_command_wire_text() {
    assert_eq!(Command::Status.wire_text(), "?\n");
}
