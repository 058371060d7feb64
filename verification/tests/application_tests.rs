use costanza::application::{
    Application, Command, Configuration, Message, SerialCommand, SerialConnectionState,
    TimingConfiguration,
};
use costanza::http;
use costanza::serial::SerialConfiguration;

fn app_with_clients(ids: &[&str]) -> Application {
    let mut app = Application::new();
    for id in ids {
        let (next, cmds) = app.transition(Message::Http(http::Message::ClientConnected(
            id.to_string(),
        )));
        assert!(cmds.is_none());
        app = next;
    }
    app
}

fn connect_serial(app: Application) -> Application {
    let (next, _) = app.transition(Message::ConnectedSerial);
    next
}

#[test]
fn raw_serial_request_is_accepted_while_serial_is_available() {
    let app = connect_serial(app_with_clients(&["c1"]));
    let payload = "{\"tick\":5,\"kind\":\"raw_serial\",\"value\":\"G0 X1\"}";
    let (_, cmds) = app.transition(Message::Http(http::Message::ClientData(
        "c1".to_string(),
        payload.to_string(),
    )));
    let cmds = cmds.expect("commands expected");
    assert_eq!(cmds.len(), 3);
    match &cmds[0] {
        Command::Serial(SerialCommand::Raw(text)) => assert_eq!(text, "G0 X1"),
        _ => panic!("first command should be the raw serial write"),
    }
    match &cmds[1] {
        Command::Http(http::Command::SendState(id, resp)) => {
            assert_eq!(id, "c1");
            assert_eq!(resp, "{\"kind\":\"response\",\"tick\":5,\"status\":\"ok\"}");
        },
        _ => panic!("second command should be the acknowledgment"),
    }
    match &cmds[2] {
        Command::Http(http::Command::SendState(id, state)) => {
            assert_eq!(id, "c1");
            assert!(state.contains("\"serial_available\":true"));
            assert!(state.contains("\"tick\":5"));
        },
        _ => panic!("third command should be the state refresh"),
    }
}

#[test]
fn serial_disconnect_notifies_every_connected_client() {
    let app = connect_serial(app_with_clients(&["a", "b"]));
    let (next, cmds) = app.transition(Message::DisconnectedSerial);
    assert!(!next.serial.available());
    let cmds = cmds.expect("both clients should be refreshed");
    assert_eq!(cmds.len(), 2);
    let mut seen = Vec::new();
    for command in &cmds {
        match command {
            Command::Http(http::Command::SendState(id, state)) => {
                assert!(state.contains("\"serial_available\":false"));
                seen.push(id.clone());
            },
            _ => panic!("only state refreshes expected"),
        }
    }
    assert_eq!(seen, vec!["a".to_string(), "b".to_string()]);
}

#[test]
fn configuration_before_device_reachable_goes_pending_then_idle() {
    let app = app_with_clients(&["c1"]);
    assert!(matches!(
        app.serial.connection,
        SerialConnectionState::Disconnected
    ));
    let payload = "{\"tick\":1,\"kind\":\"configuration\",\"device\":\"/dev/ttyACM0\",\"baud\":9600}";
    let (app, cmds) = app.transition(Message::Http(http::Message::ClientData(
        "c1".to_string(),
        payload.to_string(),
    )));
    assert!(matches!(
        app.serial.connection,
        SerialConnectionState::PendingAttempt
    ));
    let cmds = cmds.unwrap();
    match &cmds[0] {
        Command::Serial(SerialCommand::Configure(config)) => {
            assert_eq!(config.device, "/dev/ttyACM0");
            assert_eq!(config.baud, 9600);
        },
        _ => panic!("first command should configure the serial manager"),
    }
    let (app, _) = app.transition(Message::ConnectedSerial);
    assert!(matches!(
        app.serial.connection,
        SerialConnectionState::Idle(None)
    ));
    assert!(app.serial.available());
}

#[test]
fn malformed_client_data_gets_a_failed_acknowledgment() {
    let app = app_with_clients(&["c1"]);
    let (_, cmds) = app.transition(Message::Http(http::Message::ClientData(
        "c1".to_string(),
        "not json".to_string(),
    )));
    let cmds = cmds.unwrap();
    assert_eq!(cmds.len(), 1);
    match &cmds[0] {
        Command::Http(http::Command::SendState(id, resp)) => {
            assert_eq!(id, "c1");
            assert_eq!(resp, "{\"kind\":\"response\",\"tick\":0,\"status\":\"failed\"}");
        },
        _ => panic!("only the failed acknowledgment expected"),
    }
}

#[test]
fn data_from_an_unknown_client_is_ignored() {
    let app = app_with_clients(&["c1"]);
    let (_, cmds) = app.transition(Message::Http(http::Message::ClientData(
        "ghost".to_string(),
        "{\"tick\":1,\"kind\":\"retry_serial\"}".to_string(),
    )));
    assert!(cmds.is_none());
}

#[test]
fn fresh_client_state_renders_exactly() {
    let app = app_with_clients(&["a", "b"]);
    let (_, cmds) = app.transition(Message::DisconnectedSerial);
    let cmds = cmds.unwrap();
    match &cmds[0] {
        Command::Http(http::Command::SendState(_, state)) => {
            assert_eq!(
                state,
                "{\"kind\":\"state\",\"tick\":0,\"history\":[],\"serial_available\":false,\"last_config\":null}"
            );
        },
        _ => panic!("state refresh expected"),
    }
}

#[test]
fn device_output_joins_every_client_history() {
    let app = app_with_clients(&["a"]);
    let (app, cmds) = app.transition(Message::Serial("<Idle>".to_string()));
    let cmds = cmds.unwrap();
    assert_eq!(cmds.len(), 1);
    match &cmds[0] {
        Command::Http(http::Command::SendState(id, state)) => {
            assert_eq!(id, "a");
            assert!(state.contains(
                "{\"history_kind\":\"received_data\",\"content\":\"<Idle>\"}"
            ));
        },
        _ => panic!("state refresh expected"),
    }
    assert_eq!(app.connected_clients.entries[0].state.history.len(), 1);
}

#[test]
fn device_output_with_no_clients_is_dropped() {
    let app = Application::new();
    let (_, cmds) = app.transition(Message::Serial("ok".to_string()));
    assert!(cmds.is_none());
}

#[test]
fn client_history_is_bounded() {
    let mut app = app_with_clients(&["a"]);
    let mut i = 0;
    while i < 70 {
        let (next, _) = app.transition(Message::Serial(format!("line {}", i)));
        app = next;
        i += 1;
    }
    assert_eq!(app.connected_clients.entries[0].state.history.len(), 64);
}

#[test]
fn client_disconnect_removes_its_slot() {
    let app = app_with_clients(&["a", "b"]);
    let (app, cmds) = app.transition(Message::Http(http::Message::ClientDisconnected(
        "a".to_string(),
    )));
    assert!(cmds.is_none());
    assert_eq!(app.connected_clients.entries.len(), 1);
    assert_eq!(app.connected_clients.entries[0].id, "b");
}

#[test]
fn tick_drains_one_file_line_per_tick() {
    let app = connect_serial(app_with_clients(&[]));
    let (app, cmds) = app.transition(Message::Http(http::Message::FileUpload(
        "G0 X1\nG0 X2\n".to_string(),
    )));
    assert!(cmds.is_none());
    assert!(matches!(
        app.serial.connection,
        SerialConnectionState::SendingFile(_)
    ));
    let (app, cmds) = app.transition(Message::Tick { now_ms: 1000 });
    let cmds = cmds.unwrap();
    assert_eq!(cmds.len(), 1);
    assert!(matches!(&cmds[0], Command::Serial(SerialCommand::Raw(line)) if line == "G0 X1"));
    let (app, cmds) = app.transition(Message::Tick { now_ms: 1050 });
    let cmds = cmds.unwrap();
    assert!(matches!(&cmds[0], Command::Serial(SerialCommand::Raw(line)) if line == "G0 X2"));
    // The file is drained: the next tick returns to polling.
    let (app, cmds) = app.transition(Message::Tick { now_ms: 1100 });
    let cmds = cmds.unwrap();
    assert_eq!(cmds.len(), 1);
    assert!(matches!(&cmds[0], Command::Serial(SerialCommand::Status)));
    assert!(matches!(
        app.serial.connection,
        SerialConnectionState::Idle(Some(1100))
    ));
}

#[test]
fn file_upload_needs_an_available_serial_connection() {
    let app = app_with_clients(&[]);
    let (app, cmds) = app.transition(Message::Http(http::Message::FileUpload(
        "G0 X1\n".to_string(),
    )));
    assert!(cmds.is_none());
    assert!(matches!(
        app.serial.connection,
        SerialConnectionState::Disconnected
    ));
}

#[test]
fn idle_polling_waits_out_the_ping_interval() {
    let app = connect_serial(app_with_clients(&[]));
    let (app, cmds) = app.transition(Message::Tick { now_ms: 10000 });
    assert_eq!(cmds.unwrap().len(), 1);
    // Too soon: nothing to do.
    let (app, cmds) = app.transition(Message::Tick { now_ms: 13999 });
    assert_eq!(cmds.unwrap().len(), 0);
    // Past the interval: poll again.
    let (_, cmds) = app.transition(Message::Tick { now_ms: 14001 });
    let cmds = cmds.unwrap();
    assert_eq!(cmds.len(), 1);
    assert!(matches!(&cmds[0], Command::Serial(SerialCommand::Status)));
}

#[test]
fn broadcast_is_rate_limited() {
    let app = connect_serial(app_with_clients(&["a"]));
    // The first broadcast only seeds the clock.
    let (app, cmds) = app.transition(Message::Broadcast { now_ms: 1000 });
    assert!(cmds.is_none());
    // Too soon after the last one.
    let (app, cmds) = app.transition(Message::Broadcast { now_ms: 2500 });
    assert!(cmds.is_none());
    // Late enough: every client is refreshed.
    let (_, cmds) = app.transition(Message::Broadcast { now_ms: 3100 });
    let cmds = cmds.unwrap();
    assert_eq!(cmds.len(), 1);
    assert!(matches!(&cmds[0], Command::Http(http::Command::SendState(id, _)) if id == "a"));
}

#[test]
fn initialize_publishes_the_startup_configuration() {
    let app = Application::new();
    let flags = Configuration {
        http: http::Configuration { addr: "0.0.0.0:8080".to_string() },
        serial: Some(SerialConfiguration { device: "/dev/ttyUSB0".to_string(), baud: 115200 }),
        timing: Some(TimingConfiguration { broadcast_interval: 2 }),
    };
    let (app, cmds) = app.initialize(flags);
    assert!(matches!(
        app.serial.connection,
        SerialConnectionState::Disconnected
    ));
    let cmds = cmds.unwrap();
    assert_eq!(cmds.len(), 1);
    assert!(matches!(
        &cmds[0],
        Command::Serial(SerialCommand::Configure(config)) if config.device == "/dev/ttyUSB0"
    ));
}

#[test]
fn initialize_without_serial_config_changes_nothing() {
    let app = Application::new();
    let flags = Configuration {
        http: http::Configuration { addr: "0.0.0.0:8080".to_string() },
        serial: None,
        timing: None,
    };
    let (app, cmds) = app.initialize(flags);
    assert!(cmds.is_none());
    assert!(matches!(
        app.serial.connection,
        SerialConnectionState::Disconnected
    ));
    assert!(app.serial.last_config.is_none());
}

#[test]
fn state_with_history_renders_exactly() {
    let app = connect_serial(app_with_clients(&["c1"]));
    let payload = "{\"tick\":5,\"kind\":\"raw_serial\",\"value\":\"G0 X1\"}";
    let (_, cmds) = app.transition(Message::Http(http::Message::ClientData(
        "c1".to_string(),
        payload.to_string(),
    )));
    let cmds = cmds.unwrap();
    match &cmds[2] {
        Command::Http(http::Command::SendState(_, state)) => {
            assert_eq!(
                state,
                "{\"kind\":\"state\",\"tick\":5,\"history\":[{\"history_kind\":\"sent_command\",\"tick\":5,\"kind\":\"raw_serial\",\"value\":\"G0 X1\"}],\"serial_available\":true,\"last_config\":null}"
            );
        },
        _ => panic!("state refresh expected"),
    }
}

#[test]
fn state_echoes_the_applied_configuration() {
    let app = app_with_clients(&["c1"]);
    let payload = "{\"tick\":3,\"kind\":\"configuration\",\"device\":\"/dev/ttyACM0\",\"baud\":9600}";
    let (_, cmds) = app.transition(Message::Http(http::Message::ClientData(
        "c1".to_string(),
        payload.to_string(),
    )));
    let cmds = cmds.unwrap();
    match &cmds[2] {
        Command::Http(http::Command::SendState(_, state)) => {
            assert_eq!(
                state,
                "{\"kind\":\"state\",\"tick\":3,\"history\":[],\"serial_available\":false,\"last_config\":{\"device\":\"/dev/ttyACM0\",\"baud\":9600}}"
            );
        },
        _ => panic!("state refresh expected"),
    }
}

#[test]
fn device_output_is_escaped_in_the_rendered_history() {
    let app = app_with_clients(&["c1"]);
    let (_, cmds) = app.transition(Message::Serial("say \"hi\"\tnow".to_string()));
    let cmds = cmds.unwrap();
    match &cmds[0] {
        Command::Http(http::Command::SendState(_, state)) => {
            assert!(state.contains(
                "{\"history_kind\":\"received_data\",\"content\":\"say \\\"hi\\\"\\tnow\"}"
            ));
        },
        _ => panic!("state refresh expected"),
    }
}

#[test]
fn non_ascii_client_payloads_parse() {
    let app = connect_serial(app_with_clients(&["c1"]));
    let payload = "{\"tick\":7,\"kind\":\"raw_serial\",\"value\":\"héllo°\"}";
    let (_, cmds) = app.transition(Message::Http(http::Message::ClientData(
        "c1".to_string(),
        payload.to_string(),
    )));
    let cmds = cmds.unwrap();
    assert!(matches!(&cmds[0], Command::Serial(SerialCommand::Raw(text)) if text == "héllo°"));
}
