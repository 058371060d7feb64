use costanza::application::{
    AppCommandFilter, Application, Command, HttpFilter, Message, SerialCommand, SerialFilter,
    SerialParser, TickFilter,
};
use costanza::eff::{EffectError, EffectRuntime};
use costanza::http::{self, Http};
use costanza::serial::Serial;
use costanza::ticker::Ticker;

type AppRuntime = EffectRuntime<
    Message,
    Command,
    Application,
    costanza::application::Configuration,
    AppCommandFilter,
>;

fn wired_runtime() -> AppRuntime {
    let mut serial_ticks: Ticker<Command, Message> = Ticker::new(50);
    let mut broadcast_ticks: Ticker<Command, Message> = Ticker::new(2000);
    let mut serial_effects: Serial<Command, Message, SerialParser> =
        Serial::new(None, SerialParser {});
    let mut http_effects: Http<Command, Message> =
        Http::new(http::Configuration { addr: "0.0.0.0:8080".to_string() });
    let mut runtime = EffectRuntime::new(Application::new());
    runtime
        .register(&mut serial_ticks, AppCommandFilter::Tick(TickFilter {}))
        .unwrap();
    runtime
        .register(&mut broadcast_ticks, AppCommandFilter::Tick(TickFilter {}))
        .unwrap();
    runtime
        .register(&mut serial_effects, AppCommandFilter::Serial(SerialFilter {}))
        .unwrap();
    runtime
        .register(&mut http_effects, AppCommandFilter::Http(HttpFilter {}))
        .unwrap();
    runtime
}

#[test]
fn registration_detaches_each_manager_exactly_once() {
    let mut ticker: Ticker<Command, Message> = Ticker::new(50);
    let mut runtime = EffectRuntime::new(Application::new());
    assert!(runtime
        .register(&mut ticker, AppCommandFilter::Tick(TickFilter {}))
        .is_ok());
    assert_eq!(
        runtime.register(&mut ticker, AppCommandFilter::Tick(TickFilter {})),
        Err(EffectError::AlreadyDetached)
    );
}

#[test]
fn serial_commands_route_to_the_serial_manager_only() {
    let runtime = wired_runtime();
    let command = Command::Serial(SerialCommand::Status);
    assert_eq!(runtime.route(&command), Some(2));
}

#[test]
fn http_commands_route_to_the_gateway_only() {
    let runtime = wired_runtime();
    let command = Command::Http(http::Command::SendState(
        "c".to_string(),
        "{}".to_string(),
    ));
    assert_eq!(runtime.route(&command), Some(3));
}

#[test]
fn dispatch_routes_every_produced_command_to_one_manager() {
    let runtime = wired_runtime();
    let (runtime, plan, _) = runtime.dispatch(Message::Http(http::Message::ClientConnected(
        "c1".to_string(),
    )));
    assert!(plan.is_empty());
    let (_, plan, _) = runtime.dispatch(Message::DisconnectedSerial);
    assert_eq!(plan.len(), 1);
    let (index, command) = &plan[0];
    assert_eq!(*index, 3);
    assert!(matches!(command, Command::Http(http::Command::SendState(id, _)) if id == "c1"));
}

#[test]
fn only_gateway_commands_carry_a_gateway_payload() {
    let inner = http::Command::SendState("c".to_string(), "{}".to_string());
    let routed = costanza::application::into_http(Command::Http(inner));
    assert!(matches!(routed, Some(http::Command::SendState(id, _)) if id == "c"));
    assert!(costanza::application::into_http(Command::Serial(SerialCommand::Status)).is_none());
}
