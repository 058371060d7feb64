use costanza::protocol::{parse_client_message, render_response, ClientMessageRequest};

#[test]
fn raw_serial_envelope_parses() {
    let m = parse_client_message("{\"tick\":5,\"kind\":\"raw_serial\",\"value\":\"G0 X1\"}")
        .expect("payload should parse");
    assert_eq!(m.tick, 5);
    match m.request {
        ClientMessageRequest::RawSerial(value) => assert_eq!(value, "G0 X1"),
        _ => panic!("wrong request kind"),
    }
}

#[test]
fn envelope_fields_may_come_in_any_order() {
    let m = parse_client_message("{ \"kind\" : \"raw_serial\" , \"value\" : \"?\", \"tick\" : 9 }")
        .expect("payload should parse");
    assert_eq!(m.tick, 9);
    match m.request {
        ClientMessageRequest::RawSerial(value) => assert_eq!(value, "?"),
        _ => panic!("wrong request kind"),
    }
}

#[test]
fn configuration_envelope_parses() {
    let m = parse_client_message(
        "{\"tick\":2,\"kind\":\"configuration\",\"device\":\"/dev/ttyUSB0\",\"baud\":115200}",
    )
    .expect("payload should parse");
    assert_eq!(m.tick, 2);
    match m.request {
        ClientMessageRequest::Configuration(config) => {
            assert_eq!(config.device, "/dev/ttyUSB0");
            assert_eq!(config.baud, 115200);
        },
        _ => panic!("wrong request kind"),
    }
}

#[test]
fn close_and_retry_envelopes_parse() {
    let close = parse_client_message("{\"tick\":1,\"kind\":\"close_serial\"}").unwrap();
    assert!(matches!(close.request, ClientMessageRequest::CloseSerial));
    let retry = parse_client_message("{\"tick\":1,\"kind\":\"retry_serial\"}").unwrap();
    assert!(matches!(retry.request, ClientMessageRequest::RetrySerial));
}

#[test]
fn string_escapes_are_unescaped() {
    let m = parse_client_message(
        "{\"tick\":1,\"kind\":\"raw_serial\",\"value\":\"a\\nb\\t\\\"c\\\" \\u0041\"}",
    )
    .unwrap();
    match m.request {
        ClientMessageRequest::RawSerial(value) => assert_eq!(value, "a\nb\t\"c\" A"),
        _ => panic!("wrong request kind"),
    }
}

#[test]
fn malformed_payloads_do_not_parse() {
    assert!(parse_client_message("").is_none());
    assert!(parse_client_message("not json").is_none());
    assert!(parse_client_message("{\"tick\":5}").is_none());
    assert!(parse_client_message("{\"kind\":\"raw_serial\",\"value\":\"x\"}").is_none());
    assert!(parse_client_message("{\"tick\":5,\"kind\":\"raw_serial\"}").is_none());
    assert!(parse_client_message("{\"tick\":5,\"kind\":\"nope\"}").is_none());
    assert!(parse_client_message("{\"tick\":\"5\",\"kind\":\"close_serial\"}").is_none());
    assert!(parse_client_message("{\"tick\":5,\"kind\":\"close_serial\"} tail").is_none());
}

#[test]
fn oversized_and_padded_ticks_do_not_parse() {
    assert!(parse_client_message("{\"tick\":4294967295,\"kind\":\"close_serial\"}").is_some());
    assert!(parse_client_message("{\"tick\":4294967296,\"kind\":\"close_serial\"}").is_none());
    assert!(parse_client_message("{\"tick\":01,\"kind\":\"close_serial\"}").is_none());
}

#[test]
fn response_rendering_is_exact() {
    assert_eq!(
        render_response(5, true),
        "{\"kind\":\"response\",\"tick\":5,\"status\":\"ok\"}"
    );
    assert_eq!(
        render_response(0, false),
        "{\"kind\":\"response\",\"tick\":0,\"status\":\"failed\"}"
    );
    assert_eq!(
        render_response(1234567890, true),
        "{\"kind\":\"response\",\"tick\":1234567890,\"status\":\"ok\"}"
    );
}
