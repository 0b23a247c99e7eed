use gateway_codec::gateway::{parse_gateway_event, parse_gateway_event_in_place,
    GatewayEventParsingError};
use twilight_model::gateway::event::GatewayEvent;

#[test]
fn heartbeat_parses_with_both_engines() {
    let body = "{\"op\":1,\"d\":251}";
    let a = parse_gateway_event(1, None, None, body).unwrap();
    let b = parse_gateway_event_in_place(1, None, None, body.to_string()).unwrap();
    assert!(matches!(a, GatewayEvent::Heartbeat(251)));
    assert!(matches!(b, GatewayEvent::Heartbeat(251)));
}

#[test]
fn hello_parses_with_both_engines() {
    let body = "{\"op\":10,\"d\":{\"heartbeat_interval\":41250}}";
    let a = parse_gateway_event(10, None, None, body).unwrap();
    let b = parse_gateway_event_in_place(10, None, None, body.to_string()).unwrap();
    assert!(matches!(a, GatewayEvent::Hello(41250)));
    assert!(matches!(b, GatewayEvent::Hello(41250)));
}

#[test]
fn heartbeat_ack_parses_with_both_engines() {
    let body = "{\"op\":11}";
    let a = parse_gateway_event(11, None, None, body).unwrap();
    let b = parse_gateway_event_in_place(11, None, None, body.to_string()).unwrap();
    assert!(matches!(a, GatewayEvent::HeartbeatAck));
    assert!(matches!(b, GatewayEvent::HeartbeatAck));
}

#[test]
fn invalid_body_is_malformed_with_cause() {
    let body = "{\"op\":0,\"t\":\"EXAMPLE\",\"d\":{";
    let r = parse_gateway_event(0, Some(1), Some("EXAMPLE"), body);
    assert!(matches!(r, Err(GatewayEventParsingError::Deserializing { .. })));
    let msg = r.unwrap_err().message();
    assert!(!msg.is_empty());
}

#[test]
fn invalid_text_fails_both_engines() {
    let garbage = "not json at all";
    assert!(parse_gateway_event(1, None, None, garbage).is_err());
    assert!(parse_gateway_event_in_place(1, None, None, garbage.to_string()).is_err());
}

#[test]
fn in_place_structural_failure_carries_cause() {
    let r = parse_gateway_event_in_place(1, None, None, "{{{".to_string());
    assert!(matches!(r, Err(GatewayEventParsingError::DeserializingInPlace { .. })));
    assert!(!r.unwrap_err().message().is_empty());
}
