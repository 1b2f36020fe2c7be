//! One ping from beginning to end, without a network.

use lite_mc_ping::json::Value;
use lite_mc_ping::protocol::{
    build_handshake, build_ping_packet, build_status_frame, build_status_request, read_frame,
};
use lite_mc_ping::session::{Action, Event, Session};
use lite_mc_ping::srv::SrvRecord;
use lite_mc_ping::{Error, PingOptions, Players, ServerAddress, StatusResponse, Version};
use std::time::Duration;

/// Status response the fake server answers with.
const STATUS_JSON: &str = r#"{"version":{"name":"1.21.4","protocol":769},"players":{"max":10,"online":1},"description":"Hi"}"#;

fn status() -> StatusResponse {
    StatusResponse {
        version: Version {
            name: "1.21.4".to_string(),
            protocol: 769,
        },
        players: Players {
            max: 10,
            online: 1,
            sample: vec![],
        },
        description: Value::String("Hi".to_string()),
        favicon: None,
        enforces_secure_chat: None,
        previews_chat: None,
    }
}

fn status_frame() -> Vec<u8> {
    let frame = build_status_frame(STATUS_JSON).unwrap();
    read_frame(&frame, 1024).unwrap().unwrap().0
}

fn measured_options(timeout: Duration) -> PingOptions {
    PingOptions {
        measure_latency: true,
        timeout,
        ..Default::default()
    }
}

fn sent(action: Action) -> Vec<u8> {
    match action {
        Action::Send(bytes) => bytes,
        _ => panic!("nothing sent"),
    }
}

/// A ping that has sent its status request.
fn requested(address: ServerAddress, options: PingOptions) -> Session {
    let (session, action) = Session::start(address, options);
    assert!(matches!(action, Action::Connect(_, _)));
    let (session, _) = session.step(Event::Connected);
    let (session, _) = session.step(Event::Sent);
    let (session, action) = session.step(Event::Sent);
    assert!(matches!(action, Action::ReadFrame(1_048_576)));
    session
}

/// A ping that has its status and has sent the latency ping.
fn pinging(timeout: Duration) -> Session {
    let session = requested(
        ServerAddress::new("127.0.0.1", 25565),
        measured_options(timeout),
    );
    let (session, action) = session.step(Event::Frame(status_frame()));
    match action {
        Action::Decode(json) => assert_eq!(json, STATUS_JSON.as_bytes()),
        _ => panic!("nothing to decode"),
    }
    let (session, action) = session.step(Event::Decoded(status()));
    assert!(matches!(action, Action::ReadClock));
    let (session, action) = session.step(Event::Time(Some(77)));
    assert_eq!(sent(action), build_ping_packet(77).unwrap());
    let (session, action) = session.step(Event::Sent);
    assert!(matches!(action, Action::ReadFrame(1_048_576)));
    session
}

/// A server that hangs up after the status must still deliver its status: the
/// round trip is best-effort, so the failed measurement reports `None` instead
/// of discarding the response.
#[test]
fn latency_failure_still_returns_status() {
    let session = pinging(Duration::from_secs(5));
    let error = std::io::Error::from(std::io::ErrorKind::UnexpectedEof);
    let (_, action) = session.step(Event::Failed(Error::Io(error)));
    let result = match action {
        Action::Finish(result) => result.unwrap(),
        _ => panic!("not over"),
    };
    assert_eq!(result.status.version.name, "1.21.4");
    assert_eq!(result.status.description, Value::String("Hi".to_string()));
    assert!(result.latency.is_none(), "a failed round trip reports None");
}

/// Same for a server that keeps the connection open and never answers the ping:
/// running out of time costs the latency, not the result.
#[test]
fn latency_timeout_still_returns_status() {
    let session = pinging(Duration::from_millis(250));
    let (_, action) = session.step(Event::TimedOut);
    let result = match action {
        Action::Finish(result) => result.unwrap(),
        _ => panic!("not over"),
    };
    assert_eq!(result.status.version.name, "1.21.4");
    assert!(result.latency.is_none(), "an unanswered ping reports None");
}

#[test]
fn a_pong_yields_the_latency() {
    let session = pinging(Duration::from_secs(5));
    let (pong, _) = read_frame(&build_ping_packet(77).unwrap(), 9).unwrap().unwrap();
    let (session, action) = session.step(Event::Frame(pong));
    assert!(matches!(action, Action::Measure));
    let (_, action) = session.step(Event::Elapsed(Duration::from_millis(31)));
    match action {
        Action::Finish(Ok(result)) => {
            assert_eq!(result.latency, Some(Duration::from_millis(31)));
            assert_eq!(result.status, status());
        }
        _ => panic!("no result"),
    }
}

#[test]
fn a_malformed_pong_costs_only_the_latency() {
    for frame in [vec![], vec![0x00], vec![0x01, 1, 2]] {
        let (_, action) = pinging(Duration::from_secs(5)).step(Event::Frame(frame));
        match action {
            Action::Finish(Ok(result)) => {
                assert_eq!(result.latency, None);
                assert_eq!(result.status, status());
            }
            _ => panic!("no result"),
        }
    }
}

#[test]
fn latency_is_off_by_default() {
    let session = requested(
        ServerAddress::new("127.0.0.1", 25565),
        PingOptions::default(),
    );
    let (session, _) = session.step(Event::Frame(status_frame()));
    let (_, action) = session.step(Event::Decoded(status()));
    match action {
        Action::Finish(Ok(result)) => {
            assert_eq!(result.latency, None);
            assert_eq!(result.status, status());
        }
        _ => panic!("no result"),
    }
}

#[test]
fn the_conversation_is_handshake_then_request() {
    let (session, action) = Session::start(
        ServerAddress::new("mc.example.com", 25566),
        PingOptions::default(),
    );
    match action {
        Action::Connect(host, port) => {
            assert_eq!((host.as_str(), port), ("mc.example.com", 25566));
        }
        _ => panic!("no connection"),
    }
    let (session, action) = session.step(Event::Connected);
    assert_eq!(
        sent(action),
        build_handshake(-1, "mc.example.com", 25566).unwrap()
    );
    let (_, action) = session.step(Event::Sent);
    assert_eq!(sent(action), build_status_request().unwrap());
}

#[test]
fn the_handshake_keeps_the_original_host() {
    let (session, action) = Session::start(
        ServerAddress::without_port("mc.example.com"),
        PingOptions::default(),
    );
    match action {
        Action::Lookup(name) => assert_eq!(name, "_minecraft._tcp.mc.example.com."),
        _ => panic!("no lookup"),
    }
    let record = SrvRecord {
        priority: 1,
        weight: 1,
        port: 25570,
        target: "node.example.com".to_string(),
    };
    let (session, action) = session.step(Event::Record(Some(record)));
    match action {
        Action::Connect(host, port) => {
            assert_eq!((host.as_str(), port), ("node.example.com", 25570));
        }
        _ => panic!("no connection"),
    }
    let (_, action) = session.step(Event::Connected);
    assert_eq!(
        sent(action),
        build_handshake(-1, "mc.example.com", 25570).unwrap()
    );
}

#[test]
fn a_lookup_without_record_falls_back() {
    let (session, _) = Session::start(
        ServerAddress::without_port("mc.example.com"),
        PingOptions::default(),
    );
    let (_, action) = session.step(Event::Record(None));
    match action {
        Action::Connect(host, port) => {
            assert_eq!((host.as_str(), port), ("mc.example.com", 25565));
        }
        _ => panic!("no connection"),
    }
}

#[test]
fn srv_disabled_connects_to_the_address_as_given() {
    let options = PingOptions {
        use_srv: false,
        ..Default::default()
    };
    let (_, action) = Session::start(ServerAddress::without_port("mc233.cn"), options);
    match action {
        Action::Connect(host, port) => assert_eq!((host.as_str(), port), ("mc233.cn", 25565)),
        _ => panic!("no connection"),
    }
}

#[test]
fn wildcards_are_refused() {
    let (session, _) = Session::start(
        ServerAddress::without_port("mc.example.com"),
        PingOptions::default(),
    );
    let record = SrvRecord {
        priority: 1,
        weight: 1,
        port: 1,
        target: "*.example.com".to_string(),
    };
    let (_, action) = session.step(Event::Record(Some(record)));
    match action {
        Action::Finish(Err(Error::Dns(message))) => assert_eq!(
            message,
            r#"SRV target "*.example.com" is a wildcard and cannot be connected to"#
        ),
        _ => panic!("not refused"),
    }
}

#[test]
fn running_out_of_time_before_the_status_fails_the_ping() {
    let options = PingOptions {
        timeout: Duration::from_millis(1),
        ..Default::default()
    };
    let (session, _) = Session::start(ServerAddress::without_port("mc233.cn"), options.clone());
    let (_, action) = session.step(Event::TimedOut);
    match action {
        Action::Finish(Err(Error::Timeout(after))) => assert_eq!(after, Duration::from_millis(1)),
        _ => panic!("no timeout"),
    }
    let session = requested(ServerAddress::new("127.0.0.1", 1), options);
    let (_, action) = session.step(Event::TimedOut);
    assert!(matches!(action, Action::Finish(Err(Error::Timeout(_)))));
}

#[test]
fn failures_before_the_status_fail_the_ping() {
    let (session, _) = Session::start(ServerAddress::new("127.0.0.1", 1), PingOptions::default());
    let error = std::io::Error::from(std::io::ErrorKind::ConnectionRefused);
    let (_, action) = session.step(Event::Failed(Error::Io(error)));
    match action {
        Action::Finish(Err(Error::Io(e))) => {
            assert_eq!(e.kind(), std::io::ErrorKind::ConnectionRefused);
        }
        _ => panic!("no error"),
    }
    let session = requested(ServerAddress::new("127.0.0.1", 1), PingOptions::default());
    let (session, _) = session.step(Event::Frame(status_frame()));
    let error = serde_json::from_str::<serde_json::Value>("{").unwrap_err();
    let (_, action) = session.step(Event::Failed(Error::Json(error)));
    assert!(matches!(action, Action::Finish(Err(Error::Json(_)))));
}

#[test]
fn an_unexpected_status_packet_fails_the_ping() {
    let session = requested(ServerAddress::new("127.0.0.1", 1), PingOptions::default());
    let (_, action) = session.step(Event::Frame(vec![0x05]));
    assert!(matches!(
        action,
        Action::Finish(Err(Error::UnexpectedPacket {
            expected: 0x00,
            got: 0x05
        }))
    ));
}

#[test]
fn outside_errors_become_the_library_s() {
    let error = Error::from(std::io::Error::from(std::io::ErrorKind::BrokenPipe));
    assert!(matches!(error, Error::Io(e) if e.kind() == std::io::ErrorKind::BrokenPipe));
    let error = Error::from(serde_json::from_str::<serde_json::Value>("{").unwrap_err());
    assert!(matches!(error, Error::Json(e) if e.is_eof()));
}
