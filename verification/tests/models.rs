//! Addresses and options.

use lite_mc_ping::{PingOptions, Players, ServerAddress, DEFAULT_PORT};
use std::time::Duration;

#[test]
fn parse_host_only_leaves_port_open() {
    let a: ServerAddress = "mc.example.com".parse().unwrap();
    assert_eq!(a, ServerAddress::without_port("mc.example.com"));
    assert_eq!(a.port, None);
    assert_eq!(a.effective_port(), DEFAULT_PORT);
}

#[test]
fn parse_host_port_is_explicit() {
    let a: ServerAddress = "mc.example.com:25566".parse().unwrap();
    assert_eq!(a, ServerAddress::new("mc.example.com", 25566));
    assert_eq!(a.port, Some(25566));
}

#[test]
fn parse_bracketed_ipv6() {
    let a: ServerAddress = "[::1]:25565".parse().unwrap();
    assert_eq!(a, ServerAddress::new("::1", 25565));
    let b: ServerAddress = "[2001:db8::5]".parse().unwrap();
    assert_eq!(b, ServerAddress::without_port("2001:db8::5"));
}

#[test]
fn parse_bare_ipv6() {
    let a: ServerAddress = "::1".parse().unwrap();
    assert_eq!(a, ServerAddress::without_port("::1"));
}

#[test]
fn display_formats_ipv6_with_brackets() {
    assert_eq!(ServerAddress::new("::1", 25565).to_string(), "[::1]:25565");
    assert_eq!(ServerAddress::without_port("::1").to_string(), "[::1]");
    assert_eq!(
        ServerAddress::new("mc.example.com", 25566).to_string(),
        "mc.example.com:25566"
    );
}

/// Displaying what was parsed, and not a defaulted port, keeps the SRV decision
/// intact across a round trip.
#[test]
fn display_round_trips() {
    for input in [
        "mc.example.com",
        "mc.example.com:25566",
        "[::1]",
        "[::1]:25565",
    ] {
        let address: ServerAddress = input.parse().unwrap();
        assert_eq!(address.to_string(), input);
        assert_eq!(
            address.to_string().parse::<ServerAddress>().unwrap(),
            address
        );
    }
}

/// Only a bare hostname leaves the port open for SRV to fill in.
#[test]
fn srv_applies_only_to_bare_hostnames() {
    for input in ["mc.example.com", "mc233.cn"] {
        assert!(
            input.parse::<ServerAddress>().unwrap().allows_srv(),
            "{input}"
        );
    }
    for input in [
        "mc.example.com:25565",
        "mc.example.com:25566",
        "1.2.3.4",
        "1.2.3.4:25565",
        "[::1]",
        "[::1]:25565",
    ] {
        assert!(
            !input.parse::<ServerAddress>().unwrap().allows_srv(),
            "{input}"
        );
    }
}

#[test]
fn invalid_port_is_rejected() {
    assert!("mc.example.com:port".parse::<ServerAddress>().is_err());
    assert!("[::1]:abc".parse::<ServerAddress>().is_err());
    assert!("".parse::<ServerAddress>().is_err());
}

/// Malformed addresses are reported rather than silently turning the port into
/// part of the hostname, which would fail later as a DNS error.
#[test]
fn malformed_addresses_are_rejected() {
    for input in [
        "mc.example.com:",
        ":123",
        "mc.example.com:70000",
        "mc.example.com:25565:99",
        "[::1]:",
        "[::1]junk",
        "[]",
    ] {
        assert!(input.parse::<ServerAddress>().is_err(), "{input}");
    }
}

#[test]
fn options_defaults() {
    let o = PingOptions::default();
    assert_eq!(o.protocol_version, -1);
    assert!(!o.measure_latency);
    assert_eq!(o.timeout, Duration::from_secs(5));
    assert!(o.use_srv);
}

#[test]
fn frame_size_defaults_to_one_mebibyte() {
    assert_eq!(PingOptions::default().max_frame_size, 1_048_576);
    assert_eq!(PingOptions::default().clone(), PingOptions::default());
}

#[test]
fn missing_players_default_to_none() {
    let players = Players::default();
    assert_eq!((players.max, players.online), (0, 0));
    assert!(players.sample.is_empty());
}

#[test]
fn each_error_has_its_message() {
    for (input, message) in [
        ("  ", "empty address"),
        ("[::1", r#"missing ']' in "[::1""#),
        ("[]:1", r#"missing host in "[]:1""#),
        ("[::1]x", r#"unexpected "x" after ']' in "[::1]x""#),
        ("[::1]:", r#"invalid port """#),
        (":123", r#"missing host in ":123""#),
        ("a:70000", r#"invalid port "70000""#),
        (
            "a:1:2",
            r#"invalid host "a:1" in "a:1:2": write IPv6 literals in brackets"#,
        ),
        ("a\"b:x\n!", r#"invalid port "x\n!""#),
    ] {
        assert_eq!(
            input.parse::<ServerAddress>(),
            Err(message.to_string()),
            "{input}"
        );
    }
}

#[test]
fn the_port_is_judged_before_the_host() {
    assert_eq!(
        ":x".parse::<ServerAddress>(),
        Err(r#"invalid port "x""#.to_string())
    );
    assert_eq!(
        "a:b:c".parse::<ServerAddress>(),
        Err(r#"invalid port "c""#.to_string())
    );
}

#[test]
fn surrounding_whitespace_is_trimmed() {
    let expected = ServerAddress::new("mc.example.com", 1);
    for input in [
        " mc.example.com:1",
        "mc.example.com:1\n",
        "\u{3000}\tmc.example.com:1\u{a0}",
    ] {
        assert_eq!(input.parse::<ServerAddress>().unwrap(), expected);
    }
}

#[test]
fn ports_cover_their_range() {
    for (input, port) in [("a:0", 0), ("a:65535", 65535), ("a:+7", 7), ("a:0080", 80)] {
        assert_eq!(
            input.parse::<ServerAddress>().unwrap(),
            ServerAddress::new("a", port)
        );
    }
    assert!("a:65536".parse::<ServerAddress>().is_err());
    assert!("a:-1".parse::<ServerAddress>().is_err());
    assert!("a:+".parse::<ServerAddress>().is_err());
}

#[test]
fn ip_literals_take_their_canonical_form() {
    for (text, canonical) in [
        ("::", "::"),
        ("::1", "::1"),
        ("1::", "1::"),
        ("2001:DB8::00ff", "2001:db8::ff"),
        ("1:2:3:4:5:6:7:8", "1:2:3:4:5:6:7:8"),
        ("1:0:0:4:0:0:0:8", "1:0:0:4::8"),
        ("1:0:0:4:5:0:0:8", "1::4:5:0:0:8"),
        ("1:0:3:4:5:6:7:8", "1:0:3:4:5:6:7:8"),
        ("::2:3:4:5:6:7:8", "0:2:3:4:5:6:7:8"),
        ("::ffff:1.2.3.4", "::ffff:1.2.3.4"),
        ("::1.2.3.4", "::102:304"),
        ("64:ff9b::192.0.2.33", "64:ff9b::c000:221"),
        ("0:0:0:0:0:ffff:102:304", "::ffff:1.2.3.4"),
        ("192.0.2.1", "192.0.2.1"),
        ("255.255.255.255", "255.255.255.255"),
        ("0.0.0.0", "0.0.0.0"),
    ] {
        assert_eq!(
            text.parse::<ServerAddress>().unwrap(),
            ServerAddress::without_port(canonical),
            "{text}"
        );
    }
}

#[test]
fn only_ip_literals_are_complete_without_a_port() {
    for text in [
        "1.2.3",
        "1.2.3.4.5",
        "01.2.3.4",
        "256.1.1.1",
        "1.2.3.4a",
        "deadbeef",
        "localhost",
    ] {
        assert!(
            text.parse::<ServerAddress>().unwrap().allows_srv(),
            "{text}"
        );
    }
    for text in [
        ":::",
        "1::2::3",
        "1:2:3:4:5:6:7",
        "1:2:3:4:5:6:7:8:9",
        "12345::",
        "::1.2.3",
        "1.2.3.4::",
        "::g",
    ] {
        assert!(
            ServerAddress::without_port(text).allows_srv(),
            "{text}"
        );
    }
}

#[test]
fn brackets_keep_the_host_as_it_is_written() {
    assert_eq!(
        "[2001:DB8:0::5]:1".parse::<ServerAddress>().unwrap(),
        ServerAddress::new("2001:DB8:0::5", 1)
    );
    assert_eq!(
        "[mc.example.com]".parse::<ServerAddress>().unwrap(),
        ServerAddress::without_port("mc.example.com")
    );
}

#[test]
fn parsed_addresses_round_trip() {
    for input in [
        "a b:1",
        "::FFFF:1.2.3.4",
        "1.2.3.4",
        "x]y",
        "host.:25565",
        "[a:80]",
        "[fe80::1%eth0]:25565",
        "[a b ]",
        "[ a]:7",
        "[[a]",
        "[1.2.3.4]",
        "[2001:DB8:0::5]",
    ] {
        let address: ServerAddress = input.parse().unwrap();
        assert_eq!(
            address.to_string().parse::<ServerAddress>().unwrap(),
            address,
            "{input}"
        );
    }
}

#[test]
fn hosts_take_brackets_where_they_need_them() {
    for (address, text) in [
        (ServerAddress::without_port("a:80"), "[a:80]"),
        (
            ServerAddress::new("fe80::1%eth0", 25565),
            "[fe80::1%eth0]:25565",
        ),
        (ServerAddress::without_port(" a"), "[ a]"),
        (ServerAddress::without_port("a "), "[a ]"),
        (ServerAddress::new("a ", 1), "a :1"),
        (ServerAddress::new("a:b", 1), "[a:b]:1"),
        (ServerAddress::without_port("[a"), "[[a]"),
        (ServerAddress::without_port("1.2.3.4"), "1.2.3.4"),
        (ServerAddress::without_port("x]y"), "x]y"),
    ] {
        assert_eq!(address.to_string(), text);
        assert_eq!(text.parse::<ServerAddress>(), Ok(address));
    }
}

#[test]
fn what_no_text_denotes_does_not_round_trip() {
    for address in [
        ServerAddress::without_port(""),
        ServerAddress::new("", 1),
        ServerAddress::without_port("[a]"),
        ServerAddress::new("a]:b", 1),
    ] {
        assert_ne!(
            address.to_string().parse::<ServerAddress>(),
            Ok(address.clone())
        );
    }
}

#[test]
fn a_host_that_no_text_denotes_is_written_as_it_is() {
    for (address, text) in [
        (ServerAddress::new("[::1]", 25565), "[::1]:25565"),
        (ServerAddress::without_port("[::1]"), "[::1]"),
        (ServerAddress::new("a]:b", 1), "a]:b:1"),
        (ServerAddress::without_port(" ]"), " ]"),
        (ServerAddress::new("", 1), ":1"),
    ] {
        assert_eq!(address.to_string(), text);
    }
    assert_eq!(
        "[::1]:25565".parse::<ServerAddress>(),
        Ok(ServerAddress::new("::1", 25565))
    );
}
