use relayhop::address::{IpAddress, SocketAddress};
use relayhop::netparse::{parse_socket_address, write_socket_address};
use relayhop::tor::{
    check_ready_address, clean_protocol_payload, country, on_worker_line, parse_worker_message,
    protocol_line, LineBuffer, LinePiece, ProtocolError, StartupStep, WorkerMessage,
    MAX_PROTOCOL_LINE,
};

fn v4_socket(ip: IpAddress, port: u16) -> SocketAddress {
    SocketAddress { ip, port, flowinfo: 0, scope_id: 0 }
}

fn v6_socket(ip: IpAddress, port: u16, scope_id: u32) -> SocketAddress {
    SocketAddress { ip, port, flowinfo: 0, scope_id }
}

fn socket(text: &str) -> Option<SocketAddress> {
    parse_socket_address(&text.chars().collect())
}

#[test]
fn worker_protocol_accepts_only_expected_bounded_messages() {
    assert_eq!(
        clean_protocol_payload("erro\r\nforjado\t oculto"),
        "erro forjado oculto"
    );
    assert_eq!(clean_protocol_payload(&"x".repeat(600)).len(), 512);
    assert_eq!(
        parse_worker_message("PROGRESS\tConectando… 15%\n").unwrap(),
        WorkerMessage::Progress("Conectando… 15%".into())
    );
    assert_eq!(
        parse_worker_message("READY\t127.0.0.1:4242\r\n").unwrap(),
        WorkerMessage::Ready(v4_socket(IpAddress::V4([127, 0, 0, 1]), 4242))
    );
    assert!(parse_worker_message("READY\tnot-an-address\n").is_err());
    assert!(parse_worker_message("UNKNOWN\tvalue\n").is_err());
    assert!(parse_worker_message("PROGRESS\t\n").is_err());
}

#[test]
fn worker_message_errors() {
    assert_eq!(parse_worker_message("PROGRESS no tab\n"), Err(ProtocolError::MissingSeparator));
    assert_eq!(parse_worker_message("PROGRESS\t\r\n"), Err(ProtocolError::EmptyPayload));
    assert_eq!(parse_worker_message("READY\t127.0.0.1\n"), Err(ProtocolError::InvalidAddress));
    assert_eq!(parse_worker_message("NOISE\tx\n"), Err(ProtocolError::UnknownKind));
    assert_eq!(
        parse_worker_message("ERROR\tfalhou\ttudo\n"),
        Ok(WorkerMessage::Error("falhou\ttudo".into()))
    );
}

#[test]
fn lines_written_by_the_worker_are_read_back() {
    let line = protocol_line("PROGRESS", "Conectando ao Tor…\n 15%\u{7}");
    assert_eq!(line, "PROGRESS\tConectando ao Tor… 15%");
    assert_eq!(
        parse_worker_message(&format!("{line}\n")),
        Ok(WorkerMessage::Progress("Conectando ao Tor… 15%".into()))
    );
    let line = protocol_line("READY", "127.0.0.1:9150");
    assert_eq!(
        parse_worker_message(&line),
        Ok(WorkerMessage::Ready(v4_socket(IpAddress::V4([127, 0, 0, 1]), 9150)))
    );
}

#[test]
fn cleaning_collapses_white_space() {
    assert_eq!(clean_protocol_payload("  a \u{a0}\u{2003} b  "), "a b");
    assert_eq!(clean_protocol_payload("\u{0}\u{1f}\u{7f}\u{85}"), "");
    assert_eq!(clean_protocol_payload("é\u{9c}ç"), "é ç");
    let long = format!("{}{}", "a".repeat(511), " bcd");
    assert_eq!(clean_protocol_payload(&long), "a".repeat(511));
}

#[test]
fn socket_addresses_as_std_reads_them() {
    assert_eq!(socket("1.2.3.4:80"), Some(v4_socket(IpAddress::V4([1, 2, 3, 4]), 80)));
    assert_eq!(socket("1.2.3.4:0080"), Some(v4_socket(IpAddress::V4([1, 2, 3, 4]), 80)));
    assert_eq!(socket("01.2.3.4:80"), None);
    assert_eq!(socket("256.2.3.4:80"), None);
    assert_eq!(socket("1.2.3.4:65536"), None);
    assert_eq!(socket("1.2.3.4"), None);
    assert_eq!(socket("1.2.3:80"), None);
    assert_eq!(
        socket("[::1]:9150"),
        Some(v6_socket(IpAddress::V6([0, 0, 0, 0, 0, 0, 0, 1]), 9150, 0))
    );
    assert_eq!(
        socket("[2001:db8::8a2e:370:7334%3]:443"),
        Some(v6_socket(IpAddress::V6([0x2001, 0xdb8, 0, 0, 0, 0x8a2e, 0x370, 0x7334]), 443, 3))
    );
    assert_eq!(
        socket("[::ffff:127.0.0.1]:1"),
        Some(v6_socket(IpAddress::V6([0, 0, 0, 0, 0, 0xffff, 0x7f00, 1]), 1, 0))
    );
    assert_eq!(
        socket("[1:2:3:4:5:6:7:8]:1"),
        Some(v6_socket(IpAddress::V6([1, 2, 3, 4, 5, 6, 7, 8]), 1, 0))
    );
    assert_eq!(
        socket("[1:2:3:4:5:6:7::]:1"),
        Some(v6_socket(IpAddress::V6([1, 2, 3, 4, 5, 6, 7, 0]), 1, 0))
    );
    assert_eq!(socket("[1:2:3:4:5:6:7:8:9]:1"), None);
    assert_eq!(socket("[1::2::3]:1"), None);
    assert_eq!(socket("[1.2.3.4::]:1"), None);
    assert_eq!(socket("[12345::]:1"), None);
    assert_eq!(socket("[::1%]:1"), None);
    assert_eq!(socket("[::1]"), None);
}

#[test]
fn ipv6_forms() {
    let v6 = |g: [u16; 8], port: u16| Some(v6_socket(IpAddress::V6(g), port, 0));
    assert_eq!(socket("[::]:1"), v6([0; 8], 1));
    assert_eq!(socket("[::1.2.3.4]:9"), v6([0, 0, 0, 0, 0, 0, 0x102, 0x304], 9));
    assert_eq!(socket("[1:2:3:4:5:6:1.2.3.4]:9"), v6([1, 2, 3, 4, 5, 6, 0x102, 0x304], 9));
    assert_eq!(socket("[::ffff:1.2.3.4]:5"), v6([0, 0, 0, 0, 0, 0xffff, 0x102, 0x304], 5));
    assert_eq!(socket("[0000:0000::0001]:8"), v6([0, 0, 0, 0, 0, 0, 0, 1], 8));
    assert_eq!(socket("[A:B::C]:7"), v6([0xa, 0xb, 0, 0, 0, 0, 0, 0xc], 7));
    assert_eq!(
        socket("[::1%4294967295]:8"),
        Some(v6_socket(IpAddress::V6([0, 0, 0, 0, 0, 0, 0, 1]), 8, 4294967295))
    );
    assert_eq!(
        socket("[::1%5]:80"),
        Some(v6_socket(IpAddress::V6([0, 0, 0, 0, 0, 0, 0, 1]), 80, 5))
    );
    assert_eq!(
        parse_worker_message("READY\t[::1%5]:80\n"),
        Ok(WorkerMessage::Ready(v6_socket(IpAddress::V6([0, 0, 0, 0, 0, 0, 0, 1]), 80, 5)))
    );
    for text in [
        "[1:2:3:4:5:6:7:1.2.3.4]:9",
        "[1:2:3:4:5:1.2.3.4]:9",
        "[1:2:3:4:5:1.2.3.4::]:9",
        "[00000::1]:8",
        "[::1%4294967296]:8",
        "[:1]:2",
        "[1:]:2",
        "[1:::2]:3",
        "[::1::]:3",
        "[::1]:",
        "1.2.3.04:5",
        "1.2.3.4:+5",
    ] {
        assert_eq!(socket(text), None, "{text}");
    }
}

#[test]
fn ready_address_must_be_loopback_with_port() {
    let local = v4_socket(IpAddress::V4([127, 0, 0, 1]), 9150);
    assert_eq!(check_ready_address(local), Ok(local));
    let zero = v4_socket(IpAddress::V4([127, 0, 0, 1]), 0);
    assert_eq!(check_ready_address(zero), Err(ProtocolError::UnusableAddress));
    let remote = v4_socket(IpAddress::V4([10, 0, 0, 1]), 9150);
    assert_eq!(check_ready_address(remote), Err(ProtocolError::UnusableAddress));
    let v6 = v6_socket(IpAddress::V6([0, 0, 0, 0, 0, 0, 0, 1]), 1, 0);
    assert_eq!(check_ready_address(v6), Ok(v6));
}

#[test]
fn protocol_reader_rejects_oversized_lines() {
    let mut buffer = LineBuffer::new();
    let input = vec![b'x'; MAX_PROTOCOL_LINE + 1];
    assert_eq!(buffer.feed(&input), Err(ProtocolError::LineTooLong));
    let mut buffer = LineBuffer::new();
    assert_eq!(buffer.feed(&input[..4000]), Ok(LinePiece { consumed: 4000, complete: false }));
    assert_eq!(buffer.feed(&input[..97]), Err(ProtocolError::LineTooLong));
    assert_eq!(buffer.feed(&input[..96]), Ok(LinePiece { consumed: 96, complete: false }));
}

#[test]
fn line_reader_stops_at_the_first_line_feed() {
    let mut buffer = LineBuffer::new();
    assert_eq!(buffer.feed(b"PROG"), Ok(LinePiece { consumed: 4, complete: false }));
    assert_eq!(buffer.feed(b"RESS\tx\nREADY\t"), Ok(LinePiece { consumed: 7, complete: true }));
    assert_eq!(buffer.finish(), Ok(Some("PROGRESS\tx\n".to_string())));
    assert_eq!(LineBuffer::new().finish(), Ok(None));
    let mut buffer = LineBuffer::new();
    buffer.feed(&[0xff, b'\n']).unwrap();
    assert_eq!(buffer.finish(), Err(ProtocolError::InvalidUtf8));
}

#[test]
fn exit_country_is_two_letters_outside_brazil() {
    assert_eq!(country("us"), Ok("US".to_string()));
    assert_eq!(country("De"), Ok("DE".to_string()));
    let hint = "use um código de país de duas letras fora do Brasil, como US ou DE".to_string();
    assert_eq!(country("br"), Err(hint.clone()));
    assert_eq!(country("BR"), Err(hint.clone()));
    assert_eq!(country("USA"), Err(hint.clone()));
    assert_eq!(country("u1"), Err(hint.clone()));
    assert_eq!(country("é"), Err(hint.clone()));
    assert_eq!(country(""), Err(hint));
}

#[test]
fn starting_worker_lines_are_decided() {
    assert_eq!(on_worker_line(None), StartupStep::Exited);
    assert_eq!(
        on_worker_line(Some("PROGRESS\tConectando… 15%\n")),
        StartupStep::Status("Conectando… 15%".into())
    );
    assert_eq!(
        on_worker_line(Some("READY\t127.0.0.1:9150\n")),
        StartupStep::Ready(v4_socket(IpAddress::V4([127, 0, 0, 1]), 9150))
    );
    assert_eq!(
        on_worker_line(Some("READY\t10.0.0.1:9150\n")),
        StartupStep::Refused(ProtocolError::UnusableAddress)
    );
    assert_eq!(
        on_worker_line(Some("ERROR\tsem rede\n")),
        StartupStep::WorkerError("sem rede".into())
    );
    assert_eq!(
        on_worker_line(Some("NOISE\tx\n")),
        StartupStep::Refused(ProtocolError::UnknownKind)
    );
}

#[test]
fn cleaned_payload_has_single_spaces_and_no_controls() {
    let cleaned = clean_protocol_payload("\t a\r\n\n  b\u{0}c \u{3000}");
    assert_eq!(cleaned, "a b c");
    assert!(!cleaned.contains("  "));
    assert!(cleaned.chars().all(|c| !c.is_control()));
}

#[test]
fn socket_addresses_are_written_as_std_displays_them() {
    let v6 = |g: [u16; 8], port: u16, scope_id: u32| {
        write_socket_address(v6_socket(IpAddress::V6(g), port, scope_id))
    };
    assert_eq!(write_socket_address(v4_socket(IpAddress::V4([127, 0, 0, 1]), 4242)), "127.0.0.1:4242");
    assert_eq!(write_socket_address(v4_socket(IpAddress::V4([0, 10, 200, 255]), 0)), "0.10.200.255:0");
    assert_eq!(v6([0; 8], 1, 0), "[::]:1");
    assert_eq!(v6([0, 0, 0, 0, 0, 0, 0, 1], 9150, 0), "[::1]:9150");
    assert_eq!(v6([0, 0, 0, 0, 0, 0, 0, 1], 80, 5), "[::1%5]:80");
    assert_eq!(v6([0x2001, 0xdb8, 0, 0, 0, 0x8a2e, 0x370, 0x7334], 443, 0), "[2001:db8::8a2e:370:7334]:443");
    assert_eq!(v6([1, 0, 0, 2, 0, 0, 0, 3], 7, 0), "[1:0:0:2::3]:7");
    assert_eq!(v6([1, 0, 0, 2, 0, 0, 3, 4], 7, 0), "[1::2:0:0:3:4]:7");
    assert_eq!(v6([1, 0, 2, 3, 4, 5, 6, 7], 7, 0), "[1:0:2:3:4:5:6:7]:7");
    assert_eq!(v6([0xabcd, 0, 0, 0, 0, 0, 0, 0], 7, 0), "[abcd::]:7");
    assert_eq!(v6([0, 0, 0, 0, 0, 0xffff, 0x7f00, 1], 1, 0), "[::ffff:127.0.0.1]:1");
    assert_eq!(v6([0, 0, 0, 0, 0, 0, 0x7f00, 1], 1, 0), "[::7f00:1]:1");
    for text in ["127.0.0.1:4242", "[::1%5]:80", "[2001:db8::1]:443", "[::ffff:1.2.3.4]:5"] {
        let parsed = parse_socket_address(&text.chars().collect()).unwrap();
        assert_eq!(write_socket_address(parsed), text);
    }
}
