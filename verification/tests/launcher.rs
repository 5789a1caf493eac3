use medusa_threed::decimal::{parse_u16, IntErrorKind};
use medusa_threed::launcher::{
    parse_args, parse_command, ready_line, LaunchCommand, DEFAULT_BIND, DEFAULT_PORT,
    READY_LINE_PREFIX,
};

/// The addresses used below that the standard address parser accepts.
const VALID_ADDRESSES: [&str; 3] = ["0.0.0.0", "127.0.0.1", "::1"];

fn args(s: &[&str]) -> (Vec<String>, Vec<bool>) {
    let argv: Vec<String> = s.iter().map(|x| x.to_string()).collect();
    let ok: Vec<bool> = argv
        .iter()
        .map(|a| VALID_ADDRESSES.contains(&a.as_str()))
        .collect();
    (argv, ok)
}

fn parse(s: &[&str]) -> Result<Option<medusa_threed::launcher::LauncherArgs>, String> {
    let (argv, ok) = args(s);
    parse_args(&argv, &ok)
}

#[test]
fn defaults() {
    let a = parse(&[]).unwrap().unwrap();
    assert_eq!(a.port, DEFAULT_PORT);
    assert_eq!(a.bind.to_string(), DEFAULT_BIND);
}

#[test]
fn explicit_port_and_bind() {
    let a = parse(&["--port", "60000", "--bind", "0.0.0.0"]).unwrap().unwrap();
    assert_eq!(a.port, 60000);
    assert_eq!(a.bind.to_string(), "0.0.0.0");
}

#[test]
fn unknown_flag_errors() {
    assert!(parse(&["--frobnicate"]).is_err());
}

#[test]
fn missing_value_errors() {
    assert!(parse(&["--port"]).is_err());
    assert!(parse(&["--bind"]).is_err());
}

#[test]
fn invalid_port_errors() {
    assert!(parse(&["--port", "notanumber"]).is_err());
    assert!(parse(&["--port", "70000"]).is_err());
}

#[test]
fn invalid_bind_errors() {
    assert!(parse(&["--bind", "not.an.ip.addr"]).is_err());
}

#[test]
fn help_returns_none() {
    assert!(parse(&["--help"]).unwrap().is_none());
    assert!(parse(&["--version"]).unwrap().is_none());
}

#[test]
fn ready_line_prefix_is_stable() {
    assert_eq!(READY_LINE_PREFIX, "READY port=");
}

#[test]
fn error_messages_match_the_standard_parsers() {
    assert_eq!(parse(&["--frobnicate"]).err().unwrap(), "unknown argument '--frobnicate'");
    assert_eq!(parse(&["--port"]).err().unwrap(), "--port needs a number");
    assert_eq!(parse(&["--bind"]).err().unwrap(), "--bind needs an address");
    let e = "x".parse::<u16>().unwrap_err();
    assert_eq!(
        parse(&["--port", "x"]).err().unwrap(),
        format!("invalid --port 'x': {e}")
    );
    let e = "70000".parse::<u16>().unwrap_err();
    assert_eq!(
        parse(&["--port", "70000"]).err().unwrap(),
        format!("invalid --port '70000': {e}")
    );
    let e = "".parse::<u16>().unwrap_err();
    assert_eq!(parse(&["--port", ""]).err().unwrap(), format!("invalid --port '': {e}"));
    assert_eq!(
        parse(&["--bind", "bad"]).err().unwrap(),
        "invalid --bind 'bad': invalid IP address syntax"
    );
}

#[test]
fn later_flags_replace_earlier_ones_and_help_stops_reading() {
    let a = parse(&["--port", "1", "--port", "2", "--bind", "::1"]).unwrap().unwrap();
    assert_eq!(a.port, 2);
    assert_eq!(a.bind, "::1");
    let (argv, ok) = args(&["--port", "5", "-V", "--frobnicate"]);
    assert!(matches!(parse_command(&argv, &ok), Ok(LaunchCommand::Version)));
    let (argv, ok) = args(&["-h"]);
    assert!(matches!(parse_command(&argv, &ok), Ok(LaunchCommand::Help)));
    assert!(parse(&["--frobnicate", "--help"]).is_err());
}

#[test]
fn ready_line_carries_the_port() {
    assert_eq!(ready_line(50052), "READY port=50052");
    assert_eq!(ready_line(0), "READY port=0");
    assert_eq!(ready_line(65535), "READY port=65535");
    for port in [0u16, 7, 10, 99, 100, 4242, 50052, 65535] {
        let line = ready_line(port);
        let digits: Vec<char> = line[READY_LINE_PREFIX.len()..].chars().collect();
        assert_eq!(parse_u16(&digits), Ok(port));
    }
}

#[test]
fn port_parsing_follows_the_standard_rules() {
    for text in ["0", "+1", "65535", "65536", "", "+", "-", "-1", "1a", "007", "99999999999"] {
        let chars: Vec<char> = text.chars().collect();
        let ours = parse_u16(&chars);
        match text.parse::<u16>() {
            Ok(v) => assert_eq!(ours, Ok(v), "{text}"),
            Err(e) => {
                let kind = match e.kind() {
                    std::num::IntErrorKind::Empty => IntErrorKind::Empty,
                    std::num::IntErrorKind::InvalidDigit => IntErrorKind::InvalidDigit,
                    std::num::IntErrorKind::PosOverflow => IntErrorKind::PosOverflow,
                    _ => IntErrorKind::NegOverflow,
                };
                assert_eq!(ours, Err(kind), "{text}");
            }
        }
    }
}
