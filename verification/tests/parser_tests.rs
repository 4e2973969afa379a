//! The interactive command grammar, line by line.

use portsqan::message::Input;
use portsqan::parser::{Error, Parser, ReplConfig};

fn parse_line(host: Option<&str>, line: &str) -> (Result<Input, Error>, ReplConfig) {
    let mut p = Parser::default();
    let state = ReplConfig {
        host: host.map(|h| h.to_string()),
        autostop: false,
    };
    p.parse(state, line.to_string())
}

#[test]
fn parse_ping_and_aliases() {
    assert!(matches!(parse_line(None, "ping").0, Ok(Input::Ping)));
    assert!(matches!(parse_line(None, "pause").0, Ok(Input::Stop)));
    assert!(matches!(parse_line(None, "p").0, Ok(Input::Stop)));
    assert!(matches!(parse_line(None, "resume").0, Ok(Input::Cont)));
    assert!(matches!(parse_line(None, "r").0, Ok(Input::Cont)));
    assert!(matches!(parse_line(None, "cancel").0, Ok(Input::Cancel)));
    assert!(matches!(parse_line(None, "c").0, Ok(Input::Cancel)));
    assert!(matches!(parse_line(None, "quit").0, Ok(Input::End)));
    assert!(matches!(parse_line(None, "q").0, Ok(Input::End)));
    assert!(matches!(parse_line(None, "exit").0, Ok(Input::End)));
}

#[test]
fn parse_host_sets_state() {
    let (r, state) = parse_line(None, "host example.org");
    assert!(matches!(r, Ok(Input::NOP)));
    assert_eq!(state.host.as_deref(), Some("example.org"));
    let (r, state) = parse_line(Some("old"), "h fresh.example");
    assert!(matches!(r, Ok(Input::NOP)));
    assert_eq!(state.host.as_deref(), Some("fresh.example"));
}

#[test]
fn parse_config_keys() {
    assert_eq!(parse_line(None, "config threads 4").0, Ok(Input::Threads(4)));
    assert_eq!(parse_line(None, "cfg t 2").0, Ok(Input::Threads(2)));
    assert_eq!(parse_line(None, "conf tries 3").0, Ok(Input::Attempts(3)));
    assert_eq!(parse_line(None, "config attemps 5").0, Ok(Input::Attempts(5)));
    assert_eq!(
        parse_line(None, "config tcp-timeout 900").0,
        Ok(Input::TcpTimeout(900))
    );
    assert_eq!(parse_line(None, "config tto 10").0, Ok(Input::TcpTimeout(10)));
    assert_eq!(
        parse_line(None, "config timeout 77").0,
        Ok(Input::TcpTimeout(77))
    );
    assert_eq!(
        parse_line(None, "config udp-timeout 800").0,
        Ok(Input::UdpTimeout(800))
    );
    assert_eq!(parse_line(None, "config uto 12").0, Ok(Input::UdpTimeout(12)));
}

#[test]
fn parse_autostop_updates_state() {
    let (r, state) = parse_line(None, "config autostop true");
    assert!(matches!(r, Ok(Input::NOP)));
    assert!(state.autostop);
    let (r, state) = parse_line(None, "config autostop FALSE");
    assert!(matches!(r, Ok(Input::NOP)));
    assert!(!state.autostop);
}

#[test]
fn parse_scan_full_form() {
    assert_eq!(
        parse_line(None, "scan example.net tcp 80 443").0,
        Ok(Input::TcpRange("example.net".to_string(), 80, 443))
    );
    assert_eq!(
        parse_line(None, "s example.net udp 53").0,
        Ok(Input::UdpRange("example.net".to_string(), 53, 53))
    );
}

#[test]
fn parse_scan_uses_stored_host() {
    assert_eq!(
        parse_line(Some("stored.host"), "scan 22").0,
        Ok(Input::TcpRange("stored.host".to_string(), 22, 22))
    );
    assert_eq!(
        parse_line(Some("stored.host"), "scan udp 1 9").0,
        Ok(Input::UdpRange("stored.host".to_string(), 1, 9))
    );
}

#[test]
fn parse_scan_defaults_protocol_and_to() {
    assert_eq!(
        parse_line(None, "scan somewhere 1000").0,
        Ok(Input::TcpRange("somewhere".to_string(), 1000, 1000))
    );
    assert_eq!(
        parse_line(None, "scan somewhere 1 65535").0,
        Ok(Input::TcpRange("somewhere".to_string(), 1, 65535))
    );
}

#[test]
fn parse_error_empty() {
    let mut p = Parser::default();
    assert_eq!(p.parse_fields(), Err(Error::Empty));
}

#[test]
fn parse_error_unknown_command() {
    assert_eq!(parse_line(None, "frobnicate").0, Err(Error::UnknownCommand));
    assert_eq!(parse_line(None, "").0, Err(Error::UnknownCommand));
}

#[test]
fn parse_error_invalid_param() {
    assert_eq!(
        parse_line(None, "config threads many").0,
        Err(Error::InvalidParam(2))
    );
    assert_eq!(
        parse_line(None, "config sideways 1").0,
        Err(Error::InvalidParam(1))
    );
    assert_eq!(parse_line(None, "config 9 1").0, Err(Error::InvalidParam(1)));
}

#[test]
fn parse_error_host_not_specified() {
    assert_eq!(parse_line(None, "scan 80").0, Err(Error::HostNotSpecified));
}

#[test]
fn parse_error_invalid_port() {
    assert_eq!(
        parse_line(None, "scan h 65536").0,
        Err(Error::InvalidPort(65536))
    );
    assert_eq!(
        parse_line(None, "scan h 80 70000").0,
        Err(Error::InvalidPort(70000))
    );
}

#[test]
fn parse_number_like_std() {
    // a plus sign is accepted, overflow falls back to a plain word
    assert_eq!(
        parse_line(None, "config threads +7").0,
        Ok(Input::Threads(7))
    );
    assert_eq!(
        parse_line(None, "config threads 99999999999999999999").0,
        Err(Error::InvalidParam(2))
    );
}

#[test]
fn parse_keywords_case_insensitive() {
    assert_eq!(
        parse_line(Some("h"), "scan UDP 5").0,
        Ok(Input::UdpRange("h".to_string(), 5, 5))
    );
    assert_eq!(
        parse_line(Some("h"), "scan TCP 5").0,
        Ok(Input::TcpRange("h".to_string(), 5, 5))
    );
}
