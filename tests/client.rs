use blue::client::handler::{parse_request, ParseError};
use blue::ipc::message::request::Command;
use blue::ipc::message::{Get, SetKey};
use blue::store::kv::Store;
use blue::{get_stream_input, store_stream_input, LineError};
use blue::{Command as LineCommand, UserInput};

#[test]
fn parses_reads_and_writes() {
    let r = parse_request("set a=1\n").unwrap();
    assert_eq!(
        r.command,
        Some(Command::SetKey(SetKey { key: "a".to_string(), value: "1".to_string() }))
    );
    let r = parse_request("get b\n").unwrap();
    assert_eq!(r.command, Some(Command::Get(Get { key: "b".to_string() })));
    let r = parse_request("GET\n").unwrap();
    assert_eq!(r.command, Some(Command::Get(Get { key: String::new() })));
}

#[test]
fn refuses_bad_lines() {
    assert_eq!(parse_request("fetch a").unwrap_err(), ParseError::InvalidCommand);
    assert_eq!(parse_request("get a b").unwrap_err(), ParseError::TooManyTokens);
    assert_eq!(parse_request("set a").unwrap_err(), ParseError::MissingValue);
    assert_eq!(ParseError::MissingValue.message(), "Set commands must be of format key=val");
}

#[test]
fn line_protocol_input() {
    let u = UserInput::new("set k=v\n".to_string());
    assert!(u.is_valid);
    assert_eq!(u.command, Some(LineCommand::SetValue));
    assert_eq!(u.value, Some("k=v".to_string()));
    let u = UserInput::new("get\n".to_string());
    assert!(u.is_valid);
    assert_eq!(u.command, Some(LineCommand::Get));
    assert_eq!(u.value, None);
    let u = UserInput::new("Get x".to_string());
    assert!(!u.is_valid);
    assert_eq!(u.command, None);
    assert_eq!(LineCommand::from_str("GET"), Ok(LineCommand::Get));
    assert_eq!(LineCommand::from_str("SET "), Ok(LineCommand::SetValue));
    assert_eq!(LineCommand::from_str("put"), Err(()));
}

#[test]
fn line_protocol_reads_and_writes() {
    let mut store = Store::new();
    let w = UserInput::new("set a=1\n".to_string());
    assert!(w.is_valid);
    assert_eq!(store_stream_input(&w, &mut store).unwrap(), "Succesfully wrote key=a\n");
    assert_eq!(store.get(&"a".to_string()), Some("1".to_string()));
    let bad = UserInput::new("set a\n".to_string());
    assert!(bad.is_valid);
    assert_eq!(store_stream_input(&bad, &mut store).unwrap_err(), LineError::NotKeyValue);
    assert_eq!(LineError::NotKeyValue.message(), "Set commands must be of format key=val");
    let r = UserInput::new("get a\n".to_string());
    assert_eq!(get_stream_input(&r, &store), Some("1\n".to_string()));
    let missing = UserInput::new("get z\n".to_string());
    assert_eq!(get_stream_input(&missing, &store), None);
    let all = UserInput::new("get\n".to_string());
    assert_eq!(get_stream_input(&all, &store), Some("{\"a\":\"1\"}\n".to_string()));
}
