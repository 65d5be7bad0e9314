use ferrum_kv::error::FerrumError;
use ferrum_kv::protocol::parser::{format_response, parse, Command};

#[test]
fn test_parse_set() {
    let cmd = parse("SET name ferrum").unwrap();
    assert_eq!(
        cmd,
        Command::SetKey {
            key: "name".to_string(),
            value: "ferrum".to_string()
        }
    );
}

#[test]
fn test_parse_set_case_insensitive() {
    let cmd = parse("set Name Value").unwrap();
    assert_eq!(
        cmd,
        Command::SetKey {
            key: "Name".to_string(),
            value: "Value".to_string()
        }
    );
}

#[test]
fn test_parse_set_value_with_spaces() {
    let cmd = parse("SET key hello world").unwrap();
    assert_eq!(
        cmd,
        Command::SetKey {
            key: "key".to_string(),
            value: "hello world".to_string()
        }
    );
}

#[test]
fn test_parse_set_missing_value() {
    let result = parse("SET key");
    assert!(result.is_err());
}

#[test]
fn test_parse_set_missing_args() {
    let result = parse("SET");
    assert!(result.is_err());
}

#[test]
fn test_parse_get() {
    let cmd = parse("GET name").unwrap();
    assert_eq!(
        cmd,
        Command::Get {
            key: "name".to_string()
        }
    );
}

#[test]
fn test_parse_get_missing_key() {
    let result = parse("GET");
    assert!(result.is_err());
}

#[test]
fn test_parse_del() {
    let cmd = parse("DEL name").unwrap();
    assert_eq!(
        cmd,
        Command::Del {
            key: "name".to_string()
        }
    );
}

#[test]
fn test_parse_del_missing_key() {
    let result = parse("DEL");
    assert!(result.is_err());
}

#[test]
fn test_parse_ping() {
    let cmd = parse("PING").unwrap();
    assert_eq!(cmd, Command::Ping);
}

#[test]
fn test_parse_ping_case_insensitive() {
    let cmd = parse("ping").unwrap();
    assert_eq!(cmd, Command::Ping);
}

#[test]
fn test_parse_unknown_command() {
    let cmd = parse("FOOBAR").unwrap();
    assert_eq!(cmd, Command::Unknown("FOOBAR".to_string()));
}

#[test]
fn test_parse_empty_input() {
    let result = parse("");
    assert!(result.is_err());
}

#[test]
fn test_parse_whitespace_only() {
    let result = parse("   ");
    assert!(result.is_err());
}

#[test]
fn test_parse_with_leading_trailing_spaces() {
    let cmd = parse("  GET name  ").unwrap();
    assert_eq!(
        cmd,
        Command::Get {
            key: "name".to_string()
        }
    );
}

#[test]
fn test_format_response_ok() {
    let result = format_response(Ok("OK".to_string()));
    assert_eq!(result, "OK");
}

#[test]
fn test_format_response_error() {
    let result = format_response(Err(FerrumError::ParseError(
        "wrong number of arguments for 'SET' command".to_string(),
    )));
    assert_eq!(result, "ERR wrong number of arguments for 'SET' command");
}
