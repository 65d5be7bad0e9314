use ferrum_kv::error::FerrumError;
use ferrum_kv::protocol::parser::{classify_command, format_response, parse, Command};
use ferrum_kv::protocol::ProtocolVersion;

fn parse_error_message(input: &str) -> String {
    match parse(input) {
        Err(FerrumError::ParseError(msg)) => msg,
        other => panic!("expected a parse error, got {:?}", other),
    }
}

#[test]
fn empty_and_blank_lines_report_empty_command() {
    assert_eq!(parse_error_message(""), "empty command");
    assert_eq!(parse_error_message(" \t\r\n "), "empty command");
    assert_eq!(parse_error_message("\u{3000}\u{a0}\u{2028}"), "empty command");
}

#[test]
fn arity_errors_name_the_command() {
    assert_eq!(
        parse_error_message("set k"),
        "wrong number of arguments for 'SET' command"
    );
    assert_eq!(
        parse_error_message("get"),
        "wrong number of arguments for 'GET' command"
    );
    assert_eq!(
        parse_error_message("Del"),
        "wrong number of arguments for 'DEL' command"
    );
}

#[test]
fn surrounding_unicode_white_space_is_ignored() {
    assert_eq!(
        parse("\t\u{3000} GET name \u{a0}\n").unwrap(),
        Command::Get { key: "name".to_string() }
    );
    assert_eq!(parse("\u{2003}PING\u{85}").unwrap(), Command::Ping);
}

#[test]
fn only_the_first_two_spaces_split_the_line() {
    assert_eq!(
        parse("SET  a b").unwrap(),
        Command::SetKey { key: "".to_string(), value: "a b".to_string() }
    );
    assert_eq!(
        parse("SET k v1 v2  v3").unwrap(),
        Command::SetKey { key: "k".to_string(), value: "v1 v2  v3".to_string() }
    );
    assert_eq!(
        parse("GET a b c").unwrap(),
        Command::Get { key: "a".to_string() }
    );
    assert_eq!(
        parse("DEL k extra").unwrap(),
        Command::Del { key: "k".to_string() }
    );
}

#[test]
fn tabs_do_not_split_arguments() {
    assert_eq!(
        parse("GET\tname").unwrap(),
        Command::Unknown("GET\tname".to_string())
    );
}

#[test]
fn ping_ignores_its_arguments() {
    assert_eq!(parse("PiNg hello there").unwrap(), Command::Ping);
}

#[test]
fn unknown_keeps_the_trimmed_line() {
    assert_eq!(
        parse("  foo Bar  baz ").unwrap(),
        Command::Unknown("foo Bar  baz".to_string())
    );
}

#[test]
fn command_names_use_unicode_uppercase() {
    // U+0131 (dotless i) uppercases to 'I'; U+017F (long s) to 'S'.
    assert_eq!(parse("p\u{131}ng").unwrap(), Command::Ping);
    assert_eq!(
        parse("\u{17f}et k v").unwrap(),
        Command::SetKey { key: "k".to_string(), value: "v".to_string() }
    );
}

#[test]
fn classify_command_takes_the_uppercased_name() {
    assert_eq!(
        classify_command("SET", "set k v", Some("k"), Some("v")).unwrap(),
        Command::SetKey { key: "k".to_string(), value: "v".to_string() }
    );
    assert!(classify_command("SET", "set k", Some("k"), None).is_err());
    assert_eq!(
        classify_command("set", "set k v", Some("k"), Some("v")).unwrap(),
        Command::Unknown("set k v".to_string())
    );
    assert_eq!(
        classify_command("DEL", "del k", Some("k"), None).unwrap(),
        Command::Del { key: "k".to_string() }
    );
}

#[test]
fn format_response_of_other_errors_uses_their_text() {
    assert_eq!(
        format_response(Err(FerrumError::StorageError("out of memory".to_string()))),
        "ERR storage error: out of memory"
    );
    assert_eq!(
        format_response(Err(FerrumError::PersistenceError("disk full".to_string()))),
        "ERR persistence error: disk full"
    );
    assert_eq!(
        format_response(Err(FerrumError::IoError("broken pipe".to_string()))),
        "ERR IO error: broken pipe"
    );
    assert_eq!(format_response(Ok("".to_string())), "");
}

#[test]
fn error_text_names_the_kind() {
    assert_eq!(
        FerrumError::ParseError("x".to_string()).to_text(),
        "parse error: x"
    );
}

#[test]
fn protocol_version_defaults_to_resp2() {
    assert_eq!(ProtocolVersion::default(), ProtocolVersion::Resp2);
    assert_ne!(ProtocolVersion::Resp2, ProtocolVersion::Resp3);
}

#[test]
fn ascii_names_in_any_case_are_the_same_command() {
    for line in ["set k v", "Set k v", "sEt k v", "SET k v"] {
        assert_eq!(
            parse(line).unwrap(),
            Command::SetKey { key: "k".to_string(), value: "v".to_string() }
        );
    }
    assert_eq!(parse("gEt k").unwrap(), Command::Get { key: "k".to_string() });
    assert_eq!(parse("dEL k").unwrap(), Command::Del { key: "k".to_string() });
}
