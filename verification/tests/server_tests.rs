use coat_check::server::handle_request;
use coat_check::server::next_action;
use coat_check::server::ServerAction;
use coat_check::store::Store;

fn roundtrip(store: &mut Store, action: &str) -> Vec<u8> {
    let mut line = action.as_bytes().to_vec();
    line.extend_from_slice(b"\r\n");
    handle_request(store, &line).expect("a non-empty line deserves a reply")
}

#[test]
fn server_write_then_read_key_works() {
    let mut store = Store::new();
    let actions = ["set foo my value", "get foo"];
    let expectations = ["*** success: wrote 49 bytes", "my value"];

    for (act, exp) in actions.iter().zip(expectations.iter()) {
        let reply = roundtrip(&mut store, act);
        let mut expected = exp.as_bytes().to_vec();
        expected.extend_from_slice(b"\r\n");
        assert_eq!(reply, expected);
    }
}

#[test]
fn server_unknown_key_no_match() {
    let mut store = Store::new();
    let actions = ["set foo my value", "get foobar"];
    let expectations = ["*** success: wrote 49 bytes", "*** no match found"];

    for (act, exp) in actions.iter().zip(expectations.iter()) {
        let reply = roundtrip(&mut store, act);
        let mut expected = exp.as_bytes().to_vec();
        expected.extend_from_slice(b"\r\n");
        assert_eq!(reply, expected);
    }
}

#[test]
fn server_invalid_command_warning() {
    let mut store = Store::new();
    let reply = roundtrip(&mut store, "what is your name?");
    let expected =
        b"*** invalid command\r\nUsage:\r\n<get> <key> | <set> <key> <value> | <del> <key>\r\n";
    assert_eq!(reply, expected.to_vec());
}

#[test]
fn server_set_with_equal_value_writes_zero_bytes() {
    let mut store = Store::new();
    assert_eq!(
        roundtrip(&mut store, "set foo my value"),
        b"*** success: wrote 49 bytes\r\n".to_vec()
    );
    assert_eq!(
        roundtrip(&mut store, "set foo my value"),
        b"*** success: wrote 0 bytes\r\n".to_vec()
    );
    assert_eq!(roundtrip(&mut store, "get foo"), b"my value\r\n".to_vec());
}

#[test]
fn server_set_preserves_spaces_in_value() {
    let mut store = Store::new();
    // the value runs from the byte after the second space to the line's end
    roundtrip(&mut store, "set foo  leading and  inner");
    assert_eq!(
        roundtrip(&mut store, "get foo"),
        b" leading and  inner\r\n".to_vec()
    );
}

#[test]
fn server_del_returns_deleted_value_then_no_match() {
    let mut store = Store::new();
    roundtrip(&mut store, "set foo my value");
    assert_eq!(roundtrip(&mut store, "del foo"), b"my value\r\n".to_vec());
    assert_eq!(
        roundtrip(&mut store, "del foo"),
        b"*** no match found\r\n".to_vec()
    );
    assert_eq!(
        roundtrip(&mut store, "get foo"),
        b"*** no match found\r\n".to_vec()
    );
}

#[test]
fn server_get_on_missing_file_reports_error() {
    let mut store = Store::new();
    assert_eq!(
        roundtrip(&mut store, "get foo"),
        b"*** error: No such file or directory\r\n".to_vec()
    );
}

#[test]
fn server_get_with_extra_token_is_invalid() {
    let mut store = Store::new();
    roundtrip(&mut store, "set foo my value");
    let reply = roundtrip(&mut store, "get foo bar");
    assert!(reply.starts_with(b"*** invalid command\r\n"));
}

#[test]
fn server_empty_line_gets_no_reply() {
    let mut store = Store::new();
    assert_eq!(handle_request(&mut store, b"\r\n"), None);
    assert_eq!(handle_request(&mut store, b""), None);
}

#[test]
fn accept_loop_compacts_exactly_when_signaled() {
    assert_eq!(next_action(true), ServerAction::Compact);
    assert_eq!(next_action(false), ServerAction::Serve);
}

#[test]
fn server_reports_multi_digit_byte_counts() {
    let mut store = Store::new();
    // 41 header bytes plus a 64-byte value
    let value = "x".repeat(64);
    let reply = roundtrip(&mut store, &format!("set k {value}"));
    assert_eq!(reply, b"*** success: wrote 105 bytes\r\n".to_vec());
}
