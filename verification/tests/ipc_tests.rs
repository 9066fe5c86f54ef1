use smartpaper::ipc::{encode_ipc_command, get_socket_path, parse_ipc_command, IpcCommand};

#[test]
fn next_is_read() {
    assert_eq!(parse_ipc_command(b"NEXT"), Some(IpcCommand::Next));
}

#[test]
fn next_with_ascii_white_space_is_read() {
    assert_eq!(parse_ipc_command(b"  NEXT\n"), Some(IpcCommand::Next));
    assert_eq!(parse_ipc_command(b"\t\r\nNEXT\x0b\x0c "), Some(IpcCommand::Next));
}

#[test]
fn next_with_unicode_white_space_is_read() {
    let msg = "\u{3000}\u{a0}NEXT\u{2028}\u{85}\u{200a}\u{1680}\u{205f}";
    assert_eq!(parse_ipc_command(msg.as_bytes()), Some(IpcCommand::Next));
}

#[test]
fn other_messages_are_ignored() {
    assert_eq!(parse_ipc_command(b""), None);
    assert_eq!(parse_ipc_command(b"   "), None);
    assert_eq!(parse_ipc_command(b"next"), None);
    assert_eq!(parse_ipc_command(b"NEXTT"), None);
    assert_eq!(parse_ipc_command(b"NE XT"), None);
    assert_eq!(parse_ipc_command(b"xNEXT"), None);
    assert_eq!(parse_ipc_command(b"NEX"), None);
    assert_eq!(parse_ipc_command(b"NEXT NEXT"), None);
}

#[test]
fn invalid_utf8_around_next_is_not_white_space() {
    assert_eq!(parse_ipc_command(b"\xffNEXT"), None);
    assert_eq!(parse_ipc_command(b"NEXT\xc2"), None);
    assert_eq!(parse_ipc_command(b"\xe2\x80NEXT"), None);
    // U+200B (zero width space) is not white space.
    assert_eq!(parse_ipc_command("\u{200b}NEXT".as_bytes()), None);
}

#[test]
fn the_message_a_client_writes_is_read_back() {
    let bytes = encode_ipc_command(IpcCommand::Next);
    assert_eq!(bytes, b"NEXT".to_vec());
    assert_eq!(parse_ipc_command(&bytes), Some(IpcCommand::Next));
}

#[test]
fn socket_path_is_fixed() {
    assert_eq!(get_socket_path(), "/tmp/smart-wallpaper.sock");
}
