use irc_core::codec::Message;

#[test]
fn decode_trailing_parameter() {
    let m = Message::from_string("PRIVMSG #chan :hello world".to_string());
    assert_eq!(m.command().as_str(), "PRIVMSG");
    assert_eq!(m.parameters().len(), 2);
    assert_eq!(m.parameters()[0], "#chan");
    assert_eq!(m.parameters()[1], "hello world");
}

#[test]
fn decode_empty_line() {
    let m = Message::from_string(String::new());
    assert_eq!(m.command().as_str(), "");
    assert!(m.parameters().is_empty());
}

#[test]
fn decode_consecutive_spaces_kept() {
    let m = Message::from_string("A  b".to_string());
    assert_eq!(m.command().as_str(), "A");
    assert_eq!(m.parameters().len(), 2);
    assert_eq!(m.parameters()[0], "");
    assert_eq!(m.parameters()[1], "b");
}

#[test]
fn decode_command_only() {
    let m = Message::from_string("PING".to_string());
    assert_eq!(m.command().as_str(), "PING");
    assert!(m.parameters().is_empty());
}

#[test]
fn decode_colon_captures_rest() {
    let m = Message::from_string("CAP * LS :".to_string());
    assert_eq!(m.command().as_str(), "CAP");
    assert_eq!(m.parameters().len(), 3);
    assert_eq!(m.parameters()[0], "*");
    assert_eq!(m.parameters()[1], "LS");
    assert_eq!(m.parameters()[2], "");
}

#[test]
fn encode_command_only() {
    let mut m = Message::new();
    m.set_command("PING");
    assert_eq!(m.string(), "PING\r\n");
}

#[test]
fn encode_plain_parameters() {
    let mut m = Message::new();
    m.set_command("USER");
    m.add_parameter("guest");
    m.add_parameter("0");
    assert_eq!(m.string(), "USER guest 0\r\n");
}

#[test]
fn encode_trailing_space_parameter() {
    let mut m = Message::new();
    m.set_command("PRIVMSG");
    m.add_parameter("#chan");
    m.add_parameter("hello world");
    assert_eq!(m.string(), "PRIVMSG #chan :hello world\r\n");
}

#[test]
fn encode_truncation_quirk() {
    let mut m = Message::new();
    m.set_command("X");
    m.add_parameter("a");
    m.add_parameter("b c");
    m.add_parameter("d");
    let line = m.string();
    assert_eq!(line, "X a :b c\r\n");
    assert!(!line.contains('d'));
}

#[test]
fn round_trip_plain_message() {
    let mut m = Message::new();
    m.set_command("PRIVMSG");
    m.add_parameter("#chan");
    m.add_parameter("hello world");
    let line = m.string();
    let body = line.strip_suffix("\r\n").unwrap().to_string();
    let back = Message::from_string(body);
    assert_eq!(back.command().as_str(), "PRIVMSG");
    assert_eq!(back.parameters().len(), 2);
    assert_eq!(back.parameters()[0], "#chan");
    assert_eq!(back.parameters()[1], "hello world");
}

#[test]
fn round_trip_no_parameters() {
    let mut m = Message::new();
    m.set_command("QUIT");
    let body = m.string().strip_suffix("\r\n").unwrap().to_string();
    let back = Message::from_string(body);
    assert_eq!(back.command().as_str(), "QUIT");
    assert!(back.parameters().is_empty());
}
