use irc_core::request::{self, Request, BUFFER_SIZE};

fn buffer_with(bytes: &[u8]) -> Vec<u8> {
    assert!(bytes.len() <= BUFFER_SIZE);
    let mut v = bytes.to_vec();
    v.resize(BUFFER_SIZE, 0);
    v
}

#[test]
fn fresh_request_is_all_zero_and_invalid() {
    let mut r = Request::new();
    assert_eq!(r.size(), 0);
    assert!(!r.valid());
    assert_eq!(r.data().len(), BUFFER_SIZE);
    assert!(r.data().iter().all(|b| *b == 0));
}

#[test]
fn free_constructor_matches() {
    let mut r = request::new();
    assert_eq!(r.size(), 0);
    assert!(!r.valid());
}

#[test]
fn size_counts_bytes_before_first_zero() {
    let mut r = Request::new();
    r.set_data(buffer_with(b"CAP LS\r\n"));
    assert_eq!(r.size(), 8);
}

#[test]
fn size_stops_at_embedded_zero() {
    let mut r = Request::new();
    let mut data = buffer_with(b"ABCDEF");
    data[3] = 0;
    r.set_data(data);
    assert_eq!(r.size(), 3);
}

#[test]
fn crlf_terminated_request_is_valid() {
    let mut r = Request::new();
    r.set_data(buffer_with(b"CAP LS\r\n"));
    assert!(r.valid());
}

#[test]
fn short_request_is_invalid() {
    let mut r = Request::new();
    r.set_data(buffer_with(b"\r\n"));
    assert!(!r.valid());
}

#[test]
fn unterminated_request_is_invalid() {
    let mut r = Request::new();
    r.set_data(buffer_with(b"CAP LS"));
    assert!(!r.valid());
}

#[test]
fn string_decodes_the_sized_prefix() {
    let mut r = Request::new();
    r.set_data(buffer_with(b"NICK guest\r\n"));
    assert_eq!(r.string(), "NICK guest\r\n");
}

#[test]
fn string_degrades_on_invalid_utf8() {
    let mut r = Request::new();
    r.set_data(buffer_with(&[0xff, 0xfe, b'\r', b'\n']));
    assert_eq!(r.string(), "");
}

#[test]
fn messages_split_on_crlf_in_order() {
    let mut r = Request::new();
    r.set_data(buffer_with(b"CAP LS\r\nNICK guest\r\n"));
    let msgs = r.messages();
    assert_eq!(msgs.len(), 2);
    assert_eq!(msgs[0].command().as_str(), "CAP");
    assert_eq!(msgs[0].parameters()[0], "LS");
    assert_eq!(msgs[1].command().as_str(), "NICK");
    assert_eq!(msgs[1].parameters()[0], "guest");
}

#[test]
fn messages_skip_empty_segments() {
    let mut r = Request::new();
    r.set_data(buffer_with(b"\r\n\r\nFOO\r\n"));
    let msgs = r.messages();
    assert_eq!(msgs.len(), 1);
    assert_eq!(msgs[0].command().as_str(), "FOO");
}

#[test]
fn messages_empty_on_invalid_utf8() {
    let mut r = Request::new();
    r.set_data(buffer_with(&[0xff, 0xfe, b'\r', b'\n']));
    assert!(r.messages().is_empty());
}

#[test]
fn clear_data_resets_everything() {
    let mut r = Request::new();
    r.set_data(buffer_with(b"CAP LS\r\n"));
    assert!(r.valid());
    r.clear_data();
    assert_eq!(r.size(), 0);
    assert!(!r.valid());
    assert!(r.messages().is_empty());
}
