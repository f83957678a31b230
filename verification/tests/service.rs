use irc_core::codec::Message;
use irc_core::request::{Request, BUFFER_SIZE};
use irc_core::service::Service;

fn request_of(bytes: &[u8]) -> Request {
    assert!(bytes.len() <= BUFFER_SIZE);
    let mut data = bytes.to_vec();
    data.resize(BUFFER_SIZE, 0);
    let mut r = Request::new();
    r.set_data(data);
    r
}

#[test]
fn cap_ls_yields_one_capability_reply() {
    let service = Service::new();
    let mut req = request_of(b"CAP LS\r\n");
    let reply = service.replies_for("peer", &mut req);
    let msgs = reply.messages();
    assert_eq!(msgs.len(), 1);
    assert_eq!(msgs[0].command().as_str(), "CAP");
    assert_eq!(msgs[0].parameters().len(), 3);
    assert_eq!(msgs[0].parameters()[0], "*");
    assert_eq!(msgs[0].parameters()[1], "LS");
    assert_eq!(msgs[0].parameters()[2], "");
}

#[test]
fn unknown_command_yields_no_reply() {
    let service = Service::new();
    let mut req = request_of(b"FOO bar\r\n");
    let reply = service.replies_for("peer", &mut req);
    assert!(reply.is_empty());
}

#[test]
fn nick_and_user_yield_no_reply() {
    let service = Service::new();
    let mut req = request_of(b"NICK guest\r\nUSER guest 0 * :real name\r\n");
    let reply = service.replies_for("peer", &mut req);
    assert!(reply.is_empty());
}

#[test]
fn command_match_is_case_insensitive() {
    let service = Service::new();
    let mut req = request_of(b"cap ls\r\n");
    let reply = service.replies_for("peer", &mut req);
    assert_eq!(reply.messages().len(), 1);
    assert_eq!(reply.messages()[0].command().as_str(), "CAP");
}

#[test]
fn cap_other_subcommand_yields_no_reply() {
    let service = Service::new();
    let mut req = request_of(b"CAP REQ\r\n");
    let reply = service.replies_for("peer", &mut req);
    assert!(reply.is_empty());
}

#[test]
fn cap_without_parameters_yields_no_reply() {
    let service = Service::new();
    let mut req = request_of(b"CAP\r\n");
    let reply = service.replies_for("peer", &mut req);
    assert!(reply.is_empty());
}

#[test]
fn two_cap_ls_lines_yield_two_replies() {
    let service = Service::new();
    let mut req = request_of(b"CAP LS\r\nCAP LS\r\n");
    let reply = service.replies_for("peer", &mut req);
    assert_eq!(reply.messages().len(), 2);
}

#[test]
fn reply_strings_are_encoded_lines() {
    let service = Service::new();
    let mut req = request_of(b"CAP LS\r\n");
    let reply = service.replies_for("peer", &mut req);
    let lines = reply.strings();
    assert_eq!(lines.len(), 1);
    assert_eq!(lines[0], "CAP * LS \r\n");
}

#[test]
fn reply_cap_direct_ls() {
    let service = Service::new();
    let m = Message::from_string("CAP LS".to_string());
    let r = service.reply_cap("peer".to_string(), &m);
    assert!(r.is_some());
    let rep = r.unwrap();
    assert_eq!(rep.messages().len(), 1);
    assert_eq!(rep.messages()[0].command().as_str(), "CAP");
}

#[test]
fn reply_cap_direct_other() {
    let service = Service::new();
    let m = Message::from_string("CAP END".to_string());
    assert!(service.reply_cap("peer".to_string(), &m).is_none());
}

#[test]
fn reply_nick_and_user_are_placeholders() {
    let service = Service::new();
    let m = Message::from_string("NICK guest".to_string());
    assert!(service.reply_nick("peer".to_string(), &m).is_none());
    assert!(service.reply_user("peer".to_string(), &m).is_none());
}
