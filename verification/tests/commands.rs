//! Lines that a user types.
use libp2p_dandelion::command::{parse_command, Command};

fn added(line: &str) -> Option<String> {
    match parse_command(line) {
        Command::AddPeer(address) => Some(address),
        _ => None,
    }
}

fn sent(line: &str) -> Option<String> {
    match parse_command(line) {
        Command::Send(text) => Some(text),
        _ => None,
    }
}

#[test]
fn add_peer_line() {
    assert_eq!(added("add peer /ip4/1.2.3.4/tcp/5").unwrap(), "/ip4/1.2.3.4/tcp/5");
    assert_eq!(added("add peer ").unwrap(), "");
}

#[test]
fn send_line() {
    assert_eq!(sent("send hello").unwrap(), "hello");
    assert_eq!(sent("send ").unwrap(), "");
    assert_eq!(sent("send h\u{e9}llo w\u{f6}rld \u{1f33c}").unwrap(), "h\u{e9}llo w\u{f6}rld \u{1f33c}");
}

#[test]
fn the_word_is_taken_out_wherever_it_stands() {
    for line in ["send a send b", "send send send x", "send xsend y", "send sensend d send"] {
        let expected = line.split("send ").collect::<Vec<&str>>().join("");
        assert_eq!(sent(line).unwrap(), expected);
    }
    assert_eq!(sent("send a send b").unwrap(), "a b");
    assert_eq!(added("add peer add peer x").unwrap(), "x");
    assert_eq!(added("add peer send x").unwrap(), "send x");
}

#[test]
fn other_lines_ask_for_nothing() {
    for line in ["", "send", "add peer", "Send x", " send x", "sen d", "remove peer x"] {
        assert!(matches!(parse_command(line), Command::Other), "{line}");
    }
}
