use twitch_chat::parse::IRCMessage;
use twitch_chat::session::ConnectError;
use twitch_chat::session::IRC;

fn cap_ack_event() -> IRCMessage {
    IRCMessage::parse(":tmi.twitch.tv CAP * ACK :twitch.tv/tags").unwrap()
}

#[test]
fn handshake_without_ack_times_out_after_one_record() {
    let (out_tx, out_rx) = crossbeam::channel::unbounded::<String>();
    let (_in_tx, in_rx) = crossbeam::channel::unbounded::<IRCMessage>();
    let r = IRC::open(out_tx, in_rx, "secrettoken", "me", "somechannel", 0);
    assert_eq!(r.err().unwrap(), ConnectError::NoAck);
    let sent: Vec<String> = out_rx.try_iter().collect();
    assert_eq!(sent.len(), 1);
    assert_eq!(
        sent[0],
        "CAP REQ :twitch.tv/membership twitch.tv/tags twitch.tv/commands\r\n"
    );
}

#[test]
fn handshake_with_wrong_first_event_fails() {
    let (out_tx, out_rx) = crossbeam::channel::unbounded::<String>();
    let (in_tx, in_rx) = crossbeam::channel::unbounded::<IRCMessage>();
    in_tx
        .send(IRCMessage::parse(":tmi.twitch.tv PING :tmi.twitch.tv\r\n").unwrap())
        .unwrap();
    let r = IRC::open(out_tx, in_rx, "secrettoken", "me", "somechannel", 1);
    assert_eq!(r.err().unwrap(), ConnectError::NoAck);
    let sent: Vec<String> = out_rx.try_iter().collect();
    assert_eq!(sent.len(), 1);
}

#[test]
fn handshake_with_ack_sends_pass_nick_join_in_order() {
    let (out_tx, out_rx) = crossbeam::channel::unbounded::<String>();
    let (in_tx, in_rx) = crossbeam::channel::unbounded::<IRCMessage>();
    in_tx.send(cap_ack_event()).unwrap();
    let session = IRC::open(out_tx, in_rx, "secrettoken", "me", "somechannel", 1).unwrap();
    assert_eq!(session.channel_str(), "somechannel");
    assert_eq!(session.nick_str(), "me");
    let sent: Vec<String> = out_rx.try_iter().collect();
    assert_eq!(
        sent,
        vec![
            "CAP REQ :twitch.tv/membership twitch.tv/tags twitch.tv/commands\r\n".to_string(),
            "PASS oauth:secrettoken\r\n".to_string(),
            "NICK me\r\n".to_string(),
            "JOIN #somechannel\r\n".to_string(),
        ]
    );
}

#[test]
fn handshake_with_closed_outbound_queue_fails() {
    let (out_tx, out_rx) = crossbeam::channel::unbounded::<String>();
    drop(out_rx);
    let (in_tx, in_rx) = crossbeam::channel::unbounded::<IRCMessage>();
    in_tx.send(cap_ack_event()).unwrap();
    let r = IRC::open(out_tx, in_rx, "secrettoken", "me", "somechannel", 1);
    assert_eq!(r.err().unwrap(), ConnectError::SendFailed);
}

#[test]
fn send_message_frames_a_chat_record() {
    let (out_tx, out_rx) = crossbeam::channel::unbounded::<String>();
    let (in_tx, in_rx) = crossbeam::channel::unbounded::<IRCMessage>();
    in_tx.send(cap_ack_event()).unwrap();
    let mut session = IRC::open(out_tx, in_rx, "t", "me", "chan", 1).unwrap();
    let _handshake: Vec<String> = out_rx.try_iter().collect();
    session.send_message("hello there").unwrap();
    assert_eq!(out_rx.try_recv().unwrap(), "PRIVMSG #chan :hello there\r\n");
}

#[test]
fn send_message_fails_when_writer_is_gone() {
    let (out_tx, out_rx) = crossbeam::channel::unbounded::<String>();
    let (in_tx, in_rx) = crossbeam::channel::unbounded::<IRCMessage>();
    in_tx.send(cap_ack_event()).unwrap();
    let mut session = IRC::open(out_tx, in_rx, "t", "me", "chan", 1).unwrap();
    drop(out_rx);
    assert!(session.send_message("hello").is_err());
}

#[test]
fn try_recv_is_non_blocking() {
    let (out_tx, out_rx) = crossbeam::channel::unbounded::<String>();
    let (in_tx, in_rx) = crossbeam::channel::unbounded::<IRCMessage>();
    in_tx.send(cap_ack_event()).unwrap();
    let mut session = IRC::open(out_tx, in_rx, "t", "me", "chan", 1).unwrap();
    let _handshake: Vec<String> = out_rx.try_iter().collect();
    assert!(session.try_recv().is_none());
    in_tx
        .send(IRCMessage::parse(":n!u@h PRIVMSG #chan :hi").unwrap())
        .unwrap();
    assert!(session.try_recv().is_some());
    assert!(session.try_recv().is_none());
}
