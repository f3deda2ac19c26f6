//! The session layer: verified outbound record builders, the handshake
//! decision, and thin trusted wrappers around the two channels that connect
//! the reader and writer loops to the rest of the client.

use std::time::Duration;
use vstd::prelude::*;
use vstd::string::*;

use crate::parse::IRCCommand;
use crate::parse::IRCMessage;

verus! {

#[verifier::external_type_specification]
#[verifier::external_body]
#[verifier::reject_recursive_types(T)]
pub struct ExSender<T>(crossbeam::channel::Sender<T>);

#[verifier::external_type_specification]
#[verifier::external_body]
#[verifier::reject_recursive_types(T)]
pub struct ExReceiver<T>(crossbeam::channel::Receiver<T>);

/// Relies on crossbeam::channel::Sender::send: hands the record to the
/// writer loop's queue; it fails only when every receiver is gone. Whether
/// it succeeds depends on the other side, so nothing more is promised.
#[verifier::external_body]
fn channel_send(sender: &crossbeam::channel::Sender<String>, record: String) -> (ok: bool) {
    sender.send(record).is_ok()
}

/// Relies on crossbeam::channel::Receiver::try_recv: pops the next pending
/// event without blocking; an empty and a disconnected queue both yield
/// nothing here.
#[verifier::external_body]
fn channel_try_recv(receiver: &crossbeam::channel::Receiver<IRCMessage>) -> (r: Option<
    IRCMessage,
>) {
    receiver.try_recv().ok()
}

/// Relies on crossbeam::channel::Receiver::recv_timeout: waits up to the
/// timeout for the next event; a timeout and a disconnected queue both
/// yield nothing here.
#[verifier::external_body]
fn channel_recv_timeout(
    receiver: &crossbeam::channel::Receiver<IRCMessage>,
    secs: u64,
) -> (r: Option<IRCMessage>) {
    receiver.recv_timeout(Duration::from_secs(secs)).ok()
}

/// Why opening a session failed; fatal, never retried.
#[derive(Debug, PartialEq, Eq)]
pub enum ConnectError {
    /// The first inbound event was missing, late or not a capability ack.
    NoAck,
    /// The outbound queue no longer accepts records.
    SendFailed,
}

/// The outbound queue (or the writer behind it) is gone.
#[derive(Debug, PartialEq, Eq)]
pub struct SendError;

/// The characters of the capability request record.
pub open spec fn cap_req_chars() -> Seq<char> {
    "CAP REQ :twitch.tv/membership twitch.tv/tags twitch.tv/commands\r\n"@
}

/// The capability request record.
pub fn cap_req_record() -> (r: String)
    ensures
        r@ == cap_req_chars(),
{
    String::from_str("CAP REQ :twitch.tv/membership twitch.tv/tags twitch.tv/commands\r\n")
}

/// The characters of the `PASS` record for an auth token.
pub open spec fn pass_chars(token: Seq<char>) -> Seq<char> {
    "PASS oauth:"@ + token + "\r\n"@
}

/// The `PASS` record carrying the auth token.
pub fn pass_record(token: &str) -> (r: String)
    ensures
        r@ == pass_chars(token@),
{
    let mut r = String::from_str("PASS oauth:");
    r.append(token);
    r.append("\r\n");
    r
}

/// The characters of the `NICK` record for a nickname.
pub open spec fn nick_chars(nick: Seq<char>) -> Seq<char> {
    "NICK "@ + nick + "\r\n"@
}

/// The `NICK` record carrying the nickname.
pub fn nick_record(nick: &str) -> (r: String)
    ensures
        r@ == nick_chars(nick@),
{
    let mut r = String::from_str("NICK ");
    r.append(nick);
    r.append("\r\n");
    r
}

/// The characters of the `JOIN` record for a channel.
pub open spec fn join_chars(channel: Seq<char>) -> Seq<char> {
    "JOIN #"@ + channel + "\r\n"@
}

/// The `JOIN` record carrying the channel.
pub fn join_record(channel: &str) -> (r: String)
    ensures
        r@ == join_chars(channel@),
{
    let mut r = String::from_str("JOIN #");
    r.append(channel);
    r.append("\r\n");
    r
}

/// The characters of a chat record for a channel and message text.
pub open spec fn privmsg_chars(channel: Seq<char>, text: Seq<char>) -> Seq<char> {
    "PRIVMSG #"@ + channel + " :"@ + text + "\r\n"@
}

/// The chat record carrying one outbound message.
pub fn privmsg_record(channel: &str, text: &str) -> (r: String)
    ensures
        r@ == privmsg_chars(channel@, text@),
{
    let mut r = String::from_str("PRIVMSG #");
    r.append(channel);
    r.append(" :");
    r.append(text);
    r.append("\r\n");
    r
}

/// Decides the handshake from the first inbound event: only a capability
/// ack goes on, and then exactly the `PASS`, `NICK` and `JOIN` records
/// follow, in that order.
pub fn handshake_records(
    first: Option<IRCMessage>,
    auth_token: &str,
    nick: &str,
    channel: &str,
) -> (r: Result<(String, String, String), ConnectError>)
    ensures
        r is Ok <==> (first matches Some(m) && m.command is CapAck),
        match r {
            Ok(recs) => recs.0@ == pass_chars(auth_token@) && recs.1@ == nick_chars(nick@)
                && recs.2@ == join_chars(channel@),
            Err(e) => e is NoAck,
        },
{
    match first {
        Some(m) => match m.command {
            IRCCommand::CapAck => Ok(
                (pass_record(auth_token), nick_record(nick), join_record(channel)),
            ),
            _ => Err(ConnectError::NoAck),
        },
        None => Err(ConnectError::NoAck),
    }
}

/// A live session: the two queue endpoints plus the channel and nickname
/// the session was opened with.
pub struct IRC {
    receiver: crossbeam::channel::Receiver<IRCMessage>,
    sender: crossbeam::channel::Sender<String>,
    auth_token: String,
    channel: String,
    nick: String,
}

impl IRC {
    /// The channel this session joined.
    pub closed spec fn channel_view(&self) -> Seq<char> {
        self.channel@
    }

    /// The nickname this session authenticated as.
    pub closed spec fn nick_view(&self) -> Seq<char> {
        self.nick@
    }

    /// The auth token this session was opened with.
    pub closed spec fn auth_token_view(&self) -> Seq<char> {
        self.auth_token@
    }

    /// The channel name, for framing and attributing outbound messages.
    pub fn channel_str(&self) -> (r: &String)
        ensures
            r@ == self.channel_view(),
    {
        &self.channel
    }

    /// The nickname, for attributing locally composed messages.
    pub fn nick_str(&self) -> (r: &String)
        ensures
            r@ == self.nick_view(),
    {
        &self.nick
    }

    /// The auth token the session was opened with.
    pub fn auth_token_str(&self) -> (r: &String)
        ensures
            r@ == self.auth_token_view(),
    {
        &self.auth_token
    }

    /// Performs the handshake over the given queue endpoints: sends the
    /// capability request, waits up to `ack_timeout_secs` for the ack, and
    /// only then sends `PASS`, `NICK` and `JOIN`. Any other first event, a
    /// timeout, or a closed queue is fatal; no retry.
    pub fn open(
        sender: crossbeam::channel::Sender<String>,
        receiver: crossbeam::channel::Receiver<IRCMessage>,
        auth_token: &str,
        nick: &str,
        channel: &str,
        ack_timeout_secs: u64,
    ) -> (r: Result<IRC, ConnectError>)
        ensures
            match r {
                Ok(s) => s.auth_token_view() == auth_token@ && s.channel_view() == channel@
                    && s.nick_view() == nick@,
                Err(_) => true,
            },
    {
        if !channel_send(&sender, cap_req_record()) {
            return Err(ConnectError::SendFailed);
        }
        let first = channel_recv_timeout(&receiver, ack_timeout_secs);
        let recs = match handshake_records(first, auth_token, nick, channel) {
            Ok(recs) => recs,
            Err(e) => {
                return Err(e);
            },
        };
        let (pass, nickr, join) = recs;
        if !channel_send(&sender, pass) {
            return Err(ConnectError::SendFailed);
        }
        if !channel_send(&sender, nickr) {
            return Err(ConnectError::SendFailed);
        }
        if !channel_send(&sender, join) {
            return Err(ConnectError::SendFailed);
        }
        Ok(
            IRC {
                receiver,
                sender,
                auth_token: String::from_str(auth_token),
                channel: String::from_str(channel),
                nick: String::from_str(nick),
            },
        )
    }

    /// Frames `message` as a chat record for this session's channel and
    /// hands it to the writer loop; fails only when the queue is gone.
    pub fn send_message(&mut self, message: &str) -> (r: Result<(), SendError>)
        ensures
            *final(self) == *old(self),
    {
        let record = privmsg_record(self.channel.as_str(), message);
        if channel_send(&self.sender, record) {
            Ok(())
        } else {
            Err(SendError)
        }
    }

    /// Pops the next inbound event without blocking.
    pub fn try_recv(&mut self) -> (r: Option<IRCMessage>)
        ensures
            *final(self) == *old(self),
    {
        channel_try_recv(&self.receiver)
    }
}

} // verus!
