//! A terminal client library for an IRC-flavored chat protocol (Twitch
//! dialect): a verified wire-protocol parser, a session layer that frames
//! outbound records and drains inbound events through channels, and a modal
//! (vim-like) interaction state machine over a scrollback log and a one-line
//! compose buffer.

pub mod message;
pub mod parse;
pub mod session;
pub mod view;
