//! Queries a game server over its length-prefixed binary status protocol and
//! renders the rich-text description it returns.
//!
//! The crate is organised around two cores: the binary wire codec together
//! with the framed packet exchange (`wire`, `packets`), and the chat-component
//! renderer that turns a recursive JSON text structure into styled terminal
//! text (`json`, `chat`).  Around them sit the status-document model
//! (`status`), command-line argument parsing (`args`), the LAN announcement
//! parser (`lan`), and small decimal text helpers (`numtext`).

pub mod args;
pub mod chat;
pub mod json;
pub mod lan;
pub mod numtext;
pub mod packets;
pub mod status;
pub mod wire;
