//! The messages of the chat clients.

use vstd::prelude::*;

verus! {

/// An identifier of 32 bytes.
pub type UUIDv7 = [u8; 32];

/// A user logs in.
#[derive(Debug, Clone, PartialEq, Eq)]
pub struct Login {
    pub username: String,
    pub password: String,
}

/// A user joins a chat.
#[derive(Debug, Clone, PartialEq, Eq)]
pub struct ChatJoin {
    pub chat_id: UUIDv7,
    pub user_id: UUIDv7,
}

/// A user sends a message to a chat.
#[derive(Debug, Clone, PartialEq, Eq)]
pub struct MsgSend {
    pub chat_id: UUIDv7,
    pub user_id: UUIDv7,
    pub msg: String,
}

/// What a client may say.
#[derive(Debug, Clone, PartialEq, Eq)]
pub enum ClientMessage {
    Login(Login),
    ChatJoin(ChatJoin),
    MsgSend(MsgSend),
}

} // verus!
