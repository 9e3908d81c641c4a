//! The messages of a small chat protocol, and the server's one routing
//! decision: what to rebroadcast for each line a client sends. Reading
//! and writing sockets, and the wire encoding, live outside the library.

use vstd::prelude::*;

verus! {

/// One chat protocol message.
#[derive(Debug, Clone)]
pub enum Message {
    /// A user enters the chat and provides their username.
    User(String),
    /// A message sent from a client, that needs to be matched with their
    /// username.
    ClientMessage(String),
    /// A message sent from the server to the clients, containing the
    /// username of the sender and the message content.
    Chat { user: String, content: String },
}

/// What the server rebroadcasts for one line that `user` sent: a user
/// announcement passes through unchanged, a client message becomes a chat
/// entry attributed to `user`, and a chat entry coming back from a client
/// is dropped.
pub fn route_incoming(user: &String, msg: Message) -> (r: Option<Message>)
    ensures
        (msg matches Message::User(name) ==> r == Some(Message::User(name))),
        (msg matches Message::ClientMessage(content) ==> r == Some(
            Message::Chat { user: *user, content },
        )),
        (msg is Chat ==> r is None),
{
    match msg {
        Message::User(name) => Some(Message::User(name)),
        Message::ClientMessage(content) => Some(Message::Chat { user: user.clone(), content }),
        Message::Chat { user: _, content: _ } => None,
    }
}

} // verus!
