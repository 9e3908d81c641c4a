use async_channels::chat::{route_incoming, Message};

#[test]
fn routes_user_announcement_through() {
    let user = "alice".to_owned();
    match route_incoming(&user, Message::User("bob".to_owned())) {
        Some(Message::User(name)) => assert_eq!(name, "bob"),
        _ => panic!("a user announcement passes through unchanged"),
    }
}

#[test]
fn routes_client_message_as_attributed_chat() {
    let user = "alice".to_owned();
    match route_incoming(&user, Message::ClientMessage("hello".to_owned())) {
        Some(Message::Chat { user, content }) => {
            assert_eq!(user, "alice");
            assert_eq!(content, "hello");
        }
        _ => panic!("a client message becomes a chat entry of its sender"),
    }
}

#[test]
fn drops_echoed_chat_entries() {
    let user = "alice".to_owned();
    let echoed = Message::Chat {
        user: "carol".to_owned(),
        content: "hi".to_owned(),
    };
    assert!(route_incoming(&user, echoed).is_none());
}
