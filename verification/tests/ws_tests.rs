use bond::agent::AgentAction;
use bond::function::FunctionCall;
use bond::message::{Message, MessageAuthor, MessageExtra, MessageValue};
use bond::ws::{client_actions, serialize_message, server_message, ClientMessage, ServerMessage, WsMessageAuthor, WsMessageType};

#[test]
fn serializes_messages() {
    let m = Message {
        id: 9,
        time: 1,
        author: MessageAuthor::LLM,
        value: MessageValue::FunctionCall(FunctionCall { name: "f".to_string(), args: vec![] }),
        extra: MessageExtra::Empty,
    };
    let w = serialize_message(m);
    assert_eq!(w.id, 9);
    assert_eq!(w.author, WsMessageAuthor::Llm);
    assert_eq!(w.msg_type, WsMessageType::FunctionCall);
    assert_eq!(w.content, "func call: f\n[]");
}

#[test]
fn server_messages() {
    let e = server_message(AgentAction::Error { channel: "c".to_string(), msg: "bad".to_string() });
    match e {
        Some(ServerMessage::Message { channel, message }) => {
            assert_eq!(channel, "c");
            assert_eq!(message.id, 0);
            assert_eq!(message.author, WsMessageAuthor::System);
            assert_eq!(message.msg_type, WsMessageType::Text);
            assert_eq!(message.content, "ERROR: bad");
        }
        _ => panic!("expected a message"),
    }
    assert!(server_message(AgentAction::SendRun { channel: "c".to_string() }).is_none());
    let m = Message {
        id: 2,
        time: 2,
        author: MessageAuthor::User,
        value: MessageValue::Text("t".to_string()),
        extra: MessageExtra::Empty,
    };
    assert!(matches!(server_message(AgentAction::Message { channel: "c".to_string(), msg: m }), Some(ServerMessage::Message { .. })));
}

#[test]
fn client_requests() {
    let a = client_actions(&ClientMessage::SendMessage { channel: "c".to_string(), text: "hi".to_string() });
    assert_eq!(a.len(), 2);
    assert!(matches!(&a[1], AgentAction::SendRun { channel } if channel == "c"));
    let a = client_actions(&ClientMessage::Cancel { channel: "c".to_string() });
    assert!(matches!(&a[0], AgentAction::SendCancel { channel } if channel == "c"));
}
