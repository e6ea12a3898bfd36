//! The messages of the web-socket interface: what the server sends for an
//! agent action, and what a client's request asks of the agent.
use vstd::prelude::*;
use crate::agent::{AgentAction, send_message_actions};
use crate::message::{Message, MessageAuthor, MessageExtra, MessageValue, value_text};
use crate::strutil::{push_str, string_of};

verus! {

/// The author of a message as a client sees it.
#[derive(Debug, Clone, Copy, PartialEq, Eq, Structural)]
pub enum WsMessageAuthor {
    Llm,
    Function,
    User,
    System,
}

/// The kind of a message as a client sees it.
#[derive(Debug, Clone, Copy, PartialEq, Eq, Structural)]
pub enum WsMessageType {
    Text,
    FunctionCall,
    FunctionResult,
    Error,
}

/// A message as a client sees it.
#[derive(Debug)]
pub struct WsMessage {
    pub id: u64,
    pub author: WsMessageAuthor,
    pub msg_type: WsMessageType,
    pub content: String,
}

/// What the server sends.
#[derive(Debug)]
pub enum ServerMessage {
    Message { channel: String, message: WsMessage },
    SendTextMessage { channel: String, text: String },
    SendCancel { channel: String },
}

/// What a client asks.
#[derive(Debug)]
pub enum ClientMessage {
    SendMessage { channel: String, text: String },
    Cancel { channel: String },
}

pub open spec fn ws_author(a: MessageAuthor) -> WsMessageAuthor {
    match a {
        MessageAuthor::LLM => WsMessageAuthor::Llm,
        MessageAuthor::Function => WsMessageAuthor::Function,
        MessageAuthor::User => WsMessageAuthor::User,
        MessageAuthor::System => WsMessageAuthor::System,
    }
}

pub open spec fn ws_type(v: crate::message::ValueView) -> WsMessageType {
    match v {
        crate::message::ValueView::Text(_) => WsMessageType::Text,
        crate::message::ValueView::TextLLM(_, _, _) => WsMessageType::Text,
        crate::message::ValueView::FunctionCall(_, _) => WsMessageType::FunctionCall,
        crate::message::ValueView::FunctionResult(_, _) => WsMessageType::FunctionResult,
        crate::message::ValueView::Error(_) => WsMessageType::Error,
    }
}

/// A message as a client sees it: its id, author, kind and text.
pub fn serialize_message(msg: Message) -> (r: WsMessage)
    ensures
        r.id == msg.id,
        r.author == ws_author(msg.author),
        r.msg_type == ws_type(msg@.value),
        r.content@ == value_text(msg@.value),
{
    let author = match msg.author {
        MessageAuthor::LLM => WsMessageAuthor::Llm,
        MessageAuthor::Function => WsMessageAuthor::Function,
        MessageAuthor::User => WsMessageAuthor::User,
        MessageAuthor::System => WsMessageAuthor::System,
    };
    let msg_type = match &msg.value {
        MessageValue::Text(_) => WsMessageType::Text,
        MessageValue::TextLLM(_, _, _) => WsMessageType::Text,
        MessageValue::FunctionCall(_) => WsMessageType::FunctionCall,
        MessageValue::FunctionResult(_) => WsMessageType::FunctionResult,
        MessageValue::Error(_) => WsMessageType::Error,
    };
    WsMessage { id: msg.id, author, msg_type, content: msg.value.as_str() }
}

/// What the server sends a client for an agent action: a message of a
/// channel as it is, an error as a system text `ERROR: ...` with id zero,
/// nothing for the other actions.
pub fn server_message(action: AgentAction) -> (r: Option<ServerMessage>)
    ensures
        match action {
            AgentAction::Message { channel, msg } => r matches Some(ServerMessage::Message { channel: c, message: m })
                && c@ == channel@ && m.id == msg.id && m.author == ws_author(msg.author)
                && m.msg_type == ws_type(msg@.value) && m.content@ == value_text(msg@.value),
            AgentAction::Error { channel, msg } => r matches Some(ServerMessage::Message { channel: c, message: m })
                && c@ == channel@ && m.id == 0 && m.author == WsMessageAuthor::System
                && m.msg_type == WsMessageType::Text && m.content@ == "ERROR: "@ + msg@,
            _ => r is None,
        },
{
    match action {
        AgentAction::Message { channel, msg } => Some(
            ServerMessage::Message { channel, message: serialize_message(msg) },
        ),
        AgentAction::Error { channel, msg } => {
            let mut t: Vec<char> = Vec::new();
            push_str(&mut t, "ERROR: ");
            push_str(&mut t, msg.as_str());
            let text = string_of(t.as_slice());
            let m = Message {
                id: 0,
                time: 0,
                author: MessageAuthor::System,
                value: MessageValue::Text(text),
                extra: MessageExtra::Empty,
            };
            Some(ServerMessage::Message { channel, message: serialize_message(m) })
        },
        _ => None,
    }
}

/// The agent actions a client's request asks for: a message and a run for
/// a message, a cancel request for a cancel.
pub fn client_actions(m: &ClientMessage) -> (r: Vec<AgentAction>)
    ensures
        match m {
            ClientMessage::SendMessage { channel, text } => r@.len() == 2 && (r@[0] matches AgentAction::SendTextMessage { channel: c, text: t }
                && c@ == channel@ && t@ == text@) && (r@[1] matches AgentAction::SendRun { channel: c } && c@ == channel@),
            ClientMessage::Cancel { channel } => r@.len() == 1 && (r@[0] matches AgentAction::SendCancel { channel: c }
                && c@ == channel@),
        },
{
    let mut r: Vec<AgentAction> = Vec::new();
    match m {
        ClientMessage::SendMessage { channel, text } => {
            let (a, b) = send_message_actions(channel.as_str(), text.as_str());
            r.push(a);
            r.push(b);
        },
        ClientMessage::Cancel { channel } => {
            r.push(AgentAction::SendCancel { channel: channel.clone() });
        },
    }
    r
}

} // verus!
