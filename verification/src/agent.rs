//! The agent's decisions: what each action does to the channels, and the
//! steps of a run, in which the model is asked until the channel stops
//! growing. Sending, receiving and the clock belong to the caller.
use vstd::prelude::*;
use crate::channels::{Channels, ChannelView, with_channel, cloned_into, busy_step};
use crate::function::{FunctionCall, FunctionResult, Functions};
use crate::message::{
    Message, MessageAuthor, MessageExtra, MessageValue, MessageView, ValueView, ExtraView,
    messages_view,
};

verus! {

/// What flows between the agent and those who drive or watch it.
#[allow(inconsistent_fields)]
#[derive(Debug)]
pub enum AgentAction {
    SendTextMessage { channel: String, text: String },
    SendRun { channel: String },
    SendCancel { channel: String },
    SendSystemPrompt { channel: String, name: String, text: String },
    SendNewChannel { channel: String, template: String },
    Message { channel: String, msg: Message },
    Busy { channel: String, busy: bool, cancel: bool },
    Error { channel: String, msg: String },
}

impl Clone for AgentAction {
    fn clone(&self) -> (r: Self) {
        match self {
            AgentAction::SendTextMessage { channel, text } => AgentAction::SendTextMessage {
                channel: channel.clone(),
                text: text.clone(),
            },
            AgentAction::SendRun { channel } => AgentAction::SendRun { channel: channel.clone() },
            AgentAction::SendCancel { channel } => AgentAction::SendCancel { channel: channel.clone() },
            AgentAction::SendSystemPrompt { channel, name, text } => AgentAction::SendSystemPrompt {
                channel: channel.clone(),
                name: name.clone(),
                text: text.clone(),
            },
            AgentAction::SendNewChannel { channel, template } => AgentAction::SendNewChannel {
                channel: channel.clone(),
                template: template.clone(),
            },
            AgentAction::Message { channel, msg } => AgentAction::Message {
                channel: channel.clone(),
                msg: msg.clone(),
            },
            AgentAction::Busy { channel, busy, cancel } => AgentAction::Busy {
                channel: channel.clone(),
                busy: *busy,
                cancel: *cancel,
            },
            AgentAction::Error { channel, msg } => AgentAction::Error {
                channel: channel.clone(),
                msg: msg.clone(),
            },
        }
    }
}

/// The channel that new channels are copied from.
pub open spec fn template_name() -> Seq<char> {
    "template_main"@
}

/// What the caller does after an action was handled.
#[derive(Debug)]
pub enum Step {
    /// Nothing more.
    Done,
    /// Broadcast this action.
    Broadcast(AgentAction),
    /// Start a run on this channel.
    Run(String),
}

/// The agent's channels.
pub struct AgentState {
    pub channels: Channels,
}

impl AgentState {
    /// The channels are well formed and the template channel is there.
    pub open spec fn wf(&self) -> bool {
        self.channels.wf() && self.channels@.contains_key(template_name())
    }

    /// An agent with only the template channel.
    pub fn new() -> (r: Self)
        ensures
            r.wf(),
            r.channels@ == Map::<Seq<char>, ChannelView>::empty().insert(
                template_name(),
                crate::channels::empty_channel(),
            ),
    {
        let mut channels = Channels::new();
        channels.add_channel("template_main");
        proof {
            reveal_strlit("template_main");
        }
        AgentState { channels }
    }

    /// Handles one action. A text message becomes a user message of its
    /// channel, which is broadcast; a system prompt becomes a system
    /// message; a new channel is a copy of the template; a run request asks
    /// for a run; the other actions change nothing. The message id and time
    /// are `id` and `time`.
    pub fn handle(&mut self, action: AgentAction, id: u64, time: u64) -> (r: Step)
        requires
            old(self).wf(),
            action matches AgentAction::SendTextMessage { channel, .. } ==> old(
                self,
            ).channels@.contains_key(channel@),
            action matches AgentAction::SendSystemPrompt { channel, .. } ==> old(
                self,
            ).channels@.contains_key(channel@),
        ensures
            final(self).wf(),
            match action {
                AgentAction::SendTextMessage { channel, text } => {
                    let m = MessageView {
                        id,
                        time,
                        author: MessageAuthor::User,
                        value: ValueView::Text(text@),
                        extra: ExtraView::Empty,
                    };
                    &&& final(self).channels@ == old(self).channels@.insert(channel@, ChannelView {
                        messages: old(self).channels@[channel@].messages.push(m),
                        ..old(self).channels@[channel@]
                    })
                    &&& r matches Step::Broadcast(AgentAction::Message { channel: c, msg })
                        && c@ == channel@ && msg@ == m
                },
                AgentAction::SendSystemPrompt { channel, text, .. } => {
                    &&& final(self).channels@ == old(self).channels@.insert(channel@, ChannelView {
                        messages: old(self).channels@[channel@].messages.push(
                            MessageView {
                                id,
                                time,
                                author: MessageAuthor::System,
                                value: ValueView::Text(text@),
                                extra: ExtraView::Empty,
                            },
                        ),
                        ..old(self).channels@[channel@]
                    })
                    &&& r is Done
                },
                AgentAction::SendNewChannel { channel, .. } => {
                    &&& final(self).channels@ == cloned_into(
                        old(self).channels@,
                        template_name(),
                        channel@,
                    )
                    &&& r is Done
                },
                AgentAction::SendRun { channel } => {
                    &&& final(self).channels@ == old(self).channels@
                    &&& r matches Step::Run(c) && c@ == channel@
                },
                _ => final(self).channels@ == old(self).channels@ && r is Done,
            },
    {
        proof {
            reveal_strlit("template_main");
        }
        match action {
            AgentAction::SendTextMessage { channel, text } => {
                let msg = Message {
                    id,
                    time,
                    author: MessageAuthor::User,
                    value: MessageValue::Text(text),
                    extra: MessageExtra::Empty,
                };
                let copy = msg.clone();
                self.channels.add_message(channel.as_str(), copy);
                Step::Broadcast(AgentAction::Message { channel, msg })
            },
            AgentAction::SendSystemPrompt { channel, name: _, text } => {
                let msg = Message {
                    id,
                    time,
                    author: MessageAuthor::System,
                    value: MessageValue::Text(text),
                    extra: MessageExtra::Empty,
                };
                self.channels.add_message(channel.as_str(), msg);
                Step::Done
            },
            AgentAction::SendNewChannel { channel, template: _ } => {
                self.channels.clone_channel("template_main", channel.as_str());
                Step::Done
            },
            AgentAction::SendRun { channel } => Step::Run(channel),
            _ => Step::Done,
        }
    }
}

/// The actions that sending a text message to a channel makes: the message,
/// then a run request.
pub fn send_message_actions(chan: &str, text: &str) -> (r: (AgentAction, AgentAction))
    ensures
        r.0 matches AgentAction::SendTextMessage { channel, text: t } && channel@ == chan@ && t@
            == text@,
        r.1 matches AgentAction::SendRun { channel } && channel@ == chan@,
{
    (
        AgentAction::SendTextMessage { channel: chan.to_owned(), text: text.to_owned() },
        AgentAction::SendRun { channel: chan.to_owned() },
    )
}

// ===================================================================
// Runs
// ===================================================================

/// A run on one channel: the model is asked again as long as the channel
/// grew by more than the messages the model sent back.
pub struct Run {
    pub channel: String,
    pub last_len: usize,
    pub added: usize,
}

/// Whether the run goes on: the channel does not have exactly `last_len`
/// plus `added` messages.
pub open spec fn run_goes_on(len: int, last_len: int, added: int) -> bool {
    len != last_len + added
}

/// The message that records what a function call returned.
pub open spec fn result_message(id: u64, time: u64, name: Seq<char>, result: Seq<char>) -> MessageView {
    MessageView {
        id,
        time,
        author: MessageAuthor::System,
        value: ValueView::FunctionResult(name, result),
        extra: ExtraView::Empty,
    }
}

/// The channel with one more message.
pub open spec fn appended(c: ChannelView, m: MessageView) -> ChannelView {
    ChannelView { messages: c.messages.push(m), ..c }
}

impl Run {
    /// Starts a run on `channel`: `None` when the channel is busy;
    /// otherwise the channel is now busy.
    pub fn start(channels: &mut Channels, channel: &str) -> (r: Option<Run>)
        requires
            old(channels).wf(),
            old(channels)@.contains_key(channel@),
        ensures
            final(channels).wf(),
            r is Some == busy_step(old(channels)@[channel@]).0,
            final(channels)@ == old(channels)@.insert(
                channel@,
                busy_step(old(channels)@[channel@]).1,
            ),
            r matches Some(run) ==> run.channel@ == channel@ && run.last_len == 0 && run.added
                == 0,
    {
        if channels.try_set_busy(channel) {
            Some(Run { channel: channel.to_owned(), last_len: 0, added: 0 })
        } else {
            None
        }
    }

    /// The messages to send to the model next, or `None` when the run is
    /// over, in which case the channel is no longer busy.
    pub fn next_request(&mut self, channels: &mut Channels) -> (r: Option<Vec<Message>>)
        requires
            old(channels).wf(),
            old(channels)@.contains_key(old(self).channel@),
        ensures
            final(channels).wf(),
            final(self).channel@ == old(self).channel@,
            final(self).added == old(self).added,
            ({
                let c = old(channels)@[old(self).channel@];
                if run_goes_on(c.messages.len() as int, old(self).last_len as int, old(self).added as int) {
                    &&& r matches Some(v) && messages_view(v@) == c.messages
                    &&& final(self).last_len == c.messages.len()
                    &&& final(channels)@ == old(channels)@
                } else {
                    &&& r is None
                    &&& final(self).last_len == old(self).last_len
                    &&& final(channels)@ == old(channels)@.insert(
                        old(self).channel@,
                        ChannelView { busy: false, ..c },
                    )
                }
            }),
    {
        let len = channels.get_channel(self.channel.as_str()).get_messages_len();
        if self.added <= len && len - self.added == self.last_len {
            channels.unset_busy(self.channel.as_str());
            None
        } else {
            self.last_len = len;
            Some(channels.get_channel(self.channel.as_str()).get_messages())
        }
    }

    /// Takes one message of the model's reply: it is added to the channel,
    /// and when it is a function call the call is made and its result added
    /// too, with the call's id and the time `time`. Returns the action that
    /// broadcasts the message.
    pub fn absorb<F: Fn(&String, &[String]) -> String>(
        &mut self,
        channels: &mut Channels,
        msg: Message,
        functions: &Functions<F>,
        time: u64,
    ) -> (r: AgentAction)
        requires
            old(channels).wf(),
            old(channels)@.contains_key(old(self).channel@),
            old(self).added < usize::MAX,
            functions.wf(),
        ensures
            final(channels).wf(),
            final(self).channel@ == old(self).channel@,
            final(self).last_len == old(self).last_len,
            final(self).added == old(self).added + 1,
            r matches AgentAction::Message { channel, msg: m } && channel@ == old(self).channel@
                && m@ == msg@,
            msg@.value is FunctionCall ==> exists|res: Seq<char>|
                #![trigger result_message(msg.id, time, msg@.value->FunctionCall_0, res)]
                final(channels)@ == old(channels)@.insert(
                    old(self).channel@,
                    appended(
                        appended(old(channels)@[old(self).channel@], msg@),
                        result_message(msg.id, time, msg@.value->FunctionCall_0, res),
                    ),
                ) && match functions.handler(msg@.value->FunctionCall_0) {
                    Some(h) => exists|n: String, a: &[String], out: String|
                        n@ == msg@.value->FunctionCall_0 && crate::cmdlang::strings_view(a@)
                            == msg@.value->FunctionCall_1 && out@ == res && call_ensures(
                            h,
                            (&n, a),
                            out,
                        ),
                    None => res == crate::function::missing_function_text(),
                },
            !(msg@.value is FunctionCall) ==> final(channels)@ == old(channels)@.insert(
                old(self).channel@,
                appended(old(channels)@[old(self).channel@], msg@),
            ),
    {
        let ghost c = channels@[self.channel@];
        let copy = msg.clone();
        channels.add_message(self.channel.as_str(), copy);
        self.added = self.added + 1;
        match &msg.value {
            MessageValue::FunctionCall(fc) => {
                let call = fc.clone();
                let ghost call_name = call.name;
                let ghost call_args = call.args@;
                let fr = functions.exec(call);
                let ghost res = fr.result@;
                let ghost out_result = fr.result;
                let out = Message {
                    id: msg.id,
                    time,
                    author: MessageAuthor::System,
                    value: MessageValue::FunctionResult(fr),
                    extra: MessageExtra::Empty,
                };
                channels.add_message(self.channel.as_str(), out);
                proof {
                    let name = fc.name@;
                    assert(msg@.value->FunctionCall_0 == name);
                    if functions.handler(name) is Some {
                        let h = functions.handler(name)->Some_0;
                        let a = choose|a: &[String]| a@ == call_args && call_ensures(h, (&call_name, a), out_result);
                        assert(crate::cmdlang::strings_view(a@) == msg@.value->FunctionCall_1);
                        assert(call_ensures(h, (&call_name, a), out_result));
                    }
                    assert(channels@ == old(channels)@.insert(
                        self.channel@,
                        appended(appended(c, msg@), result_message(msg.id, time, name, res)),
                    ));
                }
            },
            _ => {},
        }
        AgentAction::Message { channel: self.channel.clone(), msg }
    }
}

} // verus!
