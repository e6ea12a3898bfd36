//! The messages of a conversation.
use vstd::prelude::*;
use crate::cmdlang::strings_view;
use crate::function::{FunctionCall, FunctionResult, clone_strings};
use crate::strutil::{push_str, str_debug, str_eq, string_of};

verus! {

/// Who wrote a message.
#[derive(Debug, Clone, Copy, PartialEq, Eq, Structural)]
pub enum MessageAuthor {
    LLM,
    Function,
    User,
    System,
}

/// What a message holds.
#[derive(Debug)]
pub enum MessageValue {
    Text(String),
    /// Text of the model, with the id and the status it was given.
    TextLLM(String, String, String),
    FunctionCall(FunctionCall),
    FunctionResult(FunctionResult),
    Error(String),
}

/// Extra key-value data of a message, in the order the keys were added.
#[derive(Debug)]
pub enum MessageExtra {
    Empty,
    Entries(Vec<(String, String)>),
}

/// One message of a channel.
#[derive(Debug)]
pub struct Message {
    pub id: u64,
    pub time: u64,
    pub author: MessageAuthor,
    pub value: MessageValue,
    pub extra: MessageExtra,
}

/// The mathematical value of a `MessageValue`.
pub enum ValueView {
    Text(Seq<char>),
    TextLLM(Seq<char>, Seq<char>, Seq<char>),
    FunctionCall(Seq<char>, Seq<Seq<char>>),
    FunctionResult(Seq<char>, Seq<char>),
    Error(Seq<char>),
}

/// The mathematical value of a `MessageExtra`.
pub enum ExtraView {
    Empty,
    Entries(Seq<(Seq<char>, Seq<char>)>),
}

/// The mathematical value of a `Message`.
pub struct MessageView {
    pub id: u64,
    pub time: u64,
    pub author: MessageAuthor,
    pub value: ValueView,
    pub extra: ExtraView,
}

pub open spec fn pairs_view(v: Seq<(String, String)>) -> Seq<(Seq<char>, Seq<char>)> {
    v.map_values(|p: (String, String)| (p.0@, p.1@))
}

impl View for MessageValue {
    type V = ValueView;

    open spec fn view(&self) -> ValueView {
        match self {
            MessageValue::Text(x) => ValueView::Text(x@),
            MessageValue::TextLLM(x, i, s) => ValueView::TextLLM(x@, i@, s@),
            MessageValue::FunctionCall(c) => ValueView::FunctionCall(c.name@, strings_view(c.args@)),
            MessageValue::FunctionResult(f) => ValueView::FunctionResult(f.name@, f.result@),
            MessageValue::Error(x) => ValueView::Error(x@),
        }
    }
}

impl View for MessageExtra {
    type V = ExtraView;

    open spec fn view(&self) -> ExtraView {
        match self {
            MessageExtra::Empty => ExtraView::Empty,
            MessageExtra::Entries(v) => ExtraView::Entries(pairs_view(v@)),
        }
    }
}

impl View for Message {
    type V = MessageView;

    open spec fn view(&self) -> MessageView {
        MessageView {
            id: self.id,
            time: self.time,
            author: self.author,
            value: self.value@,
            extra: self.extra@,
        }
    }
}

pub open spec fn messages_view(v: Seq<Message>) -> Seq<MessageView> {
    v.map_values(|m: Message| m@)
}

impl Clone for MessageValue {
    fn clone(&self) -> (r: Self)
        ensures
            r@ == self@,
    {
        match self {
            MessageValue::Text(x) => MessageValue::Text(x.clone()),
            MessageValue::TextLLM(x, i, s) => MessageValue::TextLLM(x.clone(), i.clone(), s.clone()),
            MessageValue::FunctionCall(c) => MessageValue::FunctionCall(
                FunctionCall { name: c.name.clone(), args: clone_strings(&c.args) },
            ),
            MessageValue::FunctionResult(f) => MessageValue::FunctionResult(
                FunctionResult { name: f.name.clone(), result: f.result.clone() },
            ),
            MessageValue::Error(x) => MessageValue::Error(x.clone()),
        }
    }
}

/// A copy of a list of key-value pairs.
pub fn clone_pairs(v: &Vec<(String, String)>) -> (r: Vec<(String, String)>)
    ensures
        pairs_view(r@) == pairs_view(v@),
{
    let mut out: Vec<(String, String)> = Vec::new();
    let mut i: usize = 0;
    while i < v.len()
        invariant
            i <= v@.len(),
            pairs_view(out@) == pairs_view(v@.subrange(0, i as int)),
        decreases v@.len() - i,
    {
        let p = (v[i].0.clone(), v[i].1.clone());
        proof {
            assert(pairs_view(out@.push(p)) =~= pairs_view(out@).push((p.0@, p.1@)));
            assert(pairs_view(v@.subrange(0, i + 1)) =~= pairs_view(v@.subrange(0, i as int)).push(
                (v@[i as int].0@, v@[i as int].1@),
            ));
        }
        out.push(p);
        i = i + 1;
    }
    assert(v@.subrange(0, v@.len() as int) =~= v@);
    out
}

impl Clone for MessageExtra {
    fn clone(&self) -> (r: Self)
        ensures
            r@ == self@,
    {
        match self {
            MessageExtra::Empty => MessageExtra::Empty,
            MessageExtra::Entries(v) => MessageExtra::Entries(clone_pairs(v)),
        }
    }
}

impl Clone for Message {
    fn clone(&self) -> (r: Self)
        ensures
            r@ == self@,
    {
        Message {
            id: self.id,
            time: self.time,
            author: self.author,
            value: self.value.clone(),
            extra: self.extra.clone(),
        }
    }
}

/// A copy of a list of messages.
pub fn clone_messages(v: &Vec<Message>) -> (r: Vec<Message>)
    ensures
        messages_view(r@) == messages_view(v@),
{
    let mut out: Vec<Message> = Vec::new();
    let mut i: usize = 0;
    while i < v.len()
        invariant
            i <= v@.len(),
            messages_view(out@) == messages_view(v@.subrange(0, i as int)),
        decreases v@.len() - i,
    {
        let m = v[i].clone();
        proof {
            assert(messages_view(out@.push(m)) =~= messages_view(out@).push(m@));
            assert(messages_view(v@.subrange(0, i + 1)) =~= messages_view(
                v@.subrange(0, i as int),
            ).push(v@[i as int]@));
        }
        out.push(m);
        i = i + 1;
    }
    assert(v@.subrange(0, v@.len() as int) =~= v@);
    out
}

/// The `Debug` texts of strings, separated by `, `.
pub open spec fn debug_items(v: Seq<Seq<char>>) -> Seq<char>
    decreases v.len(),
{
    if v.len() == 0 {
        Seq::empty()
    } else if v.len() == 1 {
        str_debug(v[0])
    } else {
        debug_items(v.drop_last()) + ", "@ + str_debug(v.last())
    }
}

/// What `format!("{:?}", v)` writes for a list of strings: the `Debug`
/// text of each string, separated by `, `, in square brackets.
pub open spec fn debug_strings(v: Seq<Seq<char>>) -> Seq<char> {
    "["@ + debug_items(v) + "]"@
}

/// `format!("{:?}", v)` of a list of strings: std's `Debug` of a list
/// writes the `Debug` text of each item, separated by `, `, in brackets.
#[verifier::external_body]
fn debug_strings_text(v: &Vec<String>) -> (r: String)
    ensures
        r@ == debug_strings(strings_view(v@)),
{
    format!("{:?}", v)
}

/// The text of a message value, as it is shown and sent to a model.
pub open spec fn value_text(v: ValueView) -> Seq<char> {
    match v {
        ValueView::Text(x) => x,
        ValueView::FunctionCall(n, a) => "func call: "@ + n + "\n"@ + debug_strings(a),
        ValueView::FunctionResult(n, r) => n + " result: "@ + r,
        ValueView::Error(x) => "error: "@ + x,
        ValueView::TextLLM(x, _, _) => x,
    }
}

impl MessageValue {
    /// The text of the value: plain text as it is, a call as
    /// `func call: NAME` and its argument list on the next line, a result
    /// as `NAME result: RESULT`, an error as `error: TEXT`.
    pub fn as_str(&self) -> (r: String)
        ensures
            r@ == value_text(self@),
    {
        match self {
            MessageValue::Text(x) => x.clone(),
            MessageValue::FunctionCall(c) => {
                let mut out: Vec<char> = Vec::new();
                push_str(&mut out, "func call: ");
                push_str(&mut out, c.name.as_str());
                push_str(&mut out, "\n");
                let d = debug_strings_text(&c.args);
                push_str(&mut out, d.as_str());
                string_of(out.as_slice())
            },
            MessageValue::FunctionResult(f) => {
                let mut out: Vec<char> = Vec::new();
                push_str(&mut out, f.name.as_str());
                push_str(&mut out, " result: ");
                push_str(&mut out, f.result.as_str());
                string_of(out.as_slice())
            },
            MessageValue::Error(x) => {
                let mut out: Vec<char> = Vec::new();
                push_str(&mut out, "error: ");
                push_str(&mut out, x.as_str());
                string_of(out.as_slice())
            },
            MessageValue::TextLLM(x, _, _) => x.clone(),
        }
    }
}

/// The index of the first pair with key `key` at or after `i`.
pub open spec fn pair_index(ps: Seq<(Seq<char>, Seq<char>)>, key: Seq<char>, i: int) -> Option<int>
    decreases ps.len() - i,
{
    if i < 0 || i >= ps.len() {
        None
    } else if ps[i].0 == key {
        Some(i)
    } else {
        pair_index(ps, key, i + 1)
    }
}

/// The value under `key` in extra data: that of the first pair with that
/// key.
pub open spec fn extra_lookup(e: ExtraView, key: Seq<char>) -> Option<Seq<char>> {
    match e {
        ExtraView::Entries(ps) => match pair_index(ps, key, 0) {
            Some(i) => Some(ps[i].1),
            None => None,
        },
        ExtraView::Empty => None,
    }
}

impl MessageExtra {
    /// The value under `key`.
    pub fn get(&self, key: &str) -> (r: Option<&str>)
        ensures
            (match r {
                Some(v) => Some(v@),
                None => None,
            }) == extra_lookup(self@, key@),
    {
        match self {
            MessageExtra::Entries(v) => {
                let ghost ps = pairs_view(v@);
                let mut i: usize = 0;
                while i < v.len()
                    invariant
                        ps == pairs_view(v@),
                        self@ == ExtraView::Entries(ps),
                        i <= v@.len(),
                        pair_index(ps, key@, 0) == pair_index(ps, key@, i as int),
                    decreases v@.len() - i,
                {
                    if str_eq(v[i].0.as_str(), key) {
                        return Some(v[i].1.as_str());
                    }
                    i = i + 1;
                }
                None
            },
            MessageExtra::Empty => None,
        }
    }
}

} // verus!
