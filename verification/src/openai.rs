//! The OpenAI responses interface: the request body made from a channel's
//! messages, and the messages read from a reply. The request is sent by the
//! caller.
use vstd::prelude::*;
use crate::cmdlang::{Cmd, spec_cmd, never_ends, cmd_error_message};
use crate::function::Functions;
use crate::json::{
    Json, SpecJson, json_get, json_str, json_items, parsed_json, parse_json, write_json, jstr,
    obj1, obj2, obj4, obj5, arr1, jsons_view, lemma_jsons_view, lemma_jsons_view_push, str_or,
    str_field_or, opt_json_view,
};
use crate::message::{
    Message, MessageAuthor, MessageExtra, MessageValue, MessageView, ValueView, ExtraView,
    value_text, messages_view,
};
use crate::openrouter::{sstr, error_view, error_msg};
use crate::strutil::{push_str, str_eq, string_of};

verus! {

// ===================================================================
// Request
// ===================================================================

/// The role the API gives an author; function messages have none.
pub open spec fn author_role(a: MessageAuthor) -> Seq<char> {
    match a {
        MessageAuthor::LLM => "assistant"@,
        MessageAuthor::User => "user"@,
        MessageAuthor::System => "system"@,
        MessageAuthor::Function => Seq::empty(),
    }
}

/// The role of an author that has one.
pub fn translate_author(x: &MessageAuthor) -> (r: &'static str)
    requires
        *x != MessageAuthor::Function,
    ensures
        r@ == author_role(*x),
{
    match x {
        MessageAuthor::LLM => "assistant",
        MessageAuthor::User => "user",
        MessageAuthor::System => "system",
        MessageAuthor::Function => "",
    }
}

/// Whether a message can be translated: it is not a function message, and
/// a model message carries its id and status.
pub open spec fn translatable(m: MessageView) -> bool {
    match m.author {
        MessageAuthor::LLM => m.value is TextLLM,
        MessageAuthor::Function => false,
        _ => true,
    }
}

/// A message as the API takes it.
pub open spec fn translated(m: MessageView) -> SpecJson {
    match m.author {
        MessageAuthor::LLM => match m.value {
            ValueView::TextLLM(_, id, status) => SpecJson::Object(
                seq![
                    ("type"@, sstr("message"@)),
                    ("role"@, sstr("assistant"@)),
                    ("id"@, sstr(id)),
                    ("status"@, sstr(status)),
                    (
                        "content"@,
                        SpecJson::Array(
                            seq![SpecJson::Object(seq![("type"@, sstr("output_text"@)), ("text"@, sstr(value_text(m.value)))])],
                        ),
                    ),
                ],
            ),
            _ => SpecJson::Null,
        },
        _ => SpecJson::Object(
            seq![
                ("role"@, sstr(author_role(m.author))),
                (
                    "content"@,
                    SpecJson::Array(
                        seq![SpecJson::Object(seq![("type"@, sstr("input_text"@)), ("text"@, sstr(value_text(m.value)))])],
                    ),
                ),
            ],
        ),
    }
}

/// A message as the API takes it.
pub fn translate_message(x: &Message) -> (r: Json)
    requires
        translatable(x@),
    ensures
        r@ == translated(x@),
{
    match x.author {
        MessageAuthor::LLM => {
            match &x.value {
                MessageValue::TextLLM(_, id, status) => obj5(
                    "type",
                    jstr("message"),
                    "role",
                    jstr(translate_author(&x.author)),
                    "id",
                    jstr(id.as_str()),
                    "status",
                    jstr(status.as_str()),
                    "content",
                    arr1(obj2("type", jstr("output_text"), "text", Json::Str(x.value.as_str()))),
                ),
                _ => Json::Null,
            }
        },
        _ => obj2(
            "role",
            jstr(translate_author(&x.author)),
            "content",
            arr1(obj2("type", jstr("input_text"), "text", Json::Str(x.value.as_str()))),
        ),
    }
}

/// The one tool the model is offered: the gateway.
pub open spec fn gateway_tool() -> SpecJson {
    SpecJson::Object(
        seq![
            ("type"@, sstr("function"@)),
            ("name"@, sstr("gateway"@)),
            ("description"@, sstr("This is a gateway function to call other functions."@)),
            (
                "parameters"@,
                SpecJson::Object(
                    seq![
                        ("type"@, sstr("object"@)),
                        (
                            "properties"@,
                            SpecJson::Object(
                                seq![
                                    (
                                        "x"@,
                                        SpecJson::Object(
                                            seq![
                                                ("type"@, sstr("string"@)),
                                                (
                                                    "description"@,
                                                    sstr("This is a string that will be parsed using taglang into function calls."@),
                                                ),
                                            ],
                                        ),
                                    ),
                                ],
                            ),
                        ),
                        ("required"@, SpecJson::Array(seq![sstr("x"@)])),
                    ],
                ),
            ),
        ],
    )
}

/// The request body for a model and its input.
pub open spec fn request_payload(model: Seq<char>, ms: Seq<MessageView>) -> SpecJson {
    SpecJson::Object(
        seq![
            ("model"@, sstr(model)),
            ("input"@, SpecJson::Array(ms.map_values(|m: MessageView| translated(m)))),
            ("reasoning"@, SpecJson::Object(seq![("effort"@, sstr("low"@))])),
            ("tools"@, SpecJson::Array(seq![gateway_tool()])),
            ("tool_choice"@, sstr("auto"@)),
        ],
    )
}

fn gateway_tool_json() -> (r: Json)
    ensures
        r@ == gateway_tool(),
{
    obj4(
        "type",
        jstr("function"),
        "name",
        jstr("gateway"),
        "description",
        jstr("This is a gateway function to call other functions."),
        "parameters",
        crate::json::obj3(
            "type",
            jstr("object"),
            "properties",
            obj1(
                "x",
                obj2(
                    "type",
                    jstr("string"),
                    "description",
                    jstr("This is a string that will be parsed using taglang into function calls."),
                ),
            ),
            "required",
            arr1(jstr("x")),
        ),
    )
}

// ===================================================================
// Reply
// ===================================================================

/// The type of an output item.
pub open spec fn item_type(item: SpecJson) -> Option<Seq<char>> {
    json_str(json_get(item, "type"@))
}

/// The author a role stands for; an unknown role is the model.
pub open spec fn role_author(role: Seq<char>) -> MessageAuthor {
    if role == "user"@ {
        MessageAuthor::User
    } else if role == "system"@ {
        MessageAuthor::System
    } else {
        MessageAuthor::LLM
    }
}

/// The text of the `output_text` blocks of a content list, joined.
pub open spec fn output_text(blocks: Seq<SpecJson>) -> Seq<char>
    decreases blocks.len(),
{
    if blocks.len() == 0 {
        Seq::empty()
    } else {
        let b = blocks.last();
        output_text(blocks.drop_last()) + if item_type(b) == Some("output_text"@) {
            match json_str(json_get(b, "text"@)) {
                Some(t) => t,
                None => Seq::empty(),
            }
        } else {
            Seq::empty()
        }
    }
}

/// The message an output message becomes.
pub open spec fn output_message(item: SpecJson, last: u64) -> MessageView {
    let text = match json_items(json_get(item, "content"@)) {
        Some(bs) => output_text(bs),
        None => Seq::empty(),
    };
    MessageView {
        id: last,
        time: last,
        author: role_author(str_or(json_str(json_get(item, "role"@)), "assistant"@)),
        value: ValueView::TextLLM(
            text,
            str_or(json_str(json_get(item, "id"@)), ""@),
            str_or(json_str(json_get(item, "status"@)), ""@),
        ),
        extra: ExtraView::Empty,
    }
}

/// An output message is filed under the author its role names: `user`
/// and `system` as such, and the model for `assistant`, for a missing role
/// and for any other role; the roles the request gives each author read
/// back as that author.
pub proof fn law_output_message_author(item: SpecJson, last: u64)
    ensures
        json_str(json_get(item, "role"@)) == Some("assistant"@) ==> output_message(item, last).author
            == MessageAuthor::LLM,
        json_str(json_get(item, "role"@)) is None ==> output_message(item, last).author
            == MessageAuthor::LLM,
        json_str(json_get(item, "role"@)) == Some("user"@) ==> output_message(item, last).author
            == MessageAuthor::User,
        json_str(json_get(item, "role"@)) == Some("system"@) ==> output_message(item, last).author
            == MessageAuthor::System,
        (json_str(json_get(item, "role"@)) matches Some(r) && r != "user"@ && r != "system"@)
            ==> output_message(item, last).author == MessageAuthor::LLM,
        output_message(item, last).value is TextLLM,
        forall|a: MessageAuthor|
            a != MessageAuthor::Function ==> role_author(#[trigger] author_role(a)) == a,
{
    reveal_strlit("assistant");
    reveal_strlit("user");
    reveal_strlit("system");
    assert("assistant"@ != "user"@ && "assistant"@ != "system"@ && "user"@ != "system"@) by {
        assert("assistant"@.len() == 9 && "user"@.len() == 4 && "system"@.len() == 6);
    }
}

/// The command of a function call: `x` of its arguments.
pub open spec fn call_command(item: SpecJson) -> Seq<char> {
    let args = json_str(json_get(item, "arguments"@))->Some_0;
    json_str(json_get(parsed_json(args)->Some_0, "x"@))->Some_0
}

/// Whether reading a function call item panics nowhere: it has a name,
/// arguments that are JSON with a string `x`, and a gateway call is a
/// command that the command reader gets to the end of.
pub open spec fn call_readable(item: SpecJson) -> bool {
    &&& json_str(json_get(item, "name"@)) is Some
    &&& json_str(json_get(item, "arguments"@)) is Some
    &&& parsed_json(json_str(json_get(item, "arguments"@))->Some_0) is Some
    &&& json_str(json_get(parsed_json(json_str(json_get(item, "arguments"@))->Some_0)->Some_0, "x"@)) is Some
    &&& json_str(json_get(item, "name"@)) == Some("gateway"@) ==> !never_ends(call_command(item))
}

/// The message a function call item becomes.
pub open spec fn call_message(item: SpecJson, last: u64) -> MessageView {
    let value = if json_str(json_get(item, "name"@)) == Some("gateway"@) {
        let x = call_command(item);
        match spec_cmd(x) {
            Ok((f, a)) => ValueView::FunctionCall(f, a),
            Err(e) => ValueView::Error(cmd_error_message(x, e)),
        }
    } else {
        ValueView::Error("Error: Invalid function call, you can only call functions through gateway."@)
    };
    MessageView { id: last, time: last, author: MessageAuthor::System, value, extra: ExtraView::Empty }
}

/// What an output item becomes: a message for an output message or a
/// function call, nothing for anything else.
pub open spec fn item_messages(item: SpecJson, last: u64) -> Seq<MessageView> {
    if item_type(item) == Some("message"@) {
        seq![output_message(item, last)]
    } else if item_type(item) == Some("function_call"@) {
        seq![call_message(item, last)]
    } else {
        Seq::empty()
    }
}

/// Whether an output item can be read: it has a type, and a function call
/// can be read.
pub open spec fn item_readable(item: SpecJson) -> bool {
    item_type(item) is Some && (item_type(item) == Some("function_call"@) ==> call_readable(item))
}

/// The output items of a reply.
pub open spec fn output_items(p: SpecJson) -> Seq<SpecJson> {
    match json_items(json_get(p, "output"@)) {
        Some(v) => v,
        None => Seq::empty(),
    }
}

/// The messages of the items from the first `n`.
pub open spec fn items_messages(items: Seq<SpecJson>, last: u64) -> Seq<MessageView>
    decreases items.len(),
{
    if items.len() == 0 {
        Seq::empty()
    } else {
        items_messages(items.drop_last(), last) + item_messages(items.last(), last)
    }
}

/// Whether the error of a reply is there and not `null`.
pub open spec fn has_error(p: SpecJson) -> bool {
    match json_get(p, "error"@) {
        Some(e) => !(e is Null),
        None => false,
    }
}

/// Whether a parsed reply can be read without a panic.
pub open spec fn reply_readable(p: SpecJson) -> bool {
    !has_error(p) ==> forall|i: int|
        0 <= i < output_items(p).len() ==> item_readable(#[trigger] output_items(p)[i])
}

/// The messages a reply text becomes.
pub open spec fn reply_text_messages(text: Seq<char>, last: u64) -> Seq<MessageView> {
    match parsed_json(text) {
        Some(p) => if has_error(p) {
            seq![error_view("OpenAI returned garbage/non-JSON: "@ + text)]
        } else {
            items_messages(output_items(p), last)
        },
        None => seq![error_view("OpenAI returned garbage/non-JSON: "@ + text)],
    }
}

// ===================================================================
// Code
// ===================================================================

/// The joined text of the `output_text` blocks.
fn join_output_text(bs: &Vec<Json>) -> (r: String)
    ensures
        r@ == output_text(jsons_view(bs@)),
{
    proof {
        lemma_jsons_view(bs@);
    }
    let mut out: Vec<char> = Vec::new();
    let mut i: usize = 0;
    while i < bs.len()
        invariant
            i <= bs@.len(),
            jsons_view(bs@).len() == bs@.len(),
            forall|j: int| 0 <= j < bs@.len() ==> #[trigger] jsons_view(bs@)[j] == bs@[j]@,
            out@ == output_text(jsons_view(bs@).take(i as int)),
        decreases bs@.len() - i,
    {
        let b = &bs[i];
        proof {
            assert(jsons_view(bs@).take(i + 1).drop_last() =~= jsons_view(bs@).take(i as int));
        }
        let is_text = match b.get("type") {
            Some(t) => match t.as_str() {
                Some(ts) => str_eq(ts, "output_text"),
                None => false,
            },
            None => false,
        };
        if is_text {
            match b.get("text") {
                Some(t) => match t.as_str() {
                    Some(ts) => push_str(&mut out, ts),
                    None => {},
                },
                None => {},
            }
        }
        proof {
            assert(out@ =~= output_text(jsons_view(bs@).take(i + 1)));
        }
        i = i + 1;
    }
    assert(jsons_view(bs@).take(bs@.len() as int) =~= jsons_view(bs@));
    string_of(out.as_slice())
}

/// The message an output message becomes.
fn output_message_exec(item: &Json, last: u64) -> (r: Message)
    ensures
        r@ == output_message(item@, last),
{
    let role = str_field_or(item.get("role"), "assistant");
    let id = str_field_or(item.get("id"), "");
    let status = str_field_or(item.get("status"), "");
    let author = if str_eq(role.as_str(), "user") {
        MessageAuthor::User
    } else if str_eq(role.as_str(), "system") {
        MessageAuthor::System
    } else {
        MessageAuthor::LLM
    };
    let text = match item.get("content") {
        Some(c) => match c.as_array() {
            Some(bs) => join_output_text(bs),
            None => String::new(),
        },
        None => String::new(),
    };
    Message {
        id: last,
        time: last,
        author,
        value: MessageValue::TextLLM(text, id, status),
        extra: MessageExtra::Empty,
    }
}

/// The message a function call item becomes.
fn call_message_exec<F: Fn(&String, &[String]) -> String>(
    item: &Json,
    last: u64,
    functions: &Functions<F>,
) -> (r: Message)
    requires
        call_readable(item@),
    ensures
        r@ == call_message(item@, last),
{
    let name = str_field_or(item.get("name"), "");
    let args_text = str_field_or(item.get("arguments"), "");
    let x = match parse_json(args_text.as_str()) {
        Some(a) => str_field_or(a.get("x"), ""),
        None => String::new(),
    };
    let value = if str_eq(name.as_str(), "gateway") {
        match functions.parse(x.as_str()) {
            Ok(f) => MessageValue::FunctionCall(f),
            Err(e) => MessageValue::Error(e),
        }
    } else {
        MessageValue::Error(
            "Error: Invalid function call, you can only call functions through gateway.".to_owned(),
        )
    };
    Message { id: last, time: last, author: MessageAuthor::System, value, extra: MessageExtra::Empty }
}

/// Whether a function call item can be read.
fn call_readable_exec(item: &Json) -> (r: bool)
    ensures
        r == call_readable(item@),
{
    let name = match item.get("name") {
        Some(n) => n.as_str(),
        None => None,
    };
    let args = match item.get("arguments") {
        Some(a) => a.as_str(),
        None => None,
    };
    if name.is_none() || args.is_none() {
        return false;
    }
    let a = args.unwrap();
    let pa = match parse_json(a) {
        Some(pa) => pa,
        None => return false,
    };
    let x = match pa.get("x") {
        Some(xj) => xj.as_str(),
        None => None,
    };
    match x {
        Some(x) => {
            if str_eq(name.unwrap(), "gateway") {
                assert(call_command(item@) == x@);
                !Cmd::reads_forever(x)
            } else {
                true
            }
        },
        None => false,
    }
}

/// Whether an output item can be read.
fn item_readable_exec(item: &Json) -> (r: bool)
    ensures
        r == item_readable(item@),
{
    let ty = match item.get("type") {
        Some(t) => t.as_str(),
        None => None,
    };
    match ty {
        None => false,
        Some(t) => if str_eq(t, "function_call") {
            call_readable_exec(item)
        } else {
            true
        },
    }
}

/// Whether the items of a reply can be read.
fn items_readable(items: &Vec<Json>) -> (r: bool)
    ensures
        r == forall|i: int| 0 <= i < items@.len() ==> item_readable(#[trigger] jsons_view(items@)[i]),
{
    proof {
        lemma_jsons_view(items@);
    }
    let mut i: usize = 0;
    while i < items.len()
        invariant
            i <= items@.len(),
            jsons_view(items@).len() == items@.len(),
            forall|j: int| 0 <= j < items@.len() ==> #[trigger] jsons_view(items@)[j] == items@[j]@,
            forall|j: int| 0 <= j < i ==> item_readable(#[trigger] jsons_view(items@)[j]),
        decreases items@.len() - i,
    {
        let item = &items[i];
        let ok = item_readable_exec(item);
        if !ok {
            assert(jsons_view(items@)[i as int] == item@);
            return false;
        }
        i = i + 1;
    }
    true
}

/// A connection to a model through the OpenAI responses API.
pub struct OAILLM {
    model: String,
    api_base: String,
    api_key: String,
}

impl Clone for OAILLM {
    fn clone(&self) -> (r: Self)
        ensures
            r.model() == self.model(),
            r.endpoint() == self.endpoint(),
            r.api_key() == self.api_key(),
    {
        OAILLM { model: self.model.clone(), api_base: self.api_base.clone(), api_key: self.api_key.clone() }
    }
}

impl OAILLM {
    pub closed spec fn model(&self) -> Seq<char> {
        self.model@
    }

    pub closed spec fn endpoint(&self) -> Seq<char> {
        self.api_base@
    }

    pub closed spec fn api_key(&self) -> Seq<char> {
        self.api_key@
    }

    /// A connection to `model` at `api_base`.
    pub fn new(model: &str, api_base: &str, api_key: &str) -> (r: Self)
        ensures
            r.model() == model@,
            r.endpoint() == api_base@,
            r.api_key() == api_key@,
    {
        OAILLM { model: model.to_owned(), api_base: api_base.to_owned(), api_key: api_key.to_owned() }
    }

    /// A line that says what this connection is.
    pub fn info(&self) -> (r: String)
        ensures
            r@ == "OpenAI interface | Model: "@ + self.model(),
    {
        let mut out: Vec<char> = Vec::new();
        push_str(&mut out, "OpenAI interface | Model: ");
        push_str(&mut out, self.model.as_str());
        string_of(out.as_slice())
    }

    /// Where requests go.
    pub fn api_base(&self) -> (r: &str)
        ensures
            r@ == self.endpoint(),
    {
        self.api_base.as_str()
    }

    /// The headers of a request.
    pub fn headers(&self) -> (r: Vec<(String, String)>)
        ensures
            r@.len() == 2,
            r@[0].0@ == "Authorization"@ && r@[0].1@ == "Bearer "@ + self.api_key(),
            r@[1].0@ == "Content-Type"@ && r@[1].1@ == "application/json"@,
    {
        let mut auth: Vec<char> = Vec::new();
        push_str(&mut auth, "Bearer ");
        push_str(&mut auth, self.api_key.as_str());
        let mut r: Vec<(String, String)> = Vec::new();
        r.push(("Authorization".to_owned(), string_of(auth.as_slice())));
        r.push(("Content-Type".to_owned(), "application/json".to_owned()));
        r
    }

    /// The request body for the messages of a channel.
    pub fn request_body(&self, messages: &[Message]) -> (r: String)
        requires
            forall|i: int| 0 <= i < messages@.len() ==> translatable(#[trigger] messages@[i]@),
        ensures
            r@ == crate::json::json_text(request_payload(self.model(), messages_view(messages@))),
    {
        let mut input: Vec<Json> = Vec::new();
        let mut i: usize = 0;
        while i < messages.len()
            invariant
                i <= messages@.len(),
                forall|j: int| 0 <= j < messages@.len() ==> translatable(#[trigger] messages@[j]@),
                jsons_view(input@) == messages_view(messages@).take(i as int).map_values(
                    |m: MessageView| translated(m),
                ),
            decreases messages@.len() - i,
        {
            let j = translate_message(&messages[i]);
            proof {
                lemma_jsons_view_push(input@, j);
                assert(messages_view(messages@).take(i + 1).map_values(|m: MessageView| translated(m))
                    =~= messages_view(messages@).take(i as int).map_values(
                    |m: MessageView| translated(m),
                ).push(translated(messages@[i as int]@)));
            }
            input.push(j);
            i = i + 1;
        }
        assert(messages_view(messages@).take(messages@.len() as int) =~= messages_view(messages@));
        let payload = obj5(
            "model",
            jstr(self.model.as_str()),
            "input",
            Json::Array(input),
            "reasoning",
            obj1("effort", jstr("low")),
            "tools",
            arr1(gateway_tool_json()),
            "tool_choice",
            jstr("auto"),
        );
        write_json(&payload)
    }
}

/// The messages a reply text becomes; `None` where reading it panics or
/// never ends: an output item without a type, or a function call whose
/// name, arguments or `x` is missing or whose command is read forever.
pub fn read_reply<F: Fn(&String, &[String]) -> String>(
    text: &str,
    last: u64,
    functions: &Functions<F>,
) -> (r: Option<Vec<Message>>)
    ensures
        match r {
            Some(v) => messages_view(v@) == reply_text_messages(text@, last),
            None => parsed_json(text@) matches Some(p) && !reply_readable(p),
        },
{
    let garbage = {
        let mut t: Vec<char> = Vec::new();
        push_str(&mut t, "OpenAI returned garbage/non-JSON: ");
        push_str(&mut t, text);
        string_of(t.as_slice())
    };
    let p = match parse_json(text) {
        Some(p) => p,
        None => return Some(error_msg(garbage)),
    };
    match p.get("error") {
        Some(e) => if !e.is_null() {
            return Some(error_msg(garbage));
        },
        None => {},
    }
    let mut result: Vec<Message> = Vec::new();
    let items = match p.get("output") {
        Some(o) => match o.as_array() {
            Some(v) => v,
            None => {
                assert(messages_view(result@) =~= Seq::<MessageView>::empty());
                return Some(result);
            },
        },
        None => {
            assert(messages_view(result@) =~= Seq::<MessageView>::empty());
            return Some(result);
        },
    };
    proof {
        lemma_jsons_view(items@);
    }
    assert(output_items(p@) == jsons_view(items@));
    assert(!has_error(p@));
    if !items_readable(items) {
        proof {
            let k = choose|k: int| 0 <= k < items@.len() && !item_readable(#[trigger] jsons_view(items@)[k]);
            assert(!item_readable(output_items(p@)[k]));
            assert(!reply_readable(p@));
            assert(parsed_json(text@) == Some(p@));
        }
        return None;
    }
    proof {
        lemma_jsons_view(items@);
    }
    let ghost its = jsons_view(items@);
    let mut i: usize = 0;
    while i < items.len()
        invariant
            i <= items@.len(),
            its == jsons_view(items@),
            its.len() == items@.len(),
            forall|j: int| 0 <= j < items@.len() ==> #[trigger] its[j] == items@[j]@,
            forall|j: int| 0 <= j < items@.len() ==> item_readable(#[trigger] its[j]),
            messages_view(result@) == items_messages(its.take(i as int), last),
        decreases items@.len() - i,
    {
        let item = &items[i];
        let ghost before = messages_view(result@);
        proof {
            assert(its.take(i + 1).drop_last() =~= its.take(i as int));
            assert(item_readable(its[i as int]));
        }
        let ty = match item.get("type") {
            Some(t) => match t.as_str() {
                Some(s) => s,
                None => "",
            },
            None => "",
        };
        if str_eq(ty, "message") {
            let m = output_message_exec(item, last);
            result.push(m);
            assert(messages_view(result@) =~= before + seq![m@]);
        } else if str_eq(ty, "function_call") {
            let m = call_message_exec(item, last, functions);
            result.push(m);
            assert(messages_view(result@) =~= before + seq![m@]);
        } else {
            assert(messages_view(result@) =~= before + Seq::<MessageView>::empty());
        }
        i = i + 1;
    }
    assert(its.take(its.len() as int) =~= its);
    Some(result)
}

} // verus!
