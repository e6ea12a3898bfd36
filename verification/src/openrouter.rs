//! The OpenRouter chat-completions interface: the request body made from a
//! channel's messages, and the messages read from a reply. The request is
//! sent by the caller.
use vstd::prelude::*;
use crate::cmdlang::{Cmd, spec_cmd, never_ends, cmd_error_message, strings_view};
use crate::function::{FunctionCall, Functions};
use crate::json::{
    Json, SpecJson, json_get, json_str, json_items, json_text, parsed_json, parse_json, write_json,
    jstr, obj1, obj2, obj3, obj5, arr1, str_array, entry_index, lemma_entry_index, entries_view,
    lemma_entry_index_at, str_or, get_in, str_field_or, get_in_exec, opt_json_view,
    lemma_entries_view, jsons_view, lemma_jsons_view, lemma_jsons_view_push, clone_json,
};
use crate::message::{
    Message, MessageAuthor, MessageExtra, MessageValue, MessageView, ValueView, ExtraView,
    extra_lookup, value_text, messages_view,
};
use crate::strutil::{push_str, str_eq, string_of};

verus! {

// ===================================================================
// Request
// ===================================================================

pub open spec fn tool_call_id_key() -> Seq<char> {
    "tool_call_id"@
}

pub open spec fn sstr(s: Seq<char>) -> SpecJson {
    SpecJson::Str(s)
}

/// A message as the API takes it; a function message without a tool call
/// id is left out.
pub open spec fn translated(m: MessageView) -> Option<SpecJson> {
    let content = sstr(value_text(m.value));
    match m.author {
        MessageAuthor::System => Some(SpecJson::Object(seq![("role"@, sstr("system"@)), ("content"@, content)])),
        MessageAuthor::User => Some(SpecJson::Object(seq![("role"@, sstr("user"@)), ("content"@, content)])),
        MessageAuthor::LLM => Some(SpecJson::Object(seq![("role"@, sstr("assistant"@)), ("content"@, content)])),
        MessageAuthor::Function => match extra_lookup(m.extra, tool_call_id_key()) {
            Some(id) => Some(
                SpecJson::Object(
                    seq![("role"@, sstr("tool"@)), ("tool_call_id"@, sstr(id)), ("content"@, content)],
                ),
            ),
            None => None,
        },
    }
}

/// The translations of the messages, those left out skipped.
pub open spec fn translated_all(ms: Seq<MessageView>) -> Seq<SpecJson>
    decreases ms.len(),
{
    if ms.len() == 0 {
        Seq::empty()
    } else {
        translated_all(ms.drop_last()) + match translated(ms.last()) {
            Some(j) => seq![j],
            None => Seq::empty(),
        }
    }
}

pub open spec fn cache_control() -> SpecJson {
    SpecJson::Object(seq![("type"@, sstr("ephemeral"@))])
}

/// The entries of an object with `key` set to `v`: the first entry with
/// that key gets the value, or a new entry is added at the end.
pub open spec fn set_entry(es: Seq<(Seq<char>, SpecJson)>, key: Seq<char>, v: SpecJson) -> Seq<
    (Seq<char>, SpecJson),
> {
    match entry_index(es, key, 0) {
        Some(i) => es.update(i, (key, v)),
        None => es.push((key, v)),
    }
}

/// A content block with the cache mark; `null` becomes an object.
pub open spec fn marked_block(b: SpecJson) -> SpecJson {
    match b {
        SpecJson::Object(es) => SpecJson::Object(set_entry(es, "cache_control"@, cache_control())),
        _ => SpecJson::Object(seq![("cache_control"@, cache_control())]),
    }
}

/// Whether marking a message leaves serde_json's indexing without panic:
/// a content array must end in an object or `null`.
pub open spec fn markable(m: SpecJson) -> bool {
    match json_get(m, "content"@) {
        Some(SpecJson::Array(bs)) => bs.len() > 0 ==> (bs.last() is Object || bs.last() is Null),
        _ => true,
    }
}

/// A message with a cache mark on its content: on the last block of a
/// content array, or on a string content turned into one text block.
pub open spec fn with_marker(m: SpecJson) -> SpecJson {
    match m {
        SpecJson::Object(es) => match json_get(m, "content"@) {
            Some(SpecJson::Array(bs)) => if bs.len() > 0 {
                SpecJson::Object(
                    set_entry(
                        es,
                        "content"@,
                        SpecJson::Array(bs.update(bs.len() - 1, marked_block(bs.last()))),
                    ),
                )
            } else {
                m
            },
            Some(SpecJson::Str(s)) => SpecJson::Object(
                set_entry(
                    es,
                    "content"@,
                    SpecJson::Array(
                        seq![
                            SpecJson::Object(
                                seq![("type"@, sstr("text"@)), ("text"@, sstr(s)), ("cache_control"@, cache_control())],
                            ),
                        ],
                    ),
                ),
            ),
            _ => m,
        },
        _ => m,
    }
}

/// The index that the `i`-th cache mark goes to, counted from the end in
/// steps of twenty and stopping at the first message.
pub open spec fn marker_index(n: int, i: int) -> int {
    if n - 1 - 20 * i > 0 {
        n - 1 - 20 * i
    } else {
        0
    }
}

/// The messages with cache marks from the `i`-th on: at most four, the
/// last stopping at the first message.
pub open spec fn with_markers(ms: Seq<SpecJson>, i: int) -> Seq<SpecJson>
    decreases 4 - i,
{
    if i >= 4 || i < 0 {
        ms
    } else {
        let idx = marker_index(ms.len() as int, i);
        let next = ms.update(idx, with_marker(ms[idx]));
        if idx == 0 {
            next
        } else {
            with_markers(next, i + 1)
        }
    }
}

/// Marks from the `i`-th on leave the messages after the `i`-th mark's
/// index alone, and the number of messages too.
proof fn lemma_markers_keep(ms: Seq<SpecJson>, i: int, k: int)
    requires
        0 <= i <= 4,
        marker_index(ms.len() as int, i) < k < ms.len(),
    ensures
        with_markers(ms, i).len() == ms.len(),
        with_markers(ms, i)[k] == ms[k],
    decreases 4 - i,
{
    if i < 4 {
        let idx = marker_index(ms.len() as int, i);
        let next = ms.update(idx, with_marker(ms[idx]));
        if idx != 0 {
            lemma_markers_keep(next, i + 1, k);
        }
    }
}

/// The last message always gets a cache mark, and no message is added or
/// dropped.
pub proof fn law_last_message_marked(ms: Seq<SpecJson>)
    requires
        ms.len() > 0,
    ensures
        with_markers(ms, 0).len() == ms.len(),
        with_markers(ms, 0)[ms.len() - 1] == with_marker(ms[ms.len() - 1]),
{
    let n = ms.len() as int;
    let next = ms.update(n - 1, with_marker(ms[n - 1]));
    if n - 1 != 0 {
        lemma_markers_keep(next, 1, n - 1);
    }
}

/// Whether one of the marks from the `i`-th on falls on message `k` of
/// `n`.
pub open spec fn marked_from(n: int, i: int, k: int) -> bool
    decreases 4 - i,
{
    if i >= 4 || i < 0 {
        false
    } else {
        marker_index(n, i) == k || marked_from(n, i + 1, k)
    }
}

/// Whether message `k` of `n` gets a cache mark: it is the last, or 20,
/// 40 or 60 messages before it, or the first when one of those falls
/// before the start.
pub open spec fn marked_at(n: int, k: int) -> bool {
    ||| k == marker_index(n, 0)
    ||| k == marker_index(n, 1)
    ||| k == marker_index(n, 2)
    ||| k == marker_index(n, 3)
}

/// Marks from the `i`-th on put one mark on each message that one of them
/// falls on, and leave the others alone.
proof fn lemma_markers_exact(ms: Seq<SpecJson>, i: int, k: int)
    requires
        0 <= i <= 4,
        i > 0 ==> marker_index(ms.len() as int, i - 1) > 0,
        0 <= k < ms.len(),
    ensures
        with_markers(ms, i).len() == ms.len(),
        with_markers(ms, i)[k] == if marked_from(ms.len() as int, i, k) {
            with_marker(ms[k])
        } else {
            ms[k]
        },
    decreases 4 - i,
{
    let n = ms.len() as int;
    if i < 4 {
        let idx = marker_index(n, i);
        let next = ms.update(idx, with_marker(ms[idx]));
        if idx == 0 {
            lemma_marks_after_first(n, i + 1, k);
        } else {
            lemma_markers_exact(next, i + 1, k);
            lemma_marks_below(n, i + 1, idx);
        }
    }
}

/// Once a mark falls on the first message, the marks after it do too.
proof fn lemma_marks_after_first(n: int, i: int, k: int)
    requires
        1 <= i,
        marker_index(n, i - 1) == 0,
    ensures
        marked_from(n, i, k) ==> k == 0,
    decreases 4 - i,
{
    if i < 4 {
        lemma_marks_after_first(n, i + 1, k);
    }
}

/// The marks after one that falls on message `idx > 0` fall before it.
proof fn lemma_marks_below(n: int, i: int, idx: int)
    requires
        1 <= i,
        idx > 0,
        n - 1 - 20 * (i - 1) <= idx,
    ensures
        !marked_from(n, i, idx),
    decreases 4 - i,
{
    if i < 4 {
        lemma_marks_below(n, i + 1, idx);
    }
}

/// Where the cache marks go: on the last message, on those 20, 40 and 60
/// before it, and on the first where one of those falls before the start;
/// so at most four, each marked once, and every other message unchanged.
pub proof fn law_cache_markers(ms: Seq<SpecJson>, k: int)
    requires
        0 <= k < ms.len(),
    ensures
        with_markers(ms, 0).len() == ms.len(),
        with_markers(ms, 0)[k] == if marked_at(ms.len() as int, k) {
            with_marker(ms[k])
        } else {
            ms[k]
        },
{
    lemma_markers_exact(ms, 0, k);
    reveal_with_fuel(marked_from, 5);
}

/// The role each author's messages are sent with.
pub open spec fn role_of_author(a: MessageAuthor) -> Seq<char> {
    match a {
        MessageAuthor::System => "system"@,
        MessageAuthor::User => "user"@,
        MessageAuthor::LLM => "assistant"@,
        MessageAuthor::Function => "tool"@,
    }
}

/// A message is sent with the role of its author: `system`, `user`,
/// `assistant` for the model's own messages and `tool` for a function's
/// result, which carries its tool call id and is left out without one; its
/// content is the message's text; and no two authors share a role.
pub proof fn law_translated_roles(m: MessageView)
    ensures
        m.author != MessageAuthor::Function ==> translated(m) is Some,
        m.author == MessageAuthor::Function ==> (translated(m) is Some <==> extra_lookup(
            m.extra,
            "tool_call_id"@,
        ) is Some),
        translated(m) matches Some(j) ==> {
            &&& json_get(j, "role"@) == Some(SpecJson::Str(role_of_author(m.author)))
            &&& json_get(j, "content"@) == Some(SpecJson::Str(value_text(m.value)))
        },
        m.author == MessageAuthor::LLM ==> json_get(translated(m)->Some_0, "role"@) == Some(
            SpecJson::Str("assistant"@),
        ),
        m.author == MessageAuthor::Function ==> (translated(m) matches Some(j) ==> json_get(
            j,
            "tool_call_id"@,
        ) == Some(SpecJson::Str(extra_lookup(m.extra, "tool_call_id"@)->Some_0))),
        forall|a1: MessageAuthor, a2: MessageAuthor|
            a1 != a2 ==> #[trigger] role_of_author(a1) != #[trigger] role_of_author(a2),
{
    reveal_strlit("role");
    reveal_strlit("content");
    reveal_strlit("tool_call_id");
    reveal_strlit("system");
    reveal_strlit("user");
    reveal_strlit("assistant");
    reveal_strlit("tool");
    let content = sstr(value_text(m.value));
    assert("role"@ != "content"@ && "role"@ != "tool_call_id"@ && "tool_call_id"@ != "content"@) by {
        assert("role"@.len() == 4 && "content"@.len() == 7 && "tool_call_id"@.len() == 12);
    }
    match translated(m) {
        Some(j) => {
            let es = j->Object_0;
            if m.author == MessageAuthor::Function {
                let id = extra_lookup(m.extra, tool_call_id_key())->Some_0;
                assert(es == seq![("role"@, sstr("tool"@)), ("tool_call_id"@, sstr(id)), ("content"@, content)]);
                assert(entry_index(es, "role"@, 0) == Some(0int));
                assert(entry_index(es, "tool_call_id"@, 1) == Some(1int));
                assert(entry_index(es, "tool_call_id"@, 0) == Some(1int));
                assert(entry_index(es, "content"@, 2) == Some(2int));
                assert(entry_index(es, "content"@, 1) == Some(2int));
                assert(entry_index(es, "content"@, 0) == Some(2int));
            } else {
                assert(es == seq![("role"@, sstr(role_of_author(m.author))), ("content"@, content)]);
                assert(entry_index(es, "role"@, 0) == Some(0int));
                assert(entry_index(es, "content"@, 1) == Some(1int));
                assert(entry_index(es, "content"@, 0) == Some(1int));
            }
        },
        None => {},
    }
    assert forall|a1: MessageAuthor, a2: MessageAuthor|
        a1 != a2 implies #[trigger] role_of_author(a1) != #[trigger] role_of_author(a2) by {
        assert(role_of_author(a1).len() != role_of_author(a2).len() || role_of_author(a1)[0]
            != role_of_author(a2)[0]);
    }
}

/// The one tool the model is offered: the gateway.
pub open spec fn gateway_tool() -> SpecJson {
    SpecJson::Object(
        seq![
            ("type"@, sstr("function"@)),
            (
                "function"@,
                SpecJson::Object(
                    seq![
                        ("name"@, sstr("gateway"@)),
                        ("description"@, sstr("Gateway function to call other functions."@)),
                        (
                            "parameters"@,
                            SpecJson::Object(
                                seq![
                                    ("type"@, sstr("object"@)),
                                    (
                                        "properties"@,
                                        SpecJson::Object(
                                            seq![
                                                (
                                                    "x"@,
                                                    SpecJson::Object(
                                                        seq![
                                                            ("type"@, sstr("string"@)),
                                                            ("description"@, sstr("taglang-encoded function call string."@)),
                                                        ],
                                                    ),
                                                ),
                                            ],
                                        ),
                                    ),
                                    ("required"@, SpecJson::Array(seq![sstr("x"@)])),
                                ],
                            ),
                        ),
                    ],
                ),
            ),
        ],
    )
}

/// The request body for a model, the messages and the providers to prefer.
pub open spec fn request_payload(model: Seq<char>, ms: Seq<SpecJson>, providers: Seq<Seq<char>>) -> SpecJson {
    SpecJson::Object(
        seq![
            ("model"@, sstr(model)),
            ("messages"@, SpecJson::Array(ms)),
            (
                "provider"@,
                SpecJson::Object(
                    seq![
                        ("order"@, SpecJson::Array(providers.map_values(|p: Seq<char>| sstr(p)))),
                        ("allow_fallbacks"@, SpecJson::Bool(true)),
                    ],
                ),
            ),
            ("tools"@, SpecJson::Array(seq![gateway_tool()])),
            ("tool_choice"@, sstr("auto"@)),
        ],
    )
}

/// The translated messages with their cache marks.
pub open spec fn payload_messages(ms: Seq<MessageView>) -> Seq<SpecJson> {
    with_markers(translated_all(ms), 0)
}

// ===================================================================
// Reply
// ===================================================================

/// A system message with an error, id and time zero.
pub open spec fn error_view(text: Seq<char>) -> MessageView {
    MessageView {
        id: 0,
        time: 0,
        author: MessageAuthor::System,
        value: ValueView::Error(text),
        extra: ExtraView::Empty,
    }
}

/// The error of a reply, unless it is missing or `null`.
pub open spec fn reply_error(p: SpecJson) -> Option<SpecJson> {
    match json_get(p, "error"@) {
        Some(e) => if e is Null {
            None
        } else {
            Some(e)
        },
        None => None,
    }
}

/// The message of the first choice of a reply.
pub open spec fn reply_message(p: SpecJson) -> Option<SpecJson> {
    match json_items(json_get(p, "choices"@)) {
        Some(cs) => if cs.len() > 0 {
            json_get(cs[0], "message"@)
        } else {
            None
        },
        None => None,
    }
}

/// The text the model wrote, as a message, when there is any.
pub open spec fn reply_text(m: SpecJson, last: u64) -> Seq<MessageView> {
    match json_str(json_get(m, "content"@)) {
        Some(t) => if t.len() > 0 {
            seq![
                MessageView {
                    id: last,
                    time: last,
                    author: MessageAuthor::LLM,
                    value: ValueView::Text(t),
                    extra: ExtraView::Empty,
                },
            ]
        } else {
            Seq::empty()
        },
        None => Seq::empty(),
    }
}

/// The name of the function a tool call asks for.
pub open spec fn call_name(tc: SpecJson) -> Seq<char> {
    str_or(json_str(get_in(json_get(tc, "function"@), "name"@)), ""@)
}

/// The command text of a gateway call: `x` of the arguments read as JSON
/// (an object with nothing when they are not JSON).
pub open spec fn call_command(tc: SpecJson) -> Seq<char> {
    let text = str_or(json_str(get_in(json_get(tc, "function"@), "arguments"@)), "{}"@);
    let args = match parsed_json(text) {
        Some(a) => a,
        None => SpecJson::Object(Seq::empty()),
    };
    str_or(json_str(json_get(args, "x"@)), ""@)
}

/// The message a tool call becomes: an error for anything but the gateway,
/// else the command read from it, or the reason it cannot be read, with the
/// tool call id kept.
pub open spec fn tool_call_message(tc: SpecJson, last: u64) -> MessageView {
    let name = call_name(tc);
    if name != "gateway"@ {
        MessageView {
            id: last,
            time: last,
            author: MessageAuthor::System,
            value: ValueView::Error("Invalid function call '"@ + name + "': only 'gateway' is allowed."@),
            extra: ExtraView::Empty,
        }
    } else {
        let x = call_command(tc);
        MessageView {
            id: last,
            time: last,
            author: MessageAuthor::System,
            value: match spec_cmd(x) {
                Ok((f, a)) => ValueView::FunctionCall(f, a),
                Err(e) => ValueView::Error(cmd_error_message(x, e)),
            },
            extra: ExtraView::Entries(
                seq![(tool_call_id_key(), str_or(json_str(json_get(tc, "id"@)), ""@))],
            ),
        }
    }
}

/// The tool calls of a message.
pub open spec fn tool_calls(m: SpecJson) -> Seq<SpecJson> {
    match json_items(json_get(m, "tool_calls"@)) {
        Some(v) => v,
        None => Seq::empty(),
    }
}

/// Whether reading the gateway calls of a reply ends: none is a command
/// that the command reader would read forever.
pub open spec fn reply_ends(p: SpecJson) -> bool {
    reply_error(p) is None ==> match reply_message(p) {
        Some(m) => forall|i: int|
            0 <= i < tool_calls(m).len() && call_name(#[trigger] tool_calls(m)[i]) == "gateway"@
                ==> !never_ends(call_command(tool_calls(m)[i])),
        None => true,
    }
}

/// The messages a parsed reply becomes.
pub open spec fn reply_messages(p: SpecJson, last: u64) -> Seq<MessageView> {
    match reply_error(p) {
        Some(e) => seq![error_view("OpenRouter error: "@ + json_text(e))],
        None => match reply_message(p) {
            Some(m) => reply_text(m, last) + tool_calls(m).map_values(
                |tc: SpecJson| tool_call_message(tc, last),
            ),
            None => Seq::empty(),
        },
    }
}

/// The messages a reply text becomes.
pub open spec fn reply_text_messages(text: Seq<char>, last: u64) -> Seq<MessageView> {
    match parsed_json(text) {
        Some(p) => reply_messages(p, last),
        None => seq![error_view("OpenRouter returned non-JSON: "@ + text)],
    }
}

// ===================================================================
// Code
// ===================================================================

/// A text as a string JSON value.
fn content_of(m: &Message) -> (r: Json)
    ensures
        r@ == sstr(value_text(m@.value)),
{
    Json::Str(m.value.as_str())
}

/// A message as the API takes it; a function message without a tool call
/// id is left out.
pub fn translate_message(msg: &Message) -> (r: Option<Json>)
    ensures
        (match r {
            Some(j) => Some(j@),
            None => None,
        }) == translated(msg@),
{
    match msg.author {
        MessageAuthor::System => Some(obj2("role", jstr("system"), "content", content_of(msg))),
        MessageAuthor::User => Some(obj2("role", jstr("user"), "content", content_of(msg))),
        MessageAuthor::LLM => Some(obj2("role", jstr("assistant"), "content", content_of(msg))),
        MessageAuthor::Function => {
            match msg.extra.get("tool_call_id") {
                Some(id) => Some(
                    obj3("role", jstr("tool"), "tool_call_id", jstr(id), "content", content_of(msg)),
                ),
                None => None,
            }
        },
    }
}

/// Sets `key` in the entries of an object.
fn set_key(es: &mut Vec<(String, Json)>, key: &str, v: Json)
    ensures
        entries_view(final(es)@) == set_entry(entries_view(old(es)@), key@, v@),
{
    let ghost ev = entries_view(es@);
    proof {
        lemma_entries_view(es@);
    }
    let mut i: usize = 0;
    while i < es.len()
        invariant
            es@ == old(es)@,
            ev == entries_view(es@),
            ev.len() == es@.len(),
            forall|j: int| 0 <= j < ev.len() ==> #[trigger] ev[j] == (es@[j].0@, es@[j].1@),
            i <= es@.len(),
            entry_index(ev, key@, 0) == entry_index(ev, key@, i as int),
        decreases es@.len() - i,
    {
        if str_eq(es[i].0.as_str(), key) {
            let ghost vv = v@;
            assert(ev[i as int] == (es@[i as int].0@, es@[i as int].1@));
            assert(entry_index(ev, key@, i as int) == Some(i as int));
            es.set(i, (key.to_owned(), v));
            proof {
                lemma_entries_view(es@);
                assert(entries_view(es@) =~= ev.update(i as int, (key@, vv)));
            }
            return;
        }
        i = i + 1;
    }
    let e = (key.to_owned(), v);
    proof {
        crate::json::lemma_entries_view_push(es@, e);
    }
    es.push(e);
}

/// A content block with the cache mark.
fn mark_block(b: &Json) -> (r: Json)
    ensures
        r@ == marked_block(b@),
{
    match b {
        Json::Object(es) => {
            let mut les: Vec<(String, Json)> = Vec::new();
            let mut i: usize = 0;
            while i < es.len()
                invariant
                    i <= es@.len(),
                    entries_view(les@) == entries_view(es@.subrange(0, i as int)),
                decreases es@.len() - i,
            {
                let e = (es[i].0.clone(), clone_json(&es[i].1));
                proof {
                    crate::json::lemma_entries_view_push(les@, e);
                    crate::json::lemma_entries_view_push(es@.subrange(0, i as int), es@[i as int]);
                    assert(es@.subrange(0, i + 1) =~= es@.subrange(0, i as int).push(es@[i as int]));
                }
                les.push(e);
                i = i + 1;
            }
            assert(es@.subrange(0, es@.len() as int) =~= es@);
            set_key(&mut les, "cache_control", obj1("type", jstr("ephemeral")));
            Json::Object(les)
        },
        _ => obj1("cache_control", obj1("type", jstr("ephemeral"))),
    }
}

/// The blocks with the cache mark on the last one.
fn mark_last(bs: &Vec<Json>) -> (r: Vec<Json>)
    requires
        bs@.len() > 0,
    ensures
        jsons_view(r@) == jsons_view(bs@).update(
            bs@.len() - 1,
            marked_block(jsons_view(bs@).last()),
        ),
{
    proof {
        lemma_jsons_view(bs@);
    }
    let n = bs.len();
    let mut out: Vec<Json> = Vec::new();
    let mut i: usize = 0;
    while i + 1 < n
        invariant
            n == bs@.len(),
            n > 0,
            i + 1 <= n,
            jsons_view(out@) == jsons_view(bs@.subrange(0, i as int)),
        decreases n - i,
    {
        let c = clone_json(&bs[i]);
        proof {
            lemma_jsons_view_push(out@, c);
            lemma_jsons_view_push(bs@.subrange(0, i as int), bs@[i as int]);
            assert(bs@.subrange(0, i + 1) =~= bs@.subrange(0, i as int).push(bs@[i as int]));
        }
        out.push(c);
        i = i + 1;
    }
    let m = mark_block(&bs[n - 1]);
    proof {
        lemma_jsons_view_push(out@, m);
        lemma_jsons_view(bs@.subrange(0, n - 1));
        lemma_jsons_view(out@.push(m));
        assert(jsons_view(out@.push(m)) =~= jsons_view(bs@).update(
            n - 1,
            marked_block(jsons_view(bs@).last()),
        ));
    }
    out.push(m);
    out
}

/// After setting a key, the object holds the new value under it.
pub proof fn lemma_set_entry_get(es: Seq<(Seq<char>, SpecJson)>, key: Seq<char>, v: SpecJson)
    ensures
        json_get(SpecJson::Object(set_entry(es, key, v)), key) == Some(v),
{
    lemma_entry_index(es, key, 0);
    let t = set_entry(es, key, v);
    match entry_index(es, key, 0) {
        Some(i) => {
            lemma_entry_index_at(t, key, 0, i);
        },
        None => {
            lemma_entry_index_at(t, key, 0, es.len() as int);
        },
    }
}

/// A marked message can be marked again.
pub proof fn lemma_marker_keeps_markable(m: SpecJson)
    requires
        markable(m),
    ensures
        markable(with_marker(m)),
{
    match m {
        SpecJson::Object(es) => match json_get(m, "content"@) {
            Some(SpecJson::Array(bs)) => if bs.len() > 0 {
                lemma_set_entry_get(
                    es,
                    "content"@,
                    SpecJson::Array(bs.update(bs.len() - 1, marked_block(bs.last()))),
                );
            },
            Some(SpecJson::Str(s)) => {
                lemma_set_entry_get(
                    es,
                    "content"@,
                    SpecJson::Array(
                        seq![
                            SpecJson::Object(
                                seq![("type"@, sstr("text"@)), ("text"@, sstr(s)), ("cache_control"@, cache_control())],
                            ),
                        ],
                    ),
                );
            },
            _ => {},
        },
        _ => {},
    }
}

/// Puts the cache mark on a message.
fn insert_cache_marker(msg: &mut Json)
    requires
        markable(old(msg)@),
    ensures
        final(msg)@ == with_marker(old(msg)@),
{
    let content: Option<Json> = match msg.get("content") {
        Some(Json::Array(bs)) => if bs.len() > 0 {
            proof {
                lemma_jsons_view(bs@);
            }
            Some(Json::Array(mark_last(bs)))
        } else {
            None
        },
        Some(Json::Str(s)) => Some(
            arr1(
                obj3(
                    "type",
                    jstr("text"),
                    "text",
                    Json::Str(s.clone()),
                    "cache_control",
                    obj1("type", jstr("ephemeral")),
                ),
            ),
        ),
        _ => None,
    };
    match content {
        Some(c) => match msg {
            Json::Object(es) => {
                set_key(es, "content", c);
            },
            _ => {},
        },
        None => {},
    }
}

/// The messages a translated message has as content are text.
proof fn lemma_translated_markable(m: MessageView)
    ensures
        translated(m) matches Some(j) ==> markable(j),
{
    reveal_strlit("role");
    reveal_strlit("content");
    reveal_strlit("tool_call_id");
    assert("role"@ != "content"@) by {
        assert("role"@.len() != "content"@.len());
    }
    assert("tool_call_id"@ != "content"@) by {
        assert("tool_call_id"@.len() != "content"@.len());
    }
    match translated(m) {
        Some(j) => {
            match j {
                SpecJson::Object(es) => {
                    if es.len() == 2 {
                        lemma_entry_index_at(es, "content"@, 0, 1);
                    } else {
                        lemma_entry_index_at(es, "content"@, 0, 2);
                    }
                },
                _ => {},
            }
        },
        None => {},
    }
}

proof fn lemma_translated_all_markable(ms: Seq<MessageView>)
    ensures
        forall|j: int|
            0 <= j < translated_all(ms).len() ==> markable(#[trigger] translated_all(ms)[j]),
    decreases ms.len(),
{
    if ms.len() > 0 {
        lemma_translated_all_markable(ms.drop_last());
        lemma_translated_markable(ms.last());
        let a = translated_all(ms.drop_last());
        let b = match translated(ms.last()) {
            Some(j) => seq![j],
            None => Seq::<SpecJson>::empty(),
        };
        assert forall|j: int| 0 <= j < translated_all(ms).len() implies markable(
            #[trigger] translated_all(ms)[j],
        ) by {
            assert(translated_all(ms) == a + b);
            if j >= a.len() {
                assert(translated_all(ms)[j] == b[j - a.len()]);
            } else {
                assert(translated_all(ms)[j] == a[j]);
            }
        }
    }
}

/// The translations of the messages, those left out skipped.
fn translate_all(ms: &[Message]) -> (r: Vec<Json>)
    ensures
        jsons_view(r@) == translated_all(messages_view(ms@)),
{
    let mut out: Vec<Json> = Vec::new();
    let mut i: usize = 0;
    while i < ms.len()
        invariant
            i <= ms@.len(),
            jsons_view(out@) == translated_all(messages_view(ms@.take(i as int))),
        decreases ms@.len() - i,
    {
        let ghost before = out@;
        proof {
            assert(messages_view(ms@.take(i + 1)).drop_last() =~= messages_view(ms@.take(i as int)));
            assert(messages_view(ms@.take(i + 1)).last() == ms@[i as int]@);
        }
        match translate_message(&ms[i]) {
            Some(j) => {
                proof {
                    lemma_jsons_view_push(out@, j);
                }
                out.push(j);
                assert(jsons_view(out@) =~= jsons_view(before) + seq![j@]);
            },
            None => {
                assert(jsons_view(out@) =~= jsons_view(before) + Seq::<SpecJson>::empty());
            },
        }
        i = i + 1;
    }
    assert(ms@.take(ms@.len() as int) =~= ms@);
    out
}

/// Puts the cache marks on the messages.
fn add_markers(payload: &mut Vec<Json>)
    requires
        old(payload)@.len() > 0,
        forall|j: int|
            0 <= j < old(payload)@.len() ==> markable(#[trigger] jsons_view(old(payload)@)[j]),
    ensures
        jsons_view(final(payload)@) == with_markers(jsons_view(old(payload)@), 0),
{
    let n = payload.len();
    let ghost orig = jsons_view(payload@);
    proof {
        lemma_jsons_view(payload@);
    }
    let mut i: usize = 0;
    let mut done = false;
    while i < 4 && !done
        invariant
            n == payload@.len(),
            n > 0,
            i <= 4,
            jsons_view(payload@).len() == n,
            forall|j: int| 0 <= j < n ==> markable(#[trigger] jsons_view(payload@)[j]),
            done ==> jsons_view(payload@) == with_markers(orig, 0),
            !done ==> with_markers(orig, 0) == with_markers(jsons_view(payload@), i as int),
        decreases 4 - i,
    {
        let idx: usize = if n - 1 > 20 * i {
            n - 1 - 20 * i
        } else {
            0
        };
        let ghost cur = jsons_view(payload@);
        proof {
            lemma_jsons_view(payload@);
            assert(idx == marker_index(n as int, i as int));
        }
        let mut m = clone_json(&payload[idx]);
        insert_cache_marker(&mut m);
        proof {
            lemma_marker_keeps_markable(cur[idx as int]);
        }
        payload.set(idx, m);
        proof {
            lemma_jsons_view(payload@);
            assert(jsons_view(payload@) =~= cur.update(idx as int, with_marker(cur[idx as int])));
        }
        if idx == 0 {
            done = true;
        }
        i = i + 1;
    }
}

/// The gateway tool, as JSON.
fn gateway_tool_json() -> (r: Json)
    ensures
        r@ == gateway_tool(),
{
    obj2(
        "type",
        jstr("function"),
        "function",
        obj3(
            "name",
            jstr("gateway"),
            "description",
            jstr("Gateway function to call other functions."),
            "parameters",
            obj3(
                "type",
                jstr("object"),
                "properties",
                obj1(
                    "x",
                    obj2(
                        "type",
                        jstr("string"),
                        "description",
                        jstr("taglang-encoded function call string."),
                    ),
                ),
                "required",
                arr1(jstr("x")),
            ),
        ),
    )
}

/// A connection to a model through OpenRouter.
pub struct OpenRouterLLM {
    model: String,
    api_key: String,
    api_base: String,
    providers: Vec<String>,
}

/// Where requests go.
pub open spec fn openrouter_endpoint() -> Seq<char> {
    "https://openrouter.ai/api/v1/chat/completions"@
}

impl Clone for OpenRouterLLM {
    fn clone(&self) -> (r: Self)
        ensures
            r.model() == self.model(),
            r.api_key() == self.api_key(),
            r.endpoint() == self.endpoint(),
            r.providers() == self.providers(),
    {
        OpenRouterLLM {
            model: self.model.clone(),
            api_key: self.api_key.clone(),
            api_base: self.api_base.clone(),
            providers: crate::function::clone_strings(&self.providers),
        }
    }
}

impl OpenRouterLLM {
    pub closed spec fn model(&self) -> Seq<char> {
        self.model@
    }

    pub closed spec fn api_key(&self) -> Seq<char> {
        self.api_key@
    }

    pub closed spec fn endpoint(&self) -> Seq<char> {
        self.api_base@
    }

    pub closed spec fn providers(&self) -> Seq<Seq<char>> {
        strings_view(self.providers@)
    }

    /// A connection to `model`, preferring the providers in order.
    pub fn new(model: &str, api_key: &str, providers: &[String]) -> (r: Self)
        ensures
            r.model() == model@,
            r.api_key() == api_key@,
            r.endpoint() == openrouter_endpoint(),
            r.providers() == strings_view(providers@),
    {
        let mut ps: Vec<String> = Vec::new();
        let mut i: usize = 0;
        while i < providers.len()
            invariant
                i <= providers@.len(),
                strings_view(ps@) == strings_view(providers@.take(i as int)),
            decreases providers@.len() - i,
        {
            let p = providers[i].clone();
            proof {
                assert(strings_view(ps@.push(p)) =~= strings_view(ps@).push(p@));
                assert(strings_view(providers@.take(i + 1)) =~= strings_view(
                    providers@.take(i as int),
                ).push(providers@[i as int]@));
            }
            ps.push(p);
            i = i + 1;
        }
        assert(providers@.take(providers@.len() as int) =~= providers@);
        OpenRouterLLM {
            model: model.to_owned(),
            api_key: api_key.to_owned(),
            api_base: "https://openrouter.ai/api/v1/chat/completions".to_owned(),
            providers: ps,
        }
    }

    /// A line that says what this connection is.
    pub fn info(&self) -> (r: String)
        ensures
            r@ == "OpenRouter interface | Model: "@ + self.model(),
    {
        let mut out: Vec<char> = Vec::new();
        push_str(&mut out, "OpenRouter interface | Model: ");
        push_str(&mut out, self.model.as_str());
        string_of(out.as_slice())
    }

    /// Where requests go.
    pub fn api_base(&self) -> (r: &str)
        ensures
            r@ == self.endpoint(),
    {
        self.api_base.as_str()
    }

    /// The headers of a request.
    pub fn headers(&self) -> (r: Vec<(String, String)>)
        ensures
            r@.len() == 3,
            r@[0].0@ == "Authorization"@ && r@[0].1@ == "Bearer "@ + self.api_key(),
            r@[1].0@ == "Content-Type"@ && r@[1].1@ == "application/json"@,
            r@[2].0@ == "HTTP-Referer"@ && r@[2].1@ == "https://github.com/luka598/bond"@,
    {
        let mut auth: Vec<char> = Vec::new();
        push_str(&mut auth, "Bearer ");
        push_str(&mut auth, self.api_key.as_str());
        let mut r: Vec<(String, String)> = Vec::new();
        r.push(("Authorization".to_owned(), string_of(auth.as_slice())));
        r.push(("Content-Type".to_owned(), "application/json".to_owned()));
        r.push(("HTTP-Referer".to_owned(), "https://github.com/luka598/bond".to_owned()));
        r
    }

    /// The request body for the messages of a channel: the model, the
    /// translated messages with cache marks, the preferred providers, and
    /// the gateway tool.
    pub fn request_body(&self, messages: &[Message]) -> (r: String)
        requires
            translated_all(messages_view(messages@)).len() > 0,
        ensures
            r@ == json_text(
                request_payload(
                    self.model(),
                    payload_messages(messages_view(messages@)),
                    self.providers(),
                ),
            ),
    {
        let mut ms = translate_all(messages);
        proof {
            lemma_translated_all_markable(messages_view(messages@));
            lemma_jsons_view(ms@);
        }
        add_markers(&mut ms);
        let order = str_array(&self.providers);
        proof {
            assert(self.providers@.map_values(|s: String| SpecJson::Str(s@)) =~= strings_view(
                self.providers@,
            ).map_values(|p: Seq<char>| sstr(p)));
        }
        let payload = obj5(
            "model",
            jstr(self.model.as_str()),
            "messages",
            Json::Array(ms),
            "provider",
            obj2("order", order, "allow_fallbacks", Json::Bool(true)),
            "tools",
            arr1(gateway_tool_json()),
            "tool_choice",
            jstr("auto"),
        );
        write_json(&payload)
    }
}

/// The reply of a model that failed, as the one message it becomes.
pub fn error_msg(msg: String) -> (r: Vec<Message>)
    ensures
        messages_view(r@) == seq![error_view(msg@)],
{
    let mut r: Vec<Message> = Vec::new();
    r.push(
        Message {
            id: 0,
            time: 0,
            author: MessageAuthor::System,
            value: MessageValue::Error(msg),
            extra: MessageExtra::Empty,
        },
    );
    assert(messages_view(r@) =~= seq![error_view(r@[0].value->Error_0@)]);
    r
}

/// The command text of a gateway call.
fn command_of(tc: &Json) -> (r: String)
    ensures
        r@ == call_command(tc@),
{
    let text = str_field_or(get_in_exec(tc.get("function"), "arguments"), "{}");
    let args = match parse_json(text.as_str()) {
        Some(a) => a,
        None => Json::Object(Vec::new()),
    };
    assert(entries_view(Seq::<(String, Json)>::empty()) =~= Seq::<(Seq<char>, SpecJson)>::empty());
    str_field_or(args.get("x"), "")
}

/// The message a tool call becomes.
fn tool_call_to_message<F: Fn(&String, &[String]) -> String>(
    tc: &Json,
    last: u64,
    functions: &Functions<F>,
) -> (r: Message)
    requires
        call_name(tc@) == "gateway"@ ==> !never_ends(call_command(tc@)),
    ensures
        r@ == tool_call_message(tc@, last),
{
    let name = str_field_or(get_in_exec(tc.get("function"), "name"), "");
    if !str_eq(name.as_str(), "gateway") {
        let mut t: Vec<char> = Vec::new();
        push_str(&mut t, "Invalid function call '");
        push_str(&mut t, name.as_str());
        push_str(&mut t, "': only 'gateway' is allowed.");
        return Message {
            id: last,
            time: last,
            author: MessageAuthor::System,
            value: MessageValue::Error(string_of(t.as_slice())),
            extra: MessageExtra::Empty,
        };
    }
    let x = command_of(tc);
    let id = str_field_or(tc.get("id"), "");
    let mut extra: Vec<(String, String)> = Vec::new();
    extra.push(("tool_call_id".to_owned(), id));
    assert(crate::message::pairs_view(extra@) =~= seq![(tool_call_id_key(), extra@[0].1@)]);
    let value = match functions.parse(x.as_str()) {
        Ok(f) => MessageValue::FunctionCall(f),
        Err(e) => MessageValue::Error(e),
    };
    Message { id: last, time: last, author: MessageAuthor::System, value, extra: MessageExtra::Entries(extra) }
}

/// Whether reading the gateway calls of a parsed reply ends.
pub fn reply_ends_exec(p: &Json) -> (r: bool)
    ensures
        r == reply_ends(p@),
{
    match p.get("error") {
        Some(e) => if !e.is_null() {
            return true;
        },
        None => {},
    }
    let m = match choice_message(p) {
        Some(m) => m,
        None => return true,
    };
    let calls = match m.get("tool_calls") {
        Some(c) => match c.as_array() {
            Some(v) => v,
            None => {
                return true;
            },
        },
        None => return true,
    };
    proof {
        lemma_jsons_view(calls@);
    }
    let mut i: usize = 0;
    while i < calls.len()
        invariant
            i <= calls@.len(),
            reply_error(p@) is None,
            reply_message(p@) == Some(m@),
            tool_calls(m@) == jsons_view(calls@),
            jsons_view(calls@).len() == calls@.len(),
            forall|j: int| 0 <= j < calls@.len() ==> #[trigger] jsons_view(calls@)[j] == calls@[j]@,
            forall|j: int|
                0 <= j < i && call_name(#[trigger] tool_calls(m@)[j]) == "gateway"@ ==> !never_ends(
                    call_command(tool_calls(m@)[j]),
                ),
        decreases calls@.len() - i,
    {
        let tc = &calls[i];
        let name = str_field_or(get_in_exec(tc.get("function"), "name"), "");
        if str_eq(name.as_str(), "gateway") {
            let x = command_of(tc);
            if Cmd::reads_forever(x.as_str()) {
                assert(call_name(tool_calls(m@)[i as int]) == "gateway"@);
                assert(never_ends(call_command(tool_calls(m@)[i as int])));
                return false;
            }
        }
        i = i + 1;
    }
    true
}

/// The message of the first choice of a reply.
fn choice_message(p: &Json) -> (r: Option<&Json>)
    ensures
        opt_json_view(r) == reply_message(p@),
{
    match p.get("choices") {
        Some(c) => match c.as_array() {
            Some(v) => if v.len() > 0 {
                proof {
                    lemma_jsons_view(v@);
                }
                v[0].get("message")
            } else {
                None
            },
            None => None,
        },
        None => None,
    }
}

/// The messages a parsed reply becomes: its error, or the text of the
/// first choice and one message per tool call.
pub fn reply_from_json<F: Fn(&String, &[String]) -> String>(
    p: &Json,
    last: u64,
    functions: &Functions<F>,
) -> (r: Vec<Message>)
    requires
        reply_ends(p@),
    ensures
        messages_view(r@) == reply_messages(p@, last),
{
    match p.get("error") {
        Some(e) => if !e.is_null() {
            let mut t: Vec<char> = Vec::new();
            push_str(&mut t, "OpenRouter error: ");
            let et = write_json(e);
            push_str(&mut t, et.as_str());
            return error_msg(string_of(t.as_slice()));
        },
        None => {},
    }
    let mut result: Vec<Message> = Vec::new();
    let m = match choice_message(p) {
        Some(m) => m,
        None => {
            assert(messages_view(result@) =~= Seq::<MessageView>::empty());
            return result;
        },
    };
    match m.get("content") {
        Some(c) => match c.as_str() {
            Some(text) => if !text.is_empty() {
                result.push(
                    Message {
                        id: last,
                        time: last,
                        author: MessageAuthor::LLM,
                        value: MessageValue::Text(text.to_owned()),
                        extra: MessageExtra::Empty,
                    },
                );
            },
            None => {},
        },
        None => {},
    }
    let ghost head = messages_view(result@);
    assert(head =~= reply_text(m@, last));
    let calls = match m.get("tool_calls") {
        Some(c) => match c.as_array() {
            Some(v) => v,
            None => {
                assert(reply_messages(p@, last) =~= head);
                return result;
            },
        },
        None => {
            assert(reply_messages(p@, last) =~= head);
            return result;
        },
    };
    proof {
        lemma_jsons_view(calls@);
    }
    let ghost tcs = tool_calls(m@);
    let mut i: usize = 0;
    while i < calls.len()
        invariant
            i <= calls@.len(),
            tcs == jsons_view(calls@),
            tcs.len() == calls@.len(),
            forall|j: int| 0 <= j < calls@.len() ==> #[trigger] tcs[j] == calls@[j]@,
            forall|j: int|
                0 <= j < tcs.len() && call_name(#[trigger] tcs[j]) == "gateway"@ ==> !never_ends(
                    call_command(tcs[j]),
                ),
            messages_view(result@) == head + tcs.take(i as int).map_values(
                |tc: SpecJson| tool_call_message(tc, last),
            ),
        decreases calls@.len() - i,
    {
        let tm = tool_call_to_message(&calls[i], last, functions);
        let ghost before = messages_view(result@);
        result.push(tm);
        proof {
            assert(tcs.take(i + 1) =~= tcs.take(i as int).push(tcs[i as int]));
            assert(messages_view(result@) =~= before.push(tm@));
            assert(tcs.take(i + 1).map_values(|tc: SpecJson| tool_call_message(tc, last)) =~= tcs.take(
                i as int,
            ).map_values(|tc: SpecJson| tool_call_message(tc, last)).push(tool_call_message(tcs[i as int], last)));
        }
        i = i + 1;
    }
    assert(tcs.take(tcs.len() as int) =~= tcs);
    result
}

/// The messages a reply text becomes; `None` when a gateway call in it is a
/// command that would be read forever.
pub fn read_reply<F: Fn(&String, &[String]) -> String>(
    text: &str,
    last: u64,
    functions: &Functions<F>,
) -> (r: Option<Vec<Message>>)
    ensures
        match r {
            Some(v) => messages_view(v@) == reply_text_messages(text@, last),
            None => parsed_json(text@) matches Some(p) && !reply_ends(p),
        },
{
    match parse_json(text) {
        None => {
            let mut t: Vec<char> = Vec::new();
            push_str(&mut t, "OpenRouter returned non-JSON: ");
            push_str(&mut t, text);
            Some(error_msg(string_of(t.as_slice())))
        },
        Some(p) => {
            if reply_ends_exec(&p) {
                Some(reply_from_json(&p, last, functions))
            } else {
                None
            }
        },
    }
}

} // verus!
