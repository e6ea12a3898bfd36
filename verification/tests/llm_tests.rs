use bond::function::Functions;
use bond::message::{Message, MessageAuthor, MessageExtra, MessageValue};
use bond::openai::{self, OAILLM};
use bond::openrouter::{self, OpenRouterLLM};

type Handler = fn(&String, &[String]) -> String;

fn msg(author: MessageAuthor, t: &str) -> Message {
    Message { id: 4, time: 4, author, value: MessageValue::Text(t.to_string()), extra: MessageExtra::Empty }
}

#[test]
fn openrouter_info_and_headers() {
    let llm = OpenRouterLLM::new("m1", "key", &["p".to_string()]);
    assert_eq!(llm.info(), "OpenRouter interface | Model: m1");
    assert_eq!(llm.api_base(), "https://openrouter.ai/api/v1/chat/completions");
    let h = llm.headers();
    assert_eq!(h[0], ("Authorization".to_string(), "Bearer key".to_string()));
    assert_eq!(h[2].0, "HTTP-Referer");
}

#[test]
fn openrouter_request_body() {
    let llm = OpenRouterLLM::new("m", "k", &["p1".to_string(), "p2".to_string()]);
    let ms = vec![msg(MessageAuthor::System, "sys"), msg(MessageAuthor::User, "hi")];
    let body = llm.request_body(&ms);
    let v: serde_json::Value = serde_json::from_str(&body).unwrap();
    assert_eq!(v["model"], "m");
    assert_eq!(v["tool_choice"], "auto");
    assert_eq!(v["provider"]["order"][1], "p2");
    assert_eq!(v["provider"]["allow_fallbacks"], true);
    assert_eq!(v["tools"][0]["function"]["name"], "gateway");
    assert_eq!(v["messages"][0]["role"], "system");
    assert_eq!(v["messages"][0]["content"][0]["text"], "sys");
    assert_eq!(v["messages"][0]["content"][0]["cache_control"]["type"], "ephemeral");
    assert_eq!(v["messages"][1]["role"], "user");
    assert_eq!(v["messages"][1]["content"][0]["type"], "text");
}

#[test]
fn openrouter_cache_marks_every_twenty() {
    let llm = OpenRouterLLM::new("m", "k", &[]);
    let ms: Vec<Message> = (0..30).map(|i| msg(MessageAuthor::User, &format!("m{}", i))).collect();
    let v: serde_json::Value = serde_json::from_str(&llm.request_body(&ms)).unwrap();
    let marked: Vec<usize> = (0..30).filter(|i| v["messages"][*i]["content"].is_array()).collect();
    assert_eq!(marked, vec![0, 9, 29]);
}

#[test]
fn openrouter_function_message_needs_tool_call_id() {
    let with_id = Message {
        id: 1,
        time: 1,
        author: MessageAuthor::Function,
        value: MessageValue::Text("r".to_string()),
        extra: MessageExtra::Entries(vec![("tool_call_id".to_string(), "c9".to_string())]),
    };
    let j = openrouter::translate_message(&with_id).unwrap();
    assert_eq!(openrouter::translate_message(&msg(MessageAuthor::Function, "x")).is_none(), true);
    let llm = OpenRouterLLM::new("m", "k", &[]);
    let v: serde_json::Value = serde_json::from_str(&llm.request_body(&[with_id])).unwrap();
    assert_eq!(v["messages"][0]["tool_call_id"], "c9");
    assert_eq!(v["messages"][0]["role"], "tool");
    let _ = j;
}

#[test]
fn openrouter_reply_non_json() {
    let f: Functions<Handler> = Functions::new();
    let r = openrouter::read_reply("oops", 7, &f).unwrap();
    assert_eq!(r.len(), 1);
    assert_eq!(r[0].id, 0);
    assert_eq!(r[0].value.as_str(), "error: OpenRouter returned non-JSON: oops");
}

#[test]
fn openrouter_reply_error() {
    let f: Functions<Handler> = Functions::new();
    let r = openrouter::read_reply("{\"error\":{\"message\":\"bad\"}}", 7, &f).unwrap();
    assert_eq!(r[0].value.as_str(), "error: OpenRouter error: {\"message\":\"bad\"}");
    let r = openrouter::read_reply("{\"error\":null}", 7, &f).unwrap();
    assert!(r.is_empty());
}

#[test]
fn openrouter_reply_text_and_calls() {
    let f: Functions<Handler> = Functions::new();
    let reply = r#"{"choices":[{"message":{"content":"hello","tool_calls":[
        {"id":"c1","function":{"name":"gateway","arguments":"{\"x\":\"echo \\\"a\\\"\"}"}},
        {"id":"c2","function":{"name":"other","arguments":"{}"}},
        {"id":"c3","function":{"name":"gateway","arguments":"not json"}}
    ]}}]}"#;
    let r = openrouter::read_reply(reply, 7, &f).unwrap();
    assert_eq!(r.len(), 4);
    assert!(matches!(r[0].author, MessageAuthor::LLM));
    assert_eq!(r[0].value.as_str(), "hello");
    assert_eq!(r[0].id, 7);
    match &r[1].value {
        MessageValue::FunctionCall(c) => {
            assert_eq!(c.name, "echo");
            assert_eq!(c.args, vec!["a".to_string()]);
        }
        _ => panic!("expected a call"),
    }
    assert_eq!(r[1].extra.get("tool_call_id"), Some("c1"));
    assert_eq!(
        r[2].value.as_str(),
        "error: Invalid function call 'other': only 'gateway' is allowed."
    );
    assert_eq!(r[3].value.as_str(), "error: expected function name");
}

#[test]
fn openrouter_reply_without_choices() {
    let f: Functions<Handler> = Functions::new();
    assert!(openrouter::read_reply("{\"choices\":[]}", 7, &f).unwrap().is_empty());
    assert!(openrouter::read_reply("{}", 7, &f).unwrap().is_empty());
    let r = openrouter::read_reply("{\"choices\":[{\"message\":{\"content\":\"\"}}]}", 7, &f).unwrap();
    assert!(r.is_empty());
}

#[test]
fn openrouter_reply_that_reads_forever() {
    let f: Functions<Handler> = Functions::new();
    let reply = r#"{"choices":[{"message":{"tool_calls":[{"id":"c","function":{"name":"gateway","arguments":"{\"x\":\"QUOTE= f x\"}"}}]}}]}"#;
    assert!(openrouter::read_reply(reply, 7, &f).is_none());
}

#[test]
fn openrouter_error_msg() {
    let r = openrouter::error_msg("boom".to_string());
    assert_eq!(r.len(), 1);
    assert!(matches!(r[0].author, MessageAuthor::System));
    assert_eq!(r[0].time, 0);
}

#[test]
fn openai_translation() {
    assert_eq!(openai::translate_author(&MessageAuthor::LLM), "assistant");
    assert_eq!(openai::translate_author(&MessageAuthor::User), "user");
    assert_eq!(openai::translate_author(&MessageAuthor::System), "system");
    let llm = OAILLM::new("gpt", "https://api", "k");
    assert_eq!(llm.info(), "OpenAI interface | Model: gpt");
    assert_eq!(llm.api_base(), "https://api");
    let ms = vec![
        msg(MessageAuthor::User, "hi"),
        Message {
            id: 1,
            time: 1,
            author: MessageAuthor::LLM,
            value: MessageValue::TextLLM("yo".to_string(), "m1".to_string(), "completed".to_string()),
            extra: MessageExtra::Empty,
        },
    ];
    let v: serde_json::Value = serde_json::from_str(&llm.request_body(&ms)).unwrap();
    assert_eq!(v["model"], "gpt");
    assert_eq!(v["reasoning"]["effort"], "low");
    assert_eq!(v["input"][0]["role"], "user");
    assert_eq!(v["input"][0]["content"][0]["type"], "input_text");
    assert_eq!(v["input"][1]["id"], "m1");
    assert_eq!(v["input"][1]["status"], "completed");
    assert_eq!(v["input"][1]["content"][0]["text"], "yo");
    assert_eq!(v["tools"][0]["name"], "gateway");
}

#[test]
fn openai_reply() {
    let f: Functions<Handler> = Functions::new();
    let reply = r#"{"output":[
        {"type":"reasoning"},
        {"type":"message","role":"user","id":"m1","status":"completed","content":[{"type":"output_text","text":"a"},{"type":"other","text":"x"},{"type":"output_text","text":"b"}]},
        {"type":"function_call","name":"gateway","arguments":"{\"x\":\"f \\\"1\\\"\"}"},
        {"type":"function_call","name":"nope","arguments":"{\"x\":\"f\"}"},
        {"type":"unknown"}
    ]}"#;
    let r = openai::read_reply(reply, 3, &f).unwrap();
    assert_eq!(r.len(), 3);
    assert!(matches!(r[0].author, MessageAuthor::User));
    match &r[0].value {
        MessageValue::TextLLM(t, id, st) => {
            assert_eq!(t, "ab");
            assert_eq!(id, "m1");
            assert_eq!(st, "completed");
        }
        _ => panic!("expected text"),
    }
    match &r[1].value {
        MessageValue::FunctionCall(c) => assert_eq!(c.args, vec!["1".to_string()]),
        _ => panic!("expected a call"),
    }
    assert_eq!(
        r[2].value.as_str(),
        "error: Error: Invalid function call, you can only call functions through gateway."
    );
}

#[test]
fn openai_reply_errors() {
    let f: Functions<Handler> = Functions::new();
    let r = openai::read_reply("nope", 3, &f).unwrap();
    assert_eq!(r[0].value.as_str(), "error: OpenAI returned garbage/non-JSON: nope");
    let r = openai::read_reply("{\"error\":{\"code\":1}}", 3, &f).unwrap();
    assert_eq!(r[0].value.as_str(), "error: OpenAI returned garbage/non-JSON: {\"error\":{\"code\":1}}");
    assert!(openai::read_reply("{}", 3, &f).unwrap().is_empty());
    assert!(openai::read_reply("{\"output\":[{\"role\":\"x\"}]}", 3, &f).is_none());
    assert!(openai::read_reply("{\"output\":[{\"type\":\"function_call\",\"name\":\"gateway\",\"arguments\":\"[]\"}]}", 3, &f).is_none());
}
