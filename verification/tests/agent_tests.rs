use bond::agent::{AgentAction, AgentState, Run, Step, send_message_actions};
use bond::channels::{Channel, Channels};
use bond::function::{FunctionCall, FunctionResult, Functions};
use bond::message::{Message, MessageAuthor, MessageExtra, MessageValue};

type Handler = fn(&String, &[String]) -> String;

fn echo(name: &String, args: &[String]) -> String {
    format!("{}:{}", name, args.join(","))
}

fn text(author: MessageAuthor, id: u64, t: &str) -> Message {
    Message {
        id,
        time: id,
        author,
        value: MessageValue::Text(t.to_string()),
        extra: MessageExtra::Empty,
    }
}

#[test]
fn value_texts() {
    let call = MessageValue::FunctionCall(FunctionCall {
        name: "f".to_string(),
        args: vec!["a".to_string(), "b\"c".to_string()],
    });
    assert_eq!(call.as_str(), "func call: f\n[\"a\", \"b\\\"c\"]");
    let res = MessageValue::FunctionResult(FunctionResult { name: "f".to_string(), result: "r".to_string() });
    assert_eq!(res.as_str(), "f result: r");
    assert_eq!(MessageValue::Error("e".to_string()).as_str(), "error: e");
    assert_eq!(MessageValue::Text("t".to_string()).as_str(), "t");
    assert_eq!(
        MessageValue::TextLLM("x".to_string(), "id".to_string(), "done".to_string()).as_str(),
        "x"
    );
}

#[test]
fn extra_lookup_takes_first_pair() {
    let e = MessageExtra::Entries(vec![
        ("k".to_string(), "1".to_string()),
        ("k".to_string(), "2".to_string()),
    ]);
    assert_eq!(e.get("k"), Some("1"));
    assert_eq!(e.get("z"), None);
    assert_eq!(MessageExtra::Empty.get("k"), None);
}

#[test]
fn functions_register_parse_and_exec() {
    let mut f: Functions<Handler> = Functions::new();
    f.register("echo", echo as Handler);
    let call = f.parse("echo \"a\" \"b\"").unwrap();
    assert_eq!(call.name, "echo");
    let r = f.exec(call);
    assert_eq!(r.name, "echo");
    assert_eq!(r.result, "echo:a,b");
    let missing = f.exec(FunctionCall { name: "nope".to_string(), args: vec![] });
    assert_eq!(missing.result, "this function does not exist");
    assert_eq!(f.parse("").unwrap_err(), "expected function name");
}

#[test]
fn register_replaces_handler() {
    fn other(_: &String, _: &[String]) -> String {
        "other".to_string()
    }
    let mut f: Functions<Handler> = Functions::new();
    f.register("x", echo as Handler);
    f.register("x", other as Handler);
    let r = f.exec(FunctionCall { name: "x".to_string(), args: vec![] });
    assert_eq!(r.result, "other");
}

#[test]
fn channel_basics() {
    let mut c = Channel::new();
    assert_eq!(c.get_messages_len(), 0);
    c.add_message(text(MessageAuthor::User, 1, "hi"));
    assert_eq!(c.get_messages_len(), 1);
    assert_eq!(c.get_messages()[0].value.as_str(), "hi");
    assert!(c.try_set_busy());
    assert!(!c.try_set_busy());
    c.unset_busy();
    assert!(c.try_set_busy());
}

#[test]
fn channels_add_remove_rename() {
    let mut cs = Channels::new();
    cs.add_channel("a");
    cs.add_message("a", text(MessageAuthor::User, 1, "x"));
    cs.add_channel("a");
    assert_eq!(cs.get_channel("a").get_messages_len(), 1);
    cs.rename_channel("a", "b");
    assert_eq!(cs.get_channel("b").get_messages_len(), 1);
    cs.rename_channel("missing", "c");
    cs.add_channel("c");
    assert_eq!(cs.get_channel("c").get_messages_len(), 0);
    cs.rem_channel("b");
    cs.add_channel("b");
    assert_eq!(cs.get_channel("b").get_messages_len(), 0);
}

#[test]
fn rename_back_restores() {
    let mut cs = Channels::new();
    cs.add_channel("a");
    cs.add_message("a", text(MessageAuthor::User, 1, "x"));
    cs.rename_channel("a", "b");
    cs.rename_channel("b", "a");
    assert_eq!(cs.get_channel("a").get_messages()[0].value.as_str(), "x");
}

#[test]
fn clone_channel_appends() {
    let mut cs = Channels::new();
    cs.add_channel("t");
    cs.add_message("t", text(MessageAuthor::System, 1, "p"));
    cs.clone_channel("t", "m");
    assert_eq!(cs.get_channel("m").get_messages_len(), 1);
    cs.clone_channel("t", "m");
    assert_eq!(cs.get_channel("m").get_messages_len(), 2);
    cs.clone_channel("t", "t");
    assert_eq!(cs.get_channel("t").get_messages_len(), 2);
}

#[test]
fn busy_flag_is_exclusive() {
    let mut cs = Channels::new();
    cs.add_channel("a");
    assert!(cs.try_set_busy("a"));
    assert!(!cs.try_set_busy("a"));
    cs.unset_busy("a");
    assert!(cs.try_set_busy("a"));
}

#[test]
fn agent_handles_actions() {
    let mut st = AgentState::new();
    let s = st.handle(
        AgentAction::SendSystemPrompt {
            channel: "template_main".to_string(),
            name: "p".to_string(),
            text: "be nice".to_string(),
        },
        5,
        6,
    );
    assert!(matches!(s, Step::Done));
    let s = st.handle(
        AgentAction::SendNewChannel { channel: "main".to_string(), template: "template_main".to_string() },
        0,
        0,
    );
    assert!(matches!(s, Step::Done));
    assert_eq!(st.channels.get_channel("main").get_messages_len(), 1);
    let s = st.handle(
        AgentAction::SendTextMessage { channel: "main".to_string(), text: "hello".to_string() },
        7,
        8,
    );
    match s {
        Step::Broadcast(AgentAction::Message { channel, msg }) => {
            assert_eq!(channel, "main");
            assert_eq!(msg.id, 7);
            assert_eq!(msg.time, 8);
            assert!(matches!(msg.author, MessageAuthor::User));
            assert_eq!(msg.value.as_str(), "hello");
        }
        _ => panic!("expected a broadcast"),
    }
    assert_eq!(st.channels.get_channel("main").get_messages_len(), 2);
    let s = st.handle(AgentAction::SendRun { channel: "main".to_string() }, 0, 0);
    assert!(matches!(s, Step::Run(c) if c == "main"));
    let s = st.handle(AgentAction::SendCancel { channel: "main".to_string() }, 0, 0);
    assert!(matches!(s, Step::Done));
}

#[test]
fn send_message_makes_two_actions() {
    let (a, b) = send_message_actions("main", "hi");
    assert!(matches!(a, AgentAction::SendTextMessage { ref channel, ref text } if channel == "main" && text == "hi"));
    assert!(matches!(b, AgentAction::SendRun { ref channel } if channel == "main"));
}

#[test]
fn run_asks_until_channel_stops_growing() {
    let mut cs = Channels::new();
    cs.add_channel("c");
    cs.add_message("c", text(MessageAuthor::User, 1, "q"));
    let mut run = Run::start(&mut cs, "c").unwrap();
    assert!(Run::start(&mut cs, "c").is_none());
    let req = run.next_request(&mut cs).unwrap();
    assert_eq!(req.len(), 1);
    let f: Functions<Handler> = Functions::new();
    let a = run.absorb(&mut cs, text(MessageAuthor::LLM, 1, "answer"), &f, 9);
    assert!(matches!(a, AgentAction::Message { ref channel, .. } if channel == "c"));
    assert!(run.next_request(&mut cs).is_none());
    assert!(cs.try_set_busy("c"));
}

#[test]
fn run_records_function_results() {
    let mut cs = Channels::new();
    cs.add_channel("c");
    cs.add_message("c", text(MessageAuthor::User, 1, "q"));
    let mut run = Run::start(&mut cs, "c").unwrap();
    run.next_request(&mut cs).unwrap();
    let f: Functions<Handler> = Functions::new();
    let call = Message {
        id: 3,
        time: 3,
        author: MessageAuthor::System,
        value: MessageValue::FunctionCall(FunctionCall { name: "x".to_string(), args: vec![] }),
        extra: MessageExtra::Empty,
    };
    run.absorb(&mut cs, call, &f, 11);
    let ms = cs.get_channel("c").get_messages();
    assert_eq!(ms.len(), 3);
    assert_eq!(ms[2].id, 3);
    assert_eq!(ms[2].time, 11);
    assert_eq!(ms[2].value.as_str(), "x result: this function does not exist");
    // two messages were added for one reply, so the model is asked again
    assert_eq!(run.next_request(&mut cs).unwrap().len(), 3);
}
