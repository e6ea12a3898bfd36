use bond::taglang::parse;
use bond::tools::manual::Manual;
use bond::tools::shell::{self, ShellCall};
use bond::tools::{knowledge_base, text, tmux, web};
use bond::function::{FunctionCall, Functions};

type Handler = fn(&String, &[String]) -> String;

fn args(v: &[&str]) -> Vec<String> {
    v.iter().map(|s| s.to_string()).collect()
}

#[test]
fn manual_lookup() {
    let mut m = Manual::new();
    m.register("text", "T");
    m.register("text", "T2");
    assert_eq!(m.lookup("text"), "T2");
    assert_eq!(m.lookup("x"), "no such namespace");
    let x = parse("<namespace>text</namespace>").unwrap();
    assert_eq!(m.call(&x), "T2");
}

#[test]
fn shell_call_dispatch() {
    assert!(matches!(shell::call(&args(&["", "", ""])), ShellCall::Reply(t) if t == "shell: not enough arguments"));
    assert!(matches!(shell::call(&args(&["", "", "", "MANUAL"])), ShellCall::Reply(t) if t == shell::MANUAL));
    assert!(matches!(shell::call(&args(&["", "", "", "INFO"])), ShellCall::Reply(t) if t == "Runs shell commands via `sh -c`."));
    assert!(matches!(shell::call(&args(&["", "", "", "RUN"])), ShellCall::Reply(t) if t == "shell::RUN: missing cmd argument"));
    assert!(matches!(shell::call(&args(&["", "", "", "RUN", "ls"])), ShellCall::Run(c) if c == "ls"));
    assert!(matches!(shell::call(&args(&["", "", "", "X"])), ShellCall::Reply(t) if t == "shell: unknown method 'X'"));
}

#[test]
fn truncation() {
    assert_eq!(shell::truncate_field("abcdef", 4, ".."), "ab..");
    assert_eq!(shell::truncate_field("abc", 4, ".."), "abc");
    assert_eq!(shell::truncate_field("abcdef", 1, "..."), "...");
    assert_eq!(shell::truncate_field("ééé", 2, "!"), "é!");
    let long = "x".repeat(10_005);
    let r = shell::run_report(&long, "e");
    assert!(r.starts_with("stdout: "));
    assert!(r.ends_with("\n...truncated\nstderr: e"));
    assert_eq!(shell::run_report("out", "err"), "stdout: out\nstderr: err");
    assert_eq!(shell::spawn_failure("nope"), "failed to spawn sh: nope");
}

#[test]
fn text_lines() {
    assert_eq!(text::lines_of("a\r\nb\n"), args(&["a", "b"]));
    assert_eq!(text::lines_of("a\r"), args(&["a\r"]));
    assert_eq!(text::lines_of(""), Vec::<String>::new());
    assert_eq!(text::lines_of("\n"), args(&[""]));
}

#[test]
fn text_read() {
    assert_eq!(text::read_report("x\ny\nz", 5, 7, 0, 1), "# size: 5, lines: 3, modified: 7\n000|x\n001|y");
    assert_eq!(text::read_report("x\ny\nz", 5, 7, 2, 9), "# size: 5, lines: 3, modified: 7\n002|z");
    assert_eq!(text::read_report("", 0, 1, 0, 0), "# size: 0, lines: 0, modified: 1");
    let big: String = (0..1200).map(|i| format!("l{}\n", i)).collect();
    assert_eq!(text::read_report(&big, 1, 1, 0, 599), "range too large: b - a must be < 500");
    let r = text::read_report(&big, 1, 1, 1000, 1000);
    assert!(r.ends_with("\n1000|l1000"));
}

#[test]
fn text_read_request() {
    let x = parse("<path>f.txt</path><a>0</a><b>2</b>").unwrap();
    assert_eq!(text::read_request(&x), Ok(("f.txt".to_string(), 0, 2)));
    let x = parse("<path>f</path><a>z</a>").unwrap();
    assert_eq!(text::read_request(&x), Err("invalid fcall".to_string()));
    let x = parse("<path>f</path><a>3</a><b>1</b>").unwrap();
    assert_eq!(text::read_request(&x), Err("invalid range: a must be <= b".to_string()));
}

#[test]
fn text_write() {
    assert_eq!(text::write_plan("a\nb\nc", 1, 1, "X\nY"), "a\nX\nY\nc");
    assert_eq!(text::write_plan("a\nb\nc", 1, 1, ""), "a\nc");
    assert_eq!(text::write_plan("a\nb\nc", 0, 2, "z"), "z");
    // Indices past the end are clamped to the last line.
    assert_eq!(text::write_plan("a\nb", 2, 2, "x"), "a\nx");
    assert_eq!(text::write_plan("L0\nL1\nL2", 1, 7, "X"), "L0\nX");
    assert_eq!(text::write_plan("L0\nL1\nL2", 5, 9, "X"), "L0\nL1\nX");
    assert_eq!(text::write_plan("", 0, 5, "hi"), "hi");
    assert_eq!(text::write_plan("", 1, 1, "x"), "x");
    assert_eq!(text::write_report("héllo"), "wrote 6 bytes");
    let after = text::write_plan("a\nb\nc\nd", 1, 2, "B");
    assert_eq!(text::lines_of(&after), args(&["a", "B", "d"]));
}

#[test]
fn text_write_request() {
    let x = parse("<path>f</path><a>1</a><b>2</b><text>t</text><create>true</create>").unwrap();
    let w = text::write_request(&x).unwrap();
    assert_eq!((w.path.as_str(), w.a, w.b, w.text.as_str(), w.create), ("f", 1, 2, "t", true));
    let x = parse("<path>f</path><a>1</a><b>2</b><text>t</text><create>maybe</create>").unwrap();
    assert_eq!(
        text::write_request(&x).unwrap_err(),
        "invalid fcall: create must be \"true\" or \"false\""
    );
}

#[test]
fn form_encoding() {
    assert_eq!(web::url_encode("a b&c"), "a+b%26c");
    assert_eq!(web::url_encode("é-_.~"), "%C3%A9-_.~");
    assert_eq!(web::search_form("rust async"), "q=rust+async");
}

/// The fields of a web tool's answer.
fn web_fields(answer: &str) -> (bool, String, String) {
    let v: serde_json::Value = serde_json::from_str(answer).unwrap();
    let obj = v.as_object().unwrap();
    assert_eq!(obj.len(), 3);
    (
        v["success"].as_bool().unwrap(),
        v["output"].as_str().unwrap().to_string(),
        v["error"].as_str().unwrap().to_string(),
    )
}

fn ok(output: &str) -> (bool, String, String) {
    (true, output.to_string(), String::new())
}

fn failed(error: &str) -> (bool, String, String) {
    (false, String::new(), error.to_string())
}

#[test]
fn web_json_format() {
    assert_eq!(web::format_json(true, "a \"q\"", ""), r#"{"error":"","output":"a \"q\"","success":true}"#);
    assert_eq!(web_fields(&web::format_json(false, "", "bad")), failed("bad"));
}

#[test]
fn fetch_answers() {
    assert_eq!(web_fields(&web::fetch_failure("u", "timeout")), failed("error fetching u: timeout"));
    let e = web::fetch_status_error("u", 404).unwrap();
    assert_eq!(web_fields(&e), failed("error fetching u: HTTP 404"));
    assert_eq!(web::fetch_status_error("u", 200), None);
    assert_eq!(web_fields(&web::fetch_report("u", "text/plain", Ok("raw".to_string()))), ok("raw"));
    assert_eq!(
        web_fields(&web::fetch_report("u", "text/plain", Err("e".to_string()))),
        failed("error fetching u: e")
    );
    let html = "<html><body><h1>Title</h1><p>Hello <b>world</b></p></body></html>";
    let expected = html2text::from_read(html.as_bytes(), 80).unwrap();
    let got = web_fields(&web::fetch_report("u", "text/html; charset=utf-8", Ok(html.to_string())));
    assert_eq!(got, ok(&expected));
    assert_ne!(got.1, html);
    assert_eq!(web_fields(&web::fetch_converted("u", Ok("md".to_string()))), ok("md"));
    assert_eq!(
        web_fields(&web::fetch_converted("u", Err("boom".to_string()))),
        failed("error converting HTML u: boom")
    );
}

#[test]
fn search_answers() {
    assert_eq!(web::search_gate(), None);
    let e = web::search_status_error("q", 500).unwrap();
    assert_eq!(web_fields(&e), failed("error searching for q: HTTP 500"));
    assert_eq!(web_fields(&web::search_failure("q", "e")), failed("error searching for q: e"));
    assert_eq!(web_fields(&web::search_report("q", "<p>short</p>")), ok(""));
    let long = format!("<p>{}</p>", "word ".repeat(400));
    let expected: String = html2text::from_read(long.as_bytes(), 80).unwrap().chars().skip(713).collect();
    assert!(!expected.is_empty());
    assert_eq!(web_fields(&web::search_report("q", &long)), ok(&expected));
    let md: String = std::iter::repeat('x').take(720).collect();
    assert_eq!(web_fields(&web::search_converted("q", Ok(md))), ok("xxxxxxx"));
    assert_eq!(
        web_fields(&web::search_converted("q", Err("boom".to_string()))),
        failed("error converting search HTML for q: boom")
    );
    assert_eq!(web::search_headers()[1].1, "application/x-www-form-urlencoded");
}

#[test]
fn words() {
    assert_eq!(knowledge_base::tokenize("Hello, World_x 42!"), args(&["hello", "world", "x", "42"]));
    assert_eq!(knowledge_base::tokenize("ÉCOLE été"), args(&["école", "été"]));
    assert!(knowledge_base::tokenize("  ,, ").is_empty());
}

#[test]
fn search_requests() {
    let x = parse("<q1>Rust async</q1><q2></q2><q3>HTTP</q3><top_n>7</top_n>").unwrap();
    let r = knowledge_base::search_request(&x).unwrap();
    assert_eq!(r.top_n, 3);
    assert_eq!(r.queries, vec![args(&["rust", "async"]), args(&["http"])]);
    let x = parse("<q1>a</q1><q2></q2><q3></q3>").unwrap();
    assert_eq!(knowledge_base::search_request(&x).unwrap().top_n, 1);
    let x = parse("<q1>a</q1><q2></q2><q3></q3><top_n>0</top_n>").unwrap();
    assert_eq!(knowledge_base::search_request(&x).unwrap().top_n, 1);
    let x = parse("<q1>a</q1><q2></q2><q3></q3><top_n>two</top_n>").unwrap();
    assert_eq!(knowledge_base::search_request(&x).unwrap().top_n, 1);
    let x = parse("<q1></q1><q2></q2><q3></q3>").unwrap();
    assert_eq!(
        knowledge_base::search_request(&x).unwrap_err(),
        "no queries provided: at least one of q1, q2, q3 must be non-empty"
    );
}

#[test]
fn search_answer_text() {
    let rs = vec![
        ("kb/a.md".to_string(), "4.00".to_string(), "  alpha \n".to_string()),
        ("kb/b.md".to_string(), "1.20".to_string(), "beta".to_string()),
    ];
    assert_eq!(
        knowledge_base::search_answer(&rs),
        "=== Result 1 | kb/a.md | score: 4.00 ===\nalpha\n\n=== Result 2 | kb/b.md | score: 1.20 ===\nbeta"
    );
}

#[test]
fn tmux_answers() {
    assert_eq!(tmux::tab_target("s", "1"), "s:1");
    assert_eq!(tmux::pane_target("s", "1", "2"), "s:1.2");
    assert_eq!(tmux::void_answer(&tmux::RunOutcome::Success), "ok");
    assert_eq!(tmux::void_answer(&tmux::RunOutcome::Failed("exit status: 1".to_string())), "failed with status: exit status: 1");
    assert_eq!(tmux::void_answer(&tmux::RunOutcome::Error("e".to_string())), "execution error: e");
    assert_eq!(tmux::output_result(true, " out\n", "err"), Ok("out".to_string()));
    assert_eq!(tmux::output_result(false, "out", " err "), Err("err".to_string()));
    assert_eq!(tmux::sessions_answer(&Ok(String::new())), "(none)");
    assert_eq!(tmux::sessions_answer(&Ok("a\nb".to_string())), "a\nb");
    assert_eq!(tmux::sessions_answer(&Err("x".to_string())), "error: x");
    let rows = tmux::parse_pane_rows("0|main|0|bash\nbad\n1|w|2|vim|extra");
    assert_eq!(rows, vec![args(&["0", "main", "0", "bash"]), args(&["1", "w", "2", "vim", "extra"])]);
    let panes = vec![(rows[0].clone(), " $ ls ".to_string())];
    assert_eq!(
        tmux::state_report("dev", &panes),
        "Session: dev\n  [Tab Index: 0] (Title: main) > [Pane Index: 0] (Cmd: bash)\n    Last Line: \"$ ls\"\n"
    );
}

fn h(_: &String, _: &[String]) -> String {
    "h".to_string()
}

#[test]
fn registering_tools() {
    let mut f: Functions<Handler> = Functions::new();
    let mut m = Manual::new();
    text::register(&mut f, &mut m, h as Handler, h as Handler, h as Handler);
    web::register(&mut f, &mut m, h as Handler, h as Handler);
    knowledge_base::register(&mut f, &mut m, h as Handler);
    tmux::register(&mut f, &mut m, vec![h as Handler; 13]);
    assert_eq!(m.lookup("text"), text::MANUAL);
    assert_eq!(m.lookup("web"), web::MANUAL);
    assert_eq!(m.lookup("tmux"), tmux::MANUAL);
    assert_eq!(m.lookup("knowledge_base"), knowledge_base::MANUAL);
    for name in ["text::read", "web::search", "knowledge_base::search", "tmux::get_state"] {
        let r = f.exec(FunctionCall { name: name.to_string(), args: vec![] });
        assert_eq!(r.result, "h");
    }
}
