use bond::config::{gen_meta_prompt, startup_actions, Config, Provider};
use bond::agent::AgentAction;
use bond::shell::{file_stem_of, select_files, FileEntry, Function, Prompt, Shell};

fn entry(name: &str, dir: &str) -> FileEntry {
    FileEntry { name: name.to_string(), path: format!("{}/{}", dir, name) }
}

#[test]
fn file_stems() {
    assert_eq!(file_stem_of("prompt_x.md"), "prompt_x");
    assert_eq!(file_stem_of(".bashrc"), ".bashrc");
    assert_eq!(file_stem_of("a.b.c"), "a.b");
    assert_eq!(file_stem_of("noext"), "noext");
    assert_eq!(file_stem_of("x."), "x");
}

#[test]
fn later_directories_win() {
    let listings = vec![
        vec![entry("a", "/g"), entry("b", "/g")],
        vec![entry("b", "/l"), entry("c", "/l")],
    ];
    let files = select_files(&listings);
    let paths: Vec<&str> = files.iter().map(|f| f.path.as_str()).collect();
    assert_eq!(paths, vec!["/l/b", "/l/c", "/g/a"]);
}

#[test]
fn shell_path() {
    let mut s = Shell::new();
    assert!(s.get_path().is_empty());
    s.add_path("/a");
    s.add_path("/b");
    assert_eq!(s.get_path(), &["/a".to_string(), "/b".to_string()]);
    assert_eq!(s.joined_path(), "/a:/b");
    assert_eq!(s.copy().get_path().len(), 2);
}

#[test]
fn prompts_and_functions_from_files() {
    let s = Shell::new();
    let files = vec![entry("prompt_style.md", "/d"), entry("other.txt", "/d"), entry("function_tool.py", "/d")];
    let prompts = s.load_prompts(&files);
    assert_eq!(prompts.len(), 5);
    let names: Vec<&str> = prompts.iter().map(|p| p.name()).collect();
    assert_eq!(names, vec!["system", "function_call", "custom_functions", "soul", "style"]);
    assert_eq!(prompts[0].source(), "builtin");
    assert_eq!(prompts[4].source(), "/d/prompt_style.md");
    assert!(matches!(&prompts[1], Prompt::Builtin { value, .. } if value.contains("gateway")));
    let fs = s.load_functions(&files);
    assert_eq!(fs.len(), 2);
    assert_eq!(fs[0].name(), "SHELL");
    assert_eq!(fs[0].source(), "builtin");
    assert_eq!(fs[1].name(), "TOOL");
    assert_eq!(fs[1].source(), "/d/function_tool.py");
}

#[test]
fn call_arguments() {
    let mut s = Shell::new();
    s.add_path("/a");
    s.add_path("/b");
    let mut args = vec![String::new(); 16];
    args[3] = "run".to_string();
    args[4] = "ls".to_string();
    let b = Function::Builtin { name: "shell".to_string() };
    let out = b.call_args(&s, &args);
    assert_eq!(&out[0..5], &["builtin", "/a:/b", "SHELL", "RUN", "ls"]);
    let f = Function::File { path: "/b/function_t".to_string(), name: "t".to_string() };
    let out = f.call_args(&s, &args);
    assert_eq!(&out[0..4], &["/b/function_t", "/a:/b", "T", "RUN"]);
    let info = Function::info_args();
    assert_eq!(info.len(), 16);
    assert_eq!(info[3], "INFO");
    assert_eq!(info[0], "");
}

fn provider(name: &str, providers: Option<&str>) -> Provider {
    let mut p = Provider::default();
    p.name = name.to_string();
    if let Some(v) = providers {
        p.extra.push(("providers".to_string(), v.to_string()));
    }
    p
}

#[test]
fn provider_selection_and_order() {
    let mut c = Config::default();
    assert!(c.selected_provider().is_none());
    c.providers.push(provider("a", None));
    c.providers.push(provider("b", Some(" p1, p2,,p3 ,")));
    c.provider = "b".to_string();
    let p = c.selected_provider().unwrap();
    assert_eq!(p.name, "b");
    assert_eq!(p.order(), vec!["p1".to_string(), "p2".to_string(), "p3".to_string()]);
    assert!(c.providers[0].order().is_empty());
    assert_eq!(provider("x", Some("inceptron/fp8")).order(), vec!["inceptron/fp8".to_string()]);
}

#[test]
fn meta_prompt() {
    let prompts = vec![("system".to_string(), "builtin".to_string())];
    let functions = vec![("SHELL".to_string(), "builtin".to_string(), "Runs.".to_string())];
    assert_eq!(
        gen_meta_prompt(&prompts, &functions),
        "Bond paths:\n\nPrompts loaded:\n\nsystem: builtin\nNamespaces (functions):\n\nSHELL: builtin | Runs."
    );
    assert_eq!(
        gen_meta_prompt(&vec![], &vec![]),
        "Bond paths:\n\nPrompts loaded:\n\nNamespaces (functions):\n"
    );
}

#[test]
fn start_up() {
    let prompts = vec![("a".to_string(), "A".to_string())];
    let acts = startup_actions(&prompts, "META".to_string());
    assert_eq!(acts.len(), 3);
    assert!(matches!(&acts[0], AgentAction::SendSystemPrompt { channel, name, text } if channel == "template_main" && name == "a" && text == "A"));
    assert!(matches!(&acts[1], AgentAction::SendSystemPrompt { name, text, .. } if name == "meta" && text == "META"));
    assert!(matches!(&acts[2], AgentAction::SendNewChannel { channel, template } if channel == "main" && template == "template_main"));
}
