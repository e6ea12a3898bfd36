use bond::cmdlang::Cmd;

#[test]
fn parse_plain_command() {
    let c = Cmd::parse("greet \"hello\" \"world\"").unwrap();
    assert_eq!(c.fname, "greet");
    assert_eq!(c.args, vec!["hello".to_string(), "world".to_string()]);
}

#[test]
fn parse_without_args() {
    let c = Cmd::parse("no_args").unwrap();
    assert_eq!(c.fname, "no_args");
    assert!(c.args.is_empty());
}

#[test]
fn parse_empty_and_spaced_args() {
    let c = Cmd::parse("f \"\" \"hello world\"").unwrap();
    assert_eq!(c.args, vec!["".to_string(), "hello world".to_string()]);
}

#[test]
fn parse_with_quote_directive() {
    let c = Cmd::parse("QUOTE=| f |a \"b\"| |c|").unwrap();
    assert_eq!(c.fname, "f");
    assert_eq!(c.args, vec!["a \"b\"".to_string(), "c".to_string()]);
    let c = Cmd::parse("QUOTE=### f ###x###").unwrap();
    assert_eq!(c.args, vec!["x".to_string()]);
}

#[test]
fn missing_function_name() {
    assert_eq!(Cmd::parse("").unwrap_err(), "expected function name");
}

#[test]
fn missing_quote_space() {
    assert_eq!(Cmd::parse("QUOTE=|f").unwrap_err(), "QUOTE= directive missing trailing space");
}

#[test]
fn expected_opening() {
    assert_eq!(Cmd::parse("f x").unwrap_err(), "char 2: expected opening \"\\\"\", got 'x'");
}

#[test]
fn unclosed_argument() {
    assert_eq!(Cmd::parse("f \"abc").unwrap_err(), "char 2: unclosed \"\\\"\"");
}

#[test]
fn positions_in_bytes() {
    assert_eq!(Cmd::parse("é x").unwrap_err(), "char 3: expected opening \"\\\"\", got 'x'");
}

#[test]
fn commands_read_forever() {
    assert!(Cmd::reads_forever("QUOTE= f x"));
    assert!(!Cmd::reads_forever("QUOTE= f"));
    assert!(!Cmd::reads_forever("QUOTE= f   "));
    assert!(!Cmd::reads_forever("f \"x\""));
}
