use bond::taglang::{parse, Tag};

fn tag(name: &str, suffix: &str, value: &str, children: Vec<Tag>) -> Tag {
    Tag { name: name.to_string(), suffix: suffix.to_string(), value: value.to_string(), children }
}

#[test]
fn parses_a_simple_tag() {
    let root = parse("<a>hi</a>").unwrap();
    assert_eq!(root, tag("root", "", "", vec![tag("a", "", "hi", vec![])]));
}

#[test]
fn keeps_root_text_and_suffix() {
    let root = parse("hello <b x>text</b x> world").unwrap();
    assert_eq!(root.value, "hello world");
    assert_eq!(root.children, vec![tag("b", "x", "text", vec![])]);
}

#[test]
fn whitespace_only_root_text_is_dropped() {
    let root = parse("  \n <a>1</a>\n\t ").unwrap();
    assert_eq!(root.value, "");
    assert_eq!(root.children.len(), 1);
}

#[test]
fn nested_tags_and_trimmed_value() {
    let root = parse("<a k>  v <b>w</b> z </a k>").unwrap();
    let a = &root.children[0];
    assert_eq!(a.suffix, "k");
    assert_eq!(a.value, "v  z");
    assert_eq!(a.children, vec![tag("b", "", "w", vec![])]);
}

#[test]
fn raw_tag_keeps_text_verbatim() {
    let root = parse("<raw EOF>a <b> c</raw EOF>").unwrap();
    assert_eq!(root.children, vec![tag("raw", "EOF", "a <b> c", vec![])]);
}

#[test]
fn close_tag_repeats_the_suffix() {
    assert_eq!(parse("<a k>v</a>"), Err("Unmatched <a k> tag".to_string()));
    assert_eq!(parse("<a k>v</a>x</a k>").unwrap().children[0].value, "v</a>x");
}

#[test]
fn mismatched_close_tag_is_text() {
    let root = parse("<a>x</b>y</a>").unwrap();
    assert_eq!(root.children[0].value, "x</b>y");
}

#[test]
fn unmatched_close_at_root() {
    assert_eq!(parse("</a>"), Err("Unmatched </a> tag".to_string()));
}

#[test]
fn unmatched_open_tag() {
    assert_eq!(parse("<a>text"), Err("Unmatched <a> tag".to_string()));
    assert_eq!(parse("<a s>text"), Err("Unmatched <a s> tag".to_string()));
}

#[test]
fn raw_needs_suffix() {
    assert_eq!(
        parse("<raw>x</raw>"),
        Err("<raw> tag requires a suffix (e.g. <raw EOF>) at position 5".to_string())
    );
}

#[test]
fn unmatched_raw_tag() {
    assert_eq!(parse("<raw EOF>abc"), Err("Unmatched <raw EOF> tag".to_string()));
}

#[test]
fn missing_greater_than() {
    assert_eq!(parse("<a"), Err("Expected '>' at position 2, found None".to_string()));
}

#[test]
fn missing_tag_name() {
    assert_eq!(parse("< a>"), Err("Expected tag name at position 1, found Some(' ')".to_string()));
}

#[test]
fn positions_count_bytes() {
    assert_eq!(parse("é<"), Err("Expected tag name at position 3, found None".to_string()));
}

#[test]
fn reading_children() {
    let root = parse("<x>1</x><y>2</y><x>3</x>").unwrap();
    assert_eq!(root.get("x").unwrap().value, "1");
    assert!(root.get("z").is_none());
    let xs: Vec<&str> = root.get_all("x").iter().map(|t| t.value.as_str()).collect();
    assert_eq!(xs, vec!["1", "3"]);
}

#[test]
fn text_falls_back_to_raw_child() {
    let root = parse("<a><raw E>  spaced  </raw E></a>").unwrap();
    assert_eq!(root.children[0].as_str(), "spaced");
    let root = parse("<a></a>").unwrap();
    assert_eq!(root.children[0].as_str(), "");
}

#[test]
fn booleans_and_integers() {
    let root = parse("<t>yes</t><f>no</f><n>-42</n><m>4x</m><p>+7</p>").unwrap();
    assert!(root.get("t").unwrap().as_bool());
    assert!(!root.get("f").unwrap().as_bool());
    assert_eq!(root.get("n").unwrap().as_i64(), Some(-42));
    assert_eq!(root.get("m").unwrap().as_i64(), None);
    assert_eq!(root.get("p").unwrap().as_i64(), Some(7));
}

#[test]
fn rendered_tags_parse_back() {
    let text = "<a k>v<b>w</b></a k><raw EOF>x</raw EOF>";
    let root = parse(text).unwrap();
    assert_eq!(
        root,
        tag(
            "root",
            "",
            "",
            vec![
                tag("a", "k", "v", vec![tag("b", "", "w", vec![])]),
                tag("raw", "EOF", "x", vec![]),
            ]
        )
    );
}

#[test]
fn cloned_tag_is_equal() {
    let root = parse("<a k>v<b>w</b></a k>").unwrap();
    assert_eq!(root.clone(), root);
}
