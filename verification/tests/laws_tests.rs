use bond::shell::{select_files, FileEntry};
use bond::taglang::{parse, Tag};
use bond::tools::{tmux, web};

fn mk_tag(name: &str, suffix: &str, value: &str, children: Vec<Tag>) -> Tag {
    Tag { name: name.to_string(), suffix: suffix.to_string(), value: value.to_string(), children }
}

#[test]
fn joined_documents_join_children() {
    let a = "<a>x</a> <raw K>1 < 2</raw K>";
    let b = "\n<b y>z</b y>";
    let ra = parse(a).unwrap();
    let rb = parse(b).unwrap();
    let joined = parse(&format!("{}{}", a, b)).unwrap();
    let mut children = ra.children.clone();
    children.extend(rb.children.clone());
    assert_eq!(joined, mk_tag("root", "", "", children));
    assert_eq!(joined.children.len(), 3);
}

#[test]
fn raw_tag_stops_at_first_marker() {
    let root = parse("<raw X>a <b> c</raw X><d>e</d>").unwrap();
    assert_eq!(root.children[0], mk_tag("raw", "X", "a <b> c", vec![]));
    assert_eq!(root.children[1], mk_tag("d", "", "e", vec![]));
    assert!(parse("<raw X>never closed").is_err());
}

/// Form decoding, as a server reads a form value.
fn form_decode(s: &str) -> Vec<u8> {
    let b = s.as_bytes();
    let mut out = Vec::new();
    let mut i = 0;
    while i < b.len() {
        if b[i] == b'%' && i + 2 < b.len() {
            let h = std::str::from_utf8(&b[i + 1..i + 3]).unwrap();
            out.push(u8::from_str_radix(h, 16).unwrap());
            i += 3;
        } else if b[i] == b'+' {
            out.push(b' ');
            i += 1;
        } else {
            out.push(b[i]);
            i += 1;
        }
    }
    out
}

#[test]
fn url_encoding_decodes_back() {
    assert_eq!(web::url_encode("a b&c~"), "a+b%26c~");
    assert_eq!(web::url_encode("é+"), "%C3%A9%2B");
    for s in ["a b&c~", "é+", "100% sure?", ""] {
        assert_eq!(form_decode(&web::url_encode(s)), s.as_bytes());
    }
}

fn file_at(name: &str, dir: &str) -> FileEntry {
    FileEntry { name: name.to_string(), path: format!("{}/{}", dir, name) }
}

#[test]
fn last_directory_wins() {
    let listings = vec![
        vec![file_at("config.toml", "/first"), file_at("prompt_a", "/first")],
        vec![file_at("prompt_b", "/second"), file_at("config.toml", "/second")],
    ];
    let files = select_files(&listings);
    let seen: Vec<&str> = files.iter().map(|f| f.path.as_str()).collect();
    assert_eq!(seen, vec!["/second/prompt_b", "/second/config.toml", "/first/prompt_a"]);
}

#[test]
fn new_tab_is_named_by_tab_index() {
    let x = parse("<session_name>dev</session_name><tab_index>backend</tab_index>").unwrap();
    assert_eq!(tmux::tab_name(&x), Some("backend"));
    let x = parse("<session_name>dev</session_name><title>t</title>").unwrap();
    assert_eq!(tmux::tab_name(&x), Some("t"));
    let x = parse("<session_name>dev</session_name>").unwrap();
    assert_eq!(tmux::tab_name(&x), None);
}
