//! The `text` tool: reads and replaces numbered lines of text files.
use vstd::prelude::*;
use vstd::utf8::*;
use crate::cmdlang::strings_view;
use crate::config::{split_at_char, lemma_split_pieces};
use crate::strutil::{
    chars_of, decimal, digit_char, push_decimal, push_str, string_of, parse_usize, parse_usize_spec, str_eq,
};
use crate::taglang::{Tag, child_index, tag_text, tags_view, lemma_tags_view_index};

use crate::function::Functions;
use crate::tools::manual::Manual;
verus! {

pub const MANUAL: &'static str = r#"
# Text Module Manual

This is the ONLY authorized tool for reading, creating, and modifying text-based files (code, logs, configurations).
If an operation here fails, do NOT attempt to use other tools or find "clever" workarounds (like `sed` or `echo`). Report the error.

## Functions

- text::read(path: string, a: string, b: string) -> String
   - Reads an INCLUSIVE range of lines from `a` to `b` (0-based indexing).
   - `a` and `b` are clamped automatically: `a` is clamped to `[0, last_line]`, then `b` is clamped to `[a, last_line]`.
   - CONSTRAINT: `b - a` must be less than 500. If you need more, call this function multiple times (pagination).
   - Always returns a header line before any content:
     `# size: <bytes>, lines: <total>, modified: <unix_timestamp>`
   - Content lines are formatted as: `NNN|line_content` (zero-padded line number).
   - DEFAULT BEHAVIOUR: Always start with `a="0" b="499"` — this reads up to 500 lines and also gives you the header metadata (total line count, size, timestamp) in one call. Do NOT call with `a="0" b="0"` just to inspect metadata; that wastes a round-trip. Only use a narrow range when you have a specific reason (e.g. you already know the file is large and only need a particular section).
   - If the file has more than 500 lines, paginate using subsequent calls (see pagination example below).
   - If the file is empty, only the header is returned.

- text::write(path: string, a: string, b: string, text: string, create: string) -> String
   - Replaces the inclusive range `a..=b` with the provided `text`.
   - `text` can contain multiple lines separated by '\n'.
   - To delete a range of lines, provide an empty string for `text`.
   - `create` must be either "true" or "false":
     - "true"  — creates the file (and any missing parent directories) if it does not exist, then writes `text` as the initial content with `a` and `b` both "0". If the file already exists, behaves as a normal edit using the provided `a` and `b` range.
     - "false" — edits an existing file. Fails if the file does not exist.

- text::delete(path: string) -> String
   - DANGER: This is a destructive operation. ALWAYS ask the user for confirmation before calling this.
   - Completely removes the file from the filesystem.

## Rules
- Indices `a` and `b` must be valid unsigned integers and `a` must be <= `b`.
- `b - a` must be strictly less than 500. Split into multiple calls if you need a wider range.
- `a` and `b` are clamped to valid line indices - you will never get an "invalid range" error from out-of-bounds values, but you may get fewer lines than requested if you overshoot.
- Do NOT guess line numbers. Always use `text::read` to orient yourself before writing.

## Usage Examples

### Example 1: Opening any file (default — always do this first)
Always start with a full 500-line read. You get the header metadata AND the content in one call:
Call: `text::read("main.rs", "0", "499")`
Output:
# size: 4096, lines: 312, modified: 1718000000
000|use std::io;
001|
002|fn main() {
...

The header says 312 lines total — the entire file fits within one call, no pagination needed.

### Example 2: Reading a range of lines
Call: `text::read("main.rs", "10", "12")`
Output:
# size: 4096, lines: 312, modified: 1718000000
010|fn hello() {
011|    println!("world");
012|}

### Example 3: Reading a large file (Pagination)
If the header from your first call reports more than 500 lines (e.g. 1000):
1. Call: `text::read("large.log", "0", "498")`   ← b - a = 498, within limit
2. Call: `text::read("large.log", "499", "997")`
3. Call: `text::read("large.log", "998", "999")`

### Example 4: Creating a new file
Call: `text::write("src/util.rs", "0", "0", "pub fn add(a: i32, b: i32) -> i32 {\n    a + b\n}", "true")`
Result: File does not exist → created at `src/util.rs` with the given content. Any missing parent directories are created automatically.

### Example 5: Writing to a file, creating it if absent
Call: `text::write("logs/run.log", "0", "0", "started", "true")`
Result: If `logs/run.log` exists, line 0 is replaced with "started". If it does not exist, the file is created with "started" as its content.

### Example 6: Editing lines in an existing file
To replace lines 10-12 with a new version:
Call: `text::write("main.rs", "10", "12", "fn hello() {\n    println!(\"Rust\");\n}", "false")`
Result: Lines 10, 11, and 12 are replaced by the new 3-line block.

### Example 7: Deleting a range of lines
To remove line 5 entirely:
Call: `text::write("main.rs", "5", "5", "", "false")`
Result: Line 5 is removed. The file shrinks by one line.

### Example 8: Deleting a file
Call: `text::delete("src/old.rs")`
Result: The file is permanently removed. Always confirm with the user before calling this.
"#;

// ===================================================================
// Lines
// ===================================================================

/// A line without the `\r` of a `\r\n` ending.
pub open spec fn strip_cr(t: Seq<char>) -> Seq<char> {
    if t.len() > 0 && t.last() == '\r' {
        t.drop_last()
    } else {
        t
    }
}

pub open spec fn cr_stripped() -> spec_fn(Seq<char>) -> Seq<char> {
    |t: Seq<char>| strip_cr(t)
}

/// `str::lines`: the text cut at each `\n`, a `\r` before the `\n` dropped,
/// and no empty last line after a final `\n`.
pub open spec fn text_lines(s: Seq<char>) -> Seq<Seq<char>> {
    let sp = split_at_char(s, '\n');
    let body = sp.drop_last().map_values(cr_stripped());
    if sp.last().len() == 0 {
        body
    } else {
        body.push(sp.last())
    }
}

proof fn lemma_split_nonempty(s: Seq<char>, sep: char)
    ensures
        split_at_char(s, sep).len() >= 1,
    decreases s.len(),
{
    if s.len() > 0 {
        lemma_split_nonempty(s.drop_last(), sep);
    }
}

/// The lines of a text.
pub fn lines_of(s: &str) -> (r: Vec<String>)
    ensures
        strings_view(r@) == text_lines(s@),
{
    let c = chars_of(s);
    let mut out: Vec<String> = Vec::new();
    let mut cur: Vec<char> = Vec::new();
    let mut i: usize = 0;
    proof {
        assert(c@.take(0) =~= Seq::<char>::empty());
        assert(split_at_char(Seq::<char>::empty(), '\n').drop_last() =~= Seq::<Seq<char>>::empty());
        assert(strings_view(out@) =~= Seq::<Seq<char>>::empty());
        assert(Seq::<Seq<char>>::empty().map_values(cr_stripped()) =~= Seq::<Seq<char>>::empty());
    }
    while i < c.len()
        invariant
            c@ == s@,
            i <= c@.len(),
            ({
                let sp = split_at_char(c@.take(i as int), '\n');
                &&& sp.len() >= 1
                &&& cur@ == sp.last()
                &&& strings_view(out@) == sp.drop_last().map_values(cr_stripped())
            }),
        decreases c@.len() - i,
    {
        let ch = c[i];
        let ghost t0 = c@.take(i as int);
        let ghost sp0 = split_at_char(t0, '\n');
        proof {
            assert(c@.take(i + 1) =~= t0.push(ch));
            assert(c@.take(i + 1).drop_last() =~= t0);
            lemma_split_nonempty(t0, '\n');
        }
        if ch == '\n' {
            let ghost o = out@;
            let n = cur.len();
            let line = if n > 0 && cur[n - 1] == '\r' {
                let mut t: Vec<char> = Vec::new();
                crate::strutil::push_range(&mut t, cur.as_slice(), 0, n - 1);
                assert(t@ =~= cur@.drop_last());
                string_of(t.as_slice())
            } else {
                string_of(cur.as_slice())
            };
            out.push(line);
            proof {
                let sp1 = split_at_char(c@.take(i + 1), '\n');
                assert(sp1 == sp0.push(Seq::empty()));
                assert(sp1.drop_last() =~= sp0);
                assert(sp0 =~= sp0.drop_last().push(sp0.last()));
                assert(strings_view(out@) =~= strings_view(o).push(strip_cr(sp0.last())));
                assert(sp0.map_values(cr_stripped()) =~= sp0.drop_last().map_values(cr_stripped()).push(
                    strip_cr(sp0.last()),
                ));
            }
            cur = Vec::new();
            assert(cur@ =~= Seq::<char>::empty());
        } else {
            cur.push(ch);
            proof {
                let sp1 = split_at_char(c@.take(i + 1), '\n');
                assert(sp1 == sp0.update(sp0.len() - 1, sp0.last().push(ch)));
                assert(sp1.drop_last() =~= sp0.drop_last());
            }
        }
        i = i + 1;
    }
    proof {
        assert(c@.take(c@.len() as int) =~= c@);
    }
    if cur.len() > 0 {
        let ghost o = out@;
        let line = string_of(cur.as_slice());
        out.push(line);
        assert(strings_view(out@) =~= strings_view(o).push(line@));
    }
    out
}

/// The lines joined with `\n`.
pub open spec fn joined_lines(ls: Seq<Seq<char>>) -> Seq<char>
    decreases ls.len(),
{
    if ls.len() == 0 {
        Seq::empty()
    } else if ls.len() == 1 {
        ls[0]
    } else {
        joined_lines(ls.drop_last()) + "\n"@ + ls.last()
    }
}

/// The lines joined with `\n`.
fn join_lines(ls: &Vec<String>) -> (r: String)
    ensures
        r@ == joined_lines(strings_view(ls@)),
{
    let ghost v = strings_view(ls@);
    let mut out: Vec<char> = Vec::new();
    let mut i: usize = 0;
    while i < ls.len()
        invariant
            v == strings_view(ls@),
            i <= ls@.len(),
            out@ == joined_lines(v.take(i as int)),
        decreases ls@.len() - i,
    {
        proof {
            assert(v.take(i + 1).drop_last() =~= v.take(i as int));
        }
        if i > 0 {
            push_str(&mut out, "\n");
        }
        push_str(&mut out, ls[i].as_str());
        i = i + 1;
    }
    assert(v.take(v.len() as int) =~= v);
    string_of(out.as_slice())
}

// ===================================================================
// Arguments
// ===================================================================

/// The text of the first child named `name`, when there is one.
pub open spec fn arg_text(x: Tag, name: Seq<char>) -> Option<Seq<char>> {
    match child_index(tags_view(x.children@), name, 0) {
        Some(i) => Some(tag_text(tags_view(x.children@)[i])),
        None => None,
    }
}

/// The text of the child named `name`, which is there.
fn arg(x: &Tag, name: &str) -> (r: String)
    requires
        arg_text(*x, name@) is Some,
    ensures
        Some(r@) == arg_text(*x, name@),
{
    proof {
        lemma_tags_view_index(x.children@);
        crate::taglang::lemma_child_index(tags_view(x.children@), name@, 0);
    }
    match x.get(name) {
        Some(t) => t.as_str().to_owned(),
        None => String::new(),
    }
}

/// A line number argument, or `None` when it is not one.
fn index_arg(x: &Tag, name: &str) -> (r: Option<usize>)
    requires
        arg_text(*x, name@) is Some,
    ensures
        r == parse_usize_spec(arg_text(*x, name@)->Some_0),
{
    let t = arg(x, name);
    let c = chars_of(t.as_str());
    parse_usize(c.as_slice())
}

/// Whether reading the arguments of `read` panics nowhere: there is a
/// `path` and an `a`, and a `b` when `a` is a number.
pub open spec fn read_args_present(x: Tag) -> bool {
    &&& arg_text(x, "path"@) is Some
    &&& arg_text(x, "a"@) is Some
    &&& parse_usize_spec(arg_text(x, "a"@)->Some_0) is Some ==> arg_text(x, "b"@) is Some
}

/// The path and range a `read` call asks for, or its error.
pub open spec fn read_args(x: Tag) -> Result<(Seq<char>, usize, usize), Seq<char>> {
    match parse_usize_spec(arg_text(x, "a"@)->Some_0) {
        None => Err("invalid fcall"@),
        Some(a) => match parse_usize_spec(arg_text(x, "b"@)->Some_0) {
            None => Err("invalid fcall"@),
            Some(b) => if a > b {
                Err("invalid range: a must be <= b"@)
            } else {
                Ok((arg_text(x, "path"@)->Some_0, a, b))
            },
        },
    }
}

/// Reads the arguments of a `read` call.
pub fn read_request(x: &Tag) -> (r: Result<(String, usize, usize), String>)
    requires
        read_args_present(*x),
    ensures
        match read_args(*x) {
            Ok((p, a, b)) => r matches Ok((rp, ra, rb)) && rp@ == p && ra == a && rb == b,
            Err(e) => r matches Err(re) && re@ == e,
        },
{
    proof {
        reveal_strlit("path");
        reveal_strlit("a");
        reveal_strlit("b");
    }
    let path = arg(x, "path");
    let a = match index_arg(x, "a") {
        Some(n) => n,
        None => return Err("invalid fcall".to_owned()),
    };
    let b = match index_arg(x, "b") {
        Some(n) => n,
        None => return Err("invalid fcall".to_owned()),
    };
    if a > b {
        return Err("invalid range: a must be <= b".to_owned());
    }
    Ok((path, a, b))
}

// ===================================================================
// Reading
// ===================================================================

/// `n` in decimal, zero-padded on the left to `width` digits.
pub open spec fn padded(n: nat, width: nat) -> Seq<char> {
    if decimal(n).len() < width {
        Seq::new((width - decimal(n).len()) as nat, |i: int| '0') + decimal(n)
    } else {
        decimal(n)
    }
}

/// The numbered lines from `a` to `b`, each after a line break.
pub open spec fn numbered(ls: Seq<Seq<char>>, a: int, b: int, width: nat) -> Seq<char>
    decreases b - a + 1,
{
    if b < a {
        Seq::empty()
    } else {
        numbered(ls, a, b - 1, width) + "\n"@ + padded(b as nat, width) + "|"@ + ls[b]
    }
}

/// The header of a read: size in bytes, number of lines, time modified.
pub open spec fn read_header(size: u64, total: nat, modified: u64) -> Seq<char> {
    "# size: "@ + decimal(size as nat) + ", lines: "@ + decimal(total) + ", modified: "@ + decimal(
        modified as nat,
    )
}

/// The answer of a read of lines `a..=b` of a file: the header, then the
/// lines clamped to the file, each numbered with at least three digits; at
/// most five hundred lines.
pub open spec fn read_answer(contents: Seq<char>, size: u64, modified: u64, a: int, b: int) -> Seq<char> {
    let ls = text_lines(contents);
    let header = read_header(size, ls.len(), modified);
    if ls.len() == 0 {
        header
    } else {
        let last = ls.len() - 1;
        let a2 = if a < last {
            a
        } else {
            last
        };
        let b1 = if b < last {
            b
        } else {
            last
        };
        let b2 = if b1 > a2 {
            b1
        } else {
            a2
        };
        if b2 - a2 >= 500 {
            "range too large: b - a must be < 500"@
        } else {
            let width: nat = if decimal(b2 as nat).len() > 3 {
                decimal(b2 as nat).len()
            } else {
                3
            };
            header + numbered(ls, a2, b2, width)
        }
    }
}

/// Pushes `n` zero-padded to `width` digits.
fn push_padded(out: &mut Vec<char>, n: usize, width: usize)
    ensures
        final(out)@ == old(out)@ + padded(n as nat, width as nat),
{
    let mut d: Vec<char> = Vec::new();
    push_decimal(&mut d, n as u128);
    assert(d@ == decimal(n as nat));
    if d.len() < width {
        let mut k: usize = 0;
        let ghost start = out@;
        while k < width - d.len()
            invariant
                k <= width - d@.len(),
                d@ == decimal(n as nat),
                d@.len() < width,
                out@ == start + Seq::new(k as nat, |i: int| '0'),
            decreases width - d@.len() - k,
        {
            out.push('0');
            k = k + 1;
            assert(out@ =~= start + Seq::new(k as nat, |i: int| '0'));
        }
        let ghost mid = out@;
        crate::strutil::push_all(out, d.as_slice());
        assert(out@ =~= start + (Seq::new((width - d@.len()) as nat, |i: int| '0') + decimal(n as nat)));
    } else {
        crate::strutil::push_all(out, d.as_slice());
    }
}

/// The answer of a read of lines `a..=b` of a file whose text, size and
/// time modified the caller read.
pub fn read_report(contents: &str, size: u64, modified: u64, a: usize, b: usize) -> (r: String)
    ensures
        r@ == read_answer(contents@, size, modified, a as int, b as int),
{
    let lines = lines_of(contents);
    let ghost ls = strings_view(lines@);
    let total = lines.len();
    let mut out: Vec<char> = Vec::new();
    push_str(&mut out, "# size: ");
    push_decimal(&mut out, size as u128);
    push_str(&mut out, ", lines: ");
    push_decimal(&mut out, total as u128);
    push_str(&mut out, ", modified: ");
    push_decimal(&mut out, modified as u128);
    assert(out@ =~= read_header(size, ls.len(), modified));
    if total == 0 {
        return string_of(out.as_slice());
    }
    let last = total - 1;
    let a2 = if a < last {
        a
    } else {
        last
    };
    let b1 = if b < last {
        b
    } else {
        last
    };
    let b2 = if b1 > a2 {
        b1
    } else {
        a2
    };
    if b2 - a2 >= 500 {
        return "range too large: b - a must be < 500".to_owned();
    }
    let mut bd: Vec<char> = Vec::new();
    push_decimal(&mut bd, b2 as u128);
    let width: usize = if bd.len() > 3 {
        bd.len()
    } else {
        3
    };
    let ghost head = out@;
    let mut idx: usize = a2;
    while idx <= b2
        invariant
            a2 <= idx <= b2 + 1,
            b2 < total,
            total == lines@.len(),
            ls == strings_view(lines@),
            out@ == head + numbered(ls, a2 as int, idx - 1, width as nat),
        decreases b2 + 1 - idx,
    {
        push_str(&mut out, "\n");
        push_padded(&mut out, idx, width);
        push_str(&mut out, "|");
        push_str(&mut out, lines[idx].as_str());
        proof {
            assert(out@ =~= head + numbered(ls, a2 as int, idx as int, width as nat));
        }
        idx = idx + 1;
    }
    string_of(out.as_slice())
}

// ===================================================================
// Writing
// ===================================================================

/// What a `write` call asks for.
#[derive(Debug)]
pub struct WriteRequest {
    pub path: String,
    pub a: usize,
    pub b: usize,
    pub text: String,
    pub create: bool,
}

/// Whether reading the arguments of `write` panics nowhere.
pub open spec fn write_args_present(x: Tag) -> bool {
    &&& arg_text(x, "path"@) is Some
    &&& arg_text(x, "a"@) is Some
    &&& parse_usize_spec(arg_text(x, "a"@)->Some_0) is Some ==> {
        &&& arg_text(x, "b"@) is Some
        &&& parse_usize_spec(arg_text(x, "b"@)->Some_0) is Some ==> arg_text(x, "text"@) is Some
            && arg_text(x, "create"@) is Some
    }
}

/// The request of a `write` call, or its error.
pub open spec fn write_args(x: Tag) -> Result<WriteView, Seq<char>> {
    match parse_usize_spec(arg_text(x, "a"@)->Some_0) {
        None => Err("invalid fcall"@),
        Some(a) => match parse_usize_spec(arg_text(x, "b"@)->Some_0) {
            None => Err("invalid fcall"@),
            Some(b) => {
                let create = arg_text(x, "create"@)->Some_0;
                if a > b {
                    Err("invalid range: a must be <= b"@)
                } else if create != "true"@ && create != "false"@ {
                    Err("invalid fcall: create must be \"true\" or \"false\""@)
                } else {
                    Ok(
                        WriteView {
                            path: arg_text(x, "path"@)->Some_0,
                            a,
                            b,
                            text: arg_text(x, "text"@)->Some_0,
                            create: create == "true"@,
                        },
                    )
                }
            },
        },
    }
}

/// The mathematical value of a `WriteRequest`.
pub struct WriteView {
    pub path: Seq<char>,
    pub a: usize,
    pub b: usize,
    pub text: Seq<char>,
    pub create: bool,
}

/// Reads the arguments of a `write` call.
pub fn write_request(x: &Tag) -> (r: Result<WriteRequest, String>)
    requires
        write_args_present(*x),
    ensures
        match write_args(*x) {
            Ok(w) => r matches Ok(q) && q.path@ == w.path && q.a == w.a && q.b == w.b && q.text@
                == w.text && q.create == w.create,
            Err(e) => r matches Err(re) && re@ == e,
        },
{
    proof {
        reveal_strlit("path");
        reveal_strlit("a");
        reveal_strlit("b");
        reveal_strlit("text");
        reveal_strlit("create");
    }
    let path = arg(x, "path");
    let a = match index_arg(x, "a") {
        Some(n) => n,
        None => return Err("invalid fcall".to_owned()),
    };
    let b = match index_arg(x, "b") {
        Some(n) => n,
        None => return Err("invalid fcall".to_owned()),
    };
    let text = arg(x, "text");
    let create = arg(x, "create");
    if a > b {
        return Err("invalid range: a must be <= b".to_owned());
    }
    let is_true = str_eq(create.as_str(), "true");
    let is_false = str_eq(create.as_str(), "false");
    if !is_true && !is_false {
        return Err("invalid fcall: create must be \"true\" or \"false\"".to_owned());
    }
    Ok(WriteRequest { path, a, b, text, create: is_true })
}

/// The first line a write replaces in a file of `n > 0` lines: `a`,
/// clamped to the last line.
pub open spec fn clamp_start(a: int, n: int) -> int {
    if a < n - 1 {
        a
    } else {
        n - 1
    }
}

/// The last line a write replaces in a file of `n > 0` lines: `b`,
/// clamped to the last line, and to no less than the first line replaced.
pub open spec fn clamp_end(a: int, b: int, n: int) -> int {
    let c = if b < n - 1 {
        b
    } else {
        n - 1
    };
    if c < clamp_start(a, n) {
        clamp_start(a, n)
    } else {
        c
    }
}

/// The lines of the text that a write puts in: none for the empty text.
pub open spec fn new_lines_of(text: Seq<char>) -> Seq<Seq<char>> {
    if text.len() == 0 {
        Seq::empty()
    } else {
        split_at_char(text, '\n')
    }
}

/// The lines a write leaves in a file, before they are joined: in an
/// empty file, the lines of the text; else the lines before `a`, the lines
/// of the text, and the lines after `b`, with `a` and `b` clamped to the
/// lines of the file.
pub open spec fn write_lines(existing: Seq<char>, a: int, b: int, text: Seq<char>) -> Seq<Seq<char>> {
    let ls = text_lines(existing);
    if ls.len() == 0 {
        new_lines_of(text)
    } else {
        ls.take(clamp_start(a, ls.len() as int)) + new_lines_of(text) + ls.skip(
            clamp_end(a, b, ls.len() as int) + 1,
        )
    }
}

/// The new text of a file whose lines `a..=b` (clamped) are replaced by
/// `text`.
pub open spec fn written(existing: Seq<char>, a: int, b: int, text: Seq<char>) -> Seq<char> {
    joined_lines(write_lines(existing, a, b, text))
}

/// The pieces of a text cut at `\n`.
fn split_lines(s: &str) -> (r: Vec<String>)
    ensures
        strings_view(r@) == split_at_char(s@, '\n'),
{
    let c = chars_of(s);
    let mut out: Vec<String> = Vec::new();
    let mut cur: Vec<char> = Vec::new();
    let mut i: usize = 0;
    proof {
        assert(c@.take(0) =~= Seq::<char>::empty());
        assert(strings_view(out@) =~= Seq::<Seq<char>>::empty());
    }
    while i < c.len()
        invariant
            c@ == s@,
            i <= c@.len(),
            ({
                let sp = split_at_char(c@.take(i as int), '\n');
                &&& sp.len() >= 1
                &&& cur@ == sp.last()
                &&& strings_view(out@) == sp.drop_last()
            }),
        decreases c@.len() - i,
    {
        let ch = c[i];
        let ghost t0 = c@.take(i as int);
        let ghost sp0 = split_at_char(t0, '\n');
        proof {
            assert(c@.take(i + 1) =~= t0.push(ch));
            assert(c@.take(i + 1).drop_last() =~= t0);
            lemma_split_nonempty(t0, '\n');
        }
        if ch == '\n' {
            let ghost o = out@;
            let line = string_of(cur.as_slice());
            out.push(line);
            proof {
                let sp1 = split_at_char(c@.take(i + 1), '\n');
                assert(sp1 == sp0.push(Seq::empty()));
                assert(sp1.drop_last() =~= sp0);
                assert(strings_view(out@) =~= strings_view(o).push(sp0.last()));
                assert(sp0 =~= sp0.drop_last().push(sp0.last()));
            }
            cur = Vec::new();
            assert(cur@ =~= Seq::<char>::empty());
        } else {
            cur.push(ch);
            proof {
                let sp1 = split_at_char(c@.take(i + 1), '\n');
                assert(sp1 == sp0.update(sp0.len() - 1, sp0.last().push(ch)));
                assert(sp1.drop_last() =~= sp0.drop_last());
            }
        }
        i = i + 1;
    }
    proof {
        assert(c@.take(c@.len() as int) =~= c@);
        lemma_split_nonempty(c@, '\n');
    }
    let ghost o = out@;
    let line = string_of(cur.as_slice());
    out.push(line);
    proof {
        let sp = split_at_char(c@, '\n');
        assert(strings_view(out@) =~= strings_view(o).push(line@));
        assert(sp =~= sp.drop_last().push(sp.last()));
    }
    out
}

/// Appends copies of `src[lo..hi]`.
fn push_lines(dst: &mut Vec<String>, src: &Vec<String>, lo: usize, hi: usize)
    requires
        lo <= hi <= src@.len(),
    ensures
        strings_view(final(dst)@) == strings_view(old(dst)@) + strings_view(src@).subrange(
            lo as int,
            hi as int,
        ),
{
    let mut k: usize = lo;
    while k < hi
        invariant
            lo <= k <= hi,
            hi <= src@.len(),
            strings_view(dst@) == strings_view(old(dst)@) + strings_view(src@).subrange(
                lo as int,
                k as int,
            ),
        decreases hi - k,
    {
        let s = src[k].clone();
        let ghost d = dst@;
        dst.push(s);
        proof {
            assert(strings_view(dst@) =~= strings_view(d).push(s@));
            assert(strings_view(src@).subrange(lo as int, k + 1) =~= strings_view(src@).subrange(
                lo as int,
                k as int,
            ).push(src@[k as int]@));
        }
        k = k + 1;
    }
}

/// The new text of a file whose text the caller read, lines `a..=b`
/// replaced by `text`; `a` and `b` are clamped to the lines of the file.
pub fn write_plan(existing: &str, a: usize, b: usize, text: &str) -> (r: String)
    ensures
        r@ == written(existing@, a as int, b as int, text@),
{
    let lines = lines_of(existing);
    let n = lines.len();
    let ghost ls = strings_view(lines@);
    let mut new_lines: Vec<String> = Vec::new();
    if !text.is_empty() {
        new_lines = split_lines(text);
    } else {
        assert(strings_view(new_lines@) =~= Seq::<Seq<char>>::empty());
    }
    let nn = new_lines.len();
    assert(strings_view(new_lines@).subrange(0, nn as int) =~= strings_view(new_lines@));
    let mut out: Vec<String> = Vec::new();
    if n == 0 {
        assert(strings_view(out@) =~= Seq::<Seq<char>>::empty());
        push_lines(&mut out, &new_lines, 0, nn);
        assert(strings_view(out@) =~= new_lines_of(text@));
    } else {
        let last = n - 1;
        let ca = if a < last {
            a
        } else {
            last
        };
        let cb0 = if b < last {
            b
        } else {
            last
        };
        let cb = if cb0 < ca {
            ca
        } else {
            cb0
        };
        assert(ca == clamp_start(a as int, n as int));
        assert(cb == clamp_end(a as int, b as int, n as int));
        push_lines(&mut out, &lines, 0, ca);
        assert(strings_view(out@) =~= ls.take(ca as int));
        push_lines(&mut out, &new_lines, 0, nn);
        push_lines(&mut out, &lines, cb + 1, n);
        assert(ls.subrange(cb + 1, n as int) =~= ls.skip(cb + 1));
    }
    join_lines(&out)
}

/// The answer of a write: the number of bytes written.
pub fn write_report(content: &str) -> (r: String)
    ensures
        r@ == "wrote "@ + decimal(encode_utf8(content@).len()) + " bytes"@,
{
    let c = chars_of(content);
    let n = crate::strutil::byte_offset(c.as_slice(), c.len());
    assert(c@.subrange(0, c@.len() as int) =~= content@);
    let mut out: Vec<char> = Vec::new();
    push_str(&mut out, "wrote ");
    push_decimal(&mut out, n);
    push_str(&mut out, " bytes");
    string_of(out.as_slice())
}

// ===================================================================
// Laws
// ===================================================================

/// Lines that read back as themselves once joined: none holds a line
/// break, none but the last ends in `\r`, and the last is not empty.
pub open spec fn lines_read_back(ls: Seq<Seq<char>>) -> bool {
    &&& forall|i: int, j: int| 0 <= i < ls.len() && 0 <= j < ls[i].len() ==> ls[i][j] != '\n'
    &&& forall|i: int| 0 <= i < ls.len() - 1 ==> !(ls[i].len() > 0 && ls[i].last() == '\r')
    &&& ls.len() > 0 ==> ls.last().len() > 0
}

proof fn lemma_split_no_sep(s: Seq<char>, sep: char)
    requires
        forall|j: int| 0 <= j < s.len() ==> s[j] != sep,
    ensures
        split_at_char(s, sep) == seq![s],
    decreases s.len(),
{
    if s.len() > 0 {
        lemma_split_no_sep(s.drop_last(), sep);
        assert(s.drop_last().push(s.last()) =~= s);
    } else {
        assert(s =~= Seq::<char>::empty());
    }
}

proof fn lemma_split_concat(s: Seq<char>, t: Seq<char>, sep: char)
    ensures
        split_at_char(s + seq![sep] + t, sep) == split_at_char(s, sep) + split_at_char(t, sep),
    decreases t.len(),
{
    lemma_split_nonempty(t, sep);
    if t.len() == 0 {
        assert((s + seq![sep] + t).drop_last() =~= s);
        assert(split_at_char(s, sep) + seq![Seq::<char>::empty()] =~= split_at_char(s, sep).push(
            Seq::empty(),
        ));
    } else {
        let u = s + seq![sep] + t;
        let t1 = t.drop_last();
        assert(u.drop_last() =~= s + seq![sep] + t1);
        lemma_split_concat(s, t1, sep);
        lemma_split_nonempty(t1, sep);
        let a = split_at_char(s, sep);
        let b1 = split_at_char(t1, sep);
        if t.last() == sep {
            assert((a + b1).push(Seq::empty()) =~= a + b1.push(Seq::empty()));
        } else {
            assert((a + b1).update((a + b1).len() - 1, (a + b1).last().push(t.last())) =~= a
                + b1.update(b1.len() - 1, b1.last().push(t.last())));
        }
    }
}

proof fn lemma_split_joined(ls: Seq<Seq<char>>)
    requires
        ls.len() > 0,
        forall|i: int, j: int| 0 <= i < ls.len() && 0 <= j < ls[i].len() ==> ls[i][j] != '\n',
    ensures
        split_at_char(joined_lines(ls), '\n') == ls,
    decreases ls.len(),
{
    if ls.len() == 1 {
        lemma_split_no_sep(ls[0], '\n');
        assert(seq![ls[0]] =~= ls);
    } else {
        let init = ls.drop_last();
        lemma_split_joined(init);
        lemma_split_no_sep(ls.last(), '\n');
        assert("\n"@ =~= seq!['\n']) by {
            reveal_strlit("\n");
        }
        lemma_split_concat(joined_lines(init), ls.last(), '\n');
        assert(init + seq![ls.last()] =~= ls);
    }
}

/// Lines without breaks, of which none but the last ends in `\r` and the
/// last is not empty, are the lines of their join.
pub proof fn law_lines_of_joined(ls: Seq<Seq<char>>)
    requires
        lines_read_back(ls),
    ensures
        text_lines(joined_lines(ls)) == ls,
{
    if ls.len() == 0 {
        assert(split_at_char(Seq::<char>::empty(), '\n').drop_last() =~= Seq::<Seq<char>>::empty());
        assert(Seq::<Seq<char>>::empty().map_values(cr_stripped()) =~= ls);
    } else {
        lemma_split_joined(ls);
        let sp = split_at_char(joined_lines(ls), '\n');
        assert(sp.drop_last().map_values(cr_stripped()) =~= ls.drop_last());
        assert(ls.drop_last().push(ls.last()) =~= ls);
    }
}

/// What a read gives back of a write: after lines `a..=b` of a file are
/// replaced by a text, the file's lines are the lines before `a`, the
/// lines of the text, and the lines after `b`, whenever those read back
/// as themselves.
pub proof fn law_read_after_write(existing: Seq<char>, a: int, b: int, text: Seq<char>)
    requires
        lines_read_back(write_lines(existing, a, b, text)),
    ensures
        text_lines(written(existing, a, b, text)) == write_lines(existing, a, b, text),
{
    law_lines_of_joined(write_lines(existing, a, b, text));
}

/// A write never refuses a range: indices past the end are clamped to the
/// last line, so a write at `a..=b` is the write at the clamped indices.
pub proof fn law_write_clamps(existing: Seq<char>, a: int, b: int, text: Seq<char>)
    requires
        text_lines(existing).len() > 0,
        0 <= a <= b,
    ensures
        ({
            let n = text_lines(existing).len() as int;
            let ca = clamp_start(a, n);
            let cb = clamp_end(a, b, n);
            &&& 0 <= ca <= cb < n
            &&& (a < n ==> ca == a)
            &&& (b < n ==> cb == b)
            &&& written(existing, a, b, text) == written(existing, ca, cb, text)
        }),
{
}

/// Replacing lines with the empty text removes them: the file keeps the
/// lines before `a` and after `b`.
pub proof fn law_write_empty_removes(existing: Seq<char>, a: int, b: int)
    requires
        text_lines(existing).len() > 0,
        0 <= a <= b < text_lines(existing).len(),
    ensures
        write_lines(existing, a, b, Seq::empty()) == text_lines(existing).take(a) + text_lines(
            existing,
        ).skip(b + 1),
        write_lines(existing, a, b, Seq::empty()).len() == text_lines(existing).len() - (b - a + 1),
{
    let ls = text_lines(existing);
    assert(ls.take(a) + Seq::<Seq<char>>::empty() + ls.skip(b + 1) =~= ls.take(a) + ls.skip(b + 1));
}

/// A read answers with the header before any line, or says that the range
/// is too large; an empty file is answered with the header alone.
pub proof fn law_read_header_first(contents: Seq<char>, size: u64, modified: u64, a: int, b: int)
    ensures
        ({
            let r = read_answer(contents, size, modified, a, b);
            let h = read_header(size, text_lines(contents).len(), modified);
            r == "range too large: b - a must be < 500"@ || (r.len() >= h.len() && r.subrange(
                0,
                h.len() as int,
            ) == h)
        }),
        text_lines(contents).len() == 0 ==> read_answer(contents, size, modified, a, b)
            == read_header(size, 0, modified),
{
    let r = read_answer(contents, size, modified, a, b);
    let h = read_header(size, text_lines(contents).len(), modified);
    if r != "range too large: b - a must be < 500"@ {
        assert(r.subrange(0, h.len() as int) =~= h);
    }
}

proof fn lemma_decimal_digits(n: nat)
    ensures
        forall|i: int| 0 <= i < decimal(n).len() ==> '0' <= #[trigger] decimal(n)[i] <= '9',
    decreases n,
{
    if n >= 10 {
        lemma_decimal_digits(n / 10);
        assert(decimal(n) == decimal(n / 10).push(digit_char(n % 10)));
    }
}

proof fn lemma_padded_digits(n: nat, w: nat)
    ensures
        forall|i: int| 0 <= i < padded(n, w).len() ==> '0' <= #[trigger] padded(n, w)[i] <= '9',
{
    lemma_decimal_digits(n);
    if decimal(n).len() < w {
        let z = Seq::new((w - decimal(n).len()) as nat, |i: int| '0');
        assert forall|i: int| 0 <= i < padded(n, w).len() implies '0' <= #[trigger] padded(n, w)[i]
            <= '9' by {
            if i < z.len() {
                assert(padded(n, w)[i] == z[i]);
            } else {
                assert(padded(n, w)[i] == decimal(n)[i - z.len()]);
            }
        }
    }
}

/// The lines of a text hold no line break.
proof fn lemma_lines_no_break(s: Seq<char>)
    ensures
        forall|k: int, j: int|
            0 <= k < text_lines(s).len() && 0 <= j < text_lines(s)[k].len() ==> #[trigger] text_lines(
                s,
            )[k][j] != '\n',
{
    let sp = split_at_char(s, '\n');
    lemma_split_pieces(s, '\n');
    lemma_split_nonempty(s, '\n');
    assert forall|k: int, j: int|
        0 <= k < text_lines(s).len() && 0 <= j < text_lines(s)[k].len() implies #[trigger] text_lines(
            s,
        )[k][j] != '\n' by {
        if k < sp.len() - 1 {
            let p = sp[k];
            assert(text_lines(s)[k] == strip_cr(p));
            assert(strip_cr(p)[j] == p[j]);
        } else {
            assert(text_lines(s)[k] == sp.last());
            assert(sp.last() == sp[sp.len() - 1]);
        }
    }
}

/// One numbered line of a read: the index padded to `w` digits, `|`, and
/// the line.
pub open spec fn numbered_line(ls: Seq<Seq<char>>, i: int, w: nat) -> Seq<char> {
    padded(i as nat, w) + "|"@ + ls[i]
}

proof fn lemma_numbered_split(h: Seq<char>, ls: Seq<Seq<char>>, a: int, b: int, w: nat)
    requires
        0 <= a <= b + 1,
        b < ls.len(),
        forall|j: int| 0 <= j < h.len() ==> h[j] != '\n',
        forall|k: int, j: int| 0 <= k < ls.len() && 0 <= j < ls[k].len() ==> #[trigger] ls[k][j] != '\n',
    ensures
        split_at_char(h + numbered(ls, a, b, w), '\n') == seq![h] + Seq::new(
            (b - a + 1) as nat,
            |k: int| numbered_line(ls, a + k, w),
        ),
    decreases b - a + 1,
{
    reveal_strlit("\n");
    reveal_strlit("|");
    if b < a {
        assert(h + numbered(ls, a, b, w) =~= h);
        lemma_split_no_sep(h, '\n');
        assert(seq![h] + Seq::new(0, |k: int| numbered_line(ls, a + k, w)) =~= seq![h]);
    } else {
        lemma_numbered_split(h, ls, a, b - 1, w);
        let e = numbered_line(ls, b, w);
        lemma_padded_digits(b as nat, w);
        assert forall|j: int| 0 <= j < e.len() implies e[j] != '\n' by {
            let pd = padded(b as nat, w);
            if j < pd.len() {
                assert(e[j] == pd[j]);
            } else if j == pd.len() {
                assert(e[j] == '|');
            } else {
                assert(e[j] == ls[b][j - pd.len() - 1]);
            }
        }
        lemma_split_no_sep(e, '\n');
        let s0 = h + numbered(ls, a, b - 1, w);
        assert(h + numbered(ls, a, b, w) =~= s0 + seq!['\n'] + e);
        lemma_split_concat(s0, e, '\n');
        assert(seq![h] + Seq::new((b - 1 - a + 1) as nat, |k: int| numbered_line(ls, a + k, w))
            + seq![e] =~= seq![h] + Seq::new((b - a + 1) as nat, |k: int| numbered_line(ls, a + k, w)));
    }
}

/// What a read gives: the header line, then exactly the lines `a2..=b2` of
/// the file, one per line, each after its index padded to at least three
/// digits, where `a2` is `a` clamped to the last line and `b2` is `b`
/// clamped to the last line and to no less than `a2`; or, for more than
/// 500 lines, the refusal.
pub proof fn law_read_lines(contents: Seq<char>, size: u64, modified: u64, a: int, b: int)
    requires
        text_lines(contents).len() > 0,
        0 <= a,
        0 <= b,
    ensures
        ({
            let ls = text_lines(contents);
            let last = ls.len() - 1;
            let a2 = if a < last {
                a
            } else {
                last
            };
            let b2 = if b < a2 {
                a2
            } else if b < last {
                b
            } else {
                last
            };
            let w: nat = if decimal(b2 as nat).len() > 3 {
                decimal(b2 as nat).len()
            } else {
                3
            };
            let r = read_answer(contents, size, modified, a, b);
            &&& 0 <= a2 <= b2 <= last
            &&& b2 - a2 >= 500 ==> r == "range too large: b - a must be < 500"@
            &&& b2 - a2 < 500 ==> {
                let pieces = split_at_char(r, '\n');
                &&& pieces.len() == b2 - a2 + 2
                &&& pieces[0] == read_header(size, ls.len(), modified)
                &&& forall|k: int|
                    0 <= k <= b2 - a2 ==> #[trigger] pieces[k + 1] == padded((a2 + k) as nat, w)
                        + "|"@ + ls[a2 + k]
            }
        }),
{
    let ls = text_lines(contents);
    let last = ls.len() - 1;
    let a2 = if a < last {
        a
    } else {
        last
    };
    let b2 = if b < a2 {
        a2
    } else if b < last {
        b
    } else {
        last
    };
    let w: nat = if decimal(b2 as nat).len() > 3 {
        decimal(b2 as nat).len()
    } else {
        3
    };
    let h = read_header(size, ls.len(), modified);
    if b2 - a2 < 500 {
        lemma_lines_no_break(contents);
        lemma_decimal_digits(size as nat);
        lemma_decimal_digits(ls.len());
        lemma_decimal_digits(modified as nat);
        reveal_strlit("# size: ");
        reveal_strlit(", lines: ");
        reveal_strlit(", modified: ");
        assert forall|j: int| 0 <= j < h.len() implies h[j] != '\n' by {
            let d1 = decimal(size as nat);
            let d2 = decimal(ls.len());
            let d3 = decimal(modified as nat);
            let l0 = "# size: "@.len();
            let l1 = l0 + d1.len();
            let l2 = l1 + ", lines: "@.len();
            let l3 = l2 + d2.len();
            let l4 = l3 + ", modified: "@.len();
            if j < l0 {
                assert(h[j] == "# size: "@[j]);
            } else if j < l1 {
                assert(h[j] == d1[j - l0]);
            } else if j < l2 {
                assert(h[j] == ", lines: "@[j - l1]);
            } else if j < l3 {
                assert(h[j] == d2[j - l2]);
            } else if j < l4 {
                assert(h[j] == ", modified: "@[j - l3]);
            } else {
                assert(h[j] == d3[j - l4]);
            }
        }
        lemma_numbered_split(h, ls, a2, b2, w);
        let pieces = split_at_char(read_answer(contents, size, modified, a, b), '\n');
        assert forall|k: int| 0 <= k <= b2 - a2 implies #[trigger] pieces[k + 1] == padded(
            (a2 + k) as nat,
            w,
        ) + "|"@ + ls[a2 + k] by {
            assert(pieces[k + 1] == numbered_line(ls, a2 + k, w));
        }
    }
}

/// Registers the tool: its manual under `text`, and the handlers of
/// `text::read`, `text::write` and `text::delete`.
pub fn register<F: Fn(&String, &[String]) -> String>(
    f: &mut Functions<F>,
    m: &mut Manual,
    read: F,
    write: F,
    delete: F,
)
    requires
        old(f).wf(),
        old(m).wf(),
        forall|n: &String, a: &[String]| call_requires(read, (n, a)),
        forall|n: &String, a: &[String]| call_requires(write, (n, a)),
        forall|n: &String, a: &[String]| call_requires(delete, (n, a)),
    ensures
        final(f).wf(),
        final(m).wf(),
        final(m)@ == old(m)@.insert("text"@, MANUAL@),
        final(f).handler("text::read"@) == Some(read),
        final(f).handler("text::write"@) == Some(write),
        final(f).handler("text::delete"@) == Some(delete),
        forall|n: Seq<char>|
            n != "text::read"@ && n != "text::write"@ && n != "text::delete"@ ==> final(f).handler(n)
                == old(f).handler(n),
{
    proof {
        reveal_strlit("text::read");
        reveal_strlit("text::write");
        reveal_strlit("text::delete");
        assert("text::read"@.len() != "text::write"@.len());
        assert("text::read"@.len() != "text::delete"@.len());
        assert("text::write"@.len() != "text::delete"@.len());
    }
    m.register("text", MANUAL);
    f.register("text::read", read);
    f.register("text::write", write);
    f.register("text::delete", delete);
}

} // verus!
