//! The `web` tool: fetching pages and searching, with pages turned into
//! text by `html2text`.
use vstd::prelude::*;
use vstd::utf8::*;
use crate::strutil::{chars_of, decimal, find_chars, find_from, push_decimal, push_range, push_str, string_of};

use crate::function::Functions;
use crate::tools::manual::Manual;
use crate::json::{Json, SpecJson, jstr, json_text, obj3, write_json};
verus! {

/// Whether web search may be used.
pub const ENABLE_WEB_SEARCH: bool = true;

pub const MANUAL: &'static str = r#"
# Web Module Manual

This module provides controlled web interaction utilities: fetching arbitrary URLs and performing simple web searches. These functions are meant to be used by the LLM runtime and must return structured JSON-like strings to indicate success, output, and error information.

## Configuration

- ENABLE_WEB_SEARCH: a boolean constant that gates whether web search is allowed. Set to false to disable web search.

## Functions

- web::fetch(url: string, prompt: string) -> String
   - Fetches the provided URL (HTTP GET) with a 10 second timeout.
   - If the response Content-Type contains "text/html" the body will be converted to plain text using html2text. Non-HTML responses are returned as raw text.
   - Returns a JSON string: {"success": <bool>, "output": <string>, "error": <string>}.
   - On HTTP errors (status >= 400) or network errors returns success=false with an error message.

- web::search(query: string) -> String
   - Performs a POST search against DuckDuckGo's HTML endpoint (https://html.duckduckgo.com/html) with a 10 second timeout.
   - Requires ENABLE_WEB_SEARCH to be true, otherwise returns success=false and an explanatory error.
   - The HTML response is converted to plain text via html2text and then sliced (emulates dropping the first 713 characters of the markdown) to remove boilerplate.
   - Returns the same JSON structure as web_fetch.

## Helper utilities

- url_encode(s: string) -> string
   - Encodes query values for application/x-www-form-urlencoded use. Spaces become '+', unsafe bytes are percent-encoded.

- format_json(success: bool, output: string, error: string) -> string
   - Helper to produce the JSON string used by both functions. Strings are JSON-quoted using serde_json to ensure proper escaping.

## Behavior notes and safety

- Timeouts: all network calls use a 10 second timeout to avoid blocking the runtime.
- HTML handling: html2text is used to convert HTML to readable text. If conversion fails an error is returned.
- Search gating: the ENABLE_WEB_SEARCH flag exists to prevent accidental use of the search function in restricted environments.
- Output size: callers should be prepared to handle potentially large output. The search implementation trims an initial chunk of the converted markdown (713 characters) to remove static header text; this is an implementation detail and may change.

## Example calls

- fetch:
  - args: {"url": "https://example.com", "prompt": "optional prompt"}
  - returns: format_json(true, "...converted text...", "") on success

- search:
  - args: {"query": "rust async http client"}
  - returns: format_json(true, "...search result text...", "") on success


"#;

/// The width that pages are rendered to.
pub const TEXT_WIDTH: usize = 80;

/// The characters a search result starts with that are left out.
pub const SEARCH_SKIP: usize = 713;

/// Where searches go.
pub const SEARCH_URL: &'static str = "https://html.duckduckgo.com/html";

// ===================================================================
// Form encoding
// ===================================================================

/// Whether a byte stands for itself in a form value.
pub open spec fn unreserved(b: u8) -> bool {
    (48 <= b <= 57) || (97 <= b <= 122) || (65 <= b <= 90) || b == 45 || b == 95 || b == 46 || b
        == 126
}

/// An upper-case hexadecimal digit.
pub open spec fn hex_digit(n: u8) -> char {
    if n < 10 {
        (48 + n) as char
    } else {
        (55 + n) as char
    }
}

/// How one byte is written in a form value.
pub open spec fn byte_code(b: u8) -> Seq<char> {
    if unreserved(b) {
        seq![b as char]
    } else if b == 32 {
        seq!['+']
    } else {
        seq!['%', hex_digit(b / 16), hex_digit(b % 16)]
    }
}

/// The bytes written as a form value.
pub open spec fn form_encoded(bs: Seq<u8>) -> Seq<char>
    decreases bs.len(),
{
    if bs.len() == 0 {
        Seq::empty()
    } else {
        form_encoded(bs.drop_last()) + byte_code(bs.last())
    }
}

fn hex_char(n: u8) -> (r: char)
    requires
        n < 16,
    ensures
        r == hex_digit(n),
{
    if n < 10 {
        (48 + n) as char
    } else {
        (55 + n) as char
    }
}

/// A text written as a form value: letters, digits and `-_.~` as they are,
/// a space as `+`, any other byte of its UTF-8 form as `%XX`.
pub fn url_encode(s: &str) -> (r: String)
    ensures
        r@ == form_encoded(encode_utf8(s@)),
{
    let bs = s.as_bytes();
    let mut out: Vec<char> = Vec::new();
    let mut i: usize = 0;
    while i < bs.len()
        invariant
            bs@ == encode_utf8(s@),
            i <= bs@.len(),
            out@ == form_encoded(bs@.take(i as int)),
        decreases bs@.len() - i,
    {
        let b = bs[i];
        proof {
            assert(bs@.take(i + 1).drop_last() =~= bs@.take(i as int));
            assert(bs@.take(i + 1).last() == b);
        }
        if (48 <= b && b <= 57) || (97 <= b && b <= 122) || (65 <= b && b <= 90) || b == 45 || b == 95
            || b == 46 || b == 126 {
            out.push(b as char);
        } else if b == 32 {
            out.push('+');
        } else {
            out.push('%');
            out.push(hex_char(b / 16));
            out.push(hex_char(b % 16));
        }
        assert(out@ =~= form_encoded(bs@.take(i + 1)));
        i = i + 1;
    }
    assert(bs@.take(bs@.len() as int) =~= bs@);
    string_of(out.as_slice())
}

// ===================================================================
// Pages as text
// ===================================================================

/// What `html2text::from_read` makes of a page rendered to `width`
/// columns: the text, or the `Display` text of its error.
pub uninterp spec fn html_text(html: Seq<char>, width: usize) -> Result<Seq<char>, Seq<char>>;

/// `html2text::from_read` on the bytes of a page; an error is given by its
/// `Display` text. The contract names the result: `html_text`.
#[verifier::external_body]
fn html_to_text(html: &str, width: usize) -> (r: Result<String, String>)
    ensures
        match r {
            Ok(t) => html_text(html@, width) == Ok::<Seq<char>, Seq<char>>(t@),
            Err(e) => html_text(html@, width) == Err::<Seq<char>, Seq<char>>(e@),
        },
{
    html2text::from_read(html.as_bytes(), width).map_err(|e| e.to_string())
}

fn text_of(parts: &[&str]) -> (r: String)
    ensures
        parts@.len() == 2 ==> r@ == parts@[0]@ + parts@[1]@,
        parts@.len() == 3 ==> r@ == parts@[0]@ + parts@[1]@ + parts@[2]@,
        parts@.len() == 4 ==> r@ == parts@[0]@ + parts@[1]@ + parts@[2]@ + parts@[3]@,
{
    let mut out: Vec<char> = Vec::new();
    let mut i: usize = 0;
    while i < parts.len()
        invariant
            i <= parts@.len(),
            i == 0 ==> out@ == Seq::<char>::empty(),
            i >= 1 ==> (parts@.len() >= 1 && out@.len() >= 0),
            i == 1 ==> out@ == parts@[0]@,
            i == 2 ==> out@ == parts@[0]@ + parts@[1]@,
            i == 3 ==> out@ == parts@[0]@ + parts@[1]@ + parts@[2]@,
            i == 4 ==> out@ == parts@[0]@ + parts@[1]@ + parts@[2]@ + parts@[3]@,
        decreases parts@.len() - i,
    {
        push_str(&mut out, parts[i]);
        i = i + 1;
    }
    string_of(out.as_slice())
}

/// The object a web tool answers with: whether it succeeded, its output
/// (empty on failure) and its error (empty on success).
pub open spec fn web_result(success: bool, output: Seq<char>, error: Seq<char>) -> SpecJson {
    SpecJson::Object(
        seq![
            ("success"@, SpecJson::Bool(success)),
            ("output"@, SpecJson::Str(output)),
            ("error"@, SpecJson::Str(error)),
        ],
    )
}

/// The JSON text of a web tool's answer, its strings quoted by
/// `serde_json`.
pub fn format_json(success: bool, output: &str, error: &str) -> (r: String)
    ensures
        r@ == json_text(web_result(success, output@, error@)),
{
    let j = obj3("success", Json::Bool(success), "output", jstr(output), "error", jstr(error));
    write_json(&j)
}

/// A failed answer with the given error.
pub open spec fn web_failure(error: Seq<char>) -> SpecJson {
    web_result(false, ""@, error)
}

/// A successful answer with the given output.
pub open spec fn web_success(output: Seq<char>) -> SpecJson {
    web_result(true, output, ""@)
}

/// The error of a fetch that could not be made.
pub open spec fn fetch_error(url: Seq<char>, error: Seq<char>) -> Seq<char> {
    "error fetching "@ + url + ": "@ + error
}

/// The answer when a page could not be fetched, from the error's text.
pub fn fetch_failure(url: &str, error: &str) -> (r: String)
    ensures
        r@ == json_text(web_failure(fetch_error(url@, error@))),
{
    let e = text_of(&["error fetching ", url, ": ", error]);
    format_json(false, "", e.as_str())
}

/// The answer for an HTTP status of 400 or more, or `None`.
pub fn fetch_status_error(url: &str, status: u16) -> (r: Option<String>)
    ensures
        status >= 400 ==> (r matches Some(t) && t@ == json_text(
            web_failure(fetch_error(url@, "HTTP "@ + decimal(status as nat))),
        )),
        status < 400 ==> r is None,
{
    if status >= 400 {
        let mut out: Vec<char> = Vec::new();
        push_str(&mut out, "error fetching ");
        push_str(&mut out, url);
        push_str(&mut out, ": ");
        push_str(&mut out, "HTTP ");
        push_decimal(&mut out, status as u128);
        let e = string_of(out.as_slice());
        assert(e@ =~= fetch_error(url@, "HTTP "@ + decimal(status as nat)));
        Some(format_json(false, "", e.as_str()))
    } else {
        None
    }
}

/// The answer of a fetched HTML page, from what `html2text` made of it:
/// the text, or the error of the conversion.
pub open spec fn fetch_converted_answer(url: Seq<char>, converted: Result<Seq<char>, Seq<char>>) -> SpecJson {
    match converted {
        Ok(md) => web_success(md),
        Err(e) => web_failure("error converting HTML "@ + url + ": "@ + e),
    }
}

/// The answer of a fetched page, from its `Content-Type` and its body (or
/// the error reading it): an HTML page as text, anything else as it is.
pub open spec fn fetch_answer(url: Seq<char>, content_type: Seq<char>, body: Result<Seq<char>, Seq<char>>) -> SpecJson {
    match body {
        Err(e) => web_failure(fetch_error(url, e)),
        Ok(text) => if find_from(content_type, 0, "text/html"@) is Some {
            fetch_converted_answer(url, html_text(text, 80))
        } else {
            web_success(text)
        },
    }
}

/// The answer of a fetched HTML page, from what `html2text` made of it.
pub fn fetch_converted(url: &str, converted: Result<String, String>) -> (r: String)
    ensures
        r@ == json_text(
            fetch_converted_answer(
                url@,
                match converted {
                    Ok(t) => Ok::<Seq<char>, Seq<char>>(t@),
                    Err(e) => Err::<Seq<char>, Seq<char>>(e@),
                },
            ),
        ),
{
    match converted {
        Ok(md) => format_json(true, md.as_str(), ""),
        Err(e) => {
            let m = text_of(&["error converting HTML ", url, ": ", e.as_str()]);
            format_json(false, "", m.as_str())
        },
    }
}

/// The answer of a fetched page.
pub fn fetch_report(url: &str, content_type: &str, body: Result<String, String>) -> (r: String)
    ensures
        r@ == json_text(
            fetch_answer(
                url@,
                content_type@,
                match body {
                    Ok(t) => Ok::<Seq<char>, Seq<char>>(t@),
                    Err(e) => Err::<Seq<char>, Seq<char>>(e@),
                },
            ),
        ),
{
    match body {
        Err(e) => fetch_failure(url, e.as_str()),
        Ok(text) => {
            let ct = chars_of(content_type);
            let pat = chars_of("text/html");
            if find_chars(ct.as_slice(), 0, pat.as_slice()).is_some() {
                let converted = html_to_text(text.as_str(), TEXT_WIDTH);
                fetch_converted(url, converted)
            } else {
                format_json(true, text.as_str(), "")
            }
        },
    }
}

/// The answer when search is disabled, or `None`.
pub fn search_gate() -> (r: Option<String>)
    ensures
        ENABLE_WEB_SEARCH ==> r is None,
        !ENABLE_WEB_SEARCH ==> (r matches Some(t) && t@ == json_text(
            web_failure("web search is disabled"@),
        )),
{
    if !ENABLE_WEB_SEARCH {
        Some(format_json(false, "", "web search is disabled"))
    } else {
        None
    }
}

/// The form body of a search.
pub fn search_form(query: &str) -> (r: String)
    ensures
        r@ == "q="@ + form_encoded(encode_utf8(query@)),
{
    let e = url_encode(query);
    text_of(&["q=", e.as_str()])
}

/// The headers of a search request.
pub fn search_headers() -> (r: Vec<(String, String)>)
    ensures
        r@.len() == 2,
        r@[0].0@ == "User-Agent"@ && r@[0].1@ == "Mozilla/5.0 (Windows NT 10.0; Win64; x64)"@,
        r@[1].0@ == "Content-Type"@ && r@[1].1@ == "application/x-www-form-urlencoded"@,
{
    let mut r: Vec<(String, String)> = Vec::new();
    r.push(("User-Agent".to_owned(), "Mozilla/5.0 (Windows NT 10.0; Win64; x64)".to_owned()));
    r.push(("Content-Type".to_owned(), "application/x-www-form-urlencoded".to_owned()));
    r
}

/// The error of a search that could not be made.
pub open spec fn search_error(query: Seq<char>, error: Seq<char>) -> Seq<char> {
    "error searching for "@ + query + ": "@ + error
}

/// The answer when a search could not be made, from the error's text.
pub fn search_failure(query: &str, error: &str) -> (r: String)
    ensures
        r@ == json_text(web_failure(search_error(query@, error@))),
{
    let e = text_of(&["error searching for ", query, ": ", error]);
    format_json(false, "", e.as_str())
}

/// The answer for an HTTP status of 400 or more, or `None`.
pub fn search_status_error(query: &str, status: u16) -> (r: Option<String>)
    ensures
        status >= 400 ==> (r matches Some(t) && t@ == json_text(
            web_failure(search_error(query@, "HTTP "@ + decimal(status as nat))),
        )),
        status < 400 ==> r is None,
{
    if status >= 400 {
        let mut out: Vec<char> = Vec::new();
        push_str(&mut out, "error searching for ");
        push_str(&mut out, query);
        push_str(&mut out, ": ");
        push_str(&mut out, "HTTP ");
        push_decimal(&mut out, status as u128);
        let e = string_of(out.as_slice());
        assert(e@ =~= search_error(query@, "HTTP "@ + decimal(status as nat)));
        Some(format_json(false, "", e.as_str()))
    } else {
        None
    }
}

/// The text of a search result page without the first `SEARCH_SKIP`
/// characters (nothing when it is not longer).
pub open spec fn search_text(md: Seq<char>) -> Seq<char> {
    if md.len() > SEARCH_SKIP {
        md.skip(SEARCH_SKIP as int)
    } else {
        Seq::empty()
    }
}

/// The answer of a search, from what `html2text` made of the result page.
pub open spec fn search_converted_answer(query: Seq<char>, converted: Result<Seq<char>, Seq<char>>) -> SpecJson {
    match converted {
        Ok(md) => web_success(search_text(md)),
        Err(e) => web_failure("error converting search HTML for "@ + query + ": "@ + e),
    }
}

/// The answer of a search, from the result page.
pub open spec fn search_answer(query: Seq<char>, html: Seq<char>) -> SpecJson {
    search_converted_answer(query, html_text(html, 80))
}

/// The answer of a search, from what `html2text` made of the result page.
pub fn search_converted(query: &str, converted: Result<String, String>) -> (r: String)
    ensures
        r@ == json_text(
            search_converted_answer(
                query@,
                match converted {
                    Ok(t) => Ok::<Seq<char>, Seq<char>>(t@),
                    Err(e) => Err::<Seq<char>, Seq<char>>(e@),
                },
            ),
        ),
{
    match converted {
        Ok(md) => {
            let c = chars_of(md.as_str());
            let mut out: Vec<char> = Vec::new();
            if c.len() > SEARCH_SKIP {
                push_range(&mut out, c.as_slice(), SEARCH_SKIP, c.len());
                assert(c@.subrange(SEARCH_SKIP as int, c@.len() as int) =~= c@.skip(SEARCH_SKIP as int));
            }
            assert(out@ =~= search_text(md@));
            let t = string_of(out.as_slice());
            format_json(true, t.as_str(), "")
        },
        Err(e) => {
            let m = text_of(&["error converting search HTML for ", query, ": ", e.as_str()]);
            format_json(false, "", m.as_str())
        },
    }
}

/// The answer of a search.
pub fn search_report(query: &str, html: &str) -> (r: String)
    ensures
        r@ == json_text(search_answer(query@, html@)),
{
    let converted = html_to_text(html, TEXT_WIDTH);
    search_converted(query, converted)
}

/// A form value holds no space: each byte became an unreserved character,
/// a `+`, or a `%` and two upper-case hexadecimal digits.
pub proof fn law_form_encoded_chars(bs: Seq<u8>)
    ensures
        forall|i: int|
            0 <= i < form_encoded(bs).len() ==> {
                let c = #[trigger] form_encoded(bs)[i];
                ||| ('0' <= c <= '9')
                ||| ('a' <= c <= 'z')
                ||| ('A' <= c <= 'Z')
                ||| c == '-' || c == '_' || c == '.' || c == '~' || c == '+' || c == '%'
            },
    decreases bs.len(),
{
    if bs.len() > 0 {
        let init = bs.drop_last();
        law_form_encoded_chars(init);
        let b = bs.last();
        let code = byte_code(b);
        assert forall|i: int| 0 <= i < form_encoded(bs).len() implies {
            let c = #[trigger] form_encoded(bs)[i];
            ||| ('0' <= c <= '9')
            ||| ('a' <= c <= 'z')
            ||| ('A' <= c <= 'Z')
            ||| c == '-' || c == '_' || c == '.' || c == '~' || c == '+' || c == '%'
        } by {
            if i >= form_encoded(init).len() {
                let k = i - form_encoded(init).len();
                assert(form_encoded(bs)[i] == code[k]);
                if unreserved(b) {
                    assert(code[k] == b as char);
                } else if b != 32 && k > 0 {
                    let n = if k == 1 { b / 16 } else { b % 16 };
                    assert(code[k] == hex_digit(n));
                    assert(n < 16);
                }
            } else {
                assert(form_encoded(bs)[i] == form_encoded(init)[i]);
            }
        }
    }
}

/// The value of a hexadecimal digit (either case).
pub open spec fn hex_value(c: char) -> int {
    if '0' <= c <= '9' {
        c as int - 48
    } else if 'A' <= c <= 'F' {
        c as int - 55
    } else if 'a' <= c <= 'f' {
        c as int - 87
    } else {
        0
    }
}

/// The bytes of a form value, decoded: `+` is a space, `%XX` the byte
/// with hexadecimal value `XX`, any other character its own code.
pub open spec fn form_decoded(cs: Seq<char>) -> Seq<u8>
    decreases cs.len(),
{
    if cs.len() == 0 {
        Seq::empty()
    } else if cs[0] == '%' && cs.len() >= 3 {
        seq![(16 * hex_value(cs[1]) + hex_value(cs[2])) as u8] + form_decoded(cs.skip(3))
    } else if cs[0] == '+' {
        seq![32u8] + form_decoded(cs.skip(1))
    } else {
        seq![cs[0] as u8] + form_decoded(cs.skip(1))
    }
}

proof fn lemma_form_encoded_concat(a: Seq<u8>, b: Seq<u8>)
    ensures
        form_encoded(a + b) == form_encoded(a) + form_encoded(b),
    decreases b.len(),
{
    if b.len() == 0 {
        assert(a + b =~= a);
        assert(form_encoded(a) + form_encoded(b) =~= form_encoded(a));
    } else {
        assert((a + b).drop_last() =~= a + b.drop_last());
        lemma_form_encoded_concat(a, b.drop_last());
        assert(form_encoded(a) + form_encoded(b.drop_last()) + byte_code(b.last()) =~= form_encoded(a)
            + (form_encoded(b.drop_last()) + byte_code(b.last())));
    }
}

proof fn lemma_hex_roundtrip(n: u8)
    requires
        n < 16,
    ensures
        hex_value(hex_digit(n)) == n,
        hex_digit(n) != '%' && hex_digit(n) != '+',
{
}

proof fn lemma_decode_code(b: u8, rest: Seq<char>)
    ensures
        form_decoded(byte_code(b) + rest) == seq![b] + form_decoded(rest),
{
    let cs = byte_code(b) + rest;
    if unreserved(b) {
        assert(cs[0] == b as char);
        assert((b as char) as u8 == b);
        assert(cs.skip(1) =~= rest);
    } else if b == 32 {
        assert(cs[0] == '+');
        assert(cs.skip(1) =~= rest);
    } else {
        lemma_hex_roundtrip(b / 16);
        lemma_hex_roundtrip(b % 16);
        assert(cs[0] == '%' && cs[1] == hex_digit(b / 16) && cs[2] == hex_digit(b % 16));
        assert(cs.skip(3) =~= rest);
        assert((16 * (b / 16) + b % 16) as u8 == b);
    }
}

/// Decoding a form value gives back the bytes that were encoded.
pub proof fn law_form_decoding(bs: Seq<u8>)
    ensures
        form_decoded(form_encoded(bs)) == bs,
    decreases bs.len(),
{
    if bs.len() > 0 {
        let rest = bs.skip(1);
        assert(seq![bs[0]] + rest =~= bs);
        lemma_form_encoded_concat(seq![bs[0]], rest);
        let one = seq![bs[0]];
        assert(one.drop_last() =~= Seq::<u8>::empty());
        assert(one.last() == bs[0]);
        assert(form_encoded(Seq::<u8>::empty()) =~= Seq::<char>::empty());
        assert(form_encoded(one) == form_encoded(one.drop_last()) + byte_code(one.last()));
        assert(form_encoded(one) =~= byte_code(bs[0]));
        law_form_decoding(rest);
        lemma_decode_code(bs[0], form_encoded(rest));
    } else {
        assert(form_encoded(bs) =~= Seq::<char>::empty());
        assert(bs =~= Seq::<u8>::empty());
    }
}

/// Registers the tool: its manual under `web`, and the handlers of
/// `web::fetch` and `web::search`.
pub fn register<F: Fn(&String, &[String]) -> String>(
    f: &mut Functions<F>,
    m: &mut Manual,
    fetch: F,
    search: F,
)
    requires
        old(f).wf(),
        old(m).wf(),
        forall|n: &String, a: &[String]| call_requires(fetch, (n, a)),
        forall|n: &String, a: &[String]| call_requires(search, (n, a)),
    ensures
        final(f).wf(),
        final(m).wf(),
        final(m)@ == old(m)@.insert("web"@, MANUAL@),
        final(f).handler("web::fetch"@) == Some(fetch),
        final(f).handler("web::search"@) == Some(search),
        forall|n: Seq<char>|
            n != "web::fetch"@ && n != "web::search"@ ==> final(f).handler(n) == old(f).handler(n),
{
    proof {
        reveal_strlit("web::fetch");
        reveal_strlit("web::search");
        assert("web::fetch"@.len() != "web::search"@.len());
    }
    m.register("web", MANUAL);
    f.register("web::fetch", fetch);
    f.register("web::search", search);
}

} // verus!
