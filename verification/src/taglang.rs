//! The tag language: a small markup of nested `<name suffix>...</name suffix>`
//! tags, free text, and verbatim `<raw SUFFIX>...</raw SUFFIX>` blocks.
//!
//! The grammar is stated by the spec functions of this module over the
//! characters of the input; `parse` is proved to compute exactly
//! `spec_parse`, errors and their messages included.
use vstd::prelude::*;
use crate::strutil::{
    byte_offset, chars_eq, chars_of, decimal, is_ascii_ws, is_ascii_ws_exec, lead_char,
    lead_char_exec, lemma_trim_empty, option_char_debug, push_all, push_decimal,
    push_option_char_debug, push_range, push_str, string_of, trim, trim_bounds, utf8_len,
    str_eq, parse_i64, parse_i64_spec, scan_while, starts_with_at, find_from, lemma_scan_while,
    lemma_scan_while_skip, lemma_find_from_window, lemma_find_from_first,
    lemma_find_from_bounds, lemma_scan_while_idem, is_ws, trim_start, trim_end,
};
use vstd::string::StrSliceExecFns;

verus! {

// ===================================================================
// Model
// ===================================================================

/// A parsed tag: its name, the suffix written after the name in the open
/// tag, the text it holds, and its child tags in document order.
#[derive(Debug, PartialEq)]
pub struct Tag {
    pub name: String,
    pub suffix: String,
    pub value: String,
    pub children: Vec<Tag>,
}

/// The mathematical value of a `Tag`.
pub struct SpecTag {
    pub name: Seq<char>,
    pub suffix: Seq<char>,
    pub value: Seq<char>,
    pub children: Seq<SpecTag>,
}

pub open spec fn tag_view(t: Tag) -> SpecTag
    decreases t,
{
    SpecTag {
        name: t.name@,
        suffix: t.suffix@,
        value: t.value@,
        children: tags_view(t.children@),
    }
}

pub open spec fn tags_view(ts: Seq<Tag>) -> Seq<SpecTag>
    decreases ts,
{
    if ts.len() == 0 {
        Seq::empty()
    } else {
        tags_view(ts.drop_last()).push(tag_view(ts.last()))
    }
}

/// A deep copy of a tag.
pub fn clone_tag(t: &Tag) -> (r: Tag)
    ensures
        tag_view(r) == tag_view(*t),
    decreases t,
{
    let mut children: Vec<Tag> = Vec::new();
    let mut i: usize = 0;
    while i < t.children.len()
        invariant
            i <= t.children@.len(),
            tags_view(children@) == tags_view(t.children@.subrange(0, i as int)),
        decreases t.children@.len() - i,
    {
        assert(decreases_to!(t => t.children));
        assert(decreases_to!(t.children => t.children@));
        assert(decreases_to!(t.children@ => t.children@[i as int]));
        let c = clone_tag(&t.children[i]);
        proof {
            lemma_tags_view_push(children@, c);
            lemma_tags_view_push(t.children@.subrange(0, i as int), t.children@[i as int]);
            assert(t.children@.subrange(0, i + 1) =~= t.children@.subrange(0, i as int).push(
                t.children@[i as int],
            ));
        }
        children.push(c);
        i = i + 1;
    }
    assert(t.children@.subrange(0, t.children@.len() as int) =~= t.children@);
    Tag {
        name: t.name.clone(),
        suffix: t.suffix.clone(),
        value: t.value.clone(),
        children,
    }
}

impl Clone for Tag {
    fn clone(&self) -> (r: Self)
        ensures
            tag_view(r) == tag_view(*self),
    {
        clone_tag(self)
    }
}

impl View for Tag {
    type V = SpecTag;

    open spec fn view(&self) -> SpecTag {
        tag_view(*self)
    }
}

pub proof fn lemma_tags_view_push(ts: Seq<Tag>, t: Tag)
    ensures
        tags_view(ts.push(t)) == tags_view(ts).push(tag_view(t)),
{
    assert(ts.push(t).drop_last() =~= ts);
}

pub proof fn lemma_tags_view_index(ts: Seq<Tag>)
    ensures
        tags_view(ts).len() == ts.len(),
        forall|i: int| 0 <= i < ts.len() ==> #[trigger] tags_view(ts)[i] == tag_view(ts[i]),
    decreases ts.len(),
{
    if ts.len() > 0 {
        lemma_tags_view_index(ts.drop_last());
    }
}

/// A parse failure, with positions counted in characters of the input.
pub enum SpecError {
    /// The character `ch` was expected at the position.
    Expected(char, int),
    /// A tag name was expected at the position.
    ExpectedName(int),
    /// A `<raw>` tag without a suffix ended at the position.
    RawNeedsSuffix(int),
    /// An open tag (`true`) that is never closed, or a close tag (`false`)
    /// with no open tag, with its name and suffix.
    Unmatched(bool, Seq<char>, Seq<char>),
}

/// A parse failure found by the executable parser.
pub enum TagError {
    Expected(char, usize),
    ExpectedName(usize),
    RawNeedsSuffix(usize),
    Unmatched(bool, Vec<char>, Vec<char>),
}

impl View for TagError {
    type V = SpecError;

    open spec fn view(&self) -> SpecError {
        match self {
            TagError::Expected(c, p) => SpecError::Expected(*c, *p as int),
            TagError::ExpectedName(p) => SpecError::ExpectedName(*p as int),
            TagError::RawNeedsSuffix(p) => SpecError::RawNeedsSuffix(*p as int),
            TagError::Unmatched(o, n, s) => SpecError::Unmatched(*o, n@, s@),
        }
    }
}

// ===================================================================
// Grammar
// ===================================================================

pub open spec fn is_name_char(c: char) -> bool {
    ('0' <= c && c <= '9') || ('a' <= c && c <= 'z') || ('A' <= c && c <= 'Z') || c == '-' || c
        == '_' || c == '.'
}

pub open spec fn ws_pred() -> spec_fn(char) -> bool {
    |c: char| is_ascii_ws(c)
}

pub open spec fn name_pred() -> spec_fn(char) -> bool {
    |c: char| is_name_char(c)
}

pub open spec fn not_pred(stop: char) -> spec_fn(char) -> bool {
    |c: char| c != stop
}

pub open spec fn skip_ws(s: Seq<char>, p: int) -> int {
    scan_while(s, p, ws_pred())
}

pub open spec fn name_end(s: Seq<char>, p: int) -> int {
    scan_while(s, p, name_pred())
}

/// The position of the first `stop` at or after `p` (or the end).
pub open spec fn scan_to(s: Seq<char>, p: int, stop: char) -> int {
    scan_while(s, p, not_pred(stop))
}

/// Reads `<name suffix>` (or `</name suffix>` when `close`) at `p`: the name,
/// the trimmed suffix and the position after the `>`.
pub open spec fn read_head(s: Seq<char>, p: int, close: bool) -> Result<
    (Seq<char>, Seq<char>, int),
    SpecError,
> {
    if !(0 <= p < s.len() && s[p] == '<') {
        Err(SpecError::Expected('<', p))
    } else if close && !(p + 1 < s.len() && s[p + 1] == '/') {
        Err(SpecError::Expected('/', p + 1))
    } else {
        let q = if close {
            p + 2
        } else {
            p + 1
        };
        let e = name_end(s, q);
        if e == q {
            Err(SpecError::ExpectedName(q))
        } else {
            let g = scan_to(s, e, '>');
            if g >= s.len() {
                Err(SpecError::Expected('>', g))
            } else {
                Ok((s.subrange(q, e), trim(s.subrange(e, g)), g + 1))
            }
        }
    }
}

pub open spec fn raw_marker(suffix: Seq<char>) -> Seq<char> {
    seq!['<', '/', 'r', 'a', 'w', ' '] + suffix + seq!['>']
}

pub open spec fn raw_name() -> Seq<char> {
    seq!['r', 'a', 'w']
}

/// The body of a `<raw SUFFIX>` tag: everything up to the first
/// `</raw SUFFIX>`, verbatim.
pub open spec fn spec_raw(s: Seq<char>, start: int, suffix: Seq<char>) -> Result<
    (SpecTag, int),
    SpecError,
> {
    match find_from(s, start, raw_marker(suffix)) {
        None => Err(SpecError::Unmatched(true, raw_name(), suffix)),
        Some(q) => Ok(
            (
                SpecTag {
                    name: raw_name(),
                    suffix,
                    value: s.subrange(start, q),
                    children: Seq::empty(),
                },
                q + raw_marker(suffix).len(),
            ),
        ),
    }
}

/// After a `>` that is not part of a close tag: the position after it.
pub open spec fn until_gt_end(s: Seq<char>, p: int) -> int {
    let e = scan_to(s, p, '>');
    if e < s.len() {
        e + 1
    } else {
        e
    }
}

/// A tag starting at `p`, and the position after it.
pub open spec fn spec_parse_tag(s: Seq<char>, p: int) -> Result<(SpecTag, int), SpecError>
    decreases s.len() - p, 0int,
{
    match read_head(s, p, false) {
        Err(e) => Err(e),
        Ok((name, suffix, p1)) => {
            if name == raw_name() {
                if suffix.len() == 0 {
                    Err(SpecError::RawNeedsSuffix(p1))
                } else {
                    spec_raw(s, p1, suffix)
                }
            } else {
                proof {
                    lemma_read_head(s, p, false);
                }
                spec_body(s, p1, name, suffix, Seq::empty(), Seq::empty())
            }
        },
    }
}

/// The rest of the tag `name suffix` from `p`, with the text and children
/// read so far. Text is collected verbatim and trimmed when the tag closes;
/// a close tag of another name or suffix is kept as text.
pub open spec fn spec_body(
    s: Seq<char>,
    p: int,
    name: Seq<char>,
    suffix: Seq<char>,
    value: Seq<char>,
    children: Seq<SpecTag>,
) -> Result<(SpecTag, int), SpecError>
    decreases s.len() - p, 1int,
{
    if !(0 <= p < s.len()) {
        Err(SpecError::Unmatched(true, name, suffix))
    } else if starts_with_at(s, p, seq!['<', '/']) {
        match read_head(s, p, true) {
            Err(e) => Err(e),
            Ok((cn, cs, p2)) => {
                if cn == name && cs == suffix {
                    Ok((SpecTag { name, suffix, value: trim(value), children }, p2))
                } else {
                    proof {
                        lemma_scan_while(s, p, not_pred('>'));
                    }
                    let g = until_gt_end(s, p);
                    spec_body(s, g, name, suffix, value + s.subrange(p, g), children)
                }
            },
        }
    } else if s[p] == '<' {
        match spec_parse_tag(s, p) {
            Err(e) => Err(e),
            Ok((child, p2)) => {
                if p < p2 <= s.len() {
                    spec_body(s, p2, name, suffix, value, children.push(child))
                } else {
                    Err(SpecError::ExpectedName(p))
                }
            },
        }
    } else {
        proof {
            lemma_scan_while(s, p, not_pred('<'));
        }
        let t = scan_to(s, p, '<');
        spec_body(s, t, name, suffix, value + s.subrange(p, t), children)
    }
}

pub open spec fn root_name() -> Seq<char> {
    seq!['r', 'o', 'o', 't']
}

/// The top level from `p`: tags become children of the root, text that is
/// not only whitespace is appended to its value.
pub open spec fn spec_root(s: Seq<char>, p: int, value: Seq<char>, children: Seq<SpecTag>) -> Result<
    SpecTag,
    SpecError,
>
    decreases s.len() - p,
{
    if !(0 <= p <= s.len()) {
        Err(SpecError::Expected('<', p))
    } else {
        proof {
            lemma_scan_while(s, p, ws_pred());
        }
        let q = skip_ws(s, p);
        if q >= s.len() {
            Ok(SpecTag { name: root_name(), suffix: Seq::empty(), value, children })
        } else if starts_with_at(s, q, seq!['<', '/']) {
            match read_head(s, q, true) {
                Err(e) => Err(e),
                Ok((n, sf, _)) => Err(SpecError::Unmatched(false, n, sf)),
            }
        } else if s[q] == '<' {
            match spec_parse_tag(s, q) {
                Err(e) => Err(e),
                Ok((child, p2)) => {
                    if q < p2 <= s.len() {
                        spec_root(s, p2, value, children.push(child))
                    } else {
                        Err(SpecError::ExpectedName(q))
                    }
                },
            }
        } else {
            proof {
                lemma_scan_while(s, q, not_pred('<'));
            }
            let t = scan_to(s, q, '<');
            let text = s.subrange(q, t);
            spec_root(
                s,
                t,
                if trim(text).len() == 0 {
                    value
                } else {
                    value + text
                },
                children,
            )
        }
    }
}

/// The document `s` read as the children and text of a `root` tag.
pub open spec fn spec_parse(s: Seq<char>) -> Result<SpecTag, SpecError> {
    spec_root(s, 0, Seq::empty(), Seq::empty())
}

// ===================================================================
// Error messages
// ===================================================================

/// `<name suffix>` or `</name suffix>`, the suffix and its space left out
/// when empty.
pub open spec fn tag_display_spec(open: bool, name: Seq<char>, suffix: Seq<char>) -> Seq<char> {
    let head = if open {
        seq!['<']
    } else {
        seq!['<', '/']
    };
    if suffix.len() == 0 {
        head + name + seq!['>']
    } else {
        head + name + seq![' '] + suffix + seq!['>']
    }
}

/// What the byte cursor sees at character position `p`: the first byte of
/// the character's encoding, read as a character.
pub open spec fn peek_at(s: Seq<char>, p: int) -> Option<char> {
    if 0 <= p < s.len() {
        Some(lead_char(s[p]))
    } else {
        None
    }
}

/// The byte offset of character position `p`, in decimal.
pub open spec fn position_text(s: Seq<char>, p: int) -> Seq<char> {
    decimal(utf8_len(s.subrange(0, p)))
}

pub open spec fn error_message(s: Seq<char>, e: SpecError) -> Seq<char> {
    match e {
        SpecError::Expected(ch, p) => "Expected '"@ + seq![ch] + "' at position "@ + position_text(
            s,
            p,
        ) + ", found "@ + option_char_debug(peek_at(s, p)),
        SpecError::ExpectedName(p) => "Expected tag name at position "@ + position_text(s, p)
            + ", found "@ + option_char_debug(peek_at(s, p)),
        SpecError::RawNeedsSuffix(p) => "<raw> tag requires a suffix (e.g. <raw EOF>) at position "@
            + position_text(s, p),
        SpecError::Unmatched(open, name, suffix) => "Unmatched "@ + tag_display_spec(
            open,
            name,
            suffix,
        ) + " tag"@,
    }
}

// ===================================================================
// Lemmas
// ===================================================================

pub proof fn lemma_read_head(s: Seq<char>, p: int, close: bool)
    requires
        0 <= p <= s.len(),
    ensures
        read_head(s, p, close) matches Ok((n, sf, p1)) ==> p + 3 <= p1 <= s.len(),
        read_head(s, p, close) matches Err(SpecError::Expected(_, q)) ==> q <= s.len(),
        read_head(s, p, close) matches Err(SpecError::ExpectedName(q)) ==> q <= s.len(),
{
    if 0 <= p < s.len() && s[p] == '<' {
        if !(close && !(p + 1 < s.len() && s[p + 1] == '/')) {
            let q = if close {
                p + 2
            } else {
                p + 1
            };
            lemma_scan_while(s, q, name_pred());
            let e = name_end(s, q);
            if e != q {
                lemma_scan_while(s, e, not_pred('>'));
            }
        }
    }
}

/// Trimming ignores leading characters that are ASCII whitespace.
pub proof fn lemma_trim_skip_ws(s: Seq<char>, e: int, w: int, g: int)
    requires
        0 <= e <= w <= g <= s.len(),
        forall|i: int| e <= i < w ==> is_ascii_ws(#[trigger] s[i]),
    ensures
        trim(s.subrange(e, g)) == trim(s.subrange(w, g)),
    decreases w - e,
{
    if e < w {
        assert(s.subrange(e, g).drop_first() =~= s.subrange(e + 1, g));
        assert(s.subrange(e, g)[0] == s[e]);
        lemma_trim_skip_ws(s, e + 1, w, g);
    }
}


fn is_name_char_exec(b: char) -> (r: bool)
    ensures
        r == is_name_char(b),
{
    ('0' <= b && b <= '9') || ('a' <= b && b <= 'z') || ('A' <= b && b <= 'Z') || b == '-' || b
        == '_' || b == '.'
}

// ===================================================================
// Cursor
// ===================================================================

struct Cursor<'a> {
    src: &'a [char],
    pos: usize,
}

impl<'a> Cursor<'a> {
    fn new(input: &'a [char]) -> (c: Cursor<'a>)
        ensures
            c.src@ == input@,
            c.pos == 0,
    {
        Cursor { src: input, pos: 0 }
    }

    fn has_remaining(&self) -> (r: bool)
        ensures
            r == (self.pos < self.src@.len()),
    {
        self.pos < self.src.len()
    }

    fn peek(&self) -> (r: Option<char>)
        ensures
            r == (if self.pos < self.src@.len() {
                Some(self.src@[self.pos as int])
            } else {
                None
            }),
    {
        if self.pos < self.src.len() {
            Some(self.src[self.pos])
        } else {
            None
        }
    }

    fn starts_with(&self, t: &[char]) -> (r: bool)
        requires
            self.pos <= self.src@.len(),
        ensures
            r == starts_with_at(self.src@, self.pos as int, t@),
    {
        let n = self.src.len();
        if t.len() > n - self.pos {
            return false;
        }
        let mut i: usize = 0;
        while i < t.len()
            invariant
                n == self.src@.len(),
                self.pos + t@.len() <= self.src@.len(),
                i <= t@.len(),
                forall|j: int| 0 <= j < i ==> self.src@[self.pos + j] == t@[j],
            decreases t@.len() - i,
        {
            if self.src[self.pos + i] != t[i] {
                assert(self.src@.subrange(self.pos as int, self.pos + t@.len())[i as int]
                    != t@[i as int]);
                return false;
            }
            i = i + 1;
        }
        assert(self.src@.subrange(self.pos as int, self.pos + t@.len()) =~= t@);
        true
    }

    fn advance(&mut self)
        ensures
            final(self).src == old(self).src,
            final(self).pos == (if old(self).pos < old(self).src@.len() {
                old(self).pos + 1
            } else {
                old(self).pos as int
            }),
    {
        if self.pos < self.src.len() {
            self.pos = self.pos + 1;
        }
    }

    fn skip_whitespace(&mut self)
        requires
            old(self).pos <= old(self).src@.len(),
        ensures
            final(self).src == old(self).src,
            final(self).pos == skip_ws(old(self).src@, old(self).pos as int),
    {
        while self.has_remaining() && is_ascii_ws_exec(self.src[self.pos])
            invariant
                self.src == old(self).src,
                self.pos <= self.src@.len(),
                skip_ws(self.src@, old(self).pos as int) == skip_ws(self.src@, self.pos as int),
            decreases self.src@.len() - self.pos,
        {
            self.advance();
        }
    }

    /// Moves to the first `stop` at or after the position (or the end).
    fn scan_to_char(&mut self, stop: char)
        requires
            old(self).pos <= old(self).src@.len(),
        ensures
            final(self).src == old(self).src,
            final(self).pos == scan_to(old(self).src@, old(self).pos as int, stop),
    {
        while self.has_remaining() && self.src[self.pos] != stop
            invariant
                self.src == old(self).src,
                self.pos <= self.src@.len(),
                scan_to(self.src@, old(self).pos as int, stop) == scan_to(
                    self.src@,
                    self.pos as int,
                    stop,
                ),
            decreases self.src@.len() - self.pos,
        {
            self.advance();
        }
    }

    fn read_tag_name(&mut self) -> (r: Result<Vec<char>, TagError>)
        requires
            old(self).pos <= old(self).src@.len(),
        ensures
            final(self).src == old(self).src,
            final(self).pos <= final(self).src@.len(),
            ({
                let e = name_end(old(self).src@, old(self).pos as int);
                if e == old(self).pos {
                    r == Err::<Vec<char>, TagError>(TagError::ExpectedName(old(self).pos))
                } else {
                    &&& r is Ok
                    &&& r->Ok_0@ == old(self).src@.subrange(old(self).pos as int, e)
                    &&& final(self).pos == e
                }
            }),
    {
        let start = self.pos;
        while self.has_remaining() && is_name_char_exec(self.src[self.pos])
            invariant
                self.src == old(self).src,
                start == old(self).pos,
                start <= self.pos <= self.src@.len(),
                name_end(self.src@, start as int) == name_end(self.src@, self.pos as int),
            decreases self.src@.len() - self.pos,
        {
            self.advance();
        }
        if self.pos == start {
            return Err(TagError::ExpectedName(self.pos));
        }
        let mut name: Vec<char> = Vec::new();
        push_range(&mut name, self.src, start, self.pos);
        Ok(name)
    }

    /// The text between the name and the closing `>`, trimmed.
    fn read_optional_suffix(&mut self) -> (r: Vec<char>)
        requires
            old(self).pos <= old(self).src@.len(),
        ensures
            final(self).src == old(self).src,
            final(self).pos == scan_to(old(self).src@, old(self).pos as int, '>'),
            r@ == trim(
                old(self).src@.subrange(
                    old(self).pos as int,
                    scan_to(old(self).src@, old(self).pos as int, '>'),
                ),
            ),
    {
        let ghost s = self.src@;
        let ghost e = old(self).pos as int;
        self.skip_whitespace();
        let w = self.pos;
        proof {
            lemma_scan_while(s, e, ws_pred());
            assert forall|i: int| e <= i < w implies #[trigger] not_pred('>')(s[i]) by {
                assert(ws_pred()(s[i]));
            }
            lemma_scan_while_skip(s, e, w as int, not_pred('>'));
            assert forall|i: int| e <= i < w implies is_ascii_ws(#[trigger] s[i]) by {
                assert(ws_pred()(s[i]));
            }
        }
        if self.peek() == Some('>') {
            proof {
                lemma_trim_skip_ws(s, e, w as int, w as int);
                assert(s.subrange(w as int, w as int) =~= Seq::<char>::empty());
                lemma_trim_empty();
            }
            return Vec::new();
        }
        self.scan_to_char('>');
        proof {
            lemma_scan_while(s, w as int, not_pred('>'));
            lemma_trim_skip_ws(s, e, w as int, self.pos as int);
        }
        let (a, b) = trim_bounds(self.src, w, self.pos);
        let mut suffix: Vec<char> = Vec::new();
        push_range(&mut suffix, self.src, a, b);
        suffix
    }

    fn expect(&mut self, ch: char) -> (r: Result<(), TagError>)
        requires
            old(self).pos <= old(self).src@.len(),
        ensures
            final(self).src == old(self).src,
            final(self).pos <= final(self).src@.len(),
            ({
                let p = old(self).pos as int;
                if p < old(self).src@.len() && old(self).src@[p] == ch {
                    r is Ok && final(self).pos == p + 1
                } else {
                    r == Err::<(), TagError>(TagError::Expected(ch, old(self).pos))
                }
            }),
    {
        match self.peek() {
            Some(c) => {
                if c == ch {
                    self.advance();
                    Ok(())
                } else {
                    Err(TagError::Expected(ch, self.pos))
                }
            },
            None => Err(TagError::Expected(ch, self.pos)),
        }
    }

    /// Consumes `<name suffix>`, or `</name suffix>` when `close`.
    fn read_head(&mut self, close: bool) -> (r: Result<(Vec<char>, Vec<char>), TagError>)
        requires
            old(self).pos <= old(self).src@.len(),
        ensures
            final(self).src == old(self).src,
            final(self).pos <= final(self).src@.len(),
            match read_head(old(self).src@, old(self).pos as int, close) {
                Ok((n, sf, p1)) => r is Ok && r->Ok_0.0@ == n && r->Ok_0.1@ == sf
                    && final(self).pos == p1,
                Err(e) => r is Err && r->Err_0@ == e,
            },
            r is Err ==> error_in_bounds(r->Err_0@, old(self).src@.len() as int),
    {
        let ghost s = self.src@;
        let ghost p = self.pos as int;
        self.expect('<')?;
        if close {
            self.expect('/')?;
        }
        let q = self.pos;
        let name = self.read_tag_name()?;
        let e = self.pos;
        proof {
            lemma_scan_while(s, q as int, name_pred());
        }
        let suffix = self.read_optional_suffix();
        proof {
            lemma_scan_while(s, e as int, not_pred('>'));
        }
        self.expect('>')?;
        Ok((name, suffix))
    }

    fn read_open_tag(&mut self) -> (r: Result<(Vec<char>, Vec<char>), TagError>)
        requires
            old(self).pos <= old(self).src@.len(),
        ensures
            final(self).src == old(self).src,
            final(self).pos <= final(self).src@.len(),
            match read_head(old(self).src@, old(self).pos as int, false) {
                Ok((n, sf, p1)) => r is Ok && r->Ok_0.0@ == n && r->Ok_0.1@ == sf
                    && final(self).pos == p1,
                Err(e) => r is Err && r->Err_0@ == e,
            },
            r is Err ==> error_in_bounds(r->Err_0@, old(self).src@.len() as int),
    {
        self.read_head(false)
    }

    fn read_close_tag(&mut self) -> (r: Result<(Vec<char>, Vec<char>), TagError>)
        requires
            old(self).pos <= old(self).src@.len(),
        ensures
            final(self).src == old(self).src,
            final(self).pos <= final(self).src@.len(),
            match read_head(old(self).src@, old(self).pos as int, true) {
                Ok((n, sf, p1)) => r is Ok && r->Ok_0.0@ == n && r->Ok_0.1@ == sf
                    && final(self).pos == p1,
                Err(e) => r is Err && r->Err_0@ == e,
            },
            r is Err ==> error_in_bounds(r->Err_0@, old(self).src@.len() as int),
    {
        self.read_head(true)
    }

    /// Text up to (not including) the next `<`.
    fn read_text(&mut self) -> (r: Vec<char>)
        requires
            old(self).pos <= old(self).src@.len(),
        ensures
            final(self).src == old(self).src,
            final(self).pos == scan_to(old(self).src@, old(self).pos as int, '<'),
            r@ == old(self).src@.subrange(
                old(self).pos as int,
                scan_to(old(self).src@, old(self).pos as int, '<'),
            ),
    {
        let start = self.pos;
        self.scan_to_char('<');
        proof {
            lemma_scan_while(self.src@, start as int, not_pred('<'));
        }
        let mut text: Vec<char> = Vec::new();
        push_range(&mut text, self.src, start, self.pos);
        text
    }

    /// Text up to and including the next `>`.
    fn read_until_gt(&mut self) -> (r: Vec<char>)
        requires
            old(self).pos <= old(self).src@.len(),
        ensures
            final(self).src == old(self).src,
            final(self).pos == until_gt_end(old(self).src@, old(self).pos as int),
            r@ == old(self).src@.subrange(
                old(self).pos as int,
                until_gt_end(old(self).src@, old(self).pos as int),
            ),
    {
        let start = self.pos;
        self.scan_to_char('>');
        proof {
            lemma_scan_while(self.src@, start as int, not_pred('>'));
        }
        if self.has_remaining() {
            self.advance();
        }
        let mut text: Vec<char> = Vec::new();
        push_range(&mut text, self.src, start, self.pos);
        text
    }
}


// ===================================================================
// Parser
// ===================================================================

/// Every position an error names lies within the input.
pub open spec fn error_in_bounds(e: SpecError, n: int) -> bool {
    match e {
        SpecError::Expected(_, p) => 0 <= p <= n,
        SpecError::ExpectedName(p) => 0 <= p <= n,
        SpecError::RawNeedsSuffix(p) => 0 <= p <= n,
        SpecError::Unmatched(_, _, _) => true,
    }
}

fn raw_chars() -> (r: Vec<char>)
    ensures
        r@ == raw_name(),
{
    let mut v: Vec<char> = Vec::new();
    v.push('r');
    v.push('a');
    v.push('w');
    assert(v@ =~= raw_name());
    v
}

fn close_start() -> (r: Vec<char>)
    ensures
        r@ == seq!['<', '/'],
{
    let mut v: Vec<char> = Vec::new();
    v.push('<');
    v.push('/');
    assert(v@ =~= seq!['<', '/']);
    v
}

/// A tag with the given name and suffix and nothing in it.
fn new_tag(name: &[char], suffix: &[char]) -> (t: Tag)
    ensures
        tag_view(t) == (SpecTag {
            name: name@,
            suffix: suffix@,
            value: Seq::empty(),
            children: Seq::empty(),
        }),
{
    let empty: Vec<char> = Vec::new();
    let t = Tag {
        name: string_of(name),
        suffix: string_of(suffix),
        value: string_of(empty.as_slice()),
        children: Vec::new(),
    };
    assert(tags_view(t.children@) =~= Seq::<SpecTag>::empty());
    t
}

/// Captures everything up to the first `</raw SUFFIX>` as the raw tag's value.
fn parse_raw_tag(cursor: &mut Cursor, suffix: &[char]) -> (r: Result<Tag, TagError>)
    requires
        old(cursor).pos <= old(cursor).src@.len(),
    ensures
        final(cursor).src == old(cursor).src,
        final(cursor).pos <= final(cursor).src@.len(),
        match spec_raw(old(cursor).src@, old(cursor).pos as int, suffix@) {
            Ok((t, p)) => r is Ok && tag_view(r->Ok_0) == t && final(cursor).pos == p,
            Err(e) => r is Err && r->Err_0@ == e,
        },
        r is Ok ==> old(cursor).pos < final(cursor).pos,
        r is Err ==> error_in_bounds(r->Err_0@, old(cursor).src@.len() as int),
{
    let ghost s = cursor.src@;
    let mut marker: Vec<char> = Vec::new();
    marker.push('<');
    marker.push('/');
    marker.push('r');
    marker.push('a');
    marker.push('w');
    marker.push(' ');
    push_all(&mut marker, suffix);
    marker.push('>');
    assert(marker@ =~= raw_marker(suffix@));
    let start = cursor.pos;
    let n = cursor.src.len();
    loop
        invariant
            cursor.src == old(cursor).src,
            cursor.src@ == s,
            s == old(cursor).src@,
            start == old(cursor).pos,
            n == s.len(),
            start <= cursor.pos <= s.len(),
            marker@ == raw_marker(suffix@),
            find_from(s, start as int, marker@) == find_from(s, cursor.pos as int, marker@),
        decreases s.len() - cursor.pos,
    {
        if marker.len() > n - cursor.pos {
            let mut sfx: Vec<char> = Vec::new();
            push_all(&mut sfx, suffix);
            return Err(TagError::Unmatched(true, raw_chars(), sfx));
        }
        if cursor.starts_with(marker.as_slice()) {
            let mut value: Vec<char> = Vec::new();
            push_range(&mut value, cursor.src, start, cursor.pos);
            cursor.pos = cursor.pos + marker.len();
            let raw = raw_chars();
            let mut tag = new_tag(raw.as_slice(), suffix);
            tag.value = string_of(value.as_slice());
            return Ok(tag);
        }
        cursor.pos = cursor.pos + 1;
    }
}

/// Reads a whole tag at the cursor, its nested tags included.
fn parse_tag(cursor: &mut Cursor) -> (r: Result<Tag, TagError>)
    requires
        old(cursor).pos <= old(cursor).src@.len(),
    ensures
        final(cursor).src == old(cursor).src,
        final(cursor).pos <= final(cursor).src@.len(),
        match spec_parse_tag(old(cursor).src@, old(cursor).pos as int) {
            Ok((t, p)) => r is Ok && tag_view(r->Ok_0) == t && final(cursor).pos == p,
            Err(e) => r is Err && r->Err_0@ == e,
        },
        r is Ok ==> old(cursor).pos < final(cursor).pos,
        r is Err ==> error_in_bounds(r->Err_0@, old(cursor).src@.len() as int),
    decreases old(cursor).src@.len() - old(cursor).pos,
{
    let ghost s = cursor.src@;
    let ghost p0 = cursor.pos as int;
    proof {
        lemma_read_head(s, p0, false);
    }
    let (name, suffix) = cursor.read_open_tag()?;
    let raw = raw_chars();
    if chars_eq(name.as_slice(), raw.as_slice()) {
        if suffix.len() == 0 {
            return Err(TagError::RawNeedsSuffix(cursor.pos));
        }
        return parse_raw_tag(cursor, suffix.as_slice());
    }
    let mut value: Vec<char> = Vec::new();
    let mut children: Vec<Tag> = Vec::new();
    let close = close_start();
    assert(tags_view(children@) =~= Seq::<SpecTag>::empty());
    loop
        invariant
            cursor.src == old(cursor).src,
            cursor.src@ == s,
            s == old(cursor).src@,
            p0 == old(cursor).pos,
            p0 < cursor.pos <= s.len(),
            close@ == seq!['<', '/'],
            spec_parse_tag(s, p0) == spec_body(
                s,
                cursor.pos as int,
                name@,
                suffix@,
                value@,
                tags_view(children@),
            ),
        decreases s.len() - cursor.pos,
    {
        if !cursor.has_remaining() {
            return Err(TagError::Unmatched(true, name, suffix));
        }
        if cursor.starts_with(close.as_slice()) {
            let saved = cursor.pos;
            proof {
                lemma_read_head(s, saved as int, true);
            }
            let (cn, cs) = cursor.read_close_tag()?;
            if chars_eq(cn.as_slice(), name.as_slice()) && chars_eq(cs.as_slice(), suffix.as_slice()) {
                let (a, b) = trim_bounds(value.as_slice(), 0, value.len());
                assert(value@.subrange(0, value@.len() as int) =~= value@);
                let mut trimmed: Vec<char> = Vec::new();
                push_range(&mut trimmed, value.as_slice(), a, b);
                return Ok(
                    Tag {
                        name: string_of(name.as_slice()),
                        suffix: string_of(suffix.as_slice()),
                        value: string_of(trimmed.as_slice()),
                        children,
                    },
                );
            }
            cursor.pos = saved;
            proof {
                lemma_scan_while(s, saved as int, not_pred('>'));
            }
            let text = cursor.read_until_gt();
            push_all(&mut value, text.as_slice());
        } else if cursor.peek() == Some('<') {
            let child = parse_tag(cursor)?;
            proof {
                lemma_tags_view_push(children@, child);
            }
            children.push(child);
        } else {
            proof {
                lemma_scan_while(s, cursor.pos as int, not_pred('<'));
            }
            let text = cursor.read_text();
            push_all(&mut value, text.as_slice());
        }
    }
}

/// `<name suffix>` or `</name suffix>`.
fn tag_display(open: bool, name: &[char], suffix: &[char]) -> (r: Vec<char>)
    ensures
        r@ == tag_display_spec(open, name@, suffix@),
{
    let mut out: Vec<char> = Vec::new();
    out.push('<');
    if !open {
        out.push('/');
    }
    push_all(&mut out, name);
    if suffix.len() != 0 {
        out.push(' ');
        push_all(&mut out, suffix);
    }
    out.push('>');
    assert(out@ =~= tag_display_spec(open, name@, suffix@));
    out
}

/// The message that `parse` reports for a failure.
fn error_text(src: &[char], e: &TagError) -> (r: String)
    requires
        error_in_bounds(e@, src@.len() as int),
    ensures
        r@ == error_message(src@, e@),
{
    let mut out: Vec<char> = Vec::new();
    match e {
        TagError::Expected(ch, p) => {
            push_str(&mut out, "Expected '");
            out.push(*ch);
            push_str(&mut out, "' at position ");
            push_decimal(&mut out, byte_offset(src, *p));
            push_str(&mut out, ", found ");
            push_option_char_debug(&mut out, peek_lead(src, *p));
            assert(out@ =~= error_message(src@, e@));
        },
        TagError::ExpectedName(p) => {
            push_str(&mut out, "Expected tag name at position ");
            push_decimal(&mut out, byte_offset(src, *p));
            push_str(&mut out, ", found ");
            push_option_char_debug(&mut out, peek_lead(src, *p));
            assert(out@ =~= error_message(src@, e@));
        },
        TagError::RawNeedsSuffix(p) => {
            push_str(&mut out, "<raw> tag requires a suffix (e.g. <raw EOF>) at position ");
            push_decimal(&mut out, byte_offset(src, *p));
            assert(out@ =~= error_message(src@, e@));
        },
        TagError::Unmatched(open, name, suffix) => {
            push_str(&mut out, "Unmatched ");
            let d = tag_display(*open, name.as_slice(), suffix.as_slice());
            push_all(&mut out, d.as_slice());
            push_str(&mut out, " tag");
            assert(out@ =~= error_message(src@, e@));
        },
    }
    string_of(out.as_slice())
}

fn peek_lead(src: &[char], p: usize) -> (r: Option<char>)
    ensures
        r == peek_at(src@, p as int),
{
    if p < src.len() {
        Some(lead_char_exec(src[p]))
    } else {
        None
    }
}

/// Parses a document into a `root` tag whose children are the top-level
/// tags and whose value is the top-level text that is not only whitespace.
/// A close tag at the top level, an open tag that is never closed, a `<raw>`
/// tag without a suffix and malformed tags are errors, reported with their
/// byte position in the input.
pub fn parse(input: &str) -> (r: Result<Tag, String>)
    ensures
        match spec_parse(input@) {
            Ok(t) => r is Ok && tag_view(r->Ok_0) == t,
            Err(e) => r is Err && r->Err_0@ == error_message(input@, e),
        },
{
    let chars = chars_of(input);
    let ghost s = chars@;
    let mut cursor = Cursor::new(chars.as_slice());
    let mut value: Vec<char> = Vec::new();
    let mut children: Vec<Tag> = Vec::new();
    let close = close_start();
    assert(tags_view(children@) =~= Seq::<SpecTag>::empty());
    loop
        invariant
            cursor.src@ == s,
            s == input@,
            chars@ == s,
            cursor.pos <= s.len(),
            close@ == seq!['<', '/'],
            spec_parse(s) == spec_root(s, cursor.pos as int, value@, tags_view(children@)),
        decreases s.len() - cursor.pos,
    {
        let ghost p = cursor.pos as int;
        cursor.skip_whitespace();
        proof {
            lemma_scan_while(s, p, ws_pred());
        }
        if !cursor.has_remaining() {
            let mut root: Vec<char> = Vec::new();
            root.push('r');
            root.push('o');
            root.push('o');
            root.push('t');
            assert(root@ =~= root_name());
            let empty: Vec<char> = Vec::new();
            let t = Tag {
                name: string_of(root.as_slice()),
                suffix: string_of(empty.as_slice()),
                value: string_of(value.as_slice()),
                children,
            };
            return Ok(t);
        }
        if cursor.starts_with(close.as_slice()) {
            proof {
                lemma_read_head(s, cursor.pos as int, true);
            }
            match cursor.read_close_tag() {
                Ok((n, sf)) => {
                    let e = TagError::Unmatched(false, n, sf);
                    return Err(error_text(chars.as_slice(), &e));
                },
                Err(e) => {
                    return Err(error_text(chars.as_slice(), &e));
                },
            }
        }
        if cursor.peek() == Some('<') {
            match parse_tag(&mut cursor) {
                Ok(child) => {
                    proof {
                        lemma_tags_view_push(children@, child);
                    }
                    children.push(child);
                },
                Err(e) => {
                    return Err(error_text(chars.as_slice(), &e));
                },
            }
        } else {
            proof {
                lemma_scan_while(s, cursor.pos as int, not_pred('<'));
            }
            let text = cursor.read_text();
            let (a, b) = trim_bounds(text.as_slice(), 0, text.len());
            assert(text@.subrange(0, text@.len() as int) =~= text@);
            if a != b {
                push_all(&mut value, text.as_slice());
            } else {
                assert(trim(text@).len() == 0);
            }
        }
    }
}


// ===================================================================
// Rendering, and what parsing gives back of it
// ===================================================================

/// A tag written out: its open tag, its text, its children and its close
/// tag; a `raw` tag holds its text verbatim up to `</raw SUFFIX>`.
pub open spec fn render_tag(t: SpecTag) -> Seq<char>
    decreases t,
{
    if t.name == raw_name() {
        tag_display_spec(true, t.name, t.suffix) + t.value + tag_display_spec(false, t.name, t.suffix)
    } else {
        tag_display_spec(true, t.name, t.suffix) + t.value + render_tags(t.children)
            + tag_display_spec(false, t.name, t.suffix)
    }
}

/// Tags written out one after the other.
pub open spec fn render_tags(ts: Seq<SpecTag>) -> Seq<char>
    decreases ts,
{
    if ts.len() == 0 {
        Seq::empty()
    } else {
        render_tag(ts[0]) + render_tags(ts.drop_first())
    }
}

/// A name that the parser reads back: name characters only, at least one.
pub open spec fn name_ok(n: Seq<char>) -> bool {
    n.len() > 0 && forall|i: int| 0 <= i < n.len() ==> is_name_char(#[trigger] n[i])
}

/// A suffix that the parser reads back: trimmed, without `>`.
pub open spec fn suffix_ok(sf: Seq<char>) -> bool {
    trim(sf) == sf && forall|i: int| 0 <= i < sf.len() ==> #[trigger] sf[i] != '>'
}

/// A text that the parser reads back: trimmed, without `<`.
pub open spec fn text_ok(v: Seq<char>) -> bool {
    trim(v) == v && forall|i: int| 0 <= i < v.len() ==> #[trigger] v[i] != '<'
}

/// A tag that parsing its rendering gives back: its name, suffix and text
/// read back, and its children too; a `raw` tag has a suffix, no
/// children, and a text in which its close marker first occurs where the
/// text ends.
pub open spec fn well_formed_tag(t: SpecTag) -> bool
    decreases t,
{
    &&& name_ok(t.name)
    &&& suffix_ok(t.suffix)
    &&& if t.name == raw_name() {
        &&& t.suffix.len() > 0
        &&& t.children.len() == 0
        &&& find_from(t.value + raw_marker(t.suffix), 0, raw_marker(t.suffix)) == Some(
            t.value.len() as int,
        )
    } else {
        &&& text_ok(t.value)
        &&& well_formed_tags(t.children)
    }
}

/// Tags that are each well formed.
pub open spec fn well_formed_tags(ts: Seq<SpecTag>) -> bool
    decreases ts,
{
    if ts.len() == 0 {
        true
    } else {
        well_formed_tag(ts[0]) && well_formed_tags(ts.drop_first())
    }
}

proof fn lemma_wf_tags_index(ts: Seq<SpecTag>, k: int)
    requires
        well_formed_tags(ts),
        0 <= k <= ts.len(),
    ensures
        well_formed_tags(ts.skip(k)),
        k < ts.len() ==> well_formed_tag(ts[k]),
    decreases k,
{
    if k > 0 {
        lemma_wf_tags_index(ts.drop_first(), k - 1);
        assert(ts.drop_first().skip(k - 1) =~= ts.skip(k));
    } else {
        assert(ts.skip(0) =~= ts);
    }
}

proof fn lemma_scan_exact(s: Seq<char>, p: int, k: int, f: spec_fn(char) -> bool)
    requires
        0 <= p,
        0 <= k,
        p + k <= s.len(),
        forall|i: int| p <= i < p + k ==> f(#[trigger] s[i]),
        p + k == s.len() || !f(s[p + k]),
    ensures
        scan_while(s, p, f) == p + k,
    decreases k,
{
    if k > 0 {
        lemma_scan_exact(s, p + 1, k - 1, f);
    }
}

proof fn lemma_sub_split(s: Seq<char>, p: int, a: Seq<char>, b: Seq<char>)
    requires
        0 <= p,
        p + a.len() + b.len() <= s.len(),
        s.subrange(p, p + a.len() + b.len()) == a + b,
    ensures
        s.subrange(p, p + a.len()) == a,
        s.subrange(p + a.len(), p + a.len() + b.len()) == b,
{
    assert(s.subrange(p, p + a.len()) =~= (a + b).subrange(0, a.len() as int));
    assert(s.subrange(p + a.len(), p + a.len() + b.len()) =~= (a + b).subrange(
        a.len() as int,
        (a.len() + b.len()) as int,
    ));
}

/// Reading an open or close tag that was written out gives back its name
/// and suffix.
proof fn lemma_read_head_rt(s: Seq<char>, p: int, open: bool, name: Seq<char>, suffix: Seq<char>)
    requires
        name_ok(name),
        suffix_ok(suffix),
        0 <= p,
        p + tag_display_spec(open, name, suffix).len() <= s.len(),
        s.subrange(p, p + tag_display_spec(open, name, suffix).len()) == tag_display_spec(
            open,
            name,
            suffix,
        ),
    ensures
        read_head(s, p, !open) == Ok::<(Seq<char>, Seq<char>, int), SpecError>(
            (name, suffix, p + tag_display_spec(open, name, suffix).len()),
        ),
{
    let d = tag_display_spec(open, name, suffix);
    let q = if open {
        p + 1
    } else {
        p + 2
    };
    let hl = if open {
        1int
    } else {
        2int
    };
    assert(s[p] == d[0]);
    if !open {
        assert(s[p + 1] == d[1]);
    }
    assert forall|i: int| q <= i < q + name.len() implies is_name_char(#[trigger] s[i]) by {
        assert(s[i] == d[i - p]);
        assert(d[i - p] == name[i - q]);
    }
    let e = q + name.len();
    assert(s[e] == d[e - p]);
    lemma_scan_exact(s, q, name.len() as int, name_pred());
    assert(s.subrange(q, e) =~= name) by {
        assert forall|i: int| 0 <= i < name.len() implies s.subrange(q, e)[i] == name[i] by {
            assert(s[q + i] == d[q + i - p]);
        }
    }
    if suffix.len() == 0 {
        assert(s[e] == '>');
        lemma_scan_exact(s, e, 0, not_pred('>'));
        assert(s.subrange(e, e) =~= Seq::<char>::empty());
        lemma_trim_empty();
        assert(trim(s.subrange(e, e)) == suffix);
        assert(e + 1 == p + d.len());
    } else {
        let g = e + 1 + suffix.len();
        assert forall|i: int| e <= i < g implies not_pred('>')(#[trigger] s[i]) by {
            assert(s[i] == d[i - p]);
            if i > e {
                assert(d[i - p] == suffix[i - e - 1]);
            }
        }
        assert(s[g] == d[g - p]);
        lemma_scan_exact(s, e, 1 + suffix.len() as int, not_pred('>'));
        assert(s[e] == ' ');
        assert(is_ascii_ws(s[e]));
        lemma_trim_skip_ws(s, e, e + 1, g);
        assert(s.subrange(e + 1, g) =~= suffix) by {
            assert forall|i: int| 0 <= i < suffix.len() implies s.subrange(e + 1, g)[i] == suffix[i] by {
                assert(s[e + 1 + i] == d[e + 1 + i - p]);
            }
        }
        assert(trim(s.subrange(e, g)) == suffix);
        assert(g + 1 == p + d.len());
    }
}

/// Parsing a tag that was written out gives it back, and the position
/// after it, whatever follows it.
pub proof fn lemma_parse_tag_rt(s: Seq<char>, p: int, t: SpecTag)
    requires
        well_formed_tag(t),
        0 <= p,
        p + render_tag(t).len() <= s.len(),
        s.subrange(p, p + render_tag(t).len()) == render_tag(t),
    ensures
        spec_parse_tag(s, p) == Ok::<(SpecTag, int), SpecError>((t, p + render_tag(t).len())),
    decreases t, 1int, 0int,
{
    let open = tag_display_spec(true, t.name, t.suffix);
    let close = tag_display_spec(false, t.name, t.suffix);
    let n = render_tag(t).len();
    if t.name == raw_name() {
        assert(render_tag(t) =~= open + (t.value + close));
        lemma_sub_split(s, p, open, t.value + close);
        lemma_read_head_rt(s, p, true, t.name, t.suffix);
        let p1 = p + open.len();
        assert(close =~= raw_marker(t.suffix));
        lemma_sub_split(s, p1, t.value, close);
        lemma_find_from_window(s, p1, t.value + close, 0, close);
        assert(s.subrange(p1, p1 + t.value.len()) == t.value);
        assert(t.children =~= Seq::<SpecTag>::empty());
    } else {
        let rest = t.value + (render_tags(t.children) + close);
        assert(render_tag(t) =~= open + rest);
        lemma_sub_split(s, p, open, rest);
        lemma_read_head_rt(s, p, true, t.name, t.suffix);
        let p1 = p + open.len();
        lemma_sub_split(s, p1, t.value, render_tags(t.children) + close);
        let p2 = p1 + t.value.len();
        assert(t.children.take(0) =~= Seq::<SpecTag>::empty());
        assert(t.children.skip(0) =~= t.children);
        lemma_body_rt(s, p2, t, 0);
        if t.value.len() > 0 {
            assert(s[p1] == t.value[0]);
            assert(!starts_with_at(s, p1, seq!['<', '/'])) by {
                if starts_with_at(s, p1, seq!['<', '/']) {
                    assert(s.subrange(p1, p1 + 2)[0] == s[p1]);
                }
            }
            lemma_first_char_lt(s, p2, t, 0);
            assert forall|i: int| p1 <= i < p2 implies not_pred('<')(#[trigger] s[i]) by {
                assert(s[i] == t.value[i - p1]);
            }
            lemma_scan_exact(s, p1, t.value.len() as int, not_pred('<'));
            assert(Seq::<char>::empty() + s.subrange(p1, p2) =~= t.value);
        } else {
            assert(p1 == p2);
        }
        assert(trim(t.value) == t.value);
    }
}

/// What follows a tag's text starts with `<`.
#[verifier::spinoff_prover]
#[verifier::rlimit(40)]
proof fn lemma_first_char_lt(s: Seq<char>, p: int, t: SpecTag, k: int)
    requires
        t.name != raw_name(),
        0 <= k <= t.children.len(),
        0 <= p,
        p + render_tags(t.children.skip(k)).len() + tag_display_spec(false, t.name, t.suffix).len()
            <= s.len(),
        s.subrange(
            p,
            p + render_tags(t.children.skip(k)).len() + tag_display_spec(false, t.name, t.suffix).len(),
        ) == render_tags(t.children.skip(k)) + tag_display_spec(false, t.name, t.suffix),
    ensures
        p < s.len() && s[p] == '<',
{
    let rest = render_tags(t.children.skip(k)) + tag_display_spec(false, t.name, t.suffix);
    if k < t.children.len() {
        assert(render_tags(t.children.skip(k)) == render_tag(t.children.skip(k)[0]) + render_tags(
            t.children.skip(k).drop_first(),
        ));
        let c = t.children.skip(k)[0];
        assert(render_tag(c)[0] == '<');
    }
    assert(rest[0] == s[p]);
}

/// Reading the children and the close tag of a tag that was written out,
/// from its `k`-th child on, gives the tag back.
proof fn lemma_body_rt(s: Seq<char>, p: int, t: SpecTag, k: int)
    requires
        well_formed_tag(t),
        t.name != raw_name(),
        0 <= k <= t.children.len(),
        0 <= p,
        p + render_tags(t.children.skip(k)).len() + tag_display_spec(false, t.name, t.suffix).len()
            <= s.len(),
        s.subrange(
            p,
            p + render_tags(t.children.skip(k)).len() + tag_display_spec(false, t.name, t.suffix).len(),
        ) == render_tags(t.children.skip(k)) + tag_display_spec(false, t.name, t.suffix),
    ensures
        spec_body(s, p, t.name, t.suffix, t.value, t.children.take(k)) == Ok::<(SpecTag, int), SpecError>(
            (
                SpecTag { name: t.name, suffix: t.suffix, value: trim(t.value), children: t.children },
                p + render_tags(t.children.skip(k)).len() + tag_display_spec(false, t.name, t.suffix).len(),
            ),
        ),
    decreases t, 0int, t.children.len() - k,
{
    let close = tag_display_spec(false, t.name, t.suffix);
    let rest = t.children.skip(k);
    lemma_wf_tags_index(t.children, k);
    if k == t.children.len() {
        assert(rest =~= Seq::<SpecTag>::empty());
        assert(render_tags(rest) =~= Seq::<char>::empty());
        assert(s.subrange(p, p + close.len()) == close) by {
            assert(Seq::<char>::empty() + close =~= close);
        }
        assert(starts_with_at(s, p, seq!['<', '/'])) by {
            assert(s.subrange(p, p + 2) =~= seq!['<', '/']) by {
                assert(s[p] == close[0]);
                assert(s[p + 1] == close[1]);
            }
        }
        lemma_read_head_rt(s, p, false, t.name, t.suffix);
        assert(t.children.take(k) =~= t.children);
    } else {
        let c = t.children[k];
        assert(rest[0] == c);
        assert(render_tags(rest) == render_tag(c) + render_tags(rest.drop_first()));
        assert(rest.drop_first() =~= t.children.skip(k + 1));
        assert(render_tag(c) + (render_tags(t.children.skip(k + 1)) + close) =~= render_tags(rest) + close);
        lemma_sub_split(s, p, render_tag(c), render_tags(t.children.skip(k + 1)) + close);
        assert(decreases_to!(t => t.children));
        assert(decreases_to!(t.children => t.children[k]));
        lemma_parse_tag_rt(s, p, c);
        let p2 = p + render_tag(c).len();
        assert(render_tag(c)[0] == '<' && render_tag(c)[1] == c.name[0]);
        assert(s[p] == '<');
        assert(s[p + 1] == c.name[0]);
        assert(!starts_with_at(s, p, seq!['<', '/'])) by {
            if starts_with_at(s, p, seq!['<', '/']) {
                assert(s.subrange(p, p + 2)[1] == s[p + 1]);
            }
        }
        lemma_body_rt(s, p2, t, k + 1);
        assert(t.children.take(k).push(c) =~= t.children.take(k + 1));
    }
}

/// What a parse gives back of a rendering: writing out well-formed tags
/// one after the other and parsing the text gives a `root` tag with no
/// text and exactly those tags as children.
pub proof fn law_parse_rendered(ts: Seq<SpecTag>)
    requires
        well_formed_tags(ts),
    ensures
        spec_parse(render_tags(ts)) == Ok::<SpecTag, SpecError>(
            SpecTag { name: root_name(), suffix: Seq::empty(), value: Seq::empty(), children: ts },
        ),
{
    let s = render_tags(ts);
    assert(s.subrange(0, s.len() as int) =~= s);
    assert(ts.take(0) =~= Seq::<SpecTag>::empty());
    assert(ts.skip(0) =~= ts);
    lemma_root_rt(s, 0, ts, 0);
}

proof fn lemma_root_rt(s: Seq<char>, p: int, ts: Seq<SpecTag>, k: int)
    requires
        well_formed_tags(ts),
        0 <= k <= ts.len(),
        0 <= p <= s.len(),
        s.subrange(p, s.len() as int) == render_tags(ts.skip(k)),
    ensures
        spec_root(s, p, Seq::empty(), ts.take(k)) == Ok::<SpecTag, SpecError>(
            SpecTag { name: root_name(), suffix: Seq::empty(), value: Seq::empty(), children: ts },
        ),
    decreases ts.len() - k,
{
    lemma_wf_tags_index(ts, k);
    let rest = ts.skip(k);
    if k == ts.len() {
        assert(rest =~= Seq::<SpecTag>::empty());
        assert(s.subrange(p, s.len() as int).len() == 0);
        lemma_scan_exact(s, p, 0, ws_pred());
        assert(ts.take(k) =~= ts);
    } else {
        let c = ts[k];
        assert(rest[0] == c);
        assert(render_tags(rest) == render_tag(c) + render_tags(rest.drop_first()));
        assert(rest.drop_first() =~= ts.skip(k + 1));
        assert(render_tag(c)[0] == '<' && render_tag(c)[1] == c.name[0]);
        assert(s[p] == render_tags(rest)[0]);
        assert(s[p + 1] == render_tags(rest)[1]);
        lemma_scan_exact(s, p, 0, ws_pred());
        assert(!starts_with_at(s, p, seq!['<', '/'])) by {
            if starts_with_at(s, p, seq!['<', '/']) {
                assert(s.subrange(p, p + 2)[1] == s[p + 1]);
            }
        }
        lemma_sub_split(s, p, render_tag(c), render_tags(ts.skip(k + 1)));
        lemma_parse_tag_rt(s, p, c);
        let p2 = p + render_tag(c).len();
        assert(s.subrange(p2, s.len() as int) =~= render_tags(ts.skip(k + 1)));
        lemma_root_rt(s, p2, ts, k + 1);
        assert(ts.take(k).push(c) =~= ts.take(k + 1));
    }
}

// ===================================================================
// Reading tags
// ===================================================================

/// What a `<raw SUFFIX>` tag holds: everything up to the FIRST
/// `</raw SUFFIX>` after it, so its value never holds that marker; the tag
/// is unmatched exactly when no marker follows.
pub proof fn law_raw_first_marker(s: Seq<char>, start: int, suffix: Seq<char>)
    requires
        0 <= start <= s.len(),
    ensures
        spec_raw(s, start, suffix) is Ok <==> exists|k: int|
            start <= k && #[trigger] starts_with_at(s, k, raw_marker(suffix)),
        spec_raw(s, start, suffix) is Err ==> spec_raw(s, start, suffix) == Err::<(SpecTag, int), SpecError>(
            SpecError::Unmatched(true, raw_name(), suffix),
        ),
        spec_raw(s, start, suffix) matches Ok((t, end)) ==> {
            let q = start + t.value.len();
            &&& t.name == raw_name() && t.suffix == suffix && t.children.len() == 0
            &&& q <= s.len() && t.value == s.subrange(start, q)
            &&& starts_with_at(s, q, raw_marker(suffix))
            &&& end == q + raw_marker(suffix).len()
            &&& forall|j: int| start <= j < q ==> !#[trigger] starts_with_at(s, j, raw_marker(suffix))
            &&& forall|j: int| 0 <= j ==> !#[trigger] starts_with_at(t.value, j, raw_marker(suffix))
        },
{
    let m = raw_marker(suffix);
    lemma_find_from_first(s, start, m);
    match find_from(s, start, m) {
        Some(q) => {
            let v = s.subrange(start, q);
            assert(v.len() == q - start);
            assert forall|j: int| 0 <= j implies !#[trigger] starts_with_at(v, j, m) by {
                if starts_with_at(v, j, m) {
                    assert(s.subrange(start + j, start + j + m.len()) =~= v.subrange(j, j + m.len()));
                    assert(starts_with_at(s, start + j, m));
                }
            }
        },
        None => {},
    }
}

/// A tag named `raw` with a suffix is read as a raw tag: its value runs
/// from after its open tag to the first `</raw SUFFIX>`.
pub proof fn law_raw_tag_parse(s: Seq<char>, p: int)
    requires
        read_head(s, p, false) matches Ok((name, suffix, _)) && name == raw_name() && suffix.len() > 0,
    ensures
        spec_parse_tag(s, p) == spec_raw(s, read_head(s, p, false)->Ok_0.2, read_head(s, p, false)->Ok_0.1),
{
}

/// The index of the first tag named `name` at or after `i`.
pub open spec fn child_index(cs: Seq<SpecTag>, name: Seq<char>, i: int) -> Option<int>
    decreases cs.len() - i,
{
    if i < 0 || i >= cs.len() {
        None
    } else if cs[i].name == name {
        Some(i)
    } else {
        child_index(cs, name, i + 1)
    }
}

pub open spec fn named(name: Seq<char>) -> spec_fn(SpecTag) -> bool {
    |c: SpecTag| c.name == name
}

/// The text of a tag: its trimmed value, or when that is empty the text of
/// its first `raw` child, or nothing.
pub open spec fn tag_text(t: SpecTag) -> Seq<char>
    decreases t,
{
    let v = trim(t.value);
    if v.len() > 0 {
        v
    } else {
        match child_index(t.children, raw_name(), 0) {
            Some(i) => if 0 <= i < t.children.len() {
                tag_text(t.children[i])
            } else {
                Seq::empty()
            },
            None => Seq::empty(),
        }
    }
}

pub proof fn lemma_child_index(cs: Seq<SpecTag>, name: Seq<char>, i: int)
    requires
        0 <= i,
    ensures
        child_index(cs, name, i) matches Some(k) ==> i <= k < cs.len() && cs[k].name == name
            && forall|j: int| i <= j < k ==> cs[j].name != name,
        child_index(cs, name, i) is None ==> forall|j: int| i <= j < cs.len() ==> cs[j].name
            != name,
    decreases cs.len() - i,
{
    if i < cs.len() && cs[i].name != name {
        lemma_child_index(cs, name, i + 1);
    }
}

impl Tag {
    /// The first child named `name`.
    pub fn get(&self, name: &str) -> (r: Option<&Tag>)
        ensures
            r == (match child_index(tags_view(self.children@), name@, 0) {
                Some(i) => Some(&self.children@[i]),
                None => None,
            }),
    {
        let ghost cs = tags_view(self.children@);
        proof {
            lemma_tags_view_index(self.children@);
        }
        let mut i: usize = 0;
        while i < self.children.len()
            invariant
                cs == tags_view(self.children@),
                cs.len() == self.children@.len(),
                forall|j: int| 0 <= j < cs.len() ==> #[trigger] cs[j] == tag_view(self.children@[j]),
                i <= self.children@.len(),
                child_index(cs, name@, 0) == child_index(cs, name@, i as int),
            decreases self.children@.len() - i,
        {
            let c = &self.children[i];
            assert(cs[i as int].name == c.name@);
            if str_eq(c.name.as_str(), name) {
                return Some(c);
            }
            i = i + 1;
        }
        None
    }

    /// All children named `name`, in order.
    pub fn get_all(&self, name: &str) -> (r: Vec<&Tag>)
        ensures
            r@.map_values(|t: &Tag| tag_view(*t)) == tags_view(self.children@).filter(
                named(name@),
            ),
    {
        let ghost cs = tags_view(self.children@);
        proof {
            lemma_tags_view_index(self.children@);
        }
        let mut out: Vec<&Tag> = Vec::new();
        let mut i: usize = 0;
        assert(cs.take(0).filter(named(name@)) =~= Seq::<SpecTag>::empty()) by {
            reveal_with_fuel(Seq::<_>::filter, 1);
        }
        while i < self.children.len()
            invariant
                cs == tags_view(self.children@),
                cs.len() == self.children@.len(),
                forall|j: int| 0 <= j < cs.len() ==> #[trigger] cs[j] == tag_view(self.children@[j]),
                i <= self.children@.len(),
                out@.map_values(|t: &Tag| tag_view(*t)) == cs.take(i as int).filter(named(name@)),
            decreases self.children@.len() - i,
        {
            let c = &self.children[i];
            assert(cs.take(i + 1).drop_last() =~= cs.take(i as int));
            assert(cs.take(i + 1).last() == cs[i as int]);
            reveal_with_fuel(Seq::<_>::filter, 1);
            let ghost before = out@;
            if str_eq(c.name.as_str(), name) {
                out.push(c);
                assert(out@.map_values(|t: &Tag| tag_view(*t)) =~= before.map_values(
                    |t: &Tag| tag_view(*t),
                ).push(tag_view(*c)));
            }
            i = i + 1;
        }
        assert(cs.take(cs.len() as int) =~= cs);
        out
    }

    /// The text of the tag: its trimmed value, or, when that is empty, the
    /// text of its first `raw` child, or the empty string.
    pub fn as_str(&self) -> (r: &str)
        ensures
            r@ == tag_text(tag_view(*self)),
        decreases self,
    {
        let value = chars_of(self.value.as_str());
        let (a, b) = trim_bounds(value.as_slice(), 0, value.len());
        assert(value@.subrange(0, value@.len() as int) =~= value@);
        if a < b {
            return self.value.as_str().substring_char(a, b);
        }
        proof {
            reveal_strlit("raw");
            assert("raw"@ =~= raw_name());
            lemma_tags_view_index(self.children@);
        }
        match self.get("raw") {
            Some(x) => {
                proof {
                    let i = child_index(tags_view(self.children@), raw_name(), 0)->Some_0;
                    lemma_child_index(tags_view(self.children@), raw_name(), 0);
                    assert(decreases_to!(self => self.children));
                    assert(decreases_to!(self.children => self.children@));
                    assert(decreases_to!(self.children@ => self.children@[i]));
                }
                x.as_str()
            },
            None => {
                proof {
                    reveal_strlit("");
                }
                ""
            },
        }
    }

    /// Whether the text is `true`, `1` or `yes`.
    pub fn as_bool(&self) -> (r: bool)
        ensures
            r == (tag_text(tag_view(*self)) == "true"@ || tag_text(tag_view(*self)) == "1"@
                || tag_text(tag_view(*self)) == "yes"@),
    {
        let s = self.as_str();
        str_eq(s, "true") || str_eq(s, "1") || str_eq(s, "yes")
    }

    /// The text read as an `i64`, when it is one.
    pub fn as_i64(&self) -> (r: Option<i64>)
        ensures
            r == parse_i64_spec(tag_text(tag_view(*self))),
    {
        let s = chars_of(self.as_str());
        parse_i64(s.as_slice())
    }
}

// ===================================================================
// Joined documents
// ===================================================================

proof fn lemma_trim_start_blank(s: Seq<char>)
    ensures
        trim_start(s).len() == 0 <==> forall|i: int| 0 <= i < s.len() ==> is_ws(#[trigger] s[i]),
        trim_start(s).len() > 0 ==> !is_ws(trim_start(s)[0]),
    decreases s.len(),
{
    if s.len() > 0 {
        let t = s.drop_first();
        lemma_trim_start_blank(t);
        if is_ws(s[0]) {
            assert forall|i: int| 1 <= i < s.len() implies #[trigger] s[i] == t[i - 1] by {}
            if forall|i: int| 0 <= i < t.len() ==> is_ws(#[trigger] t[i]) {
                assert forall|i: int| 0 <= i < s.len() implies is_ws(#[trigger] s[i]) by {
                    if i > 0 {
                        assert(s[i] == t[i - 1]);
                    }
                }
            } else {
                let j = choose|j: int| 0 <= j < t.len() && !is_ws(#[trigger] t[j]);
                assert(s[j + 1] == t[j]);
            }
        }
    }
}

proof fn lemma_trim_end_keeps(t: Seq<char>)
    requires
        t.len() > 0,
        !is_ws(t[0]),
    ensures
        trim_end(t).len() > 0,
    decreases t.len(),
{
    if t.len() > 1 && is_ws(t.last()) {
        assert(t.drop_last()[0] == t[0]);
        lemma_trim_end_keeps(t.drop_last());
    }
}

/// A text trims to nothing exactly when it is all whitespace.
pub proof fn lemma_trim_blank(s: Seq<char>)
    ensures
        trim(s).len() == 0 <==> forall|i: int| 0 <= i < s.len() ==> is_ws(#[trigger] s[i]),
{
    lemma_trim_start_blank(s);
    if trim_start(s).len() > 0 {
        lemma_trim_end_keeps(trim_start(s));
    }
}

/// `u` holds `s` at position `off`.
pub open spec fn holds_at(u: Seq<char>, off: int, s: Seq<char>) -> bool {
    0 <= off && off + s.len() <= u.len() && u.subrange(off, off + s.len()) == s
}

proof fn lemma_holds_at(u: Seq<char>, off: int, s: Seq<char>)
    requires
        holds_at(u, off, s),
    ensures
        forall|i: int| 0 <= i < s.len() ==> #[trigger] s[i] == u[off + i],
        forall|x: int, y: int|
            0 <= x <= y <= s.len() ==> #[trigger] s.subrange(x, y) == u.subrange(off + x, off + y),
{
    assert forall|i: int| 0 <= i < s.len() implies #[trigger] s[i] == u[off + i] by {
        assert(u.subrange(off, off + s.len())[i] == u[off + i]);
    }
    assert forall|x: int, y: int| 0 <= x <= y <= s.len() implies #[trigger] s.subrange(x, y)
        == u.subrange(off + x, off + y) by {
        assert(u.subrange(off + x, off + y) =~= s.subrange(x, y));
    }
}

proof fn lemma_holds_prefix_suffix(a: Seq<char>, b: Seq<char>)
    ensures
        holds_at(a + b, 0, a),
        holds_at(a + b, a.len() as int, b),
{
    assert((a + b).subrange(0, a.len() as int) =~= a);
    assert((a + b).subrange(a.len() as int, (a.len() + b.len()) as int) =~= b);
}

/// A scan that stops inside `s` stops at the same place inside `u`.
proof fn lemma_scan_window(u: Seq<char>, off: int, s: Seq<char>, p: int, f: spec_fn(char) -> bool)
    requires
        holds_at(u, off, s),
        0 <= p <= s.len(),
        scan_while(s, p, f) < s.len(),
    ensures
        scan_while(u, off + p, f) == off + scan_while(s, p, f),
{
    lemma_holds_at(u, off, s);
    lemma_scan_while(s, p, f);
    let e = scan_while(s, p, f);
    assert forall|i: int| off + p <= i < off + e implies f(#[trigger] u[i]) by {
        assert(s[i - off] == u[off + (i - off)]);
        assert(f(s[i - off]));
    }
    assert(s[e] == u[off + e]);
    lemma_scan_exact(u, off + p, e - p, f);
}

/// A scan in the second part of a joined text.
proof fn lemma_scan_suffix(a: Seq<char>, b: Seq<char>, x: int, f: spec_fn(char) -> bool)
    requires
        0 <= x <= b.len(),
    ensures
        scan_while(a + b, a.len() + x, f) == a.len() + scan_while(b, x, f),
    decreases b.len() - x,
{
    if x < b.len() {
        assert((a + b)[a.len() + x] == b[x]);
        lemma_scan_suffix(a, b, x + 1, f);
    }
}

proof fn lemma_read_head_window(u: Seq<char>, off: int, s: Seq<char>, p: int, close: bool)
    requires
        holds_at(u, off, s),
        0 <= p <= s.len(),
        read_head(s, p, close) is Ok,
    ensures
        read_head(u, off + p, close) == Ok::<(Seq<char>, Seq<char>, int), SpecError>(
            (
                read_head(s, p, close)->Ok_0.0,
                read_head(s, p, close)->Ok_0.1,
                off + read_head(s, p, close)->Ok_0.2,
            ),
        ),
{
    lemma_holds_at(u, off, s);
    assert(s[p] == u[off + p]);
    let q = if close {
        p + 2
    } else {
        p + 1
    };
    if close {
        assert(s[p + 1] == u[off + p + 1]);
    }
    lemma_scan_while(s, q, name_pred());
    let e = name_end(s, q);
    lemma_scan_while(s, e, not_pred('>'));
    let g = scan_to(s, e, '>');
    lemma_scan_window(u, off, s, q, name_pred());
    lemma_scan_window(u, off, s, e, not_pred('>'));
    assert(s.subrange(q, e) == u.subrange(off + q, off + e));
    assert(s.subrange(e, g) == u.subrange(off + e, off + g));
}

proof fn lemma_raw_window(u: Seq<char>, off: int, s: Seq<char>, start: int, suffix: Seq<char>)
    requires
        holds_at(u, off, s),
        0 <= start <= s.len(),
        spec_raw(s, start, suffix) is Ok,
    ensures
        spec_raw(u, off + start, suffix) == Ok::<(SpecTag, int), SpecError>(
            (spec_raw(s, start, suffix)->Ok_0.0, off + spec_raw(s, start, suffix)->Ok_0.1),
        ),
{
    lemma_holds_at(u, off, s);
    let m = raw_marker(suffix);
    lemma_find_from_window(u, off, s, start, m);
    lemma_find_from_bounds(s, start, m);
    let q = find_from(s, start, m)->Some_0;
    assert(s.subrange(start, q) == u.subrange(off + start, off + q));
}

/// A tag read inside `s` is read the same inside a text that holds `s`.
proof fn lemma_tag_window(u: Seq<char>, off: int, s: Seq<char>, p: int)
    requires
        holds_at(u, off, s),
        0 <= p <= s.len(),
        spec_parse_tag(s, p) is Ok,
    ensures
        spec_parse_tag(u, off + p) == Ok::<(SpecTag, int), SpecError>(
            (spec_parse_tag(s, p)->Ok_0.0, off + spec_parse_tag(s, p)->Ok_0.1),
        ),
    decreases s.len() - p, 0int,
{
    assert(read_head(s, p, false) is Ok);
    lemma_read_head_window(u, off, s, p, false);
    lemma_read_head(s, p, false);
    let name = read_head(s, p, false)->Ok_0.0;
    let suffix = read_head(s, p, false)->Ok_0.1;
    let p1 = read_head(s, p, false)->Ok_0.2;
    if name == raw_name() {
        if suffix.len() > 0 {
            lemma_raw_window(u, off, s, p1, suffix);
        }
    } else {
        lemma_body_window(u, off, s, p1, name, suffix, Seq::empty(), Seq::empty());
    }
}

proof fn lemma_body_window(
    u: Seq<char>,
    off: int,
    s: Seq<char>,
    p: int,
    name: Seq<char>,
    suffix: Seq<char>,
    value: Seq<char>,
    children: Seq<SpecTag>,
)
    requires
        holds_at(u, off, s),
        0 <= p <= s.len(),
        spec_body(s, p, name, suffix, value, children) is Ok,
    ensures
        spec_body(u, off + p, name, suffix, value, children) == Ok::<(SpecTag, int), SpecError>(
            (
                spec_body(s, p, name, suffix, value, children)->Ok_0.0,
                off + spec_body(s, p, name, suffix, value, children)->Ok_0.1,
            ),
        ),
    decreases s.len() - p, 1int,
{
    lemma_holds_at(u, off, s);
    assert(p < s.len());
    assert(s[p] == u[off + p]);
    if starts_with_at(s, p, seq!['<', '/']) {
        assert(s.subrange(p, p + 2) == u.subrange(off + p, off + p + 2));
        assert(starts_with_at(u, off + p, seq!['<', '/']));
        lemma_read_head_window(u, off, s, p, true);
        let cn = read_head(s, p, true)->Ok_0.0;
        let cs = read_head(s, p, true)->Ok_0.1;
        if !(cn == name && cs == suffix) {
            lemma_scan_while(s, p, not_pred('>'));
            let e = scan_to(s, p, '>');
            if e >= s.len() {
                assert(until_gt_end(s, p) == s.len());
                assert(spec_body(s, s.len() as int, name, suffix, value + s.subrange(p, s.len() as int), children) is Err);
            }
            lemma_scan_window(u, off, s, p, not_pred('>'));
            let g = e + 1;
            assert(until_gt_end(s, p) == g);
            assert(until_gt_end(u, off + p) == off + g);
            assert(s.subrange(p, g) == u.subrange(off + p, off + g));
            lemma_body_window(u, off, s, g, name, suffix, value + s.subrange(p, g), children);
        }
    } else if s[p] == '<' {
        assert(spec_parse_tag(s, p) is Ok);
        assert(read_head(s, p, false) is Ok);
        lemma_read_head(s, p, false);
        assert(s.subrange(p, p + 2) == u.subrange(off + p, off + p + 2));
        assert(!starts_with_at(u, off + p, seq!['<', '/']));
        lemma_tag_window(u, off, s, p);
        let child = spec_parse_tag(s, p)->Ok_0.0;
        let p2 = spec_parse_tag(s, p)->Ok_0.1;
        if p < p2 <= s.len() {
            lemma_body_window(u, off, s, p2, name, suffix, value, children.push(child));
        }
    } else {
        lemma_scan_while(s, p, not_pred('<'));
        let t = scan_to(s, p, '<');
        if t >= s.len() {
            assert(spec_body(s, s.len() as int, name, suffix, value + s.subrange(p, s.len() as int), children) is Err);
        }
        lemma_scan_window(u, off, s, p, not_pred('<'));
        assert(s.subrange(p, t) == u.subrange(off + p, off + t));
        assert(!starts_with_at(u, off + p, seq!['<', '/']));
        lemma_body_window(u, off, s, t, name, suffix, value + s.subrange(p, t), children);
    }
}

/// The root's text appended from `p` on, given the text so far.
pub open spec fn root_text_step(value: Seq<char>, text: Seq<char>) -> Seq<char> {
    if trim(text).len() == 0 {
        value
    } else {
        value + text
    }
}

/// Reading the top level from `p` keeps the text and children read so far
/// in front of what it adds, and adds the same whatever those were.
proof fn lemma_root_acc(s: Seq<char>, p: int, v: Seq<char>, c: Seq<SpecTag>, c2: Seq<SpecTag>)
    requires
        spec_root(s, p, v, c) is Ok,
    ensures
        ({
            let t = spec_root(s, p, v, c)->Ok_0;
            &&& t.name == root_name() && t.suffix == Seq::<char>::empty()
            &&& t.children.len() >= c.len() && t.children.take(c.len() as int) == c
            &&& t.value.len() >= v.len()
            &&& spec_root(s, p, v, c2) == Ok::<SpecTag, SpecError>(
                SpecTag {
                    name: t.name,
                    suffix: t.suffix,
                    value: t.value,
                    children: c2 + t.children.skip(c.len() as int),
                },
            )
        }),
    decreases s.len() - p,
{
    lemma_scan_while(s, p, ws_pred());
    let q = skip_ws(s, p);
    let t = spec_root(s, p, v, c)->Ok_0;
    if q >= s.len() {
        assert(t.children == c);
        assert(c.skip(c.len() as int) =~= Seq::<SpecTag>::empty());
        assert(c2 + c.skip(c.len() as int) =~= c2);
        assert(c.take(c.len() as int) =~= c);
    } else if starts_with_at(s, q, seq!['<', '/']) {
    } else if s[q] == '<' {
        let child = spec_parse_tag(s, q)->Ok_0.0;
        let p2 = spec_parse_tag(s, q)->Ok_0.1;
        lemma_root_acc(s, p2, v, c.push(child), c2.push(child));
        assert(t == spec_root(s, p2, v, c.push(child))->Ok_0);
        assert(t.children.take(c.len() as int + 1) == c.push(child));
        assert(t.children.take(c.len() as int) =~= c.push(child).take(c.len() as int));
        assert(c.push(child).take(c.len() as int) =~= c);
        assert(t.children[c.len() as int] == child) by {
            assert(t.children.take(c.len() as int + 1)[c.len() as int] == child);
        }
        assert(c2.push(child) + t.children.skip(c.len() as int + 1) =~= c2 + t.children.skip(c.len() as int));
    } else {
        lemma_scan_while(s, q, not_pred('<'));
        let e = scan_to(s, q, '<');
        let v2 = root_text_step(v, s.subrange(q, e));
        lemma_root_acc(s, e, v2, c, c2);
    }
}

/// The start of a document that reads as a root without text: up to its
/// first `<` it is all whitespace, and reading from there gives the same.
proof fn lemma_root_lead(b: Seq<char>)
    requires
        spec_root(b, 0, Seq::empty(), Seq::empty()) matches Ok(rb) && rb.value.len() == 0,
    ensures
        0 <= scan_to(b, 0, '<') <= b.len(),
        forall|i: int| 0 <= i < scan_to(b, 0, '<') ==> is_ws(#[trigger] b[i]),
        spec_root(b, scan_to(b, 0, '<'), Seq::empty(), Seq::empty()) == spec_root(
            b,
            0,
            Seq::empty(),
            Seq::empty(),
        ),
{
    lemma_scan_while(b, 0, ws_pred());
    lemma_scan_while(b, 0, not_pred('<'));
    let qb = skip_ws(b, 0);
    let tb = scan_to(b, 0, '<');
    assert forall|i: int| 0 <= i < qb implies is_ws(#[trigger] b[i]) && b[i] != '<' by {
        assert(ws_pred()(b[i]));
    }
    if qb >= b.len() {
        lemma_scan_exact(b, 0, b.len() as int, not_pred('<'));
        assert(tb == b.len());
    } else if b[qb] == '<' {
        lemma_scan_exact(b, 0, qb, not_pred('<'));
        assert(tb == qb);
        lemma_scan_while_idem(b, 0, ws_pred());
    } else {
        lemma_scan_while_skip(b, 0, qb, not_pred('<'));
        lemma_scan_while(b, qb, not_pred('<'));
        let text = b.subrange(qb, tb);
        let v2 = root_text_step(Seq::empty(), text);
        assert(spec_root(b, 0, Seq::empty(), Seq::empty()) == spec_root(b, tb, v2, Seq::empty()));
        lemma_root_acc(b, tb, v2, Seq::empty(), Seq::empty());
        if trim(text).len() != 0 {
            assert(v2 =~= text);
            assert(text.len() > 0);
        }
        lemma_trim_blank(text);
        assert forall|i: int| qb <= i < tb implies is_ws(#[trigger] b[i]) by {
            assert(text[i - qb] == b[i]);
        }
    }
}

/// The top level of the second part of a joined text reads as it does
/// alone.
proof fn lemma_root_suffix(a: Seq<char>, b: Seq<char>, p: int, v: Seq<char>, c: Seq<SpecTag>)
    requires
        0 <= p <= b.len(),
        spec_root(b, p, v, c) is Ok,
    ensures
        spec_root(a + b, a.len() + p, v, c) == spec_root(b, p, v, c),
    decreases b.len() - p,
{
    let u = a + b;
    let off = a.len() as int;
    lemma_holds_prefix_suffix(a, b);
    lemma_holds_at(u, off, b);
    lemma_scan_while(b, p, ws_pred());
    lemma_scan_suffix(a, b, p, ws_pred());
    let q = skip_ws(b, p);
    if q < b.len() {
        assert(b[q] == u[off + q]);
        if starts_with_at(b, q, seq!['<', '/']) {
        } else if b[q] == '<' {
            if q + 2 <= b.len() {
                assert(b.subrange(q, q + 2) == u.subrange(off + q, off + q + 2));
            }
            assert(!starts_with_at(u, off + q, seq!['<', '/']));
            lemma_tag_window(u, off, b, q);
            let child = spec_parse_tag(b, q)->Ok_0.0;
            let p2 = spec_parse_tag(b, q)->Ok_0.1;
            lemma_root_suffix(a, b, p2, v, c.push(child));
        } else {
            lemma_scan_while(b, q, not_pred('<'));
            lemma_scan_suffix(a, b, q, not_pred('<'));
            let t = scan_to(b, q, '<');
            assert(b.subrange(q, t) == u.subrange(off + q, off + t));
            assert(!starts_with_at(u, off + q, seq!['<', '/']));
            lemma_root_suffix(a, b, t, root_text_step(v, b.subrange(q, t)), c);
        }
    }
}

/// The top level of the first part ends in whitespace: reading the
/// joined text goes on where the second part's leading whitespace ends.
#[verifier::spinoff_prover]
proof fn lemma_root_prefix_end(a: Seq<char>, b: Seq<char>, p: int, c: Seq<SpecTag>)
    requires
        0 <= p <= a.len(),
        skip_ws(a, p) >= a.len(),
        0 <= scan_to(b, 0, '<') <= b.len(),
        forall|i: int| 0 <= i < scan_to(b, 0, '<') ==> is_ws(#[trigger] b[i]),
    ensures
        spec_root(a + b, p, Seq::empty(), c) == spec_root(a + b, a.len() + scan_to(b, 0, '<'), Seq::empty(), c),
{
    let u = a + b;
    let n = a.len() as int;
    let tb = scan_to(b, 0, '<');
    let e: Seq<char> = Seq::empty();
    lemma_holds_prefix_suffix(a, b);
    lemma_holds_at(u, 0, a);
    lemma_holds_at(u, n, b);
    lemma_scan_while(a, p, ws_pred());
    lemma_scan_while(b, 0, not_pred('<'));
    assert forall|i: int| p <= i < n implies ws_pred()(#[trigger] u[i]) by {
        assert(a[i] == u[0 + i]);
        assert(ws_pred()(a[i]));
    }
    lemma_scan_while_skip(u, p, n, ws_pred());
    lemma_scan_suffix(a, b, 0, ws_pred());
    lemma_scan_while(b, 0, ws_pred());
    let qb = skip_ws(b, 0);
    assert forall|i: int| 0 <= i < qb implies #[trigger] b[i] != '<' by {
        assert(ws_pred()(b[i]));
    }
    if qb > tb {
        assert(ws_pred()(b[tb]));
    }
    if qb == tb {
        lemma_scan_suffix(a, b, tb, ws_pred());
        lemma_scan_while_idem(b, 0, ws_pred());
        assert(skip_ws(u, p) == skip_ws(u, n + tb));
    } else {
        assert(b[qb] == u[n + qb]);
        assert(!ws_pred()(b[qb]));
        assert(not_pred('<')(b[qb]));
        lemma_scan_while_skip(b, 0, qb, not_pred('<'));
        lemma_scan_suffix(a, b, qb, not_pred('<'));
        let text = u.subrange(n + qb, n + tb);
        assert(text == b.subrange(qb, tb));
        lemma_trim_blank(text);
        assert forall|i: int| 0 <= i < text.len() implies is_ws(#[trigger] text[i]) by {
            assert(text[i] == b[qb + i]);
        }
        assert(!starts_with_at(u, n + qb, seq!['<', '/']));
        assert(spec_root(u, p, e, c) == spec_root(u, n + tb, root_text_step(e, text), c));
    }
}

/// The top level of the first part ends in blank text: reading the
/// joined text goes on where the second part's leading whitespace ends.
#[verifier::spinoff_prover]
proof fn lemma_root_prefix_text_end(a: Seq<char>, b: Seq<char>, p: int, c: Seq<SpecTag>)
    requires
        0 <= p <= a.len(),
        skip_ws(a, p) < a.len(),
        a[skip_ws(a, p)] != '<',
        scan_to(a, skip_ws(a, p), '<') == a.len(),
        trim(a.subrange(skip_ws(a, p), a.len() as int)).len() == 0,
        0 <= scan_to(b, 0, '<') <= b.len(),
        forall|i: int| 0 <= i < scan_to(b, 0, '<') ==> is_ws(#[trigger] b[i]),
    ensures
        spec_root(a + b, p, Seq::empty(), c) == spec_root(a + b, a.len() + scan_to(b, 0, '<'), Seq::empty(), c),
{
    let u = a + b;
    let n = a.len() as int;
    let tb = scan_to(b, 0, '<');
    let e: Seq<char> = Seq::empty();
    lemma_holds_prefix_suffix(a, b);
    lemma_holds_at(u, 0, a);
    lemma_holds_at(u, n, b);
    lemma_scan_while(a, p, ws_pred());
    lemma_scan_while(b, 0, not_pred('<'));
    let q = skip_ws(a, p);
    lemma_scan_while(a, q, not_pred('<'));
    let text = a.subrange(q, n);
    lemma_scan_window(u, 0, a, p, ws_pred());
    assert(a[q] == u[0 + q]);
    assert(!starts_with_at(u, q, seq!['<', '/']));
    lemma_trim_blank(text);
    assert forall|i: int| q <= i < n implies not_pred('<')(#[trigger] u[i]) by {
        assert(a[i] == u[0 + i]);
        assert(not_pred('<')(a[i]));
    }
    lemma_scan_while_skip(u, q, n, not_pred('<'));
    lemma_scan_suffix(a, b, 0, not_pred('<'));
    let text2 = u.subrange(q, n + tb);
    assert forall|i: int| 0 <= i < text2.len() implies is_ws(#[trigger] text2[i]) by {
        if q + i < n {
            assert(text2[i] == a[q + i]);
            assert(text[i] == a[q + i]);
        } else {
            assert(text2[i] == b[q + i - n]);
            assert(u[n + (q + i - n)] == b[q + i - n]);
        }
    }
    lemma_trim_blank(text2);
    assert(spec_root(u, p, e, c) == spec_root(u, n + tb, root_text_step(e, text2), c));
}

/// The top level of the first part of a joined text, read without text,
/// goes on where the second part's leading whitespace ends, with the
/// children of the first part.
#[verifier::spinoff_prover]
#[verifier::rlimit(40)]
proof fn lemma_root_prefix(a: Seq<char>, b: Seq<char>, p: int, c: Seq<SpecTag>)
    requires
        0 <= p <= a.len(),
        spec_root(a, p, Seq::empty(), c) matches Ok(t) && t.value.len() == 0,
        0 <= scan_to(b, 0, '<') <= b.len(),
        forall|i: int| 0 <= i < scan_to(b, 0, '<') ==> is_ws(#[trigger] b[i]),
    ensures
        spec_root(a + b, p, Seq::empty(), c) == spec_root(
            a + b,
            a.len() + scan_to(b, 0, '<'),
            Seq::empty(),
            spec_root(a, p, Seq::empty(), c)->Ok_0.children,
        ),
    decreases a.len() - p,
{
    let u = a + b;
    let n = a.len() as int;
    let tb = scan_to(b, 0, '<');
    lemma_holds_prefix_suffix(a, b);
    lemma_holds_at(u, 0, a);
    lemma_holds_at(u, n, b);
    lemma_scan_while(a, p, ws_pred());
    lemma_scan_while(b, 0, not_pred('<'));
    let q = skip_ws(a, p);
    let t = spec_root(a, p, Seq::empty(), c)->Ok_0;
    let e: Seq<char> = Seq::empty();
    if q >= a.len() {
        assert(t.children == c);
        lemma_root_prefix_end(a, b, p, c);
    } else if starts_with_at(a, q, seq!['<', '/']) {
    } else if a[q] == '<' {
        lemma_scan_window(u, 0, a, p, ws_pred());
        assert(read_head(a, q, false) is Ok);
        lemma_read_head(a, q, false);
        assert(a.subrange(q, q + 2) == u.subrange(0 + q, 0 + q + 2));
        assert(a[q] == u[0 + q]);
        assert(!starts_with_at(u, q, seq!['<', '/']));
        lemma_tag_window(u, 0, a, q);
        let child = spec_parse_tag(a, q)->Ok_0.0;
        let p2 = spec_parse_tag(a, q)->Ok_0.1;
        lemma_root_prefix(a, b, p2, c.push(child));
    } else {
        lemma_scan_window(u, 0, a, p, ws_pred());
        lemma_scan_while(a, q, not_pred('<'));
        let ta = scan_to(a, q, '<');
        let text = a.subrange(q, ta);
        let v2 = root_text_step(e, text);
        lemma_root_acc(a, ta, v2, c, c);
        if trim(text).len() != 0 {
            assert(v2 =~= text);
            assert(text.len() > 0);
        }
        assert(v2 == e);
        assert(a[q] == u[0 + q]);
        assert(!starts_with_at(u, q, seq!['<', '/']));
        if ta < a.len() {
            lemma_scan_window(u, 0, a, q, not_pred('<'));
            assert(a.subrange(q, ta) == u.subrange(0 + q, 0 + ta));
            lemma_root_prefix(a, b, ta, c);
        } else {
            assert(t.children == c);
            lemma_root_prefix_text_end(a, b, p, c);
        }
    }
}

/// Parsing two documents joined: when each reads as a root without text,
/// the joined document reads as a root whose children are those of the
/// first followed by those of the second.
pub proof fn law_parse_concat(a: Seq<char>, b: Seq<char>)
    requires
        spec_parse(a) matches Ok(ra) && ra.value.len() == 0,
        spec_parse(b) matches Ok(rb) && rb.value.len() == 0,
    ensures
        spec_parse(a + b) == Ok::<SpecTag, SpecError>(
            SpecTag {
                name: root_name(),
                suffix: Seq::empty(),
                value: Seq::empty(),
                children: spec_parse(a)->Ok_0.children + spec_parse(b)->Ok_0.children,
            },
        ),
{
    let e: Seq<char> = Seq::empty();
    let none: Seq<SpecTag> = Seq::empty();
    let ra = spec_parse(a)->Ok_0;
    let rb = spec_parse(b)->Ok_0;
    lemma_root_lead(b);
    let tb = scan_to(b, 0, '<');
    lemma_root_prefix(a, b, 0, none);
    lemma_root_acc(b, 0, e, none, none);
    lemma_root_acc(b, tb, e, none, ra.children);
    lemma_root_suffix(a, b, tb, e, ra.children);
    assert(rb.children.skip(0) =~= rb.children);
    assert(rb.value =~= e);
}

} // verus!
