//! The command language: `fname "arg1" "arg2"`, with an optional
//! `QUOTE=<delim> ` prefix that changes the argument delimiter.
use vstd::prelude::*;
use crate::strutil::{
    byte_offset, char_debug, char_debug_text, chars_of, decimal, find_chars, find_from,
    lemma_scan_while, lemma_scan_while_idem, lemma_find_from_window, lemma_find_from_bounds,
    push_decimal, push_range, push_str, scan_while, starts_with_at, str_debug,
    str_debug_text, string_of, utf8_len,
};

verus! {

/// A parsed command: the function name and its positional arguments.
#[derive(Debug)]
pub struct Cmd {
    pub fname: String,
    pub args: Vec<String>,
}

pub open spec fn strings_view(v: Seq<String>) -> Seq<Seq<char>> {
    v.map_values(|a: String| a@)
}

/// A failure to parse a command, with positions counted in characters.
pub enum CmdError {
    /// `QUOTE=` without a space that ends the delimiter.
    MissingQuoteSpace,
    /// Nothing where the function name should be.
    ExpectedFunctionName,
    /// An argument that does not start with the delimiter.
    ExpectedOpening(int, Seq<char>, char),
    /// An argument whose closing delimiter is missing.
    Unclosed(int, Seq<char>),
}

pub open spec fn quote_prefix() -> Seq<char> {
    seq!['Q', 'U', 'O', 'T', 'E', '=']
}

pub open spec fn default_delim() -> Seq<char> {
    seq!['"']
}

pub open spec fn is_blank(c: char) -> bool {
    c == ' ' || c == '\t' || c == '\n'
}

pub open spec fn blank_pred() -> spec_fn(char) -> bool {
    |c: char| is_blank(c)
}

/// The delimiter, and the position where the function name starts.
pub open spec fn spec_quote(s: Seq<char>) -> Result<(int, Seq<char>), CmdError> {
    if starts_with_at(s, 0, quote_prefix()) {
        match find_from(s, 6, seq![' ']) {
            None => Err(CmdError::MissingQuoteSpace),
            Some(k) => Ok((k + 1, s.subrange(6, k))),
        }
    } else {
        Ok((0, default_delim()))
    }
}

/// The function name: everything from `pos` up to the next space (or the
/// end), and the position after that space.
pub open spec fn spec_fname(s: Seq<char>, pos: int) -> Result<(int, Seq<char>), CmdError> {
    if pos >= s.len() {
        Err(CmdError::ExpectedFunctionName)
    } else {
        let k = match find_from(s, pos, seq![' ']) {
            Some(k) => k,
            None => s.len() as int,
        };
        Ok(
            (
                if k < s.len() {
                    k + 1
                } else {
                    s.len() as int
                },
                s.subrange(pos, k),
            ),
        )
    }
}

/// One argument at `pos`: the delimiter, text without it, the delimiter.
pub open spec fn spec_arg(s: Seq<char>, pos: int, delim: Seq<char>) -> Result<
    (int, Seq<char>),
    CmdError,
> {
    if !starts_with_at(s, pos, delim) {
        Err(CmdError::ExpectedOpening(pos, delim, s[pos]))
    } else {
        match find_from(s, pos + delim.len(), delim) {
            None => Err(CmdError::Unclosed(pos, delim)),
            Some(c) => Ok((c + delim.len(), s.subrange(pos + delim.len(), c))),
        }
    }
}

/// The arguments from `pos`, after those already read; blanks between
/// arguments are skipped.
pub open spec fn spec_args(s: Seq<char>, pos: int, delim: Seq<char>, acc: Seq<Seq<char>>) -> Result<
    Seq<Seq<char>>,
    CmdError,
>
    decreases s.len() - pos,
{
    if pos < 0 || pos >= s.len() {
        Ok(acc)
    } else {
        let q = scan_while(s, pos, blank_pred());
        if q >= s.len() {
            Ok(acc)
        } else {
            match spec_arg(s, q, delim) {
                Err(e) => Err(e),
                Ok((p2, a)) => if pos < p2 <= s.len() {
                    spec_args(s, p2, delim, acc.push(a))
                } else {
                    Ok(acc)
                },
            }
        }
    }
}

/// The function name and arguments of a command.
pub open spec fn spec_cmd(s: Seq<char>) -> Result<(Seq<char>, Seq<Seq<char>>), CmdError> {
    match spec_quote(s) {
        Err(e) => Err(e),
        Ok((p, delim)) => match spec_fname(s, p) {
            Err(e) => Err(e),
            Ok((p2, fname)) => match spec_args(s, p2, delim, Seq::empty()) {
                Err(e) => Err(e),
                Ok(args) => Ok((fname, args)),
            },
        },
    }
}

/// An empty delimiter followed by anything but blanks: the command reader
/// would read empty arguments at the same place forever.
pub open spec fn never_ends(s: Seq<char>) -> bool {
    match spec_quote(s) {
        Ok((p, delim)) => delim.len() == 0 && match spec_fname(s, p) {
            Ok((p2, _)) => p2 < s.len() && scan_while(s, p2, blank_pred()) < s.len(),
            Err(_) => false,
        },
        Err(_) => false,
    }
}

pub open spec fn cmd_error_message(s: Seq<char>, e: CmdError) -> Seq<char> {
    match e {
        CmdError::MissingQuoteSpace => "QUOTE= directive missing trailing space"@,
        CmdError::ExpectedFunctionName => "expected function name"@,
        CmdError::ExpectedOpening(p, delim, got) => "char "@ + decimal(
            utf8_len(s.subrange(0, p)),
        ) + ": expected opening "@ + str_debug(delim) + ", got "@ + char_debug(got),
        CmdError::Unclosed(p, delim) => "char "@ + decimal(utf8_len(s.subrange(0, p)))
            + ": unclosed "@ + str_debug(delim),
    }
}

impl Cmd {
    /// Reads a command: the function name up to the first space, then zero
    /// or more arguments each wrapped in the delimiter (`"` unless a
    /// `QUOTE=<delim> ` prefix names another), separated by blanks.
    pub fn parse(cmd: &str) -> (r: Result<Cmd, String>)
        requires
            !never_ends(cmd@),
        ensures
            match spec_cmd(cmd@) {
                Ok((fname, args)) => r is Ok && r->Ok_0.fname@ == fname && strings_view(
                    r->Ok_0.args@,
                ) == args,
                Err(e) => r is Err && r->Err_0@ == cmd_error_message(cmd@, e),
            },
    {
        let s = chars_of(cmd);
        let (mut pos, delim) = match Self::parse_quote(0, s.as_slice()) {
            Ok(x) => x,
            Err(e) => return Err(Self::message(s.as_slice(), &e)),
        };
        let fname;
        match Self::parse_fname(pos, s.as_slice()) {
            Ok((p, f)) => {
                pos = p;
                fname = f;
            },
            Err(e) => return Err(Self::message(s.as_slice(), &e)),
        }
        let ghost p2 = pos as int;
        let mut args: Vec<String> = Vec::new();
        assert(strings_view(args@) =~= Seq::<Seq<char>>::empty());
        loop
            invariant
                s@ == cmd@,
                !never_ends(s@),
                spec_quote(s@) matches Ok((_, d)) && d == delim@,
                spec_fname(s@, spec_quote(s@)->Ok_0.0) matches Ok((q, f)) && q == p2 && f
                    == fname@,
                0 <= p2 <= pos <= s@.len(),
                delim@.len() == 0 ==> pos == p2 || pos == scan_while(s@, p2, blank_pred()),
                spec_args(s@, p2, delim@, Seq::empty()) == spec_args(
                    s@,
                    pos as int,
                    delim@,
                    strings_view(args@),
                ),
            decreases s@.len() - pos,
        {
            if pos >= s.len() {
                return Ok(Cmd { fname, args });
            }
            let ghost p0 = pos as int;
            let n = s.len();
            while pos < n && (s[pos] == ' ' || s[pos] == '\t' || s[pos] == '\n')
                invariant
                    n == s@.len(),
                    p0 <= pos <= n,
                    scan_while(s@, p0, blank_pred()) == scan_while(s@, pos as int, blank_pred()),
                decreases n - pos,
            {
                pos = pos + 1;
            }
            proof {
                lemma_scan_while(s@, p0, blank_pred());
                lemma_scan_while(s@, p2, blank_pred());
                lemma_scan_while_idem(s@, p2, blank_pred());
            }
            if pos >= s.len() {
                return Ok(Cmd { fname, args });
            }
            match Self::parse_arg(pos, s.as_slice(), delim.as_slice()) {
                Ok((p, arg)) => {
                    proof {
                        if p as int <= p0 {
                            assert(delim@.len() == 0);
                            assert(never_ends(s@));
                        }
                    }
                    pos = p;
                    let ghost before = args@;
                    args.push(arg);
                    assert(strings_view(args@) =~= strings_view(before).push(arg@));
                },
                Err(e) => return Err(Self::message(s.as_slice(), &e)),
            }
        }
    }

    /// Whether reading `cmd` would never end: its delimiter is empty and
    /// something but blanks follows the function name.
    pub fn reads_forever(cmd: &str) -> (r: bool)
        ensures
            r == never_ends(cmd@),
    {
        let s = chars_of(cmd);
        match Self::parse_quote(0, s.as_slice()) {
            Ok((p, delim)) => {
                if delim.len() != 0 {
                    return false;
                }
                match Self::parse_fname(p, s.as_slice()) {
                    Ok((p2, _)) => {
                        if p2 >= s.len() {
                            return false;
                        }
                        let mut q = p2;
                        while q < s.len() && (s[q] == ' ' || s[q] == '\t' || s[q] == '\n')
                            invariant
                                s@ == cmd@,
                                p2 <= q <= s@.len(),
                                scan_while(s@, p2 as int, blank_pred()) == scan_while(
                                    s@,
                                    q as int,
                                    blank_pred(),
                                ),
                            decreases s@.len() - q,
                        {
                            q = q + 1;
                        }
                        proof {
                            lemma_scan_while(s@, q as int, blank_pred());
                        }
                        q < s.len()
                    },
                    Err(_) => false,
                }
            },
            Err(_) => false,
        }
    }

    /// The delimiter named by a `QUOTE=` prefix, or `"`.
    fn parse_quote(pos: usize, cmd: &[char]) -> (r: Result<(usize, Vec<char>), ReadError>)
        requires
            pos == 0,
        ensures
            match spec_quote(cmd@) {
                Ok((p, d)) => r is Ok && r->Ok_0.0 == p && r->Ok_0.1@ == d,
                Err(e) => r is Err && r->Err_0@ == e,
            },
            r is Ok ==> r->Ok_0.0 <= cmd@.len(),
    {
        let mut prefix: Vec<char> = Vec::new();
        prefix.push('Q');
        prefix.push('U');
        prefix.push('O');
        prefix.push('T');
        prefix.push('E');
        prefix.push('=');
        assert(prefix@ =~= quote_prefix());
        let mut is_quote = cmd.len() >= 6;
        let mut i: usize = 0;
        while is_quote && i < 6
            invariant
                prefix@ == quote_prefix(),
                i <= 6,
                is_quote ==> cmd@.len() >= 6,
                is_quote == (cmd@.len() >= 6 && forall|j: int| 0 <= j < i ==> cmd@[j] == prefix@[j]),
            decreases 6 - i,
        {
            if cmd[i] != prefix[i] {
                is_quote = false;
            }
            i = i + 1;
        }
        if is_quote {
            assert(cmd@.subrange(0, 6) =~= quote_prefix());
            let mut space: Vec<char> = Vec::new();
            space.push(' ');
            assert(space@ =~= seq![' ']);
            match find_chars(cmd, 6, space.as_slice()) {
                None => Err(ReadError::MissingQuoteSpace),
                Some(k) => {
                    let mut delim: Vec<char> = Vec::new();
                    push_range(&mut delim, cmd, 6, k);
                    Ok((k + 1, delim))
                },
            }
        } else {
            assert(!starts_with_at(cmd@, 0, quote_prefix())) by {
                if starts_with_at(cmd@, 0, quote_prefix()) {
                    let j = choose|j: int| 0 <= j < i && cmd@[j] != prefix@[j];
                    assert(cmd@.subrange(0, 6)[j] == cmd@[j]);
                }
            }
            let mut delim: Vec<char> = Vec::new();
            delim.push('"');
            assert(delim@ =~= default_delim());
            Ok((pos, delim))
        }
    }

    /// The function name at `pos`, and the position after the space that
    /// ends it.
    fn parse_fname(pos: usize, cmd: &[char]) -> (r: Result<(usize, String), ReadError>)
        requires
            pos <= cmd@.len(),
        ensures
            match spec_fname(cmd@, pos as int) {
                Ok((p, f)) => r is Ok && r->Ok_0.0 == p && r->Ok_0.1@ == f,
                Err(e) => r is Err && r->Err_0@ == e,
            },
            r is Ok ==> r->Ok_0.0 <= cmd@.len(),
    {
        if pos >= cmd.len() {
            return Err(ReadError::ExpectedFunctionName);
        }
        let mut space: Vec<char> = Vec::new();
        space.push(' ');
        assert(space@ =~= seq![' ']);
        let k = match find_chars(cmd, pos, space.as_slice()) {
            Some(k) => k,
            None => cmd.len(),
        };
        let mut name: Vec<char> = Vec::new();
        push_range(&mut name, cmd, pos, k);
        let next = if k < cmd.len() {
            k + 1
        } else {
            cmd.len()
        };
        Ok((next, string_of(name.as_slice())))
    }

    /// One delimited argument at `pos`, and the position after its closing
    /// delimiter.
    fn parse_arg(pos: usize, cmd: &[char], delim: &[char]) -> (r: Result<
        (usize, String),
        ReadError,
    >)
        requires
            pos < cmd@.len(),
        ensures
            match spec_arg(cmd@, pos as int, delim@) {
                Ok((p, a)) => r is Ok && r->Ok_0.0 == p && r->Ok_0.1@ == a,
                Err(e) => r is Err && r->Err_0@ == e,
            },
            r is Ok ==> pos + 2 * delim@.len() <= r->Ok_0.0 <= cmd@.len(),
            r is Err ==> r->Err_0.pos_in(cmd@.len() as int),
    {
        let n = cmd.len();
        let mut opens = delim.len() <= n - pos;
        let mut i: usize = 0;
        while opens && i < delim.len()
            invariant
                n == cmd@.len(),
                pos < n,
                i <= delim@.len(),
                opens ==> pos + delim@.len() <= n,
                opens == (pos + delim@.len() <= n && forall|j: int|
                    0 <= j < i ==> cmd@[pos + j] == delim@[j]),
            decreases delim@.len() - i,
        {
            if cmd[pos + i] != delim[i] {
                opens = false;
            }
            i = i + 1;
        }
        if !opens {
            assert(!starts_with_at(cmd@, pos as int, delim@)) by {
                if starts_with_at(cmd@, pos as int, delim@) {
                    let j = choose|j: int| 0 <= j < i && cmd@[pos + j] != delim@[j];
                    assert(cmd@.subrange(pos as int, pos + delim@.len())[j] == cmd@[pos + j]);
                }
            }
            let mut d: Vec<char> = Vec::new();
            push_range(&mut d, delim, 0, delim.len());
            assert(delim@.subrange(0, delim@.len() as int) =~= delim@);
            return Err(ReadError::ExpectedOpening(pos, d, cmd[pos]));
        }
        assert(cmd@.subrange(pos as int, pos + delim@.len()) =~= delim@);
        let start = pos + delim.len();
        match find_chars(cmd, start, delim) {
            None => {
                let mut d: Vec<char> = Vec::new();
                push_range(&mut d, delim, 0, delim.len());
                assert(delim@.subrange(0, delim@.len() as int) =~= delim@);
                Err(ReadError::Unclosed(pos, d))
            },
            Some(close) => {
                let mut arg: Vec<char> = Vec::new();
                push_range(&mut arg, cmd, start, close);
                Ok((close + delim.len(), string_of(arg.as_slice())))
            },
        }
    }

    /// The message `parse` reports for a failure.
    fn message(s: &[char], e: &ReadError) -> (r: String)
        requires
            e.pos_in(s@.len() as int),
        ensures
            r@ == cmd_error_message(s@, e@),
    {
        let mut out: Vec<char> = Vec::new();
        match e {
            ReadError::MissingQuoteSpace => {
                push_str(&mut out, "QUOTE= directive missing trailing space");
            },
            ReadError::ExpectedFunctionName => {
                push_str(&mut out, "expected function name");
            },
            ReadError::ExpectedOpening(p, delim, got) => {
                push_str(&mut out, "char ");
                push_decimal(&mut out, byte_offset(s, *p));
                push_str(&mut out, ": expected opening ");
                let d = str_debug_text(string_of(delim.as_slice()).as_str());
                push_str(&mut out, d.as_str());
                push_str(&mut out, ", got ");
                let g = char_debug_text(*got);
                push_str(&mut out, g.as_str());
            },
            ReadError::Unclosed(p, delim) => {
                push_str(&mut out, "char ");
                push_decimal(&mut out, byte_offset(s, *p));
                push_str(&mut out, ": unclosed ");
                let d = str_debug_text(string_of(delim.as_slice()).as_str());
                push_str(&mut out, d.as_str());
            },
        }
        assert(out@ =~= cmd_error_message(s@, e@));
        string_of(out.as_slice())
    }
}

/// A failure found by the executable reader.
pub enum ReadError {
    MissingQuoteSpace,
    ExpectedFunctionName,
    ExpectedOpening(usize, Vec<char>, char),
    Unclosed(usize, Vec<char>),
}

impl ReadError {
    pub open spec fn pos_in(&self, n: int) -> bool {
        match self {
            ReadError::ExpectedOpening(p, _, _) => *p <= n,
            ReadError::Unclosed(p, _) => *p <= n,
            _ => true,
        }
    }
}

impl View for ReadError {
    type V = CmdError;

    open spec fn view(&self) -> CmdError {
        match self {
            ReadError::MissingQuoteSpace => CmdError::MissingQuoteSpace,
            ReadError::ExpectedFunctionName => CmdError::ExpectedFunctionName,
            ReadError::ExpectedOpening(p, d, g) => CmdError::ExpectedOpening(*p as int, d@, *g),
            ReadError::Unclosed(p, d) => CmdError::Unclosed(*p as int, d@),
        }
    }
}


// ===================================================================
// Writing commands, and reading them back
// ===================================================================

/// Each argument wrapped in the delimiter, every one preceded by a space.
pub open spec fn render_args(args: Seq<Seq<char>>, delim: Seq<char>) -> Seq<char>
    decreases args.len(),
{
    if args.len() == 0 {
        Seq::empty()
    } else {
        seq![' '] + delim + args[0] + delim + render_args(args.drop_first(), delim)
    }
}

/// `QUOTE=<delim> fname <delim>arg<delim> ...`
pub open spec fn render_quoted(fname: Seq<char>, args: Seq<Seq<char>>, delim: Seq<char>) -> Seq<
    char,
> {
    quote_prefix() + delim + seq![' '] + fname + render_args(args, delim)
}

/// `fname "arg" ...`
pub open spec fn render_plain(fname: Seq<char>, args: Seq<Seq<char>>) -> Seq<char> {
    fname + render_args(args, default_delim())
}

/// A function name: not empty, without spaces.
pub open spec fn valid_fname(fname: Seq<char>) -> bool {
    fname.len() > 0 && forall|i: int| 0 <= i < fname.len() ==> fname[i] != ' '
}

/// A delimiter usable after `QUOTE=`: not empty, without spaces, and not
/// starting with a blank.
pub open spec fn valid_delim(delim: Seq<char>) -> bool {
    &&& delim.len() > 0
    &&& forall|i: int| 0 <= i < delim.len() ==> delim[i] != ' '
    &&& !is_blank(delim[0])
}

/// Every argument ends where the delimiter first occurs after its start.
pub open spec fn args_fit(args: Seq<Seq<char>>, delim: Seq<char>) -> bool {
    forall|i: int|
        0 <= i < args.len() ==> find_from(#[trigger] args[i] + delim, 0, delim) == Some(
            args[i].len() as int,
        )
}

/// Searching for one character finds its first occurrence.
pub proof fn lemma_find_char(s: Seq<char>, i: int, k: int, c: char)
    requires
        0 <= i <= k <= s.len(),
        forall|j: int| i <= j < k ==> s[j] != c,
        k < s.len() ==> s[k] == c,
    ensures
        find_from(s, i, seq![c]) == (if k < s.len() {
            Some(k)
        } else {
            None::<int>
        }),
    decreases k - i,
{
    if i < s.len() {
        if s.subrange(i, i + 1) == seq![c] {
            assert(s.subrange(i, i + 1)[0] == s[i]);
        }
        if i == k {
            assert(s.subrange(i, i + 1) =~= seq![c]);
        } else {
            lemma_find_char(s, i + 1, k, c);
        }
    }
}

pub proof fn lemma_render_args_len(args: Seq<Seq<char>>, delim: Seq<char>)
    ensures
        args.len() > 0 ==> render_args(args, delim).len() > 0 && render_args(args, delim)[0]
            == ' ',
        args.len() == 0 ==> render_args(args, delim) == Seq::<char>::empty(),
{
}

/// Reading arguments from a written list gives back the list.
pub proof fn lemma_read_args(
    s: Seq<char>,
    p: int,
    args: Seq<Seq<char>>,
    delim: Seq<char>,
    acc: Seq<Seq<char>>,
)
    requires
        0 <= p <= s.len(),
        s.subrange(p, s.len() as int) == render_args(args, delim),
        delim.len() > 0,
        !is_blank(delim[0]),
        args_fit(args, delim),
    ensures
        spec_args(s, p, delim, acc) == Ok::<Seq<Seq<char>>, CmdError>(acc + args),
    decreases args.len(),
{
    if args.len() == 0 {
        assert(p == s.len());
        assert(acc + args =~= acc);
    } else {
        let a = args[0];
        let rest = args.drop_first();
        let d = delim.len() as int;
        let body = a + delim;
        assert(render_args(args, delim) == seq![' '] + delim + a + delim + render_args(rest, delim));
        let w = s.subrange(p, s.len() as int);
        let rr = render_args(rest, delim);
        let x = seq![' '] + delim + a + delim + rr;
        assert(w == x);
        assert(w[0] == ' ');
        assert(s[p] == w[0]);
        let q = p + 1;
        assert(s[q] == w[1]);
        assert(w[1] == delim[0]);
        assert(scan_while(s, q, blank_pred()) == q);
        assert(scan_while(s, p, blank_pred()) == q);
        assert(x.subrange(1, 1 + d) =~= delim);
        assert(s.subrange(q, q + d) =~= w.subrange(1, 1 + d));
        assert(starts_with_at(s, q, delim));
        assert(x.subrange(1 + d, 1 + d + a.len() + d) =~= body);
        assert(s.subrange(q + d, q + d + a.len() + d) =~= w.subrange(1 + d, 1 + d + a.len() + d));
        assert(find_from(body, 0, delim) == Some(a.len() as int));
        lemma_find_from_window(s, q + d, body, 0, delim);
        let p2 = q + d + a.len() + d;
        assert(x.subrange(1 + d, 1 + d + a.len()) =~= a);
        assert(s.subrange(q + d, q + d + a.len()) =~= w.subrange(1 + d, 1 + d + a.len()));
        assert(spec_arg(s, q, delim) == Ok::<(int, Seq<char>), CmdError>((p2, a)));
        assert(x.subrange(1 + 2 * d + a.len(), x.len() as int) =~= rr);
        assert(s.subrange(p2, s.len() as int) =~= w.subrange(p2 - p, w.len() as int));
        assert(args_fit(rest, delim)) by {
            assert forall|i: int| 0 <= i < rest.len() implies find_from(
                #[trigger] rest[i] + delim,
                0,
                delim,
            ) == Some(rest[i].len() as int) by {
                assert(rest[i] == args[i + 1]);
            }
        }
        lemma_read_args(s, p2, rest, delim, acc.push(a));
        assert(acc.push(a) + rest =~= acc + args);
    }
}

/// After the name's closing space, reading starts at the first delimiter,
/// exactly as it would from the space.
proof fn lemma_args_after_space(s: Seq<char>, p: int, delim: Seq<char>, acc: Seq<Seq<char>>)
    requires
        0 <= p,
        p + 1 < s.len(),
        s[p] == ' ',
        !is_blank(s[p + 1]),
        delim.len() > 0,
    ensures
        spec_args(s, p + 1, delim, acc) == spec_args(s, p, delim, acc),
{
    assert(scan_while(s, p + 1, blank_pred()) == p + 1);
    assert(scan_while(s, p, blank_pred()) == p + 1);
    if starts_with_at(s, p + 1, delim) {
        lemma_find_from_bounds(s, p + 1 + delim.len(), delim);
    }
}

/// Law: a command written as `QUOTE=<delim> fname` followed by its
/// arguments, each preceded by a space and wrapped in the delimiter, reads
/// back as that function name and those arguments, provided the name has no
/// space, the delimiter is not empty, has no space and does not start with a
/// blank, and no argument holds the delimiter before its end.
pub proof fn law_quoted_command_roundtrip(
    fname: Seq<char>,
    args: Seq<Seq<char>>,
    delim: Seq<char>,
)
    requires
        valid_fname(fname),
        valid_delim(delim),
        args_fit(args, delim),
    ensures
        !never_ends(render_quoted(fname, args, delim)),
        spec_cmd(render_quoted(fname, args, delim)) == Ok::<
            (Seq<char>, Seq<Seq<char>>),
            CmdError,
        >((fname, args)),
{
    let s = render_quoted(fname, args, delim);
    let d = delim.len() as int;
    let r = render_args(args, delim);
    assert(s.subrange(0, 6) =~= quote_prefix());
    assert forall|j: int| 6 <= j < 6 + d implies s[j] != ' ' by {
        assert(s[j] == delim[j - 6]);
    }
    assert(s[6 + d] == ' ');
    lemma_find_char(s, 6, 6 + d, ' ');
    assert(s.subrange(6, 6 + d) =~= delim);
    assert(spec_quote(s) == Ok::<(int, Seq<char>), CmdError>((6 + d + 1, delim)));
    let start = 6 + d + 1;
    let end = start + fname.len();
    assert forall|j: int| start <= j < end implies s[j] != ' ' by {
        assert(s[j] == fname[j - start]);
    }
    lemma_render_args_len(args, delim);
    if args.len() > 0 {
        assert(s[end] == r[0]);
    }
    lemma_find_char(s, start, end, ' ');
    assert(s.subrange(start, end) =~= fname);
    assert(s.subrange(end, s.len() as int) =~= r);
    if args.len() == 0 {
        assert(s.len() == end);
        assert(spec_fname(s, start) == Ok::<(int, Seq<char>), CmdError>((end, fname)));
        lemma_read_args(s, end, args, delim, Seq::empty());
    } else {
        assert(spec_fname(s, start) == Ok::<(int, Seq<char>), CmdError>((end + 1, fname)));
        assert(s[end + 1] == r[1]);
        assert(r[1] == delim[0]);
        lemma_args_after_space(s, end, delim, Seq::empty());
        lemma_read_args(s, end, args, delim, Seq::empty());
    }
    assert(Seq::<Seq<char>>::empty() + args =~= args);
}

/// Law: a command written as `fname "arg1" "arg2" ...` reads back as that
/// function name and those arguments, provided the name has no space and
/// does not start with `QUOTE=`, and no argument holds a `"`.
pub proof fn law_plain_command_roundtrip(fname: Seq<char>, args: Seq<Seq<char>>)
    requires
        valid_fname(fname),
        !starts_with_at(fname, 0, quote_prefix()),
        forall|i: int, j: int| 0 <= i < args.len() && 0 <= j < args[i].len() ==> #[trigger] args[i][j] != '"',
    ensures
        !never_ends(render_plain(fname, args)),
        spec_cmd(render_plain(fname, args)) == Ok::<(Seq<char>, Seq<Seq<char>>), CmdError>(
            (fname, args),
        ),
{
    let s = render_plain(fname, args);
    let delim = default_delim();
    let r = render_args(args, delim);
    lemma_render_args_len(args, delim);
    assert(!starts_with_at(s, 0, quote_prefix())) by {
        if starts_with_at(s, 0, quote_prefix()) {
            if fname.len() >= 6 {
                assert(fname.subrange(0, 6) =~= s.subrange(0, 6));
            } else {
                let k = fname.len() as int;
                assert(s[k] == r[0]);
                assert(s.subrange(0, 6)[k] == s[k]);
            }
        }
    }
    assert(args_fit(args, delim)) by {
        assert forall|i: int| 0 <= i < args.len() implies find_from(
            #[trigger] args[i] + delim,
            0,
            delim,
        ) == Some(args[i].len() as int) by {
            let b = args[i] + delim;
            assert forall|j: int| 0 <= j < args[i].len() implies b[j] != '"' by {
                assert(b[j] == args[i][j]);
            }
            lemma_find_char(b, 0, args[i].len() as int, '"');
        }
    }
    let end = fname.len() as int;
    assert forall|j: int| 0 <= j < end implies s[j] != ' ' by {
        assert(s[j] == fname[j]);
    }
    if args.len() > 0 {
        assert(s[end] == r[0]);
    }
    lemma_find_char(s, 0, end, ' ');
    assert(s.subrange(0, end) =~= fname);
    assert(s.subrange(end, s.len() as int) =~= r);
    if args.len() == 0 {
        assert(s.len() == end);
        lemma_read_args(s, end, args, delim, Seq::empty());
    } else {
        assert(s[end + 1] == r[1]);
        lemma_args_after_space(s, end, delim, Seq::empty());
        lemma_read_args(s, end, args, delim, Seq::empty());
    }
    assert(Seq::<Seq<char>>::empty() + args =~= args);
}

} // verus!
