//! The builtin `shell` function: runs a command with `sh -c`.
use vstd::prelude::*;
use crate::cmdlang::strings_view;
use crate::strutil::{chars_of, push_range, push_str, str_eq, string_of};

verus! {

pub const MANUAL: &'static str = r#"
# Shell manual
- shell::RUN(cmd: string) | calls `sh -c 'cmd'`. CAREFUL: ALWAYS ASK BEFORE PROCEEDING

Behavior:
- Returns both stdout and stderr labeled:
    stdout: <contents>
    stderr: <contents>
- Each field is limited to 10,000 characters. If truncated, "\n...truncated" is appended.
- Output is decoded using UTF-8 lossy conversion so invalid bytes are replaced.
"#;

pub const INFO: &'static str = "Runs shell commands via `sh -c`.";

/// The longest stdout or stderr kept, in characters.
pub const MAX_OUTPUT: usize = 10000;

/// What a cut field ends with.
pub const TRUNC_NOTICE: &'static str = "\n...truncated";

/// What a call of the shell function asks for.
#[derive(Debug)]
pub enum ShellCall {
    /// Answer with this text.
    Reply(String),
    /// Run this command with `sh -c` and answer with `run_report`.
    Run(String),
}

/// What a call with the given arguments asks for; the method is the
/// fourth argument and the command the fifth.
pub open spec fn shell_call(args: Seq<Seq<char>>) -> Result<Seq<char>, Seq<char>> {
    if args.len() < 4 {
        Ok("shell: not enough arguments"@)
    } else if args[3] == "MANUAL"@ {
        Ok(MANUAL@)
    } else if args[3] == "INFO"@ {
        Ok(INFO@)
    } else if args[3] == "RUN"@ {
        if args.len() > 4 {
            Err(args[4])
        } else {
            Ok("shell::RUN: missing cmd argument"@)
        }
    } else {
        Ok("shell: unknown method '"@ + args[3] + "'"@)
    }
}

/// Reads a call of the shell function: `Ok` is an answer, `Err` a command
/// to run.
pub fn call(args: &[String]) -> (r: ShellCall)
    ensures
        match shell_call(strings_view(args@)) {
            Ok(t) => r matches ShellCall::Reply(x) && x@ == t,
            Err(c) => r matches ShellCall::Run(x) && x@ == c,
        },
{
    if args.len() < 4 {
        return ShellCall::Reply("shell: not enough arguments".to_owned());
    }
    let method = args[3].as_str();
    if str_eq(method, "MANUAL") {
        ShellCall::Reply(MANUAL.to_owned())
    } else if str_eq(method, "INFO") {
        ShellCall::Reply(INFO.to_owned())
    } else if str_eq(method, "RUN") {
        if args.len() > 4 {
            ShellCall::Run(args[4].clone())
        } else {
            ShellCall::Reply("shell::RUN: missing cmd argument".to_owned())
        }
    } else {
        let mut t: Vec<char> = Vec::new();
        push_str(&mut t, "shell: unknown method '");
        push_str(&mut t, method);
        push_str(&mut t, "'");
        ShellCall::Reply(string_of(t.as_slice()))
    }
}

/// A field cut to `max` characters: when longer, its first characters and
/// the notice, which together hold `max` characters (or only the notice
/// when it is longer than `max`).
pub open spec fn truncated(s: Seq<char>, max: int, notice: Seq<char>) -> Seq<char> {
    if s.len() <= max {
        s
    } else {
        let avail = if max - notice.len() > 0 {
            max - notice.len()
        } else {
            0
        };
        s.take(avail) + notice
    }
}

/// A field cut to `max` characters, the notice appended when it was cut.
pub fn truncate_field(s: &str, max: usize, notice: &str) -> (r: String)
    ensures
        r@ == truncated(s@, max as int, notice@),
{
    let c = chars_of(s);
    if c.len() <= max {
        return s.to_owned();
    }
    let n = chars_of(notice);
    let avail: usize = if max > n.len() {
        max - n.len()
    } else {
        0
    };
    let mut out: Vec<char> = Vec::new();
    push_range(&mut out, c.as_slice(), 0, avail);
    push_str(&mut out, notice);
    assert(c@.subrange(0, avail as int) =~= c@.take(avail as int));
    string_of(out.as_slice())
}

/// The answer of a command that ran: its stdout and stderr, each cut to
/// `MAX_OUTPUT` characters.
pub open spec fn run_answer(stdout: Seq<char>, stderr: Seq<char>) -> Seq<char> {
    "stdout: "@ + truncated(stdout, MAX_OUTPUT as int, TRUNC_NOTICE@) + "\nstderr: "@ + truncated(
        stderr,
        MAX_OUTPUT as int,
        TRUNC_NOTICE@,
    )
}

/// The answer of a command that ran, from its output read as text.
pub fn run_report(stdout: &str, stderr: &str) -> (r: String)
    ensures
        r@ == run_answer(stdout@, stderr@),
{
    let o = truncate_field(stdout, MAX_OUTPUT, TRUNC_NOTICE);
    let e = truncate_field(stderr, MAX_OUTPUT, TRUNC_NOTICE);
    let mut t: Vec<char> = Vec::new();
    push_str(&mut t, "stdout: ");
    push_str(&mut t, o.as_str());
    push_str(&mut t, "\nstderr: ");
    push_str(&mut t, e.as_str());
    string_of(t.as_slice())
}

/// The answer when `sh` could not be started, from the error's text.
pub fn spawn_failure(error: &str) -> (r: String)
    ensures
        r@ == "failed to spawn sh: "@ + error@,
{
    let mut t: Vec<char> = Vec::new();
    push_str(&mut t, "failed to spawn sh: ");
    push_str(&mut t, error);
    string_of(t.as_slice())
}

/// A cut field is never longer than `max` when the notice fits in `max`;
/// a field that was cut ends with the notice, and one that fits is kept.
pub proof fn law_truncated_bound(s: Seq<char>, max: int, notice: Seq<char>)
    requires
        0 <= notice.len() <= max,
    ensures
        truncated(s, max, notice).len() <= max,
        s.len() > max ==> truncated(s, max, notice).len() == max && truncated(s, max, notice).subrange(
            max - notice.len(),
            max,
        ) == notice,
        s.len() <= max ==> truncated(s, max, notice) == s,
{
    if s.len() > max {
        let t = truncated(s, max, notice);
        assert(t.subrange(max - notice.len(), max) =~= notice);
    }
}

} // verus!
