//! The `tmux` tool: terminal sessions run by `tmux`. Running `tmux` belongs
//! to the caller; the targets named, the rows read from its listings and
//! the answers written are here.
use vstd::prelude::*;
use crate::cmdlang::strings_view;
use crate::config::split_at_char;
use crate::function::Functions;
use crate::strutil::{chars_of, push_range, push_str, string_of, trim, trim_bounds};
use crate::tools::manual::Manual;
use crate::taglang::{
    SpecTag, Tag, child_index, lemma_child_index, lemma_tags_view_index, tag_text, tag_view, tags_view,
};
use crate::tools::text::{lines_of, text_lines};

verus! {

pub const MANUAL: &'static str = r#"
# Tmux Module Manual

This is the ONLY authorized tool for managing terminal sessions, running background processes, and interacting with shell environments.
Use this module to decouple your "hands" (typing commands) and "eyes" (reading output) from the main execution thread.

## Functions

- tmux::is_available() -> bool
   - Checks if the `tmux` binary is installed and executable on the host system.
   - Returns `true` if available, `false` otherwise.

- tmux::create_session(session_name: string) -> void
   - Creates a new detached workspace (session) with a single default window.
   - Use this to start a clean environment.
   - Fails if a session with `session_name` already exists.

- tmux::kill_session(session_name: string) -> void
   - Destroys the specified session entirely.
   - WARNING: This kills all tabs, panes, and running processes inside that session immediately.

- tmux::list_sessions() -> Vec<String>
   - Returns a list of names of all currently active sessions.

- tmux::create_tab(session_name: string, tab_index: string) -> void
   - Opens a new "tab" (Window) inside an existing session.
   - Use this to separate different contexts (e.g., one tab for "server", one for "database").

- tmux::delete_tab(session_name: string, tab_index: string) -> void
   - Closes the specified tab and kills any processes running inside it.

- tmux::select_tab(session_name: string, tab_index: string) -> void
   - Sets the focus of the session to the specified tab.

- tmux::add_pane(session_name: string, tab_index: string) -> void
   - Splits the current view of `tab_index` to create a new pane (split-screen).
   - Useful for viewing logs while typing commands side-by-side.

- tmux::delete_pane(session_name: string, tab_index: string, pane_index: string) -> void
   - Closes a specific pane within a tab.
   - `pane_index` must be a valid integer obtained from `list_panes`.

- tmux::select_pane(session_name: string, tab_index: string, pane_index: string) -> void
   - Sets the input focus to a specific pane within a tab.

- tmux::send_keys(session_name: string, tab_index: string, pane_index: string, text: string) -> void
   - Types the provided `text` into the specific pane and automatically presses `Enter`.
   - Use this to execute shell commands.

- tmux::capture_pane(session_name: string, tab_index: string, pane_index: string) -> String
   - Returns the **visible** text content of the pane (the viewport).
   - Does NOT return the entire scrollback history. It sees what a user would see on screen.
   - Output wraps lines naturally; use this for reading immediate command output.

- tmux::get_state(session_name: string) -> String
   - Returns a structured tree view of the session.
   - Format includes: Session Name -> Tab List -> Pane List -> Last line of output for each pane.
   - Use this to get a high-level overview of what is running where.

## Rules
- `session_name` and `tab_index` are strings.
- Always ensure the session exists via `list_sessions` before interacting.
- `capture_pane` is your "eyes". It reads the current screen state.
- `send_keys` is your "hands". It inputs text.
- Do not blindly assume pane IDs; use `get_state` to verify the layout.
- If a command is long-running (like a server), use `create_tab` or `add_pane` to run it, so you don't block other interactions.

## Usage Examples

### Example 1: Setting up a fresh workspace
Call: `tmux::kill_session("dev")` (Clean up old)
Call: `tmux::create_session("dev")`
Call: `tmux::create_tab("dev", "backend")`
Result: A session "dev" exists with a default window and a "backend" window.

### Example 2: Running a command
Call: `tmux::send_keys("dev", "backend", 0, "ls -la")`
Result: The `ls -la` command runs in the first pane of the "backend" tab.

### Example 3: Reading the result
Call: `tmux::capture_pane("dev", "backend", 0)`
Output:
total 16
drwxr-xr-x  3 user user 4096 Feb 17 12:00 .
drwxr-xr-x 10 user user 4096 Feb 17 11:00 ..
-rw-r--r--  1 user user  120 Feb 17 12:00 main.rs

### Example 4: Complex Multi-tasking
1. Call: `tmux::add_pane("dev", "backend")` (Splits screen).
2. Call: `tmux::send_keys("dev", "backend", 1, "tail -f server.log")` (Watch logs in pane 1).
3. Call: `tmux::send_keys("dev", "backend", 0, "curl localhost:8080")` (Make request in pane 0).
4. Call: `tmux::get_state("dev")`
Output:
Session: dev
  [Tab: backend] -> [Pane: 0] (Running: curl)
      Last Line: "HTTP/1.1 200 OK"
  [Tab: backend] -> [Pane: 1] (Running: tail)
      Last Line: "[INFO] Incoming request..."


"#;

/// The names the tool's functions are registered under, in order.
pub open spec fn function_names() -> Seq<Seq<char>> {
    seq![
        "tmux::is_available"@,
        "tmux::create_session"@,
        "tmux::kill_session"@,
        "tmux::list_sessions"@,
        "tmux::create_tab"@,
        "tmux::delete_tab"@,
        "tmux::select_tab"@,
        "tmux::add_pane"@,
        "tmux::delete_pane"@,
        "tmux::select_pane"@,
        "tmux::send_keys"@,
        "tmux::capture_pane"@,
        "tmux::get_state"@,
    ]
}

fn function_name(i: usize) -> (r: &'static str)
    requires
        i < 13,
    ensures
        r@ == function_names()[i as int],
{
    if i == 0 {
        "tmux::is_available"
    } else if i == 1 {
        "tmux::create_session"
    } else if i == 2 {
        "tmux::kill_session"
    } else if i == 3 {
        "tmux::list_sessions"
    } else if i == 4 {
        "tmux::create_tab"
    } else if i == 5 {
        "tmux::delete_tab"
    } else if i == 6 {
        "tmux::select_tab"
    } else if i == 7 {
        "tmux::add_pane"
    } else if i == 8 {
        "tmux::delete_pane"
    } else if i == 9 {
        "tmux::select_pane"
    } else if i == 10 {
        "tmux::send_keys"
    } else if i == 11 {
        "tmux::capture_pane"
    } else {
        "tmux::get_state"
    }
}

/// Registers the tool: its manual under `tmux`, and the handlers, in the
/// order of `function_names`.
pub fn register<F: Fn(&String, &[String]) -> String>(
    f: &mut Functions<F>,
    m: &mut Manual,
    handlers: Vec<F>,
)
    requires
        old(f).wf(),
        old(m).wf(),
        handlers@.len() == 13,
        forall|i: int, n: &String, a: &[String]|
            0 <= i < 13 ==> #[trigger] call_requires(handlers@[i], (n, a)),
    ensures
        final(f).wf(),
        final(m).wf(),
        final(m)@ == old(m)@.insert("tmux"@, MANUAL@),
        forall|i: int| 0 <= i < 13 ==> final(f).handler(#[trigger] function_names()[i]) == Some(
            handlers@[i],
        ),
        forall|n: Seq<char>| !function_names().contains(n) ==> final(f).handler(n) == old(f).handler(n),
{
    m.register("tmux", MANUAL);
    let mut hs = handlers;
    let ghost all = hs@;
    let mut i: usize = 0;
    proof {
        reveal_strlit("tmux::is_available");
        reveal_strlit("tmux::create_session");
        reveal_strlit("tmux::kill_session");
        reveal_strlit("tmux::list_sessions");
        reveal_strlit("tmux::create_tab");
        reveal_strlit("tmux::delete_tab");
        reveal_strlit("tmux::select_tab");
        reveal_strlit("tmux::add_pane");
        reveal_strlit("tmux::delete_pane");
        reveal_strlit("tmux::select_pane");
        reveal_strlit("tmux::send_keys");
        reveal_strlit("tmux::capture_pane");
        reveal_strlit("tmux::get_state");
        let names = function_names();
        assert forall|a: int, b: int| 0 <= a < b < 13 implies names[a] != names[b] by {
            if names[a].len() == names[b].len() {
                assert(names[a][6] != names[b][6]);
            }
        }
    }
    while i < 13
        invariant
            i <= 13,
            f.wf(),
            all.len() == 13,
            hs@ == all.subrange(i as int, 13),
            forall|k: int, n: &String, a: &[String]| 0 <= k < 13 ==> #[trigger] call_requires(all[k], (n, a)),
            forall|a: int, b: int| 0 <= a < b < 13 ==> function_names()[a] != function_names()[b],
            forall|k: int| 0 <= k < i ==> f.handler(#[trigger] function_names()[k]) == Some(all[k]),
            forall|n: Seq<char>| !function_names().contains(n) ==> f.handler(n) == old(f).handler(n),
        decreases 13 - i,
    {
        let h = hs.remove(0);
        assert(h == all[i as int]);
        f.register(function_name(i), h);
        proof {
            assert(hs@ =~= all.subrange(i + 1, 13));
            assert forall|k: int| 0 <= k < i + 1 implies f.handler(#[trigger] function_names()[k]) == Some(all[k]) by {
                if k < i {
                    assert(function_names()[k] != function_names()[i as int]);
                }
            }
            assert forall|n: Seq<char>| !function_names().contains(n) implies f.handler(n) == old(f).handler(n) by {
                assert(function_names()[i as int] != n);
            }
        }
        i = i + 1;
    }
}

// ===================================================================
// Targets and answers
// ===================================================================

/// The name of a new tab: the `tab_index` argument, as the manual writes
/// the call, or else the `title` argument.
pub open spec fn new_tab_name(x: SpecTag) -> Option<Seq<char>> {
    match child_index(x.children, "tab_index"@, 0) {
        Some(i) => Some(tag_text(x.children[i])),
        None => match child_index(x.children, "title"@, 0) {
            Some(i) => Some(tag_text(x.children[i])),
            None => None,
        },
    }
}

/// The name of a new tab, or `None` when the call gives none.
pub fn tab_name(x: &Tag) -> (r: Option<&str>)
    ensures
        match new_tab_name(tag_view(*x)) {
            Some(n) => r matches Some(t) && t@ == n,
            None => r is None,
        },
{
    proof {
        lemma_tags_view_index(x.children@);
        lemma_child_index(tags_view(x.children@), "tab_index"@, 0);
        lemma_child_index(tags_view(x.children@), "title"@, 0);
    }
    match x.get("tab_index") {
        Some(t) => Some(t.as_str()),
        None => match x.get("title") {
            Some(t) => Some(t.as_str()),
            None => None,
        },
    }
}

/// The target `SESSION:TAB`.
pub fn tab_target(session: &str, tab: &str) -> (r: String)
    ensures
        r@ == session@ + ":"@ + tab@,
{
    let mut out: Vec<char> = Vec::new();
    push_str(&mut out, session);
    push_str(&mut out, ":");
    push_str(&mut out, tab);
    string_of(out.as_slice())
}

/// The target `SESSION:TAB.PANE`.
pub fn pane_target(session: &str, tab: &str, pane: &str) -> (r: String)
    ensures
        r@ == session@ + ":"@ + tab@ + "."@ + pane@,
{
    let mut out: Vec<char> = Vec::new();
    push_str(&mut out, session);
    push_str(&mut out, ":");
    push_str(&mut out, tab);
    push_str(&mut out, ".");
    push_str(&mut out, pane);
    string_of(out.as_slice())
}

/// How a `tmux` command that prints nothing ended.
#[derive(Debug)]
pub enum RunOutcome {
    /// It exited with success.
    Success,
    /// It exited with this status, as its `Display` writes it.
    Failed(String),
    /// It could not be run, for this reason.
    Error(String),
}

/// The answer of a `tmux` command that prints nothing.
pub fn void_answer(outcome: &RunOutcome) -> (r: String)
    ensures
        r@ == (match outcome {
            RunOutcome::Success => "ok"@,
            RunOutcome::Failed(s) => "failed with status: "@ + s@,
            RunOutcome::Error(e) => "execution error: "@ + e@,
        }),
{
    let mut out: Vec<char> = Vec::new();
    match outcome {
        RunOutcome::Success => push_str(&mut out, "ok"),
        RunOutcome::Failed(s) => {
            push_str(&mut out, "failed with status: ");
            push_str(&mut out, s.as_str());
        },
        RunOutcome::Error(e) => {
            push_str(&mut out, "execution error: ");
            push_str(&mut out, e.as_str());
        },
    }
    string_of(out.as_slice())
}

/// A text with leading and trailing whitespace removed.
pub fn trimmed(s: &str) -> (r: String)
    ensures
        r@ == trim(s@),
{
    let c = chars_of(s);
    let (a, b) = trim_bounds(c.as_slice(), 0, c.len());
    assert(c@.subrange(0, c@.len() as int) =~= c@);
    let mut out: Vec<char> = Vec::new();
    push_range(&mut out, c.as_slice(), a, b);
    string_of(out.as_slice())
}

/// What a `tmux` command that prints gives: its stdout trimmed when it
/// succeeded, else its stderr trimmed.
pub fn output_result(success: bool, stdout: &str, stderr: &str) -> (r: Result<String, String>)
    ensures
        success ==> (r matches Ok(t) && t@ == trim(stdout@)),
        !success ==> (r matches Err(t) && t@ == trim(stderr@)),
{
    if success {
        Ok(trimmed(stdout))
    } else {
        Err(trimmed(stderr))
    }
}

/// The answer listing the sessions.
pub fn sessions_answer(out: &Result<String, String>) -> (r: String)
    ensures
        r@ == (match out {
            Ok(t) => if t@.len() == 0 {
                "(none)"@
            } else {
                t@
            },
            Err(e) => "error: "@ + e@,
        }),
{
    match out {
        Ok(t) => if t.as_str().is_empty() {
            "(none)".to_owned()
        } else {
            t.clone()
        },
        Err(e) => {
            let mut o: Vec<char> = Vec::new();
            push_str(&mut o, "error: ");
            push_str(&mut o, e.as_str());
            string_of(o.as_slice())
        },
    }
}

/// The format of the pane listing.
pub const PANE_FORMAT: &'static str = "#{window_index}|#{window_name}|#{pane_index}|#{pane_current_command}";

/// The rows of a pane listing: each line cut at `|`, those with fewer
/// than four fields left out.
pub open spec fn pane_rows(raw: Seq<char>) -> Seq<Seq<Seq<char>>> {
    text_lines(raw).map_values(|l: Seq<char>| split_at_char(l, '|')).filter(
        |r: Seq<Seq<char>>| r.len() >= 4,
    )
}

/// The line of the state report for one pane, with the last line of its
/// output.
pub open spec fn pane_report(row: Seq<Seq<char>>, last: Seq<char>) -> Seq<char> {
    "  [Tab Index: "@ + row[0] + "] (Title: "@ + row[1] + ") > [Pane Index: "@ + row[2] + "] (Cmd: "@
        + row[3] + ")\n    Last Line: \""@ + trim(last) + "\"\n"@
}

/// The report lines of the panes from the first.
pub open spec fn pane_reports(rows: Seq<(Seq<Seq<char>>, Seq<char>)>) -> Seq<char>
    decreases rows.len(),
{
    if rows.len() == 0 {
        Seq::empty()
    } else {
        pane_reports(rows.drop_last()) + pane_report(rows.last().0, rows.last().1)
    }
}

/// The fields of one line of a pane listing.
fn split_fields(line: &str) -> (r: Vec<String>)
    ensures
        strings_view(r@) == split_at_char(line@, '|'),
{
    let c = chars_of(line);
    let mut out: Vec<String> = Vec::new();
    let mut cur: Vec<char> = Vec::new();
    let mut i: usize = 0;
    proof {
        assert(c@.take(0) =~= Seq::<char>::empty());
        assert(strings_view(out@) =~= Seq::<Seq<char>>::empty());
    }
    while i < c.len()
        invariant
            c@ == line@,
            i <= c@.len(),
            ({
                let sp = split_at_char(c@.take(i as int), '|');
                &&& sp.len() >= 1
                &&& cur@ == sp.last()
                &&& strings_view(out@) == sp.drop_last()
            }),
        decreases c@.len() - i,
    {
        let ch = c[i];
        let ghost t0 = c@.take(i as int);
        let ghost sp0 = split_at_char(t0, '|');
        proof {
            assert(c@.take(i + 1) =~= t0.push(ch));
            assert(c@.take(i + 1).drop_last() =~= t0);
        }
        if ch == '|' {
            let ghost o = out@;
            let f = string_of(cur.as_slice());
            out.push(f);
            proof {
                let sp1 = split_at_char(c@.take(i + 1), '|');
                assert(sp1 == sp0.push(Seq::empty()));
                assert(sp1.drop_last() =~= sp0);
                assert(strings_view(out@) =~= strings_view(o).push(sp0.last()));
                assert(sp0 =~= sp0.drop_last().push(sp0.last()));
            }
            cur = Vec::new();
            assert(cur@ =~= Seq::<char>::empty());
        } else {
            cur.push(ch);
            proof {
                let sp1 = split_at_char(c@.take(i + 1), '|');
                assert(sp1 == sp0.update(sp0.len() - 1, sp0.last().push(ch)));
                assert(sp1.drop_last() =~= sp0.drop_last());
            }
        }
        i = i + 1;
    }
    proof {
        assert(c@.take(c@.len() as int) =~= c@);
    }
    let ghost o = out@;
    let f = string_of(cur.as_slice());
    out.push(f);
    proof {
        let sp = split_at_char(c@, '|');
        assert(strings_view(out@) =~= strings_view(o).push(f@));
        assert(sp =~= sp.drop_last().push(sp.last()));
    }
    out
}

/// The rows of a pane listing.
pub fn parse_pane_rows(raw: &str) -> (r: Vec<Vec<String>>)
    ensures
        r@.map_values(|v: Vec<String>| strings_view(v@)) == pane_rows(raw@),
{
    let lines = lines_of(raw);
    let ghost ls = crate::cmdlang::strings_view(lines@);
    let ghost rows = ls.map_values(|l: Seq<char>| split_at_char(l, '|'));
    let mut out: Vec<Vec<String>> = Vec::new();
    let mut i: usize = 0;
    reveal_with_fuel(Seq::<_>::filter, 1);
    proof {
        assert(rows.take(0) =~= Seq::<Seq<Seq<char>>>::empty());
        assert(out@.map_values(|v: Vec<String>| strings_view(v@)) =~= Seq::<Seq<Seq<char>>>::empty());
    }
    while i < lines.len()
        invariant
            i <= lines@.len(),
            ls == crate::cmdlang::strings_view(lines@),
            rows == ls.map_values(|l: Seq<char>| split_at_char(l, '|')),
            out@.map_values(|v: Vec<String>| strings_view(v@)) == rows.take(i as int).filter(
                |r: Seq<Seq<char>>| r.len() >= 4,
            ),
        decreases lines@.len() - i,
    {
        reveal_with_fuel(Seq::<_>::filter, 1);
        let fields = split_fields(lines[i].as_str());
        proof {
            assert(rows.take(i + 1).drop_last() =~= rows.take(i as int));
            assert(rows.take(i + 1).last() == strings_view(fields@));
        }
        let ghost o = out@;
        if fields.len() >= 4 {
            let ghost fv = strings_view(fields@);
            out.push(fields);
            assert(out@.map_values(|v: Vec<String>| strings_view(v@)) =~= o.map_values(
                |v: Vec<String>| strings_view(v@),
            ).push(fv));
        }
        i = i + 1;
    }
    proof {
        assert(rows.take(rows.len() as int) =~= rows);
    }
    out
}

/// The state report of a session, from its pane rows and the last line
/// of output of each.
pub fn state_report(session: &str, panes: &Vec<(Vec<String>, String)>) -> (r: String)
    requires
        forall|i: int| 0 <= i < panes@.len() ==> (#[trigger] panes@[i]).0@.len() >= 4,
    ensures
        r@ == "Session: "@ + session@ + "\n"@ + pane_reports(
            panes@.map_values(|p: (Vec<String>, String)| (strings_view(p.0@), p.1@)),
        ),
{
    let ghost ps = panes@.map_values(|p: (Vec<String>, String)| (strings_view(p.0@), p.1@));
    let mut out: Vec<char> = Vec::new();
    push_str(&mut out, "Session: ");
    push_str(&mut out, session);
    push_str(&mut out, "\n");
    let ghost head = out@;
    let mut i: usize = 0;
    while i < panes.len()
        invariant
            i <= panes@.len(),
            ps == panes@.map_values(|p: (Vec<String>, String)| (strings_view(p.0@), p.1@)),
            forall|k: int| 0 <= k < panes@.len() ==> (#[trigger] panes@[k]).0@.len() >= 4,
            out@ == head + pane_reports(ps.take(i as int)),
        decreases panes@.len() - i,
    {
        proof {
            assert(ps.take(i + 1).drop_last() =~= ps.take(i as int));
        }
        let row = &panes[i].0;
        push_str(&mut out, "  [Tab Index: ");
        push_str(&mut out, row[0].as_str());
        push_str(&mut out, "] (Title: ");
        push_str(&mut out, row[1].as_str());
        push_str(&mut out, ") > [Pane Index: ");
        push_str(&mut out, row[2].as_str());
        push_str(&mut out, "] (Cmd: ");
        push_str(&mut out, row[3].as_str());
        push_str(&mut out, ")\n    Last Line: \"");
        let last = trimmed(panes[i].1.as_str());
        push_str(&mut out, last.as_str());
        push_str(&mut out, "\"\n");
        proof {
            assert(out@ =~= head + pane_reports(ps.take(i + 1)));
        }
        i = i + 1;
    }
    assert(ps.take(ps.len() as int) =~= ps);
    string_of(out.as_slice())
}

/// The state report holds one pane report per pane, in order: the report
/// of panes listed one after the other is the report of the first ones
/// followed by the report of the others, and one pane gives its own
/// report.
pub proof fn law_pane_reports_concat(
    r1: Seq<(Seq<Seq<char>>, Seq<char>)>,
    r2: Seq<(Seq<Seq<char>>, Seq<char>)>,
)
    ensures
        pane_reports(r1 + r2) == pane_reports(r1) + pane_reports(r2),
        r2.len() == 1 ==> pane_reports(r1 + r2) == pane_reports(r1) + pane_report(r2[0].0, r2[0].1),
        pane_reports(r1 + r2).len() == pane_reports(r1).len() + pane_reports(r2).len(),
    decreases r2.len(),
{
    if r2.len() == 0 {
        assert(r1 + r2 =~= r1);
        assert(pane_reports(r1) + pane_reports(r2) =~= pane_reports(r1));
    } else {
        law_pane_reports_concat(r1, r2.drop_last());
        assert((r1 + r2).drop_last() =~= r1 + r2.drop_last());
        assert(pane_reports(r1) + pane_reports(r2.drop_last()) + pane_report(r2.last().0, r2.last().1)
            =~= pane_reports(r1) + (pane_reports(r2.drop_last()) + pane_report(r2.last().0, r2.last().1)));
        if r2.len() == 1 {
            assert(r2.drop_last() =~= Seq::<(Seq<Seq<char>>, Seq<char>)>::empty());
            assert(pane_reports(r2.drop_last()) =~= Seq::<char>::empty());
            assert(pane_reports(r2) =~= pane_report(r2[0].0, r2[0].1));
        }
    }
}

} // verus!
