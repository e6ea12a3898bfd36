//! The configuration read from `config.toml`, and the choices made from it
//! when the agent starts.
use vstd::prelude::*;
use crate::agent::AgentAction;
use crate::message::pairs_view;
use crate::strutil::{chars_of, push_str, str_eq, string_of};

verus! {

/// A model provider.
#[derive(Debug)]
pub struct Provider {
    pub name: String,
    pub backend: String,
    pub api_base: String,
    pub api_key: String,
    /// Extra settings, each key once.
    pub extra: Vec<(String, String)>,
}

/// The configuration.
#[derive(Debug)]
pub struct Config {
    pub providers: Vec<Provider>,
    pub model: String,
    /// The name of the provider to use.
    pub provider: String,
    pub blocked_functions: Vec<String>,
    /// Extra settings, each key once.
    pub extra: Vec<(String, String)>,
}

impl Default for Provider {
    fn default() -> (r: Self)
        ensures
            r.name@.len() == 0 && r.backend@.len() == 0 && r.api_base@.len() == 0
                && r.api_key@.len() == 0 && r.extra@.len() == 0,
    {
        Provider {
            name: String::new(),
            backend: String::new(),
            api_base: String::new(),
            api_key: String::new(),
            extra: Vec::new(),
        }
    }
}

impl Default for Config {
    fn default() -> (r: Self)
        ensures
            r.providers@.len() == 0 && r.model@.len() == 0 && r.provider@.len() == 0
                && r.blocked_functions@.len() == 0 && r.extra@.len() == 0,
    {
        Config {
            providers: Vec::new(),
            model: String::new(),
            provider: String::new(),
            blocked_functions: Vec::new(),
            extra: Vec::new(),
        }
    }
}

/// The index of the first provider named `name` at or after `i`.
pub open spec fn provider_index(ps: Seq<Provider>, name: Seq<char>, i: int) -> Option<int>
    decreases ps.len() - i,
{
    if i < 0 || i >= ps.len() {
        None
    } else if ps[i].name@ == name {
        Some(i)
    } else {
        provider_index(ps, name, i + 1)
    }
}

impl Config {
    /// The provider the configuration names: the first with that name.
    pub fn selected_provider(&self) -> (r: Option<&Provider>)
        ensures
            match provider_index(self.providers@, self.provider@, 0) {
                Some(i) => r == Some(&self.providers@[i]),
                None => r is None,
            },
    {
        let mut i: usize = 0;
        while i < self.providers.len()
            invariant
                i <= self.providers@.len(),
                provider_index(self.providers@, self.provider@, 0) == provider_index(
                    self.providers@,
                    self.provider@,
                    i as int,
                ),
            decreases self.providers@.len() - i,
        {
            if str_eq(self.providers[i].name.as_str(), self.provider.as_str()) {
                return Some(&self.providers[i]);
            }
            i = i + 1;
        }
        None
    }
}

/// A text cut at each `sep`: the pieces between separators, empty ones
/// included, as `str::split` gives them.
pub open spec fn split_at_char(s: Seq<char>, sep: char) -> Seq<Seq<char>>
    decreases s.len(),
{
    if s.len() == 0 {
        seq![Seq::empty()]
    } else {
        let r = split_at_char(s.drop_last(), sep);
        if s.last() == sep {
            r.push(Seq::empty())
        } else {
            r.update(r.len() - 1, r.last().push(s.last()))
        }
    }
}

proof fn lemma_split_len(s: Seq<char>, sep: char)
    ensures
        split_at_char(s, sep).len() >= 1,
    decreases s.len(),
{
    if s.len() > 0 {
        lemma_split_len(s.drop_last(), sep);
    }
}

pub open spec fn not_space() -> spec_fn(char) -> bool {
    |c: char| c != ' '
}

pub open spec fn not_empty() -> spec_fn(Seq<char>) -> bool {
    |t: Seq<char>| t.len() > 0
}

/// The providers to prefer, from the `providers` setting of a provider:
/// spaces removed, cut at commas, empty names dropped.
pub open spec fn provider_order(extra: Seq<(Seq<char>, Seq<char>)>) -> Seq<Seq<char>> {
    let setting = match crate::message::pair_index(extra, "providers"@, 0) {
        Some(i) => extra[i].1,
        None => Seq::empty(),
    };
    split_at_char(setting.filter(not_space()), ',').filter(not_empty())
}

/// The value of the `providers` setting, or the empty text.
fn providers_setting(p: &Provider) -> (r: String)
    ensures
        r@ == (match crate::message::pair_index(pairs_view(p.extra@), "providers"@, 0) {
            Some(i) => pairs_view(p.extra@)[i].1,
            None => Seq::empty(),
        }),
{
    let ghost ps = pairs_view(p.extra@);
    let mut i: usize = 0;
    while i < p.extra.len()
        invariant
            ps == pairs_view(p.extra@),
            i <= p.extra@.len(),
            crate::message::pair_index(ps, "providers"@, 0) == crate::message::pair_index(
                ps,
                "providers"@,
                i as int,
            ),
        decreases p.extra@.len() - i,
    {
        if str_eq(p.extra[i].0.as_str(), "providers") {
            return p.extra[i].1.clone();
        }
        i = i + 1;
    }
    String::new()
}

impl Provider {
    /// The providers to prefer, in order.
    pub fn order(&self) -> (r: Vec<String>)
        ensures
            crate::cmdlang::strings_view(r@) == provider_order(pairs_view(self.extra@)),
    {
        let setting = providers_setting(self);
        let s = chars_of(setting.as_str());
        let ghost src = s@.filter(not_space());
        let mut out: Vec<String> = Vec::new();
        let mut cur: Vec<char> = Vec::new();
        let mut i: usize = 0;
        reveal_with_fuel(Seq::<_>::filter, 1);
        proof {
            assert(s@.take(0).filter(not_space()) =~= Seq::<char>::empty());
            assert(split_at_char(Seq::<char>::empty(), ',').drop_last().filter(not_empty())
                =~= Seq::<Seq<char>>::empty());
            assert(crate::cmdlang::strings_view(out@) =~= Seq::<Seq<char>>::empty());
        }
        while i < s.len()
            invariant
                i <= s@.len(),
                ({
                    let sp = split_at_char(s@.take(i as int).filter(not_space()), ',');
                    &&& sp.len() >= 1
                    &&& cur@ == sp.last()
                    &&& crate::cmdlang::strings_view(out@) == sp.drop_last().filter(not_empty())
                }),
            decreases s@.len() - i,
        {
            reveal_with_fuel(Seq::<_>::filter, 1);
            let c = s[i];
            let ghost t0 = s@.take(i as int).filter(not_space());
            let ghost sp0 = split_at_char(t0, ',');
            proof {
                assert(s@.take(i + 1).drop_last() =~= s@.take(i as int));
                assert(s@.take(i + 1).last() == c);
                lemma_split_len(t0, ',');
            }
            if c == ' ' {
                assert(s@.take(i + 1).filter(not_space()) == t0);
            } else if c == ',' {
                let ghost t1 = t0.push(c);
                assert(s@.take(i + 1).filter(not_space()) == t1);
                assert(t1.drop_last() =~= t0);
                let ghost o = out@;
                if cur.len() > 0 {
                    let w = string_of(cur.as_slice());
                    out.push(w);
                    assert(crate::cmdlang::strings_view(out@) =~= crate::cmdlang::strings_view(o).push(
                        w@,
                    ));
                }
                proof {
                    let sp1 = split_at_char(t1, ',');
                    assert(sp1 == sp0.push(Seq::empty()));
                    assert(sp1.drop_last() =~= sp0);
                    assert(sp0 =~= sp0.drop_last().push(sp0.last()));
                    assert(sp0.filter(not_empty()) == sp0.drop_last().filter(not_empty()) + if sp0.last().len() > 0 {
                        seq![sp0.last()]
                    } else {
                        Seq::empty()
                    });
                }
                cur = Vec::new();
                assert(cur@ =~= Seq::<char>::empty());
            } else {
                let ghost t1 = t0.push(c);
                assert(s@.take(i + 1).filter(not_space()) == t1);
                assert(t1.drop_last() =~= t0);
                cur.push(c);
                proof {
                    let sp1 = split_at_char(t1, ',');
                    assert(sp1 == sp0.update(sp0.len() - 1, sp0.last().push(c)));
                    assert(sp1.drop_last() =~= sp0.drop_last());
                }
            }
            i = i + 1;
        }
        let ghost spf = split_at_char(s@.filter(not_space()), ',');
        proof {
            assert(s@.take(s@.len() as int) =~= s@);
            lemma_split_len(s@.filter(not_space()), ',');
            assert(spf =~= spf.drop_last().push(spf.last()));
        }
        let ghost o = out@;
        if cur.len() > 0 {
            let w = string_of(cur.as_slice());
            out.push(w);
            assert(crate::cmdlang::strings_view(out@) =~= crate::cmdlang::strings_view(o).push(w@));
        }
        proof {
            assert(spf.filter(not_empty()) == spf.drop_last().filter(not_empty()) + if spf.last().len() > 0 {
                seq![spf.last()]
            } else {
                Seq::empty()
            });
        }
        out
    }
}

// ===================================================================
// Start-up
// ===================================================================

/// The lines `NAME: SOURCE` of the prompts, each after a line break.
pub open spec fn prompt_lines(ps: Seq<(Seq<char>, Seq<char>)>) -> Seq<char>
    decreases ps.len(),
{
    if ps.len() == 0 {
        Seq::empty()
    } else {
        prompt_lines(ps.drop_last()) + "\n"@ + ps.last().0 + ": "@ + ps.last().1
    }
}

/// The lines `NAME: SOURCE | INFO` of the functions, each after a line
/// break.
pub open spec fn function_lines(fs: Seq<(Seq<char>, Seq<char>, Seq<char>)>) -> Seq<char>
    decreases fs.len(),
{
    if fs.len() == 0 {
        Seq::empty()
    } else {
        function_lines(fs.drop_last()) + "\n"@ + fs.last().0 + ": "@ + fs.last().1 + " | "@
            + fs.last().2
    }
}

/// The prompt that tells the model what the shell holds.
pub open spec fn meta_prompt(ps: Seq<(Seq<char>, Seq<char>)>, fs: Seq<(Seq<char>, Seq<char>, Seq<char>)>) -> Seq<char> {
    "Bond paths:\n\nPrompts loaded:\n"@ + prompt_lines(ps) + "\nNamespaces (functions):\n"@
        + function_lines(fs)
}

/// The prompt that tells the model what the shell holds, from the name and
/// source of each prompt and the name, source and `INFO` answer of each
/// function.
pub fn gen_meta_prompt(prompts: &Vec<(String, String)>, functions: &Vec<(String, String, String)>) -> (r:
    String)
    ensures
        r@ == meta_prompt(
            pairs_view(prompts@),
            functions@.map_values(|f: (String, String, String)| (f.0@, f.1@, f.2@)),
        ),
{
    let ghost ps = pairs_view(prompts@);
    let ghost fs = functions@.map_values(|f: (String, String, String)| (f.0@, f.1@, f.2@));
    let mut out: Vec<char> = Vec::new();
    push_str(&mut out, "Bond paths:\n\nPrompts loaded:\n");
    let ghost head = out@;
    let mut i: usize = 0;
    while i < prompts.len()
        invariant
            ps == pairs_view(prompts@),
            i <= prompts@.len(),
            out@ == head + prompt_lines(ps.take(i as int)),
        decreases prompts@.len() - i,
    {
        proof {
            assert(ps.take(i + 1).drop_last() =~= ps.take(i as int));
        }
        push_str(&mut out, "\n");
        push_str(&mut out, prompts[i].0.as_str());
        push_str(&mut out, ": ");
        push_str(&mut out, prompts[i].1.as_str());
        proof {
            assert(out@ =~= head + prompt_lines(ps.take(i + 1)));
        }
        i = i + 1;
    }
    assert(ps.take(ps.len() as int) =~= ps);
    push_str(&mut out, "\nNamespaces (functions):\n");
    let ghost mid = out@;
    let mut j: usize = 0;
    while j < functions.len()
        invariant
            fs == functions@.map_values(|f: (String, String, String)| (f.0@, f.1@, f.2@)),
            j <= functions@.len(),
            out@ == mid + function_lines(fs.take(j as int)),
        decreases functions@.len() - j,
    {
        proof {
            assert(fs.take(j + 1).drop_last() =~= fs.take(j as int));
        }
        push_str(&mut out, "\n");
        push_str(&mut out, functions[j].0.as_str());
        push_str(&mut out, ": ");
        push_str(&mut out, functions[j].1.as_str());
        push_str(&mut out, " | ");
        push_str(&mut out, functions[j].2.as_str());
        proof {
            assert(out@ =~= mid + function_lines(fs.take(j + 1)));
        }
        j = j + 1;
    }
    assert(fs.take(fs.len() as int) =~= fs);
    assert(out@ =~= meta_prompt(ps, fs));
    string_of(out.as_slice())
}

/// The actions that set the agent up: each prompt, then the meta prompt,
/// as system prompts of the template channel, then the channel `main` made
/// from the template.
pub fn startup_actions(prompts: &Vec<(String, String)>, meta: String) -> (r: Vec<AgentAction>)
    ensures
        r@.len() == prompts@.len() + 2,
        forall|i: int|
            0 <= i < prompts@.len() ==> ((#[trigger] r@[i]) matches AgentAction::SendSystemPrompt {
                channel,
                name,
                text,
            } && channel@ == "template_main"@ && name@ == prompts@[i].0@ && text@ == prompts@[i].1@),
        r@[prompts@.len() as int] matches AgentAction::SendSystemPrompt { channel, name, text }
            && channel@ == "template_main"@ && name@ == "meta"@ && text@ == meta@,
        r@[prompts@.len() + 1int] matches AgentAction::SendNewChannel { channel, template }
            && channel@ == "main"@ && template@ == "template_main"@,
{
    let mut out: Vec<AgentAction> = Vec::new();
    let mut i: usize = 0;
    while i < prompts.len()
        invariant
            i <= prompts@.len(),
            out@.len() == i,
            forall|k: int|
                0 <= k < i ==> ((#[trigger] out@[k]) matches AgentAction::SendSystemPrompt {
                    channel,
                    name,
                    text,
                } && channel@ == "template_main"@ && name@ == prompts@[k].0@ && text@
                    == prompts@[k].1@),
        decreases prompts@.len() - i,
    {
        out.push(
            AgentAction::SendSystemPrompt {
                channel: "template_main".to_owned(),
                name: prompts[i].0.clone(),
                text: prompts[i].1.clone(),
            },
        );
        i = i + 1;
    }
    out.push(
        AgentAction::SendSystemPrompt {
            channel: "template_main".to_owned(),
            name: "meta".to_owned(),
            text: meta,
        },
    );
    out.push(
        AgentAction::SendNewChannel {
            channel: "main".to_owned(),
            template: "template_main".to_owned(),
        },
    );
    out
}

pub proof fn lemma_split_pieces(s: Seq<char>, sep: char)
    ensures
        forall|i: int, j: int|
            0 <= i < split_at_char(s, sep).len() && 0 <= j < split_at_char(s, sep)[i].len()
                ==> split_at_char(s, sep)[i][j] != sep && s.contains(split_at_char(s, sep)[i][j]),
    decreases s.len(),
{
    if s.len() > 0 {
        let t = s.drop_last();
        lemma_split_pieces(t, sep);
        lemma_split_len(t, sep);
        let r = split_at_char(t, sep);
        assert forall|i: int, j: int|
            0 <= i < split_at_char(s, sep).len() && 0 <= j < split_at_char(s, sep)[i].len()
                implies split_at_char(s, sep)[i][j] != sep && s.contains(split_at_char(s, sep)[i][j]) by {
            let p = split_at_char(s, sep)[i];
            if s.last() == sep {
                if i < r.len() {
                    assert(p == r[i]);
                    let k = choose|k: int| 0 <= k < t.len() && t[k] == p[j];
                    assert(s[k] == t[k]);
                }
            } else {
                if i < r.len() - 1 {
                    assert(p == r[i]);
                    let k = choose|k: int| 0 <= k < t.len() && t[k] == p[j];
                    assert(s[k] == t[k]);
                } else {
                    assert(p == r.last().push(s.last()));
                    if j < r.last().len() {
                        let k = choose|k: int| 0 <= k < t.len() && t[k] == p[j];
                        assert(s[k] == t[k]);
                    } else {
                        assert(s[s.len() - 1] == p[j]);
                    }
                }
            }
        }
    }
}

/// The providers to prefer are names: none is empty, and none holds a
/// space or a comma.
pub proof fn law_provider_names(extra: Seq<(Seq<char>, Seq<char>)>)
    ensures
        forall|i: int| 0 <= i < provider_order(extra).len() ==> {
            let n = #[trigger] provider_order(extra)[i];
            &&& n.len() > 0
            &&& forall|j: int| 0 <= j < n.len() ==> n[j] != ' ' && n[j] != ','
        },
{
    let setting = match crate::message::pair_index(extra, "providers"@, 0) {
        Some(i) => extra[i].1,
        None => Seq::empty(),
    };
    let f = setting.filter(not_space());
    let sp = split_at_char(f, ',');
    lemma_split_pieces(f, ',');
    sp.filter_lemma(not_empty());
    setting.filter_lemma(not_space());
    assert forall|i: int| 0 <= i < provider_order(extra).len() implies {
        let n = #[trigger] provider_order(extra)[i];
        &&& n.len() > 0
        &&& forall|j: int| 0 <= j < n.len() ==> n[j] != ' ' && n[j] != ','
    } by {
        let n = provider_order(extra)[i];
        assert(provider_order(extra) == sp.filter(not_empty()));
        assert(sp.filter(not_empty())[i] == n);
        assert(sp.filter(not_empty()).contains(n));
        sp.lemma_filter_contains_rev(not_empty(), n);
        assert(sp.contains(n));
        let k = choose|k: int| 0 <= k < sp.len() && sp[k] == n;
        assert forall|j: int| 0 <= j < n.len() implies n[j] != ' ' && n[j] != ',' by {
            assert(sp[k][j] == n[j]);
            assert(f.contains(n[j]));
            let m = choose|m: int| 0 <= m < f.len() && f[m] == n[j];
            assert(not_space()(f[m]));
        }
    }
}

} // verus!
