//! The `knowledge_base` tool: searches the `.md` files of `kb/`. Reading the
//! files and scoring them (in floating point) belong to the caller; reading
//! the request, cutting texts into words and writing the answer are here.
use vstd::prelude::*;
use crate::cmdlang::strings_view;
use crate::config::not_empty;
use crate::strutil::{chars_of, decimal, push_decimal, push_str, string_of, parse_usize, parse_usize_spec, trim, trim_end, trim_bounds};
use crate::taglang::{Tag, child_index, tag_text, tags_view, lemma_tags_view_index};
use crate::tools::text::arg_text;

use crate::function::Functions;
use crate::tools::manual::Manual;
verus! {

pub const MANUAL: &'static str = r#"
# Knowledge Base Module Manual

This is the ONLY authorized tool for searching the local knowledge base.
The knowledge base lives in the `kb/` directory and may contain arbitrary subdirectories. Only `.md` files are searched.

## Functions

- knowledge_base::search(q1: string, q2: string, q3: string, top_n: string) -> String
   - Searches the knowledge base using up to three independent queries.
   - Pass "" for any query you want to skip. At least one must be non-empty.
   - Queries do NOT need to be related — they work together additively. A document matching multiple queries ranks higher than one matching only one.
   - Scoring is token-based (case-insensitive). Exact matches score 1.0, partial/substring matches score 0.4, and a title match adds +3.0. Longer tokens weigh more.
   - `top_n`: number of results to return. Default is 1. Maximum is 3. Values above 3 are clamped to 3.
   - Use top_n=1 when you want the single best match. Use top_n=3 when exploring an unfamiliar topic.
   - Returns the full Markdown content of the top N matching documents, or an error string if the kb is empty or all queries are blank.
   - Output format per result: `=== Result N | kb/path/file.md | score: X.XX ===\n<contents>`

## Rules

- Always search the knowledge base BEFORE attempting to solve a problem from scratch. Prior solutions may already exist.
- Use all three query slots when approaching a problem from multiple angles (topic + technique + tool).
- Queries can be words, phrases, or full sentences.

## Usage Examples

### Example 1: Single best match
Call: `knowledge_base::search("MD5 rainbow table hash cracking", "", "", "1")`
Result: The single most relevant document.

### Example 2: Multi-angle search with broader results
Call: `knowledge_base::search("SQL injection login bypass", "Python exploit script", "CTF web challenge", "3")`
Result: Top 3 documents. Those touching multiple angles rank higher.

### Example 3: Two related topics
Call: `knowledge_base::search("RSA private key", "modular arithmetic exponent", "", "2")`
Result: Top 2 documents relevant to RSA or modular arithmetic, with overlap scoring highest.
"#;

// ===================================================================
// Words
// ===================================================================

/// `char::is_alphanumeric` (Unicode alphabetic or numeric).
pub uninterp spec fn alnum(c: char) -> bool;

/// What `str::to_lowercase` makes of a text (Unicode case mapping).
pub uninterp spec fn lower(s: Seq<char>) -> Seq<char>;

/// `char::is_alphanumeric`.
#[verifier::external_body]
fn is_alnum(c: char) -> (r: bool)
    ensures
        r == alnum(c),
{
    c.is_alphanumeric()
}

/// `str::to_lowercase`.
#[verifier::external_body]
fn to_lower(s: &str) -> (r: String)
    ensures
        r@ == lower(s@),
{
    s.to_lowercase()
}

/// A text cut at each character that is not alphanumeric, as
/// `str::split` with that pattern gives the pieces.
pub open spec fn split_words(s: Seq<char>) -> Seq<Seq<char>>
    decreases s.len(),
{
    if s.len() == 0 {
        seq![Seq::empty()]
    } else {
        let r = split_words(s.drop_last());
        if !alnum(s.last()) {
            r.push(Seq::empty())
        } else {
            r.update(r.len() - 1, r.last().push(s.last()))
        }
    }
}

proof fn lemma_split_words_len(s: Seq<char>)
    ensures
        split_words(s).len() >= 1,
    decreases s.len(),
{
    if s.len() > 0 {
        lemma_split_words_len(s.drop_last());
    }
}

pub open spec fn lowered() -> spec_fn(Seq<char>) -> Seq<char> {
    |t: Seq<char>| lower(t)
}

/// The words of a text: the runs of alphanumeric characters, in lower case.
pub open spec fn words(s: Seq<char>) -> Seq<Seq<char>> {
    split_words(s).filter(not_empty()).map_values(lowered())
}

/// The words of a text.
pub fn tokenize(s: &str) -> (r: Vec<String>)
    ensures
        strings_view(r@) == words(s@),
{
    let c = chars_of(s);
    let mut out: Vec<String> = Vec::new();
    let mut cur: Vec<char> = Vec::new();
    let mut i: usize = 0;
    reveal_with_fuel(Seq::<_>::filter, 1);
    proof {
        assert(c@.take(0) =~= Seq::<char>::empty());
        assert(split_words(Seq::<char>::empty()).drop_last().filter(not_empty()) =~= Seq::<Seq<char>>::empty());
        assert(strings_view(out@) =~= Seq::<Seq<char>>::empty());
        assert(Seq::<Seq<char>>::empty().map_values(lowered()) =~= Seq::<Seq<char>>::empty());
    }
    while i < c.len()
        invariant
            c@ == s@,
            i <= c@.len(),
            ({
                let sp = split_words(c@.take(i as int));
                &&& sp.len() >= 1
                &&& cur@ == sp.last()
                &&& strings_view(out@) == sp.drop_last().filter(not_empty()).map_values(lowered())
            }),
        decreases c@.len() - i,
    {
        reveal_with_fuel(Seq::<_>::filter, 1);
        let ch = c[i];
        let ghost t0 = c@.take(i as int);
        let ghost sp0 = split_words(t0);
        proof {
            assert(c@.take(i + 1) =~= t0.push(ch));
            assert(c@.take(i + 1).drop_last() =~= t0);
            lemma_split_words_len(t0);
        }
        if !is_alnum(ch) {
            let ghost o = out@;
            if cur.len() > 0 {
                let w = to_lower(string_of(cur.as_slice()).as_str());
                out.push(w);
                assert(strings_view(out@) =~= strings_view(o).push(w@));
            }
            proof {
                let sp1 = split_words(c@.take(i + 1));
                assert(sp1 == sp0.push(Seq::empty()));
                assert(sp1.drop_last() =~= sp0);
                assert(sp0 =~= sp0.drop_last().push(sp0.last()));
                let f0 = sp0.drop_last().filter(not_empty());
                assert(sp0.filter(not_empty()) == f0 + if sp0.last().len() > 0 {
                    seq![sp0.last()]
                } else {
                    Seq::empty()
                });
                if sp0.last().len() > 0 {
                    assert((f0 + seq![sp0.last()]).map_values(lowered()) =~= f0.map_values(lowered()).push(
                        lower(sp0.last()),
                    ));
                } else {
                    assert(f0 + Seq::<Seq<char>>::empty() =~= f0);
                }
            }
            cur = Vec::new();
            assert(cur@ =~= Seq::<char>::empty());
        } else {
            cur.push(ch);
            proof {
                let sp1 = split_words(c@.take(i + 1));
                assert(sp1 == sp0.update(sp0.len() - 1, sp0.last().push(ch)));
                assert(sp1.drop_last() =~= sp0.drop_last());
            }
        }
        i = i + 1;
    }
    let ghost spf = split_words(s@);
    proof {
        assert(c@.take(c@.len() as int) =~= c@);
        lemma_split_words_len(s@);
        assert(spf =~= spf.drop_last().push(spf.last()));
    }
    let ghost o = out@;
    if cur.len() > 0 {
        let w = to_lower(string_of(cur.as_slice()).as_str());
        out.push(w);
        assert(strings_view(out@) =~= strings_view(o).push(w@));
    }
    proof {
        let f0 = spf.drop_last().filter(not_empty());
        assert(spf.filter(not_empty()) == f0 + if spf.last().len() > 0 {
            seq![spf.last()]
        } else {
            Seq::empty()
        });
        if spf.last().len() > 0 {
            assert((f0 + seq![spf.last()]).map_values(lowered()) =~= f0.map_values(lowered()).push(
                lower(spf.last()),
            ));
        } else {
            assert(f0 + Seq::<Seq<char>>::empty() =~= f0);
        }
    }
    out
}

// ===================================================================
// Requests and answers
// ===================================================================

/// A search: the words of each query given, and how many results to give.
#[derive(Debug)]
pub struct SearchRequest {
    pub queries: Vec<Vec<String>>,
    pub top_n: usize,
}

/// Whether reading a search request panics nowhere: `q1`, `q2` and `q3`
/// are there.
pub open spec fn search_args_present(x: Tag) -> bool {
    arg_text(x, "q1"@) is Some && arg_text(x, "q2"@) is Some && arg_text(x, "q3"@) is Some
}

/// How many results a search gives: `top_n` read as a number (one when it
/// is missing or not a number), kept between one and three.
pub open spec fn top_n_of(x: Tag) -> usize {
    let n = match arg_text(x, "top_n"@) {
        Some(t) => match parse_usize_spec(t) {
            Some(n) => n,
            None => 1,
        },
        None => 1,
    };
    if n < 1 {
        1
    } else if n > 3 {
        3
    } else {
        n
    }
}

/// The queries of a search that are not empty, in order.
pub open spec fn given_queries(x: Tag) -> Seq<Seq<char>> {
    seq![arg_text(x, "q1"@)->Some_0, arg_text(x, "q2"@)->Some_0, arg_text(x, "q3"@)->Some_0].filter(
        not_empty(),
    )
}

/// The text of the child named `name`, which is there.
fn arg(x: &Tag, name: &str) -> (r: String)
    requires
        arg_text(*x, name@) is Some,
    ensures
        Some(r@) == arg_text(*x, name@),
{
    proof {
        lemma_tags_view_index(x.children@);
        crate::taglang::lemma_child_index(tags_view(x.children@), name@, 0);
    }
    match x.get(name) {
        Some(t) => t.as_str().to_owned(),
        None => String::new(),
    }
}

/// Reads a search request: the error when every query is empty.
pub fn search_request(x: &Tag) -> (r: Result<SearchRequest, String>)
    requires
        search_args_present(*x),
    ensures
        given_queries(*x).len() == 0 ==> (r matches Err(e) && e@
            == "no queries provided: at least one of q1, q2, q3 must be non-empty"@),
        given_queries(*x).len() > 0 ==> (r matches Ok(q) && q.top_n == top_n_of(*x)
            && q.queries@.len() == given_queries(*x).len() && forall|i: int|
            0 <= i < q.queries@.len() ==> strings_view(#[trigger] q.queries@[i]@) == words(
                given_queries(*x)[i],
            )),
{
    proof {
        reveal_strlit("q1");
        reveal_strlit("q2");
        reveal_strlit("q3");
        reveal_strlit("top_n");
        lemma_tags_view_index(x.children@);
        crate::taglang::lemma_child_index(tags_view(x.children@), "top_n"@, 0);
    }
    let q1 = arg(x, "q1");
    let q2 = arg(x, "q2");
    let q3 = arg(x, "q3");
    let n: usize = match x.get("top_n") {
        Some(t) => {
            let c = chars_of(t.as_str());
            match parse_usize(c.as_slice()) {
                Some(n) => n,
                None => 1,
            }
        },
        None => 1,
    };
    let top_n = if n < 1 {
        1
    } else if n > 3 {
        3
    } else {
        n
    };
    let ghost qs = seq![q1@, q2@, q3@];
    proof {
        reveal_with_fuel(Seq::<_>::filter, 4);
        assert(qs.take(0) =~= Seq::<Seq<char>>::empty());
        assert(qs =~= seq![arg_text(*x, "q1"@)->Some_0, arg_text(*x, "q2"@)->Some_0, arg_text(*x, "q3"@)->Some_0]);
    }
    let mut queries: Vec<Vec<String>> = Vec::new();
    let mut kept: Vec<&String> = Vec::new();
    let all = [&q1, &q2, &q3];
    let mut i: usize = 0;
    while i < 3
        invariant
            i <= 3,
            qs.len() == 3,
            all@.len() == 3,
            all@[0]@ == qs[0] && all@[1]@ == qs[1] && all@[2]@ == qs[2],
            kept@.map_values(|s: &String| s@) == qs.take(i as int).filter(not_empty()),
            queries@.len() == kept@.len(),
            forall|j: int|
                0 <= j < queries@.len() ==> strings_view(#[trigger] queries@[j]@) == words(kept@[j]@),
        decreases 3 - i,
    {
        reveal_with_fuel(Seq::<_>::filter, 1);
        let q = all[i];
        proof {
            assert(qs.take(i + 1).drop_last() =~= qs.take(i as int));
            assert(qs.take(i + 1).last() == q@);
        }
        if !q.as_str().is_empty() {
            let ghost k0 = kept@;
            kept.push(q);
            queries.push(tokenize(q.as_str()));
            assert(kept@.map_values(|s: &String| s@) =~= k0.map_values(|s: &String| s@).push(q@));
        }
        i = i + 1;
    }
    proof {
        assert(qs.take(3) =~= qs);
    }
    if queries.len() == 0 {
        return Err("no queries provided: at least one of q1, q2, q3 must be non-empty".to_owned());
    }
    proof {
        assert forall|j: int| 0 <= j < queries@.len() implies strings_view(#[trigger] queries@[j]@)
            == words(given_queries(*x)[j]) by {
            assert(kept@.map_values(|s: &String| s@)[j] == kept@[j]@);
        }
    }
    Ok(SearchRequest { queries, top_n })
}

/// One result of the answer: its rank from one, the file's path, its score
/// as the caller wrote it, and the file's text trimmed.
pub open spec fn result_block(rank: nat, path: Seq<char>, score: Seq<char>, contents: Seq<char>) -> Seq<char> {
    "=== Result "@ + decimal(rank) + " | "@ + path + " | score: "@ + score + " ===\n"@ + trim(contents)
        + "\n\n"@
}

/// The blocks of the results from the first.
pub open spec fn result_blocks(rs: Seq<(Seq<char>, Seq<char>, Seq<char>)>) -> Seq<char>
    decreases rs.len(),
{
    if rs.len() == 0 {
        Seq::empty()
    } else {
        result_blocks(rs.drop_last()) + result_block(
            rs.len(),
            rs.last().0,
            rs.last().1,
            rs.last().2,
        )
    }
}

/// The answer of a search, from the best results in order: each file's
/// path, score text and contents.
pub fn search_answer(results: &Vec<(String, String, String)>) -> (r: String)
    ensures
        r@ == trim_end(
            result_blocks(
                results@.map_values(|t: (String, String, String)| (t.0@, t.1@, t.2@)),
            ),
        ),
{
    let ghost rs = results@.map_values(|t: (String, String, String)| (t.0@, t.1@, t.2@));
    let mut out: Vec<char> = Vec::new();
    let mut i: usize = 0;
    while i < results.len()
        invariant
            rs == results@.map_values(|t: (String, String, String)| (t.0@, t.1@, t.2@)),
            i <= results@.len(),
            out@ == result_blocks(rs.take(i as int)),
        decreases results@.len() - i,
    {
        proof {
            assert(rs.take(i + 1).drop_last() =~= rs.take(i as int));
        }
        push_str(&mut out, "=== Result ");
        push_decimal(&mut out, (i as u128) + 1);
        push_str(&mut out, " | ");
        push_str(&mut out, results[i].0.as_str());
        push_str(&mut out, " | score: ");
        push_str(&mut out, results[i].1.as_str());
        push_str(&mut out, " ===\n");
        let c = chars_of(results[i].2.as_str());
        let (a, b) = trim_bounds(c.as_slice(), 0, c.len());
        assert(c@.subrange(0, c@.len() as int) =~= c@);
        crate::strutil::push_range(&mut out, c.as_slice(), a, b);
        push_str(&mut out, "\n\n");
        proof {
            assert(out@ =~= result_blocks(rs.take(i + 1)));
        }
        i = i + 1;
    }
    assert(rs.take(rs.len() as int) =~= rs);
    let mut b: usize = out.len();
    assert(out@.subrange(0, out@.len() as int) =~= out@);
    while b > 0 && crate::strutil::is_ws_exec(out[b - 1])
        invariant
            b <= out@.len(),
            trim_end(out@) == trim_end(out@.subrange(0, b as int)),
        decreases b,
    {
        assert(out@.subrange(0, b as int).drop_last() =~= out@.subrange(0, b - 1));
        b = b - 1;
    }
    let mut t: Vec<char> = Vec::new();
    crate::strutil::push_range(&mut t, out.as_slice(), 0, b);
    string_of(t.as_slice())
}

/// Registers the tool: its manual under `knowledge_base`, and the handler
/// of `knowledge_base::search`.
pub fn register<F: Fn(&String, &[String]) -> String>(f: &mut Functions<F>, m: &mut Manual, search: F)
    requires
        old(f).wf(),
        old(m).wf(),
        forall|n: &String, a: &[String]| call_requires(search, (n, a)),
    ensures
        final(f).wf(),
        final(m).wf(),
        final(m)@ == old(m)@.insert("knowledge_base"@, MANUAL@),
        final(f).handler("knowledge_base::search"@) == Some(search),
        forall|n: Seq<char>|
            n != "knowledge_base::search"@ ==> final(f).handler(n) == old(f).handler(n),
{
    m.register("knowledge_base", MANUAL);
    f.register("knowledge_base::search", search);
}

/// A search gives between one and three results: `top_n` read as a
/// number `n` gives exactly `n` results when `1 <= n <= 3`, one when it is
/// missing, zero or not a number, and three for any `n` above three.
pub proof fn law_top_n_range(x: Tag)
    ensures
        1 <= top_n_of(x) <= 3,
        arg_text(x, "top_n"@) is None ==> top_n_of(x) == 1,
        (arg_text(x, "top_n"@) matches Some(t) && parse_usize_spec(t) is None) ==> top_n_of(x) == 1,
        match arg_text(x, "top_n"@) {
            Some(t) => match parse_usize_spec(t) {
                Some(n) => 1 <= n <= 3 ==> top_n_of(x) == n,
                None => true,
            },
            None => true,
        },
        (arg_text(x, "top_n"@) matches Some(t) && parse_usize_spec(t) == Some(0usize)) ==> top_n_of(x) == 1,
        (arg_text(x, "top_n"@) matches Some(t) && parse_usize_spec(t) matches Some(n) && n > 3)
            ==> top_n_of(x) == 3,
{
}

} // verus!
