//! Function calls, their results, and the registry of callable functions.
use vstd::prelude::*;
use crate::cmdlang::{Cmd, spec_cmd, never_ends, cmd_error_message, strings_view};
use crate::strutil::str_eq;

verus! {

/// A call of a named function with positional arguments.
#[derive(Debug)]
pub struct FunctionCall {
    pub name: String,
    pub args: Vec<String>,
}

/// What a function call returned.
#[derive(Debug)]
pub struct FunctionResult {
    pub name: String,
    pub result: String,
}

/// A copy of a list of strings.
pub fn clone_strings(v: &Vec<String>) -> (r: Vec<String>)
    ensures
        strings_view(r@) == strings_view(v@),
{
    let mut out: Vec<String> = Vec::new();
    let mut i: usize = 0;
    while i < v.len()
        invariant
            i <= v@.len(),
            strings_view(out@) == strings_view(v@.subrange(0, i as int)),
        decreases v@.len() - i,
    {
        let s = v[i].clone();
        proof {
            assert(strings_view(out@.push(s)) =~= strings_view(out@).push(s@));
            assert(strings_view(v@.subrange(0, i + 1)) =~= strings_view(v@.subrange(0, i as int)).push(
                v@[i as int]@,
            ));
        }
        out.push(s);
        i = i + 1;
    }
    assert(v@.subrange(0, v@.len() as int) =~= v@);
    out
}

impl Clone for FunctionCall {
    fn clone(&self) -> (r: Self)
        ensures
            r.name@ == self.name@,
            strings_view(r.args@) == strings_view(self.args@),
    {
        FunctionCall { name: self.name.clone(), args: clone_strings(&self.args) }
    }
}

impl Clone for FunctionResult {
    fn clone(&self) -> (r: Self)
        ensures
            r.name@ == self.name@,
            r.result@ == self.result@,
    {
        FunctionResult { name: self.name.clone(), result: self.result.clone() }
    }
}

/// What `exec` answers for a function that is not registered.
pub open spec fn missing_function_text() -> Seq<char> {
    "this function does not exist"@
}

/// The registry: each name stands for at most one handler, called with the
/// function's name and arguments.
pub struct Functions<F> {
    functions: Vec<(String, F)>,
}

impl<F: Fn(&String, &[String]) -> String> Functions<F> {
    /// The names of the registered functions, in registration order.
    pub closed spec fn names(&self) -> Seq<Seq<char>> {
        self.functions@.map_values(|e: (String, F)| e.0@)
    }

    /// The handler registered under `name`.
    pub closed spec fn handler(&self, name: Seq<char>) -> Option<F> {
        if exists|i: int| 0 <= i < self.functions@.len() && self.functions@[i].0@ == name {
            let i = choose|i: int| 0 <= i < self.functions@.len() && self.functions@[i].0@ == name;
            Some(self.functions@[i].1)
        } else {
            None
        }
    }

    /// Each name occurs once, and every handler accepts every call.
    pub closed spec fn wf(&self) -> bool {
        &&& forall|i: int, j: int|
            0 <= i < j < self.functions@.len() ==> #[trigger] self.functions@[i].0@
                != #[trigger] self.functions@[j].0@
        &&& forall|i: int, n: &String, a: &[String]|
            0 <= i < self.functions@.len() ==> #[trigger] call_requires(self.functions@[i].1, (n, a))
    }

    /// An empty registry.
    pub fn new() -> (r: Self)
        ensures
            r.wf(),
            forall|n: Seq<char>| r.handler(n) is None,
    {
        Functions { functions: Vec::new() }
    }

    /// Reads a call written in the command language.
    pub fn parse(&self, call: &str) -> (r: Result<FunctionCall, String>)
        requires
            !never_ends(call@),
        ensures
            match spec_cmd(call@) {
                Ok((fname, args)) => r is Ok && r->Ok_0.name@ == fname && strings_view(
                    r->Ok_0.args@,
                ) == args,
                Err(e) => r is Err && r->Err_0@ == cmd_error_message(call@, e),
            },
    {
        let cmd = Cmd::parse(call)?;
        Ok(FunctionCall { name: cmd.fname, args: cmd.args })
    }

    /// Registers `f` under `name`, in place of any handler it had.
    pub fn register(&mut self, name: &str, f: F)
        requires
            old(self).wf(),
            forall|n: &String, a: &[String]| call_requires(f, (n, a)),
        ensures
            final(self).wf(),
            final(self).handler(name@) == Some(f),
            forall|n: Seq<char>| n != name@ ==> final(self).handler(n) == old(self).handler(n),
    {
        let ghost before = self.functions@;
        let mut i: usize = 0;
        while i < self.functions.len() && !str_eq(self.functions[i].0.as_str(), name)
            invariant
                self.functions@ == before,
                i <= before.len(),
                forall|j: int| 0 <= j < i ==> before[j].0@ != name@,
            decreases before.len() - i,
        {
            i = i + 1;
        }
        let found = i < self.functions.len();
        if found {
            self.functions.remove(i);
        }
        let ghost mid = self.functions@;
        proof {
            if found {
                assert(mid == before.remove(i as int));
                assert(before[i as int].0@ == name@);
                assert forall|j: int| 0 <= j < mid.len() implies mid[j].0@ != name@ by {
                    if j >= i {
                        assert(mid[j] == before[j + 1]);
                        assert(before[i as int].0@ != before[j + 1].0@);
                    }
                }
            } else {
                assert(mid == before);
            }
        }
        self.functions.push((name.to_owned(), f));
        proof {
            let fs = self.functions@;
            assert(fs == mid.push((fs[mid.len() as int].0, f)));
            assert(fs[mid.len() as int].0@ == name@);
            assert forall|a: int, b: int| 0 <= a < b < fs.len() implies #[trigger] fs[a].0@
                != #[trigger] fs[b].0@ by {
                if b < mid.len() {
                    if found {
                        let a2 = if a >= i { a + 1 } else { a };
                        let b2 = if b >= i { b + 1 } else { b };
                        assert(mid[a] == before[a2]);
                        assert(mid[b] == before[b2]);
                        assert(before[a2].0@ != before[b2].0@);
                    } else {
                        assert(before[a].0@ != before[b].0@);
                    }
                }
            }
            assert forall|k: int, n: &String, x: &[String]|
                0 <= k < fs.len() implies #[trigger] call_requires(fs[k].1, (n, x)) by {
                if k < mid.len() {
                    if found {
                        let k2 = if k >= i { k + 1 } else { k };
                        assert(mid[k] == before[k2]);
                        assert(call_requires(before[k2].1, (n, x)));
                    } else {
                        assert(call_requires(before[k].1, (n, x)));
                    }
                }
            }
            assert(self.wf());
            let im = mid.len() as int;
            assert(exists|j: int| 0 <= j < fs.len() && fs[j].0@ == name@) by {
                assert(fs[im].0@ == name@);
            }
            let c = choose|j: int| 0 <= j < fs.len() && fs[j].0@ == name@;
            if c != im {
                assert(fs[c].0@ != fs[im].0@);
            }
            assert forall|n: Seq<char>| n != name@ implies self.handler(n) == old(self).handler(
                n,
            ) by {
                if exists|j: int| 0 <= j < before.len() && before[j].0@ == n {
                    let j = choose|j: int| 0 <= j < before.len() && before[j].0@ == n;
                    let jm = if found && j > i { j - 1 } else { j };
                    if found {
                        assert(j != i);
                    }
                    assert(mid[jm] == before[j]);
                    assert(fs[jm].0@ == n);
                    let c1 = choose|x: int| 0 <= x < fs.len() && fs[x].0@ == n;
                    if c1 != jm {
                        if c1 < jm {
                            assert(fs[c1].0@ != fs[jm].0@);
                        } else {
                            assert(fs[jm].0@ != fs[c1].0@);
                        }
                    }
                } else {
                    assert forall|j: int| 0 <= j < fs.len() implies fs[j].0@ != n by {
                        if j < mid.len() {
                            if found && j >= i {
                                assert(mid[j] == before[j + 1]);
                            } else {
                                assert(mid[j] == before[j]);
                            }
                        }
                    }
                }
            }
        }
    }

    /// Calls the function that `fc` names with its arguments; an unknown
    /// name is answered with `this function does not exist`.
    pub fn exec(&self, fc: FunctionCall) -> (r: FunctionResult)
        requires
            self.wf(),
        ensures
            r.name@ == fc.name@,
            match self.handler(fc.name@) {
                Some(f) => exists|a: &[String]| a@ == fc.args@ && call_ensures(f, (&fc.name, a), r.result),
                None => r.result@ == missing_function_text(),
            },
    {
        let mut i: usize = 0;
        while i < self.functions.len()
            invariant
                self.wf(),
                i <= self.functions@.len(),
                forall|j: int| 0 <= j < i ==> self.functions@[j].0@ != fc.name@,
            decreases self.functions@.len() - i,
        {
            if str_eq(self.functions[i].0.as_str(), fc.name.as_str()) {
                let h = &self.functions[i].1;
                let a = fc.args.as_slice();
                let res = h(&fc.name, a);
                proof {
                    let fs = self.functions@;
                    let c = choose|j: int| 0 <= j < fs.len() && fs[j].0@ == fc.name@;
                    if c < i {
                        assert(fs[c].0@ != fs[i as int].0@);
                    } else if c > i {
                        assert(fs[i as int].0@ != fs[c].0@);
                    }
                }
                let out = FunctionResult { name: fc.name, result: res };
                proof {
                    let f0 = self.handler(fc.name@)->Some_0;
                    assert(f0 == *h);
                    assert(call_ensures(f0, (&fc.name, a), out.result));
                }
                return out;
            }
            i = i + 1;
        }
        FunctionResult { name: fc.name, result: "this function does not exist".to_owned() }
    }
}

} // verus!
