//! The shell: a search path of directories whose files hold the
//! configuration, extra prompts (`prompt_*`) and extra functions
//! (`function_*`). Listing and reading the directories is the caller's; the
//! choice of files and what they stand for is decided here.
use vstd::prelude::*;
use crate::cmdlang::strings_view;
use crate::function::clone_strings;
use crate::message::pairs_view;
use crate::prompts::{CUSTOM_FUNCTIONS, DEFAULT_FUNCTION_CALL, DEFAULT_SOUL, DEFAULT_SYSTEM};
use crate::strutil::{chars_of, push_str, starts_with_at, string_of};

verus! {

/// A file found in one of the shell's directories: its file name and its
/// full path.
#[derive(Debug)]
pub struct FileEntry {
    pub name: String,
    pub path: String,
}

pub open spec fn entry_view(e: FileEntry) -> (Seq<char>, Seq<char>) {
    (e.name@, e.path@)
}

pub open spec fn entries_of(v: Seq<FileEntry>) -> Seq<(Seq<char>, Seq<char>)> {
    v.map_values(|e: FileEntry| entry_view(e))
}

/// Whether a file of that name comes before position `k`.
pub open spec fn name_before(s: Seq<(Seq<char>, Seq<char>)>, name: Seq<char>, k: int) -> bool {
    exists|j: int| 0 <= j < k && s[j].0 == name
}

/// The files with the first file of each name kept.
pub open spec fn first_of_each(s: Seq<(Seq<char>, Seq<char>)>) -> Seq<(Seq<char>, Seq<char>)>
    decreases s.len(),
{
    if s.len() == 0 {
        Seq::empty()
    } else {
        first_of_each(s.drop_last()) + if name_before(s, s.last().0, s.len() - 1) {
            Seq::empty()
        } else {
            seq![s.last()]
        }
    }
}

/// The listings of the directories, the last directory first.
pub open spec fn last_first(ls: Seq<Seq<(Seq<char>, Seq<char>)>>) -> Seq<(Seq<char>, Seq<char>)>
    decreases ls.len(),
{
    if ls.len() == 0 {
        Seq::empty()
    } else {
        ls.last() + last_first(ls.drop_last())
    }
}

/// The files the shell sees: the directories searched from the last to the
/// first, and of files with one name only the first met.
pub open spec fn visible_files(ls: Seq<Seq<(Seq<char>, Seq<char>)>>) -> Seq<(Seq<char>, Seq<char>)> {
    first_of_each(last_first(ls))
}

proof fn lemma_first_of_each_names(s: Seq<(Seq<char>, Seq<char>)>, name: Seq<char>)
    ensures
        name_before(first_of_each(s), name, first_of_each(s).len() as int) == name_before(
            s,
            name,
            s.len() as int,
        ),
    decreases s.len(),
{
    if s.len() > 0 {
        let t = s.drop_last();
        lemma_first_of_each_names(t, name);
        let f = first_of_each(t);
        let extra = if name_before(s, s.last().0, s.len() - 1) {
            Seq::empty()
        } else {
            seq![s.last()]
        };
        assert(first_of_each(s) == f + extra);
        if name_before(first_of_each(s), name, first_of_each(s).len() as int) {
            let j = choose|j: int|
                0 <= j < first_of_each(s).len() && first_of_each(s)[j].0 == name;
            if j < f.len() {
                assert((f + extra)[j] == f[j]);
                assert(name_before(f, name, f.len() as int));
                let k = choose|k: int| 0 <= k < t.len() && t[k].0 == name;
                assert(s[k] == t[k]);
            } else {
                assert(s[s.len() - 1].0 == name);
            }
        }
        if name_before(s, name, s.len() as int) {
            let k = choose|k: int| 0 <= k < s.len() && s[k].0 == name;
            if k < s.len() - 1 {
                assert(t[k] == s[k]);
                assert(name_before(t, name, t.len() as int));
                let j = choose|j: int| 0 <= j < f.len() && f[j].0 == name;
                assert((f + extra)[j] == f[j]);
            } else if name_before(s, s.last().0, s.len() - 1) {
                let k2 = choose|k2: int| 0 <= k2 < s.len() - 1 && s[k2].0 == s.last().0;
                assert(t[k2] == s[k2]);
                assert(name_before(t, name, t.len() as int));
                let j = choose|j: int| 0 <= j < f.len() && f[j].0 == name;
                assert((f + extra)[j] == f[j]);
            } else {
                assert((f + extra)[f.len() as int] == s.last());
            }
        }
    }
}

/// The files the shell sees, from the listings of its directories in the
/// order of its path (each listing holds only files).
pub fn select_files(listings: &Vec<Vec<FileEntry>>) -> (r: Vec<FileEntry>)
    ensures
        entries_of(r@) == visible_files(listings@.map_values(|l: Vec<FileEntry>| entries_of(l@))),
{
    let ghost ls = listings@.map_values(|l: Vec<FileEntry>| entries_of(l@));
    let mut out: Vec<FileEntry> = Vec::new();
    let ghost mut done: Seq<(Seq<char>, Seq<char>)> = Seq::empty();
    let mut d: usize = listings.len();
    proof {
        assert(ls.take(ls.len() as int) =~= ls);
        assert(done + last_first(ls) =~= last_first(ls));
        assert(first_of_each(done) =~= Seq::<(Seq<char>, Seq<char>)>::empty());
        assert(entries_of(out@) =~= Seq::<(Seq<char>, Seq<char>)>::empty());
    }
    while d > 0
        invariant
            d <= listings@.len(),
            ls == listings@.map_values(|l: Vec<FileEntry>| entries_of(l@)),
            last_first(ls) == done + last_first(ls.take(d as int)),
            entries_of(out@) == first_of_each(done),
        decreases d,
    {
        d = d - 1;
        let dir = &listings[d];
        proof {
            assert(ls.take(d + 1).drop_last() =~= ls.take(d as int));
            assert(ls.take(d + 1).last() == entries_of(dir@));
            assert(last_first(ls.take(d + 1)) == entries_of(dir@) + last_first(ls.take(d as int)));
        }
        let ghost start = done;
        let mut k: usize = 0;
        while k < dir.len()
            invariant
                d < listings@.len(),
                dir == &listings@[d as int],
                ls == listings@.map_values(|l: Vec<FileEntry>| entries_of(l@)),
                k <= dir@.len(),
                done == start + entries_of(dir@).take(k as int),
                entries_of(out@) == first_of_each(done),
            decreases dir@.len() - k,
        {
            let e = &dir[k];
            let mut seen = false;
            let mut j: usize = 0;
            while j < out.len()
                invariant
                    j <= out@.len(),
                    seen == exists|x: int| 0 <= x < j && out@[x].name@ == e.name@,
                decreases out@.len() - j,
            {
                if out[j].name == e.name {
                    seen = true;
                }
                j = j + 1;
            }
            let ghost before = done;
            proof {
                done = before.push(entry_view(*e));
                assert(done.drop_last() =~= before);
                lemma_first_of_each_names(before, e.name@);
                assert(seen == name_before(first_of_each(before), e.name@, first_of_each(before).len() as int)) by {
                    if seen {
                        let x = choose|x: int| 0 <= x < out@.len() && out@[x].name@ == e.name@;
                        assert(entries_of(out@)[x].0 == e.name@);
                    }
                    if name_before(first_of_each(before), e.name@, first_of_each(before).len() as int) {
                        let x = choose|x: int| 0 <= x < first_of_each(before).len() && first_of_each(before)[x].0 == e.name@;
                        assert(entries_of(out@)[x] == entry_view(out@[x]));
                    }
                }
                assert(name_before(done, e.name@, done.len() - 1) == name_before(before, e.name@, before.len() as int)) by {
                    if name_before(done, e.name@, done.len() - 1) {
                        let x = choose|x: int| 0 <= x < done.len() - 1 && done[x].0 == e.name@;
                        assert(before[x] == done[x]);
                    }
                    if name_before(before, e.name@, before.len() as int) {
                        let x = choose|x: int| 0 <= x < before.len() && before[x].0 == e.name@;
                        assert(before[x] == done[x]);
                    }
                }
                assert(entries_of(dir@).take(k + 1) =~= entries_of(dir@).take(k as int).push(
                    entry_view(*e),
                ));
            }
            if !seen {
                let c = FileEntry { name: e.name.clone(), path: e.path.clone() };
                let ghost o = out@;
                out.push(c);
                assert(entries_of(out@) =~= entries_of(o) + seq![entry_view(c)]);
            } else {
                assert(entries_of(out@) =~= entries_of(out@) + Seq::<(Seq<char>, Seq<char>)>::empty());
            }
            k = k + 1;
        }
        proof {
            assert(entries_of(dir@).take(dir@.len() as int) =~= entries_of(dir@));
        }
    }
    proof {
        assert(ls.take(0) =~= Seq::<Seq<(Seq<char>, Seq<char>)>>::empty());
        assert(done + Seq::<(Seq<char>, Seq<char>)>::empty() =~= done);
    }
    out
}

// ===================================================================
// File names
// ===================================================================

/// The position of the last `.` in a name.
pub open spec fn last_dot(s: Seq<char>) -> Option<int>
    decreases s.len(),
{
    if s.len() == 0 {
        None
    } else if s.last() == '.' {
        Some(s.len() - 1)
    } else {
        last_dot(s.drop_last())
    }
}

/// `Path::file_stem` of a file name: the whole name when it has no `.` or
/// only a leading one, else the part before the last `.`.
pub open spec fn file_stem(name: Seq<char>) -> Seq<char> {
    match last_dot(name) {
        Some(k) => if k == 0 {
            name
        } else {
            name.subrange(0, k)
        },
        None => name,
    }
}

proof fn lemma_last_dot(s: Seq<char>)
    ensures
        last_dot(s) matches Some(k) ==> 0 <= k < s.len() && s[k] == '.' && forall|j: int|
            k < j < s.len() ==> s[j] != '.',
        last_dot(s) is None ==> forall|j: int| 0 <= j < s.len() ==> s[j] != '.',
    decreases s.len(),
{
    if s.len() > 0 && s.last() != '.' {
        let t = s.drop_last();
        lemma_last_dot(t);
        assert forall|j: int| 0 <= j < t.len() implies t[j] == s[j] by {}
    }
}

/// The stem of a file name.
pub fn file_stem_of(name: &str) -> (r: String)
    ensures
        r@ == file_stem(name@),
{
    let s = chars_of(name);
    let mut k: usize = s.len();
    assert(s@.take(s@.len() as int) =~= s@);
    while k > 0 && s[k - 1] != '.'
        invariant
            s@ == name@,
            k <= s@.len(),
            last_dot(s@) == last_dot(s@.take(k as int)),
        decreases k,
    {
        proof {
            assert(s@.take(k as int).drop_last() =~= s@.take(k - 1));
        }
        k = k - 1;
    }
    proof {
        if k > 0 {
            assert(s@.take(k as int).last() == '.');
        } else {
            assert(s@.take(0) =~= Seq::<char>::empty());
        }
    }
    if k <= 1 {
        name.to_owned()
    } else {
        let mut out: Vec<char> = Vec::new();
        crate::strutil::push_range(&mut out, s.as_slice(), 0, k - 1);
        string_of(out.as_slice())
    }
}

/// The name a file stands for under a prefix: its stem without the
/// prefix, when the file name starts with it.
pub open spec fn prefixed_name(file: Seq<char>, prefix: Seq<char>) -> Option<Seq<char>> {
    if starts_with_at(file, 0, prefix) {
        Some(file_stem(file).subrange(prefix.len() as int, file_stem(file).len() as int))
    } else {
        None
    }
}

/// The name of a file under `prefix` (a prefix without `.`).
fn prefixed(file: &str, prefix: &str) -> (r: Option<String>)
    requires
        forall|i: int| 0 <= i < prefix@.len() ==> prefix@[i] != '.',
    ensures
        (match r {
            Some(n) => Some(n@),
            None => None,
        }) == prefixed_name(file@, prefix@),
        r matches Some(n) ==> file_stem(file@).len() >= prefix@.len(),
{
    let f = chars_of(file);
    let p = chars_of(prefix);
    if f.len() < p.len() {
        return None;
    }
    let mut i: usize = 0;
    while i < p.len()
        invariant
            f@ == file@,
            p@ == prefix@,
            p@.len() <= f@.len(),
            i <= p@.len(),
            forall|j: int| 0 <= j < i ==> f@[j] == p@[j],
        decreases p@.len() - i,
    {
        if f[i] != p[i] {
            assert(f@.subrange(0, p@.len() as int)[i as int] != p@[i as int]);
            return None;
        }
        i = i + 1;
    }
    assert(f@.subrange(0, p@.len() as int) =~= p@);
    let stem = chars_of(file_stem_of(file).as_str());
    proof {
        lemma_last_dot(file@);
        match last_dot(file@) {
            Some(k) => {
                if k < p@.len() {
                    assert(file@[k] == p@[k]);
                }
            },
            None => {},
        }
    }
    let mut out: Vec<char> = Vec::new();
    crate::strutil::push_range(&mut out, stem.as_slice(), p.len(), stem.len());
    Some(string_of(out.as_slice()))
}

/// The files whose names start with `prefix`, as their paths and the
/// names they stand for, in order.
pub open spec fn prefixed_files(fs: Seq<(Seq<char>, Seq<char>)>, prefix: Seq<char>) -> Seq<
    (Seq<char>, Seq<char>),
>
    decreases fs.len(),
{
    if fs.len() == 0 {
        Seq::empty()
    } else {
        prefixed_files(fs.drop_last(), prefix) + match prefixed_name(fs.last().0, prefix) {
            Some(n) => seq![(fs.last().1, n)],
            None => Seq::empty(),
        }
    }
}

/// The paths and names of the files under `prefix`.
fn file_names(files: &Vec<FileEntry>, prefix: &str) -> (r: Vec<(String, String)>)
    requires
        forall|i: int| 0 <= i < prefix@.len() ==> prefix@[i] != '.',
    ensures
        pairs_view(r@) == prefixed_files(entries_of(files@), prefix@),
{
    let mut out: Vec<(String, String)> = Vec::new();
    let mut i: usize = 0;
    while i < files.len()
        invariant
            i <= files@.len(),
            forall|k: int| 0 <= k < prefix@.len() ==> prefix@[k] != '.',
            pairs_view(out@) == prefixed_files(
                entries_of(files@).take(i as int),
                prefix@,
            ),
        decreases files@.len() - i,
    {
        let ghost before = out@;
        proof {
            assert(entries_of(files@).take(i + 1).drop_last() =~= entries_of(files@).take(i as int));
            assert(entries_of(files@).take(i + 1).last() == entry_view(files@[i as int]));
        }
        match prefixed(files[i].name.as_str(), prefix) {
            Some(n) => {
                let e = (files[i].path.clone(), n);
                out.push(e);
                assert(pairs_view(out@) =~= before.map_values(
                    |e: (String, String)| (e.0@, e.1@),
                ) + seq![(e.0@, e.1@)]);
            },
            None => {
                assert(pairs_view(out@) =~= before.map_values(
                    |e: (String, String)| (e.0@, e.1@),
                ) + Seq::<(Seq<char>, Seq<char>)>::empty());
            },
        }
        i = i + 1;
    }
    assert(entries_of(files@).take(files@.len() as int) =~= entries_of(files@));
    out
}

// ===================================================================
// Prompts and functions
// ===================================================================

/// A prompt: one of the builtin texts, or a `prompt_*` file whose text the
/// caller reads.
#[derive(Debug)]
pub enum Prompt {
    Builtin { name: String, value: String },
    File { path: String, name: String },
}

impl Prompt {
    /// The name of the prompt.
    pub fn name(&self) -> (r: &str)
        ensures
            r@ == (match self {
                Prompt::Builtin { name, .. } => name@,
                Prompt::File { name, .. } => name@,
            }),
    {
        match self {
            Prompt::Builtin { name, .. } => name.as_str(),
            Prompt::File { name, .. } => name.as_str(),
        }
    }

    /// Where the prompt comes from: `builtin`, or the file's path.
    pub fn source(&self) -> (r: &str)
        ensures
            r@ == (match self {
                Prompt::Builtin { .. } => "builtin"@,
                Prompt::File { path, .. } => path@,
            }),
    {
        match self {
            Prompt::Builtin { .. } => "builtin",
            Prompt::File { path, .. } => path.as_str(),
        }
    }
}

/// A function of the shell: the builtin `shell`, or a `function_*` file
/// that the caller runs as a program.
#[derive(Debug)]
pub enum Function {
    Builtin { name: String },
    File { path: String, name: String },
}

/// What `str::to_uppercase` makes of a text (Unicode case mapping).
pub uninterp spec fn upper(s: Seq<char>) -> Seq<char>;

/// `str::to_uppercase`.
#[verifier::external_body]
fn to_upper(s: &str) -> (r: String)
    ensures
        r@ == upper(s@),
{
    s.to_uppercase()
}

/// The path of a shell, its directories joined with `:`.
pub open spec fn joined_path(p: Seq<Seq<char>>) -> Seq<char>
    decreases p.len(),
{
    if p.len() == 0 {
        Seq::empty()
    } else if p.len() == 1 {
        p[0]
    } else {
        joined_path(p.drop_last()) + ":"@ + p.last()
    }
}

/// The arguments a function is called with: the caller's sixteen, with the
/// first four set to the function's source, the shell path, its name and
/// the method in upper case.
pub open spec fn call_arguments(f: Function, path: Seq<Seq<char>>, args: Seq<Seq<char>>) -> Seq<Seq<char>> {
    let (source, name) = match f {
        Function::Builtin { name } => ("builtin"@, upper(name@)),
        Function::File { path, name } => (path@, upper(name@)),
    };
    args.update(0, source).update(1, joined_path(path)).update(2, name).update(3, upper(args[3]))
}

impl Function {
    /// The name of the function, in upper case.
    pub fn name(&self) -> (r: String)
        ensures
            r@ == upper(match self {
                Function::Builtin { name } => name@,
                Function::File { name, .. } => name@,
            }),
    {
        match self {
            Function::Builtin { name } => to_upper(name.as_str()),
            Function::File { name, .. } => to_upper(name.as_str()),
        }
    }

    /// Where the function comes from: `builtin`, or the file's path.
    pub fn source(&self) -> (r: &str)
        ensures
            r@ == (match self {
                Function::Builtin { .. } => "builtin"@,
                Function::File { path, .. } => path@,
            }),
    {
        match self {
            Function::Builtin { .. } => "builtin",
            Function::File { path, .. } => path.as_str(),
        }
    }

    /// The arguments of a call, from the caller's sixteen.
    pub fn call_args(&self, shell: &Shell, args: &[String]) -> (r: Vec<String>)
        requires
            args@.len() == 16,
        ensures
            strings_view(r@) == call_arguments(*self, strings_view(shell.path@), strings_view(args@)),
    {
        let mut out: Vec<String> = Vec::new();
        let mut i: usize = 0;
        while i < args.len()
            invariant
                i <= args@.len(),
                strings_view(out@) == strings_view(args@.take(i as int)),
            decreases args@.len() - i,
        {
            let a = args[i].clone();
            proof {
                assert(strings_view(out@.push(a)) =~= strings_view(out@).push(a@));
                assert(strings_view(args@.take(i + 1)) =~= strings_view(args@.take(i as int)).push(
                    args@[i as int]@,
                ));
            }
            out.push(a);
            i = i + 1;
        }
        assert(args@.take(16) =~= args@);
        let (source, name) = match self {
            Function::Builtin { name } => ("builtin".to_owned(), to_upper(name.as_str())),
            Function::File { path, name } => (path.clone(), to_upper(name.as_str())),
        };
        let method = to_upper(args[3].as_str());
        let joined = shell.joined_path();
        let ghost v0 = strings_view(out@);
        out.set(0, source);
        out.set(1, joined);
        out.set(2, name);
        out.set(3, method);
        proof {
            assert(strings_view(out@) =~= call_arguments(
                *self,
                strings_view(shell.path@),
                strings_view(args@),
            ));
        }
        out
    }

    /// The arguments of the `INFO` call: sixteen empty ones with the
    /// method `INFO`.
    pub fn info_args() -> (r: Vec<String>)
        ensures
            r@.len() == 16,
            forall|i: int| 0 <= i < 16 && i != 3 ==> r@[i]@ == Seq::<char>::empty(),
            r@[3]@ == "INFO"@,
    {
        let mut out: Vec<String> = Vec::new();
        let mut i: usize = 0;
        while i < 16
            invariant
                i <= 16,
                out@.len() == i,
                forall|j: int| 0 <= j < i ==> out@[j]@ == Seq::<char>::empty(),
            decreases 16 - i,
        {
            out.push(String::new());
            i = i + 1;
        }
        out.set(3, "INFO".to_owned());
        out
    }
}

// ===================================================================
// Shell
// ===================================================================

/// The shell: its directories, searched from the last one.
#[derive(Debug)]
pub struct Shell {
    pub path: Vec<String>,
}

impl Shell {
    /// A shell with no directories.
    pub fn new() -> (r: Self)
        ensures
            r.path@.len() == 0,
    {
        Shell { path: Vec::new() }
    }

    /// Adds a directory at the end of the path.
    pub fn add_path(&mut self, path: &str)
        ensures
            strings_view(final(self).path@) == strings_view(old(self).path@).push(path@),
    {
        let p = path.to_owned();
        self.path.push(p);
        assert(strings_view(self.path@) =~= strings_view(old(self).path@).push(path@));
    }

    /// The directories, in the order they were added.
    pub fn get_path(&self) -> (r: &[String])
        ensures
            r@ == self.path@,
    {
        self.path.as_slice()
    }

    /// The directories joined with `:`.
    pub fn joined_path(&self) -> (r: String)
        ensures
            r@ == joined_path(strings_view(self.path@)),
    {
        let ghost ps = strings_view(self.path@);
        let mut out: Vec<char> = Vec::new();
        let mut i: usize = 0;
        while i < self.path.len()
            invariant
                ps == strings_view(self.path@),
                i <= self.path@.len(),
                out@ == joined_path(ps.take(i as int)),
            decreases self.path@.len() - i,
        {
            proof {
                assert(ps.take(i + 1).drop_last() =~= ps.take(i as int));
            }
            if i > 0 {
                push_str(&mut out, ":");
            }
            push_str(&mut out, self.path[i].as_str());
            i = i + 1;
        }
        assert(ps.take(ps.len() as int) =~= ps);
        string_of(out.as_slice())
    }

    /// The prompts: the builtin `system`, `function_call`,
    /// `custom_functions` and `soul`, then one per visible `prompt_*` file,
    /// named by its stem without the prefix.
    pub fn load_prompts(&self, files: &Vec<FileEntry>) -> (r: Vec<Prompt>)
        ensures
            r@.len() == 4 + prefixed_files(entries_of(files@), "prompt_"@).len(),
            r@[0] is Builtin && r@[0]->Builtin_name@ == "system"@ && r@[0]->Builtin_value@
                == DEFAULT_SYSTEM@,
            r@[1] is Builtin && r@[1]->Builtin_name@ == "function_call"@
                && r@[1]->Builtin_value@ == DEFAULT_FUNCTION_CALL@,
            r@[2] is Builtin && r@[2]->Builtin_name@ == "custom_functions"@
                && r@[2]->Builtin_value@ == CUSTOM_FUNCTIONS@,
            r@[3] is Builtin && r@[3]->Builtin_name@ == "soul"@ && r@[3]->Builtin_value@
                == DEFAULT_SOUL@,
            forall|i: int|
                0 <= i < prefixed_files(entries_of(files@), "prompt_"@).len() ==> {
                    let f = #[trigger] prefixed_files(entries_of(files@), "prompt_"@)[i];
                    r@[4 + i] is File && r@[4 + i]->File_path@ == f.0 && r@[4 + i]->File_name@
                        == f.1
                },
    {
        let mut out: Vec<Prompt> = Vec::new();
        out.push(Prompt::Builtin { name: "system".to_owned(), value: DEFAULT_SYSTEM.to_owned() });
        out.push(
            Prompt::Builtin {
                name: "function_call".to_owned(),
                value: DEFAULT_FUNCTION_CALL.to_owned(),
            },
        );
        out.push(
            Prompt::Builtin { name: "custom_functions".to_owned(), value: CUSTOM_FUNCTIONS.to_owned() },
        );
        out.push(Prompt::Builtin { name: "soul".to_owned(), value: DEFAULT_SOUL.to_owned() });
        proof {
            reveal_strlit("prompt_");
        }
        let found = file_names(files, "prompt_");
        let mut i: usize = 0;
        while i < found.len()
            invariant
                i <= found@.len(),
                out@.len() == 4 + i,
                out@[0] is Builtin && out@[0]->Builtin_name@ == "system"@
                    && out@[0]->Builtin_value@ == DEFAULT_SYSTEM@,
                out@[1] is Builtin && out@[1]->Builtin_name@ == "function_call"@
                    && out@[1]->Builtin_value@ == DEFAULT_FUNCTION_CALL@,
                out@[2] is Builtin && out@[2]->Builtin_name@ == "custom_functions"@
                    && out@[2]->Builtin_value@ == CUSTOM_FUNCTIONS@,
                out@[3] is Builtin && out@[3]->Builtin_name@ == "soul"@
                    && out@[3]->Builtin_value@ == DEFAULT_SOUL@,
                pairs_view(found@) == prefixed_files(
                    entries_of(files@),
                    "prompt_"@,
                ),
                forall|j: int|
                    0 <= j < i ==> #[trigger] out@[4 + j] is File && out@[4 + j]->File_path@
                        == found@[j].0@ && out@[4 + j]->File_name@ == found@[j].1@,
            decreases found@.len() - i,
        {
            out.push(Prompt::File { path: found[i].0.clone(), name: found[i].1.clone() });
            i = i + 1;
        }
        out
    }

    /// The functions: the builtin `shell`, then one per visible
    /// `function_*` file, named by its stem without the prefix.
    pub fn load_functions(&self, files: &Vec<FileEntry>) -> (r: Vec<Function>)
        ensures
            r@.len() == 1 + prefixed_files(entries_of(files@), "function_"@).len(),
            r@[0] is Builtin && r@[0]->Builtin_name@ == "shell"@,
            forall|i: int|
                0 <= i < prefixed_files(entries_of(files@), "function_"@).len() ==> {
                    let f = #[trigger] prefixed_files(entries_of(files@), "function_"@)[i];
                    r@[1 + i] is File && r@[1 + i]->File_path@ == f.0 && r@[1 + i]->File_name@
                        == f.1
                },
    {
        let mut out: Vec<Function> = Vec::new();
        out.push(Function::Builtin { name: "shell".to_owned() });
        proof {
            reveal_strlit("function_");
        }
        let found = file_names(files, "function_");
        let mut i: usize = 0;
        while i < found.len()
            invariant
                i <= found@.len(),
                out@.len() == 1 + i,
                out@[0] is Builtin && out@[0]->Builtin_name@ == "shell"@,
                pairs_view(found@) == prefixed_files(
                    entries_of(files@),
                    "function_"@,
                ),
                forall|j: int|
                    0 <= j < i ==> #[trigger] out@[1 + j] is File && out@[1 + j]->File_path@
                        == found@[j].0@ && out@[1 + j]->File_name@ == found@[j].1@,
            decreases found@.len() - i,
        {
            out.push(Function::File { path: found[i].0.clone(), name: found[i].1.clone() });
            i = i + 1;
        }
        out
    }

    /// A copy of the shell.
    pub fn copy(&self) -> (r: Shell)
        ensures
            strings_view(r.path@) == strings_view(self.path@),
    {
        Shell { path: clone_strings(&self.path) }
    }
}

/// The files the shell sees have distinct names, and a name is seen
/// exactly when some directory holds a file of that name.
pub proof fn law_visible_files(ls: Seq<Seq<(Seq<char>, Seq<char>)>>, name: Seq<char>)
    ensures
        forall|i: int, j: int|
            0 <= i < j < visible_files(ls).len() ==> #[trigger] visible_files(ls)[i].0
                != #[trigger] visible_files(ls)[j].0,
        name_before(visible_files(ls), name, visible_files(ls).len() as int) == name_before(
            last_first(ls),
            name,
            last_first(ls).len() as int,
        ),
{
    lemma_first_of_each_names(last_first(ls), name);
    lemma_first_of_each_unique(last_first(ls));
}

proof fn lemma_first_of_each_unique(s: Seq<(Seq<char>, Seq<char>)>)
    ensures
        forall|i: int, j: int|
            0 <= i < j < first_of_each(s).len() ==> #[trigger] first_of_each(s)[i].0
                != #[trigger] first_of_each(s)[j].0,
    decreases s.len(),
{
    if s.len() > 0 {
        let t = s.drop_last();
        lemma_first_of_each_unique(t);
        let f = first_of_each(t);
        if !name_before(s, s.last().0, s.len() - 1) {
            lemma_first_of_each_names(t, s.last().0);
            assert(first_of_each(s) == f.push(s.last()));
            assert forall|i: int, j: int|
                0 <= i < j < first_of_each(s).len() implies #[trigger] first_of_each(s)[i].0
                    != #[trigger] first_of_each(s)[j].0 by {
                if j == f.len() {
                    if f[i].0 == s.last().0 {
                        assert(name_before(f, s.last().0, f.len() as int));
                        let k = choose|k: int| 0 <= k < t.len() && t[k].0 == s.last().0;
                        assert(s[k] == t[k]);
                    }
                }
            }
        } else {
            assert(first_of_each(s) =~= f);
        }
    }
}

/// A file that comes before every other of its name is kept.
proof fn lemma_first_kept(s: Seq<(Seq<char>, Seq<char>)>, p: int)
    requires
        0 <= p < s.len(),
        !name_before(s, s[p].0, p),
    ensures
        first_of_each(s).contains(s[p]),
    decreases s.len(),
{
    let t = s.drop_last();
    let f = first_of_each(t);
    let extra = if name_before(s, s.last().0, s.len() - 1) {
        Seq::empty()
    } else {
        seq![s.last()]
    };
    assert(first_of_each(s) == f + extra);
    if p == s.len() - 1 {
        assert((f + extra)[f.len() as int] == s[p]);
    } else {
        assert(t[p] == s[p]);
        assert forall|j: int| 0 <= j < p implies t[j].0 != t[p].0 by {
            assert(t[j] == s[j]);
        }
        lemma_first_kept(t, p);
        let i = choose|i: int| 0 <= i < f.len() && f[i] == s[p];
        assert((f + extra)[i] == f[i]);
    }
}

/// Where a file of a directory stands among the files listed the last
/// directory first, when no later directory and no earlier file of its
/// own directory holds its name: no file of that name comes before it.
proof fn lemma_last_first_position(ls: Seq<Seq<(Seq<char>, Seq<char>)>>, d: int, j: int) -> (p: int)
    requires
        0 <= d < ls.len(),
        0 <= j < ls[d].len(),
        forall|e: int, k: int| d < e < ls.len() && 0 <= k < ls[e].len() ==> ls[e][k].0 != ls[d][j].0,
        forall|k: int| 0 <= k < j ==> ls[d][k].0 != ls[d][j].0,
    ensures
        0 <= p < last_first(ls).len(),
        last_first(ls)[p] == ls[d][j],
        !name_before(last_first(ls), ls[d][j].0, p),
    decreases ls.len(),
{
    let name = ls[d][j].0;
    let rest = ls.drop_last();
    let lf = last_first(ls);
    assert(lf == ls.last() + last_first(rest));
    if d == ls.len() - 1 {
        assert(lf[j] == ls[d][j]);
        assert forall|k: int| 0 <= k < j implies lf[k].0 != name by {
            assert(lf[k] == ls[d][k]);
        }
        j
    } else {
        assert forall|e: int, k: int| d < e < rest.len() && 0 <= k < rest[e].len() implies rest[e][k].0
            != rest[d][j].0 by {
            assert(rest[e] == ls[e]);
        }
        let q = lemma_last_first_position(rest, d, j);
        let p = ls.last().len() + q;
        assert(lf[p] == last_first(rest)[q]);
        assert forall|k: int| 0 <= k < p implies lf[k].0 != name by {
            if k < ls.last().len() {
                assert(lf[k] == ls[ls.len() - 1][k]);
            } else {
                assert(lf[k] == last_first(rest)[k - ls.last().len()]);
            }
        }
        p
    }
}

/// The last directory wins: a file is seen when no later directory holds a
/// file of its name and no earlier file of its own directory does.
pub proof fn law_last_directory_wins(ls: Seq<Seq<(Seq<char>, Seq<char>)>>, d: int, j: int)
    requires
        0 <= d < ls.len(),
        0 <= j < ls[d].len(),
        forall|e: int, k: int| d < e < ls.len() && 0 <= k < ls[e].len() ==> ls[e][k].0 != ls[d][j].0,
        forall|k: int| 0 <= k < j ==> ls[d][k].0 != ls[d][j].0,
    ensures
        visible_files(ls).contains(ls[d][j]),
{
    let p = lemma_last_first_position(ls, d, j);
    lemma_first_kept(last_first(ls), p);
}

/// The positions of the files that `first_of_each` keeps.
pub open spec fn first_positions(s: Seq<(Seq<char>, Seq<char>)>) -> Seq<int>
    decreases s.len(),
{
    if s.len() == 0 {
        Seq::empty()
    } else {
        first_positions(s.drop_last()) + if name_before(s, s.last().0, s.len() - 1) {
            Seq::empty()
        } else {
            seq![s.len() - 1]
        }
    }
}

proof fn lemma_first_positions(s: Seq<(Seq<char>, Seq<char>)>)
    ensures
        first_positions(s).len() == first_of_each(s).len(),
        forall|i: int|
            0 <= i < first_positions(s).len() ==> 0 <= #[trigger] first_positions(s)[i] < s.len()
                && first_of_each(s)[i] == s[first_positions(s)[i]],
        forall|i: int, k: int|
            0 <= i < k < first_positions(s).len() ==> #[trigger] first_positions(s)[i]
                < #[trigger] first_positions(s)[k],
    decreases s.len(),
{
    if s.len() > 0 {
        let t = s.drop_last();
        lemma_first_positions(t);
        let fp = first_positions(t);
        let f = first_of_each(t);
        if name_before(s, s.last().0, s.len() - 1) {
            assert(first_positions(s) =~= fp);
            assert(first_of_each(s) =~= f);
            assert forall|i: int| 0 <= i < fp.len() implies first_of_each(s)[i] == s[fp[i]] by {
                assert(t[fp[i]] == s[fp[i]]);
            }
        } else {
            assert(first_positions(s) == fp.push(s.len() - 1));
            assert(first_of_each(s) == f.push(s.last()));
            assert forall|i: int| 0 <= i < fp.len() implies first_of_each(s)[i] == s[fp[i]] by {
                assert(t[fp[i]] == s[fp[i]]);
            }
        }
    }
}

/// The files the shell sees keep the order of the listings taken the last
/// directory first: each is the file at a position of those listings, and
/// the positions increase, so the files of later directories come first.
pub proof fn law_visible_in_order(ls: Seq<Seq<(Seq<char>, Seq<char>)>>)
    ensures
        last_first(ls) == if ls.len() == 0 {
            Seq::empty()
        } else {
            ls.last() + last_first(ls.drop_last())
        },
        first_positions(last_first(ls)).len() == visible_files(ls).len(),
        forall|i: int|
            0 <= i < visible_files(ls).len() ==> 0 <= #[trigger] first_positions(last_first(ls))[i]
                < last_first(ls).len() && visible_files(ls)[i] == last_first(ls)[first_positions(
                last_first(ls),
            )[i]],
        forall|i: int, k: int|
            0 <= i < k < visible_files(ls).len() ==> #[trigger] first_positions(last_first(ls))[i]
                < #[trigger] first_positions(last_first(ls))[k],
{
    lemma_first_positions(last_first(ls));
}

} // verus!
