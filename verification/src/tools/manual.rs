//! Manuals of the tool namespaces.
use vstd::prelude::*;
use crate::channels::{keys_unique, assoc_map, lemma_assoc_push, lemma_assoc_update, lemma_assoc_index};
use crate::message::pairs_view;
use crate::strutil::str_eq;
use crate::taglang::{Tag, child_index, tag_text, tags_view};

verus! {

/// The manuals, by namespace.
pub struct Manual {
    manuals: Vec<(String, String)>,
}

impl View for Manual {
    type V = Map<Seq<char>, Seq<char>>;

    closed spec fn view(&self) -> Map<Seq<char>, Seq<char>> {
        assoc_map(pairs_view(self.manuals@))
    }
}

/// What a namespace without a manual is answered with.
pub open spec fn no_manual_text() -> Seq<char> {
    "no such namespace"@
}

/// The manual of a namespace, or the answer for a missing one.
pub open spec fn manual_of(m: Map<Seq<char>, Seq<char>>, ns: Seq<char>) -> Seq<char> {
    if m.contains_key(ns) {
        m[ns]
    } else {
        no_manual_text()
    }
}

impl Manual {
    /// Each namespace occurs once.
    pub closed spec fn wf(&self) -> bool {
        keys_unique(pairs_view(self.manuals@))
    }

    /// No manuals.
    pub fn new() -> (r: Self)
        ensures
            r.wf(),
            r@ == Map::<Seq<char>, Seq<char>>::empty(),
    {
        let r = Manual { manuals: Vec::new() };
        assert(r@ =~= Map::<Seq<char>, Seq<char>>::empty());
        r
    }

    fn find(&self, ns: &str) -> (r: Option<usize>)
        requires
            self.wf(),
        ensures
            match r {
                Some(i) => i < self.manuals@.len() && pairs_view(self.manuals@)[i as int].0 == ns@,
                None => !self@.contains_key(ns@),
            },
    {
        let mut i: usize = 0;
        while i < self.manuals.len()
            invariant
                i <= self.manuals@.len(),
                forall|j: int| 0 <= j < i ==> pairs_view(self.manuals@)[j].0 != ns@,
            decreases self.manuals@.len() - i,
        {
            if str_eq(self.manuals[i].0.as_str(), ns) {
                return Some(i);
            }
            i = i + 1;
        }
        None
    }

    /// Sets the manual of a namespace.
    pub fn register(&mut self, ns: &str, manual: &str)
        requires
            old(self).wf(),
        ensures
            final(self).wf(),
            final(self)@ == old(self)@.insert(ns@, manual@),
    {
        let ghost before = pairs_view(self.manuals@);
        match self.find(ns) {
            Some(i) => {
                self.manuals.set(i, (ns.to_owned(), manual.to_owned()));
                proof {
                    assert(pairs_view(self.manuals@) =~= before.update(i as int, (before[i as int].0, manual@)));
                    lemma_assoc_update(before, i as int, manual@);
                }
            },
            None => {
                self.manuals.push((ns.to_owned(), manual.to_owned()));
                proof {
                    assert(pairs_view(self.manuals@) =~= before.push((ns@, manual@)));
                    lemma_assoc_push(before, ns@, manual@);
                }
            },
        }
    }

    /// The manual of a namespace, or `no such namespace`.
    pub fn lookup(&self, ns: &str) -> (r: String)
        requires
            self.wf(),
        ensures
            r@ == manual_of(self@, ns@),
    {
        match self.find(ns) {
            Some(i) => {
                proof {
                    lemma_assoc_index(pairs_view(self.manuals@), i as int);
                }
                self.manuals[i].1.clone()
            },
            None => "no such namespace".to_owned(),
        }
    }

    /// The manual of the namespace a call names in its `namespace` tag.
    pub fn call(&self, x: &Tag) -> (r: String)
        requires
            self.wf(),
            child_index(tags_view(x.children@), "namespace"@, 0) is Some,
        ensures
            r@ == manual_of(
                self@,
                tag_text(tags_view(x.children@)[child_index(tags_view(x.children@), "namespace"@, 0)->Some_0]),
            ),
    {
        match x.get("namespace") {
            Some(t) => {
                proof {
                    crate::taglang::lemma_tags_view_index(x.children@);
                    crate::taglang::lemma_child_index(tags_view(x.children@), "namespace"@, 0);
                }
                self.lookup(t.as_str())
            },
            None => String::new(),
        }
    }
}

} // verus!
