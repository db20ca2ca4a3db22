//! Accumulates recovered name/offset pairs, grouped by namespace, into an
//! in-memory registry shaped like the JSON document an output stage
//! serializes once building is complete.

use vstd::prelude::*;

verus! {

/// The text of an optional comment.
pub open spec fn opt_str_view(c: Option<String>) -> Option<Seq<char>> {
    match c {
        Some(s) => Some(s@),
        None => None,
    }
}

/// Represents an offset value in JSON format.
#[derive(Debug)]
pub struct JsonOffsetValue {
    pub value: usize,
    pub comment: Option<String>,
}

impl JsonOffsetValue {
    /// The offset and comment text this record denotes.
    pub open spec fn model(self) -> (usize, Option<Seq<char>>) {
        (self.value, opt_str_view(self.comment))
    }
}

/// Ghost summary of one namespace: its named offsets and its comment.
#[verifier::ext_equal]
pub struct NamespaceModel {
    pub offsets: Map<Seq<char>, (usize, Option<Seq<char>>)>,
    pub comment: Option<Seq<char>>,
}

/// Whether some entry of an association list bears the key `k`.
pub open spec fn assoc_has_key<X>(s: Seq<(String, X)>, k: Seq<char>) -> bool {
    exists|i: int| 0 <= i < s.len() && s[i].0@ == k
}

/// Whether the keys of an association list are pairwise distinct.
pub open spec fn assoc_distinct<X>(s: Seq<(String, X)>) -> bool {
    forall|i: int, j: int| 0 <= i < j < s.len() ==> s[i].0@ != s[j].0@
}

/// The finite map an association list denotes, each entry's value taken
/// through `f`; a later entry wins over an earlier one with the same key.
pub open spec fn assoc_map<X, V>(s: Seq<(String, X)>, f: spec_fn(X) -> V) -> Map<Seq<char>, V>
    decreases s.len(),
{
    if s.len() == 0 {
        Map::empty()
    } else {
        assoc_map(s.drop_last(), f).insert(s.last().0@, f(s.last().1))
    }
}

proof fn lemma_assoc_map_has_key<X, V>(s: Seq<(String, X)>, f: spec_fn(X) -> V, k: Seq<char>)
    ensures
        assoc_map(s, f).contains_key(k) <==> assoc_has_key(s, k),
    decreases s.len(),
{
    if s.len() > 0 {
        lemma_assoc_map_has_key(s.drop_last(), f, k);
        if assoc_has_key(s.drop_last(), k) {
            let i = choose|i: int| 0 <= i < s.drop_last().len() && s.drop_last()[i].0@ == k;
            assert(s[i].0@ == k);
        }
        if assoc_has_key(s, k) && s.last().0@ != k {
            let i = choose|i: int| 0 <= i < s.len() && s[i].0@ == k;
            assert(i < s.len() - 1);
            assert(s.drop_last()[i].0@ == k);
        }
    }
}

proof fn lemma_assoc_map_get<X, V>(s: Seq<(String, X)>, f: spec_fn(X) -> V, i: int)
    requires
        assoc_distinct(s),
        0 <= i < s.len(),
    ensures
        assoc_map(s, f).contains_key(s[i].0@),
        assoc_map(s, f)[s[i].0@] == f(s[i].1),
    decreases s.len(),
{
    assert(assoc_has_key(s, s[i].0@));
    lemma_assoc_map_has_key(s, f, s[i].0@);
    if i < s.len() - 1 {
        assert(assoc_distinct(s.drop_last())) by {
            assert(forall|x: int, y: int|
                0 <= x < y < s.drop_last().len() ==> s.drop_last()[x].0@ != s.drop_last()[y].0@);
        }
        lemma_assoc_map_get(s.drop_last(), f, i);
        assert(s.drop_last()[i] == s[i]);
        assert(s[i].0@ != s.last().0@);
    }
}

proof fn lemma_assoc_map_push<X, V>(s: Seq<(String, X)>, f: spec_fn(X) -> V, p: (String, X))
    ensures
        assoc_map(s.push(p), f) == assoc_map(s, f).insert(p.0@, f(p.1)),
{
    assert(s.push(p).drop_last() =~= s);
    assert(s.push(p).last() == p);
}

proof fn lemma_assoc_map_update<X, V>(s: Seq<(String, X)>, f: spec_fn(X) -> V, i: int, p: (
    String,
    X,
))
    requires
        assoc_distinct(s),
        0 <= i < s.len(),
        p.0@ == s[i].0@,
    ensures
        assoc_map(s.update(i, p), f) == assoc_map(s, f).insert(p.0@, f(p.1)),
    decreases s.len(),
{
    let t = s.update(i, p);
    if i == s.len() - 1 {
        assert(t.drop_last() =~= s.drop_last());
        assert(t.last() == p);
        assert(assoc_map(s.update(i, p), f) =~= assoc_map(s, f).insert(p.0@, f(p.1)));
    } else {
        assert(assoc_distinct(s.drop_last())) by {
            assert(forall|x: int, y: int|
                0 <= x < y < s.drop_last().len() ==> s.drop_last()[x].0@ != s.drop_last()[y].0@);
        }
        assert(t.drop_last() =~= s.drop_last().update(i, p));
        lemma_assoc_map_update(s.drop_last(), f, i, p);
        assert(t.last() == s.last());
        assert(p.0@ != s.last().0@);
        assert(assoc_map(s.update(i, p), f) =~= assoc_map(s, f).insert(p.0@, f(p.1)));
    }
}

/// Find the entry bearing `name`, if any.
fn find_key<X>(entries: &Vec<(String, X)>, name: &String) -> (r: Option<usize>)
    ensures
        (match r {
            Some(i) => i < entries@.len() && entries@[i as int].0@ == name@,
            None => !assoc_has_key(entries@, name@),
        }),
{
    let n = entries.len();
    let mut k: usize = 0;
    while k < n
        invariant
            n == entries@.len(),
            k <= n,
            forall|i: int| 0 <= i < k ==> entries@[i].0@ != name@,
        decreases n - k,
    {
        if entries[k].0 == *name {
            return Some(k);
        }
        k += 1;
    }
    None
}

/// The value model of one offset entry.
pub open spec fn offset_model_fn() -> spec_fn(JsonOffsetValue) -> (usize, Option<Seq<char>>) {
    |v: JsonOffsetValue| v.model()
}

/// Represents a module in JSON format: named offsets plus a module comment.
#[derive(Debug)]
pub struct JsonModule {
    data: Vec<(String, JsonOffsetValue)>,
    comment: Option<String>,
}

impl JsonModule {
    /// The entry names are pairwise distinct.
    pub closed spec fn wf(&self) -> bool {
        assoc_distinct(self.data@)
    }

    /// The named offsets this module holds.
    pub closed spec fn offsets(&self) -> Map<Seq<char>, (usize, Option<Seq<char>>)> {
        assoc_map(self.data@, offset_model_fn())
    }

    /// The module's comment text.
    pub closed spec fn comment_view(&self) -> Option<Seq<char>> {
        opt_str_view(self.comment)
    }

    /// Ghost summary of the module's whole content.
    pub open spec fn model(self) -> NamespaceModel {
        NamespaceModel { offsets: self.offsets(), comment: self.comment_view() }
    }

    /// The module's entries, in the order they were first written.
    pub fn entries(&self) -> (r: &Vec<(String, JsonOffsetValue)>)
        ensures
            assoc_distinct(r@) == self.wf(),
            assoc_map(r@, offset_model_fn()) == self.offsets(),
    {
        &self.data
    }

    /// The module's comment.
    pub fn comment(&self) -> (r: &Option<String>)
        ensures
            opt_str_view(*r) == self.comment_view(),
    {
        &self.comment
    }
}

/// The namespace model of one module entry.
pub open spec fn module_model_fn() -> spec_fn(JsonModule) -> NamespaceModel {
    |m: JsonModule| m.model()
}

/// The registry an association list of modules denotes.
pub open spec fn namespaces_map(s: Seq<(String, JsonModule)>) -> Map<Seq<char>, NamespaceModel> {
    assoc_map(s, module_model_fn())
}

/// Represents a JSON file builder: it accumulates namespaces of named offset
/// values, and hands the finished registry out for serialization.
#[derive(Debug)]
pub struct JsonFileBuilder {
    data: Vec<(String, JsonModule)>,
    current_namespace: String,
}

impl JsonFileBuilder {
    /// Namespace names are pairwise distinct and every module is well formed.
    pub closed spec fn wf(&self) -> bool {
        &&& assoc_distinct(self.data@)
        &&& forall|i: int| 0 <= i < self.data@.len() ==> (#[trigger] self.data@[i]).1.wf()
    }

    /// The registry accumulated so far.
    pub closed spec fn namespaces(&self) -> Map<Seq<char>, NamespaceModel> {
        namespaces_map(self.data@)
    }

    /// The namespace the next variables are written into.
    pub closed spec fn namespace_view(&self) -> Seq<char> {
        self.current_namespace@
    }

    /// An empty builder: no namespaces, and the unnamed namespace current.
    pub fn new() -> (r: Self)
        ensures
            r.wf(),
            r.namespaces() == Map::<Seq<char>, NamespaceModel>::empty(),
            r.namespace_view() == Seq::<char>::empty(),
    {
        JsonFileBuilder { data: Vec::new(), current_namespace: String::new() }
    }
}

impl JsonFileBuilder {
    /// The file extension this builder produces.
    pub fn extension(&mut self) -> (r: &str)
        ensures
            *final(self) == *old(self),
            r@ == "json"@,
    {
        "json"
    }

    /// A JSON document needs no leading boilerplate: writing the top level
    /// changes nothing.
    pub fn write_top_level(&mut self)
        ensures
            *final(self) == *old(self),
    {
    }

    /// Make `name` the current namespace and set its comment, creating the
    /// namespace (with no offsets) if it is new; offsets already written
    /// under it are kept.
    pub fn write_namespace(&mut self, name: &str, comment: Option<&str>)
        requires
            old(self).wf(),
        ensures
            final(self).wf(),
            final(self).namespace_view() == name@,
            ({
                let prior = if old(self).namespaces().contains_key(name@) {
                    old(self).namespaces()[name@]
                } else {
                    NamespaceModel { offsets: Map::empty(), comment: None }
                };
                final(self).namespaces() == old(self).namespaces().insert(
                    name@,
                    (NamespaceModel {
                        offsets: prior.offsets,
                        comment: (match comment {
                            Some(c) => Some(c@),
                            None => None,
                        }),
                    }),
                )
            }),
    {
        self.current_namespace = name.to_owned();
        let name_string = name.to_owned();
        let co: Option<String> = match comment {
            Some(c) => Some(c.to_owned()),
            None => None,
        };
        proof {
            lemma_assoc_map_has_key(self.data@, module_model_fn(), name_string@);
        }
        match find_key(&self.data, &name_string) {
            Some(i) => {
                let ghost pre = self.data@;
                proof {
                    lemma_assoc_map_get(pre, module_model_fn(), i as int);
                }
                self.data[i].1.comment = co;
                proof {
                    assert(self.data@ == pre.update(i as int, self.data@[i as int]));
                    assert(self.data@[i as int].0 == pre[i as int].0);
                    assert(self.data@[i as int].1.data@ == pre[i as int].1.data@);
                    lemma_assoc_map_update(
                        pre,
                        module_model_fn(),
                        i as int,
                        self.data@[i as int],
                    );
                    assert(forall|x: int, y: int|
                        0 <= x < y < self.data@.len() ==> self.data@[x].0@ != self.data@[y].0@);
                }
            },
            None => {
                let module = JsonModule { data: Vec::new(), comment: co };
                let ghost pre = self.data@;
                self.data.push((name_string, module));
                proof {
                    lemma_assoc_map_push(pre, module_model_fn(), self.data@.last());
                    assert(module.offsets() =~= Map::<
                        Seq<char>,
                        (usize, Option<Seq<char>>),
                    >::empty());
                    assert(forall|x: int, y: int|
                        0 <= x < y < self.data@.len() ==> self.data@[x].0@ != self.data@[y].0@);
                }
            },
        }
    }

    /// Record `value` under `name` in the current namespace, creating the
    /// namespace (with no comment) if it does not exist yet; a variable
    /// already written under the same name is overwritten.
    pub fn write_variable(&mut self, name: &str, value: usize, comment: Option<&str>)
        requires
            old(self).wf(),
        ensures
            final(self).wf(),
            final(self).namespace_view() == old(self).namespace_view(),
            ({
                let ns = old(self).namespace_view();
                let prior = if old(self).namespaces().contains_key(ns) {
                    old(self).namespaces()[ns]
                } else {
                    NamespaceModel { offsets: Map::empty(), comment: None }
                };
                final(self).namespaces() == old(self).namespaces().insert(
                    ns,
                    (NamespaceModel {
                        offsets: prior.offsets.insert(
                            name@,
                            (
                                value,
                                (match comment {
                                    Some(c) => Some(c@),
                                    None => None,
                                }),
                            ),
                        ),
                        comment: prior.comment,
                    }),
                )
            }),
    {
        let name_string: String = name.to_owned();
        let co: Option<String> = match comment {
            Some(c) => Some(c.to_owned()),
            None => None,
        };
        let entry = JsonOffsetValue { value, comment: co };
        proof {
            lemma_assoc_map_has_key(self.data@, module_model_fn(), self.current_namespace@);
        }
        match find_key(&self.data, &self.current_namespace) {
            Some(i) => {
                let ghost pre = self.data@;
                proof {
                    lemma_assoc_map_get(pre, module_model_fn(), i as int);
                    lemma_assoc_map_has_key(
                        pre[i as int].1.data@,
                        offset_model_fn(),
                        name_string@,
                    );
                }
                let ghost pre_inner = self.data@[i as int].1.data@;
                match find_key(&self.data[i].1.data, &name_string) {
                    Some(j) => {
                        proof {
                            lemma_assoc_map_get(pre_inner, offset_model_fn(), j as int);
                        }
                        self.data[i].1.data[j].1 = entry;
                        proof {
                            assert(self.data@[i as int].1.data@ == pre_inner.update(
                                j as int,
                                self.data@[i as int].1.data@[j as int],
                            ));
                            lemma_assoc_map_update(
                                pre_inner,
                                offset_model_fn(),
                                j as int,
                                self.data@[i as int].1.data@[j as int],
                            );
                        }
                    },
                    None => {
                        self.data[i].1.data.push((name_string, entry));
                        proof {
                            lemma_assoc_map_push(
                                pre_inner,
                                offset_model_fn(),
                                self.data@[i as int].1.data@.last(),
                            );
                        }
                    },
                }
                proof {
                    assert(self.data@ == pre.update(i as int, self.data@[i as int]));
                    assert(self.data@[i as int].0 == pre[i as int].0);
                    lemma_assoc_map_update(
                        pre,
                        module_model_fn(),
                        i as int,
                        self.data@[i as int],
                    );
                    assert(forall|x: int, y: int|
                        0 <= x < y < self.data@[i as int].1.data@.len() ==> self.data@[
                            i as int
                        ].1.data@[x].0@ != self.data@[i as int].1.data@[y].0@);
                    assert(forall|x: int, y: int|
                        0 <= x < y < self.data@.len() ==> self.data@[x].0@ != self.data@[y].0@);
                }
            },
            None => {
                let mut module = JsonModule { data: Vec::new(), comment: None };
                module.data.push((name_string, entry));
                let ns_string = self.current_namespace.clone();
                let ghost pre = self.data@;
                self.data.push((ns_string, module));
                proof {
                    lemma_assoc_map_push(pre, module_model_fn(), self.data@.last());
                    lemma_assoc_map_push(
                        Seq::<(String, JsonOffsetValue)>::empty(),
                        offset_model_fn(),
                        (module.data@.last()),
                    );
                    assert(Seq::<(String, JsonOffsetValue)>::empty().push(module.data@.last())
                        =~= module.data@);
                    assert(module.offsets() =~= Map::<
                        Seq<char>,
                        (usize, Option<Seq<char>>),
                    >::empty().insert(name@, (value, opt_str_view(entry.comment))));
                    assert(forall|x: int, y: int|
                        0 <= x < y < self.data@.len() ==> self.data@[x].0@ != self.data@[y].0@);
                }
            },
        }
    }

    /// At the end of the file, hand the finished registry out (leaving the
    /// builder empty for the next document); before the end, do nothing.
    pub fn write_closure(&mut self, eof: bool) -> (r: Option<Vec<(String, JsonModule)>>)
        requires
            old(self).wf(),
        ensures
            final(self).wf(),
            final(self).namespace_view() == old(self).namespace_view(),
            !eof ==> r is None && *final(self) == *old(self),
            eof ==> (r matches Some(v) && assoc_distinct(v@) && namespaces_map(v@) == old(
                self,
            ).namespaces() && (forall|i: int| 0 <= i < v@.len() ==> (#[trigger] v@[i]).1.wf())
                && final(self).namespaces() == Map::<Seq<char>, NamespaceModel>::empty()),
    {
        if eof {
            let mut out: Vec<(String, JsonModule)> = Vec::new();
            core::mem::swap(&mut self.data, &mut out);
            Some(out)
        } else {
            None
        }
    }
}

impl Default for JsonFileBuilder {
    /// Same as [`JsonFileBuilder::new`].
    fn default() -> (r: Self)
        ensures
            r.wf(),
            r.namespaces() == Map::<Seq<char>, NamespaceModel>::empty(),
            r.namespace_view() == Seq::<char>::empty(),
    {
        JsonFileBuilder::new()
    }
}

} // verus!
