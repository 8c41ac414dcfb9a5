//! The store: values bound to directories, and lookups that walk from the
//! anchor directory up to the root.

use vstd::prelude::*;

use crate::assoc::{as_map, find, has_key, keys_unique, lemma_lookup_index, lemma_lookup_push,
    lemma_lookup_update, lookup, remove_key, upsert};
use crate::path::{ancestor_dirs, ancestors, parent_dir, parent_of};

verus! {

/// Directory → (key → value).
pub type Bindings = Map<Seq<char>, Map<Seq<char>, Seq<char>>>;

/// The nested lists of a store as the bindings they stand for.
pub open spec fn bindings_of(e: Seq<(String, Vec<(String, String)>)>) -> Bindings {
    Map::new(|d: Seq<char>| lookup(e, d) is Some, |d: Seq<char>| as_map(lookup(e, d)->0@))
}

/// The bucket of directory `d`, empty where `d` has none.
pub open spec fn bucket_or_empty(b: Bindings, d: Seq<char>) -> Map<Seq<char>, Seq<char>> {
    if b.contains_key(d) {
        b[d]
    } else {
        Map::empty()
    }
}

/// The value that directory `d` itself binds to `k`.
pub open spec fn local_value(b: Bindings, d: Seq<char>, k: Seq<char>) -> Option<Seq<char>> {
    if b.contains_key(d) && b[d].contains_key(k) {
        Some(b[d][k])
    } else {
        None
    }
}

/// The value of `k` along `chain`: that of the first directory that binds it.
pub open spec fn resolve(b: Bindings, chain: Seq<Seq<char>>, k: Seq<char>) -> Option<Seq<char>>
    decreases chain.len(),
{
    if chain.len() == 0 {
        None
    } else if local_value(b, chain[0], k) is Some {
        local_value(b, chain[0], k)
    } else {
        resolve(b, chain.drop_first(), k)
    }
}

/// The buckets along `chain` laid over each other from its far end to its
/// head, a nearer directory's value replacing a farther one's.
pub open spec fn merged(b: Bindings, chain: Seq<Seq<char>>) -> Map<Seq<char>, Seq<char>>
    decreases chain.len(),
{
    if chain.len() == 0 {
        Map::empty()
    } else {
        merged(b, chain.drop_first()).union_prefer_right(bucket_or_empty(b, chain[0]))
    }
}

/// `b` with `k` bound to `v` in the bucket of `d`, which is made if missing.
pub open spec fn with_binding(b: Bindings, d: Seq<char>, k: Seq<char>, v: Seq<char>) -> Bindings {
    b.insert(d, bucket_or_empty(b, d).insert(k, v))
}

/// `b` with `k` taken out of the bucket of `d`; no bucket is made.
pub open spec fn without_binding(b: Bindings, d: Seq<char>, k: Seq<char>) -> Bindings {
    if b.contains_key(d) {
        b.insert(d, b[d].remove(k))
    } else {
        b
    }
}

/// All bindings of a store, by directory.
pub struct Data {
    projector: Vec<(String, Vec<(String, String)>)>,
}

impl View for Data {
    type V = Bindings;

    closed spec fn view(&self) -> Bindings {
        bindings_of(self.projector@)
    }
}

impl Data {
    #[verifier::type_invariant]
    spec fn wf(self) -> bool {
        &&& keys_unique(self.projector@)
        &&& forall|i: int|
            0 <= i < self.projector@.len() ==> keys_unique(#[trigger] self.projector@[i].1@)
    }

    /// No bindings.
    pub fn new() -> (r: Data)
        ensures
            r@ == Bindings::empty(),
    {
        let r = Data { projector: Vec::new() };
        assert(r@ =~= Bindings::empty());
        r
    }

    /// The directories and their buckets, as pairs.
    pub fn entries(&self) -> (r: &Vec<(String, Vec<(String, String)>)>)
        ensures
            bindings_of(r@) == self@,
            keys_unique(r@),
            forall|i: int| 0 <= i < r@.len() ==> keys_unique(#[trigger] r@[i].1@),
    {
        proof {
            use_type_invariant(self);
        }
        &self.projector
    }

    /// The bucket of `dir`, if it has one.
    pub fn bucket(&self, dir: &String) -> (r: Option<&Vec<(String, String)>>)
        ensures
            match r {
                Some(b) => self@.contains_key(dir@) && as_map(b@) == self@[dir@] && keys_unique(
                    b@,
                ),
                None => !self@.contains_key(dir@),
            },
    {
        proof {
            use_type_invariant(self);
        }
        match find(&self.projector, dir) {
            Some(i) => {
                proof {
                    lemma_lookup_index(self.projector@, i as int);
                }
                Some(&self.projector[i].1)
            },
            None => None,
        }
    }

    /// Binds `key` to `value` in the bucket of `dir`, making the bucket if
    /// missing. No other bucket changes.
    pub fn set(&mut self, dir: &str, key: &str, value: &str)
        ensures
            final(self)@ == with_binding(old(self)@, dir@, key@, value@),
    {
        proof {
            use_type_invariant(&*self);
        }
        let d = dir.to_owned();
        let mut e: Vec<(String, Vec<(String, String)>)> = Vec::new();
        std::mem::swap(&mut e, &mut self.projector);
        let ghost e0 = e@;
        match find(&e, &d) {
            Some(i) => {
                let (name, mut bucket) = e.remove(i);
                proof {
                    assert(e0[i as int].1@ == bucket@);
                    lemma_lookup_index(e0, i as int);
                }
                upsert(&mut bucket, key.to_owned(), value.to_owned());
                e.insert(i, (name, bucket));
                let ghost x = e@[i as int];
                assert(e@ =~= e0.update(i as int, x));
                assert forall|q: Seq<char>| true implies lookup(e@, q) == (if q == dir@ {
                    Some(x.1)
                } else {
                    lookup(e0, q)
                }) by {
                    lemma_lookup_update(e0, i as int, x, q);
                }
                proof {
                    lemma_lookup_update(e0, i as int, x, dir@);
                }
                assert forall|j: int| 0 <= j < e@.len() implies keys_unique(#[trigger] e@[j].1@) by {
                    if j != i {
                        assert(e@[j] == e0[j]);
                    }
                }
            },
            None => {
                let mut bucket: Vec<(String, String)> = Vec::new();
                let ghost empty = bucket@;
                let kv = (key.to_owned(), value.to_owned());
                let ghost kvg = kv;
                bucket.push(kv);
                assert(bucket@ == empty.push(kvg));
                assert forall|q: Seq<char>| true implies lookup(bucket@, q) == (if q == key@ {
                    Some(kvg.1)
                } else {
                    lookup(empty, q)
                }) by {
                    lemma_lookup_push(empty, kvg, q);
                }
                proof {
                    lemma_lookup_push(empty, kvg, key@);
                }
                assert(as_map(bucket@) =~= Map::<Seq<char>, Seq<char>>::empty().insert(key@, value@));
                let x = (d, bucket);
                let ghost xg = x;
                e.push(x);
                assert forall|q: Seq<char>| true implies lookup(e@, q) == (if q == dir@ {
                    Some(xg.1)
                } else {
                    lookup(e0, q)
                }) by {
                    lemma_lookup_push(e0, xg, q);
                }
                proof {
                    lemma_lookup_push(e0, xg, dir@);
                }
                assert forall|j: int| 0 <= j < e@.len() implies keys_unique(#[trigger] e@[j].1@) by {
                    if j < e0.len() {
                        assert(e@[j] == e0[j]);
                    }
                }
            },
        }
        assert(bindings_of(e@) =~= with_binding(bindings_of(e0), dir@, key@, value@));
        self.projector = e;
    }

    /// Takes `key` out of the bucket of `dir`. Nothing changes where `dir` has
    /// no bucket or its bucket does not bind `key`; no bucket is made.
    pub fn remove(&mut self, dir: &str, key: &str)
        ensures
            final(self)@ == without_binding(old(self)@, dir@, key@),
    {
        proof {
            use_type_invariant(&*self);
        }
        let d = dir.to_owned();
        let k = key.to_owned();
        let mut e: Vec<(String, Vec<(String, String)>)> = Vec::new();
        std::mem::swap(&mut e, &mut self.projector);
        let ghost e0 = e@;
        match find(&e, &d) {
            Some(i) => {
                let (name, mut bucket) = e.remove(i);
                proof {
                    assert(e0[i as int].1@ == bucket@);
                    lemma_lookup_index(e0, i as int);
                }
                remove_key(&mut bucket, &k);
                e.insert(i, (name, bucket));
                let ghost x = e@[i as int];
                assert(e@ =~= e0.update(i as int, x));
                assert forall|q: Seq<char>| true implies lookup(e@, q) == (if q == dir@ {
                    Some(x.1)
                } else {
                    lookup(e0, q)
                }) by {
                    lemma_lookup_update(e0, i as int, x, q);
                }
                proof {
                    lemma_lookup_update(e0, i as int, x, dir@);
                }
                assert forall|j: int| 0 <= j < e@.len() implies keys_unique(#[trigger] e@[j].1@) by {
                    if j != i {
                        assert(e@[j] == e0[j]);
                    }
                }
                assert(bindings_of(e@) =~= without_binding(bindings_of(e0), dir@, key@));
            },
            None => {
                assert(bindings_of(e@) =~= without_binding(bindings_of(e0), dir@, key@));
            },
        }
        self.projector = e;
    }
}

/// A store anchored at one directory, read from and written to one backing
/// file.
pub struct Projector {
    config: String,
    pwd: String,
    data: Data,
}

impl Projector {
    /// The directory that lookups start from and changes go to.
    pub closed spec fn anchor(&self) -> Seq<char> {
        self.pwd@
    }

    /// The path of the backing file.
    pub closed spec fn backing(&self) -> Seq<char> {
        self.config@
    }

    /// What the store binds, by directory.
    pub closed spec fn bindings(&self) -> Bindings {
        self.data@
    }

    /// A store over backing file `config`, anchored at `pwd`, holding what was
    /// loaded from the file; `None` (no file, an unreadable file, or content
    /// that is not a store) gives an empty store.
    pub fn from_config(config: String, pwd: String, loaded: Option<Data>) -> (r: Projector)
        ensures
            r.backing() == config@,
            r.anchor() == pwd@,
            r.bindings() == (match loaded {
                Some(d) => d@,
                None => Bindings::empty(),
            }),
    {
        let data = match loaded {
            Some(d) => d,
            None => Data::new(),
        };
        Projector { config, pwd, data }
    }

    /// The backing file's path.
    pub fn config(&self) -> (r: &String)
        ensures
            r@ == self.backing(),
    {
        &self.config
    }

    /// The anchor directory.
    pub fn pwd(&self) -> (r: &String)
        ensures
            r@ == self.anchor(),
    {
        &self.pwd
    }

    /// All bindings, for writing back.
    pub fn data(&self) -> (r: &Data)
        ensures
            r@ == self.bindings(),
    {
        &self.data
    }

    /// The value of `key` at the nearest directory, from the anchor upward,
    /// that binds it.
    pub fn get_value(&self, key: &str) -> (r: Option<&String>)
        ensures
            match r {
                Some(v) => resolve(self.bindings(), ancestors(self.anchor()), key@) == Some(v@),
                None => resolve(self.bindings(), ancestors(self.anchor()), key@) is None,
            },
            self.anchor() == seq!['/'] ==> match r {
                Some(v) => local_value(self.bindings(), self.anchor(), key@) == Some(v@),
                None => local_value(self.bindings(), self.anchor(), key@) is None,
            },
    {
        let k = key.to_owned();
        let mut curr = self.pwd.clone();
        let ghost b = self.data@;
        loop
            invariant
                resolve(b, ancestors(self.pwd@), k@) == resolve(b, ancestors(curr@), k@),
                self.pwd@ == seq!['/'] ==> curr@ == self.pwd@,
                k@ == key@,
                b == self.data@,
            decreases curr@.len(),
        {
            let ghost chain = ancestors(curr@);
            assert(chain[0] == curr@ && chain.drop_first() == (match parent_of(curr@) {
                Some(q) => if q.len() < curr@.len() {
                    ancestors(q)
                } else {
                    Seq::empty()
                },
                None => Seq::empty(),
            }));
            match self.data.bucket(&curr) {
                Some(bucket) => match find(bucket, &k) {
                    Some(j) => {
                        proof {
                            lemma_lookup_index(bucket@, j as int);
                        }
                        return Some(&bucket[j].1);
                    },
                    None => {},
                },
                None => {},
            }
            match parent_dir(curr.as_str()) {
                Some(q) => {
                    curr = q;
                },
                None => {
                    return None;
                },
            }
        }
    }

    /// Every key visible from the anchor with its value: the buckets from the
    /// root down to the anchor laid over each other, nearer values winning.
    pub fn get_value_all(&self) -> (r: Vec<(String, String)>)
        ensures
            keys_unique(r@),
            as_map(r@) == merged(self.bindings(), ancestors(self.anchor())),
            self.anchor() == seq!['/'] ==> as_map(r@) == bucket_or_empty(
                self.bindings(),
                self.anchor(),
            ),
    {
        let paths = ancestor_dirs(self.pwd.as_str());
        let ghost chain = paths@.map_values(|s: String| s@);
        let ghost b = self.data@;
        let mut out: Vec<(String, String)> = Vec::new();
        assert(as_map(out@) =~= merged(b, chain.skip(paths@.len() as int)));
        let mut i: usize = paths.len();
        while i > 0
            invariant
                i <= paths@.len(),
                chain == paths@.map_values(|s: String| s@),
                b == self.data@,
                keys_unique(out@),
                as_map(out@) == merged(b, chain.skip(i as int)),
            decreases i,
        {
            i = i - 1;
            let ghost above = merged(b, chain.skip(i + 1));
            assert(chain.skip(i as int).drop_first() =~= chain.skip(i + 1));
            assert(chain.skip(i as int)[0] == paths@[i as int]@);
            match self.data.bucket(&paths[i]) {
                Some(bucket) => {
                    let mut j: usize = 0;
                    assert(as_map(bucket@.take(0)) =~= Map::empty());
                    assert(as_map(out@) =~= above.union_prefer_right(as_map(bucket@.take(0))));
                    while j < bucket.len()
                        invariant
                            j <= bucket@.len(),
                            keys_unique(bucket@),
                            keys_unique(out@),
                            as_map(out@) == above.union_prefer_right(as_map(bucket@.take(j as int))),
                        decreases bucket@.len() - j,
                    {
                        let ghost pre = bucket@.take(j as int);
                        assert(bucket@.take(j + 1) == pre.push(bucket@[j as int]));
                        assert(!has_key(pre, bucket@[j as int].0@)) by {
                            assert forall|t: int| 0 <= t < pre.len() implies (#[trigger] pre[t]).0@
                                != bucket@[j as int].0@ by {
                                assert(pre[t] == bucket@[t]);
                            }
                        }
                        assert forall|q: Seq<char>| true implies lookup(
                            bucket@.take(j + 1),
                            q,
                        ) == (if q == bucket@[j as int].0@ {
                            Some(bucket@[j as int].1)
                        } else {
                            lookup(pre, q)
                        }) by {
                            lemma_lookup_push(pre, bucket@[j as int], q);
                        }
                        proof {
                            lemma_lookup_push(pre, bucket@[j as int], bucket@[j as int].0@);
                        }
                        let name = bucket[j].0.clone();
                        let value = bucket[j].1.clone();
                        upsert(&mut out, name, value);
                        assert(as_map(bucket@.take(j + 1)) =~= as_map(pre).insert(
                            bucket@[j as int].0@,
                            bucket@[j as int].1@,
                        ));
                        assert(as_map(out@) =~= above.union_prefer_right(
                            as_map(bucket@.take(j + 1)),
                        ));
                        j = j + 1;
                    }
                    assert(bucket@.take(bucket@.len() as int) == bucket@);
                },
                None => {},
            }
            assert(as_map(out@) =~= merged(b, chain.skip(i as int)));
        }
        assert(chain.skip(0) == chain);
        proof {
            if self.pwd@ == seq!['/'] {
                assert(chain.drop_first() =~= Seq::<Seq<char>>::empty());
                assert(merged(b, Seq::<Seq<char>>::empty()) == Map::<Seq<char>, Seq<char>>::empty());
                assert(as_map(out@) =~= bucket_or_empty(b, self.pwd@));
            }
        }
        out
    }

    /// Binds `key` to `value` at the anchor directory; no other directory
    /// changes.
    pub fn set_value(&mut self, key: &str, value: &str)
        ensures
            final(self).anchor() == old(self).anchor(),
            final(self).backing() == old(self).backing(),
            final(self).bindings() == with_binding(old(self).bindings(), old(self).anchor(), key@, value@),
    {
        self.data.set(self.pwd.as_str(), key, value);
    }

    /// Unbinds `key` at the anchor directory; no other directory changes, and
    /// nothing at all where the anchor does not bind `key`.
    pub fn remove_value(&mut self, key: &str)
        ensures
            final(self).anchor() == old(self).anchor(),
            final(self).backing() == old(self).backing(),
            final(self).bindings() == without_binding(old(self).bindings(), old(self).anchor(), key@),
    {
        self.data.remove(self.pwd.as_str(), key);
    }
}

impl Default for Data {
    fn default() -> (r: Data)
        ensures
            r@ == Bindings::empty(),
    {
        Data::new()
    }
}

} // verus!
