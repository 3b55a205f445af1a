//! Named package indexes and the lookup table that resolves symbolic source
//! references in a lock document.

use vstd::prelude::*;
use crate::strutil::str_eq;
use crate::urls::url_parse;

verus! {

/// One package index: a name, the canonical serialization of its base URL,
/// and whether it may be used without SSL verification.
#[derive(Debug)]
pub struct Source {
    pub name: String,
    pub base_url: String,
    pub no_verify_ssl: bool,
}

impl Source {
    /// The stored base URL is a canonical serialization.
    pub open spec fn wf(self) -> bool {
        url_parse(self.base_url@) == Some(self.base_url@)
    }

    pub fn new(name: &str, base_url: &str, no_verify_ssl: bool) -> (r: Source)
        ensures
            r.name@ == name@,
            r.base_url@ == base_url@,
            r.no_verify_ssl == no_verify_ssl,
    {
        Source { name: name.to_owned(), base_url: base_url.to_owned(), no_verify_ssl }
    }

    /// An owned copy with the same fields.
    pub fn duplicate(&self) -> (r: Source)
        ensures
            r.name@ == self.name@,
            r.base_url@ == self.base_url@,
            r.no_verify_ssl == self.no_verify_ssl,
    {
        Source {
            name: self.name.clone(),
            base_url: self.base_url.clone(),
            no_verify_ssl: self.no_verify_ssl,
        }
    }

    pub fn base_url(&self) -> (r: &String)
        ensures
            r == &self.base_url,
    {
        &self.base_url
    }

    pub fn no_verify_ssl(&self) -> (r: bool)
        ensures
            r == self.no_verify_ssl,
    {
        self.no_verify_ssl
    }
}

/// Lookup table of sources by name; names are unique.
#[derive(Debug)]
pub struct Sources {
    pub items: Vec<Source>,
}

impl Sources {
    pub open spec fn wf(self) -> bool {
        &&& forall|i: int, j: int|
            0 <= i < j < self.items@.len() ==> self.items@[i].name@ != self.items@[j].name@
        &&& forall|i: int| 0 <= i < self.items@.len() ==> (#[trigger] self.items@[i]).wf()
    }

    pub open spec fn spec_index_of(self, name: Seq<char>) -> Option<int> {
        if exists|i: int| 0 <= i < self.items@.len() && self.items@[i].name@ == name {
            Some(choose|i: int| 0 <= i < self.items@.len() && self.items@[i].name@ == name)
        } else {
            None
        }
    }

    pub open spec fn spec_has(self, name: Seq<char>) -> bool {
        exists|i: int| 0 <= i < self.items@.len() && self.items@[i].name@ == name
    }

    pub fn new() -> (r: Sources)
        ensures
            r.items@.len() == 0,
            r.wf(),
    {
        Sources { items: Vec::new() }
    }

    pub fn len(&self) -> (r: usize)
        ensures
            r == self.items@.len(),
    {
        self.items.len()
    }

    /// The source registered under `key`, or `None`.
    pub fn get(&self, key: &str) -> (r: Option<&Source>)
        ensures
            match r {
                Some(s) => exists|i: int|
                    0 <= i < self.items@.len() && self.items@[i] == *s && s.name@ == key@,
                None => !self.spec_has(key@),
            },
    {
        let n = self.items.len();
        let mut i: usize = 0;
        while i < n
            invariant
                i <= n,
                n == self.items@.len(),
                forall|j: int| 0 <= j < i ==> self.items@[j].name@ != key@,
            decreases n - i,
        {
            if str_eq(self.items[i].name.as_str(), key) {
                return Some(&self.items[i]);
            }
            i = i + 1;
        }
        None
    }

    /// Register `source` under its name, replacing any source already
    /// registered under it; the displaced source is returned.
    pub fn add(&mut self, source: Source) -> (r: Option<Source>)
        requires
            old(self).wf(),
            source.wf(),
        ensures
            final(self).wf(),
            final(self).spec_has(source.name@),
            forall|n: Seq<char>|
                #[trigger] final(self).spec_has(n) == (old(self).spec_has(n) || n == source.name@),
            match r {
                Some(displaced) => {
                    &&& old(self).spec_has(source.name@)
                    &&& exists|i: int|
                        0 <= i < old(self).items@.len() && old(self).items@[i] == displaced
                            && displaced.name@ == source.name@
                            && final(self).items@ == old(self).items@.update(i, source)
                },
                None => !old(self).spec_has(source.name@) && final(self).items@ == old(
                    self,
                ).items@.push(source),
            },
    {
        let n = self.items.len();
        let mut i: usize = 0;
        while i < n
            invariant
                i <= n,
                self.items == old(self).items,
                old(self).wf(),
                source.wf(),
                n == self.items@.len(),
                forall|j: int| 0 <= j < i ==> self.items@[j].name@ != source.name@,
            decreases n - i,
        {
            if str_eq(self.items[i].name.as_str(), source.name.as_str()) {
                let ghost seen: int = i as int;
                proof {
                    assert(old(self).items@[seen].name@ == source.name@);
                }
                let displaced = self.items.remove(i);
                self.items.insert(i, source);
                proof {
                    assert(self.items@ =~= old(self).items@.update(seen, source));
                    assert(old(self).items@[seen] == displaced);
                    assert forall|a: int, b: int|
                        0 <= a < b < self.items@.len() implies self.items@[a].name@
                        != self.items@[b].name@ by {
                        if a == seen {
                            assert(old(self).items@[b].name@ != source.name@);
                        } else if b == seen {
                            assert(old(self).items@[a].name@ != source.name@);
                        } else {
                            assert(old(self).items@[a].name@ != old(self).items@[b].name@);
                        }
                    }
                    assert forall|a: int| 0 <= a < self.items@.len() implies (
                    #[trigger] self.items@[a]).wf() by {
                        if a != seen {
                            assert(self.items@[a] == old(self).items@[a]);
                        }
                    }
                    assert forall|m: Seq<char>| #[trigger]
                        self.spec_has(m) == (old(self).spec_has(m) || m == source.name@) by {
                        if self.spec_has(m) {
                            let k = choose|k: int|
                                0 <= k < self.items@.len() && self.items@[k].name@ == m;
                            if k != seen {
                                assert(old(self).items@[k].name@ == m);
                            }
                        }
                        if old(self).spec_has(m) {
                            let k = choose|k: int|
                                0 <= k < old(self).items@.len() && old(self).items@[k].name@ == m;
                            if k != seen {
                                assert(self.items@[k].name@ == m);
                            } else {
                                assert(m == displaced.name@);
                            }
                        }
                        if m == source.name@ {
                            assert(self.items@[seen].name@ == m);
                        }
                    }
                    assert(self.spec_has(source.name@));
                }
                return Some(displaced);
            }
            i = i + 1;
        }
        self.items.push(source);
        proof {
            assert(self.items@ =~= old(self).items@.push(source));
            let last = old(self).items@.len() as int;
            assert(self.items@[last].name@ == source.name@);
            assert forall|m: Seq<char>| #[trigger]
                self.spec_has(m) == (old(self).spec_has(m) || m == source.name@) by {
                if self.spec_has(m) {
                    let k = choose|k: int|
                        0 <= k < self.items@.len() && self.items@[k].name@ == m;
                    if k < last {
                        assert(old(self).items@[k].name@ == m);
                    }
                }
                if old(self).spec_has(m) {
                    let k = choose|k: int|
                        0 <= k < old(self).items@.len() && old(self).items@[k].name@ == m;
                    assert(self.items@[k].name@ == m);
                }
            }
        }
        None
    }
}

} // verus!
