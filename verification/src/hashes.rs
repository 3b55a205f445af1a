//! Content hashes of lockable artifacts: a single `algorithm:digest` record
//! and a deduplicated collection of them.

use vstd::prelude::*;
use vstd::string::StrSliceExecFns;
use vstd::string::StringExecFns;
use crate::strutil::{find_char, first_at, has_char, lemma_first_at_unique, str_eq};

verus! {

/// One content hash, written `algorithm:digest` in a lock document.
#[derive(Debug)]
pub struct Hash {
    pub algorithm: String,
    pub digest: String,
}

/// What `Hash::parse` yields on `s`: `None` when `s` has no `:`; otherwise
/// the characters before the first `:` and those between the first `:` and
/// the next one (or the end).
pub open spec fn spec_parse_hash(s: Seq<char>) -> Option<(Seq<char>, Seq<char>)> {
    if !has_char(s, ':') {
        None
    } else {
        let i = choose|i: int| first_at(s, ':', i);
        let rest = s.subrange(i + 1, s.len() as int);
        let digest = if has_char(rest, ':') {
            let j = choose|j: int| first_at(rest, ':', j);
            rest.subrange(0, j)
        } else {
            rest
        };
        Some((s.subrange(0, i), digest))
    }
}

impl Hash {
    pub fn new(algorithm: &str, digest: &str) -> (h: Hash)
        ensures
            h.algorithm@ == algorithm@,
            h.digest@ == digest@,
    {
        Hash { algorithm: algorithm.to_owned(), digest: digest.to_owned() }
    }

    /// Split an `algorithm:digest` string at its first `:`; fail when the
    /// separator is absent.
    pub fn parse(v: &str) -> (r: Option<Hash>)
        ensures
            match r {
                Some(h) => spec_parse_hash(v@) == Some((h.algorithm@, h.digest@)),
                None => spec_parse_hash(v@) is None,
            },
    {
        match find_char(v, ':') {
            None => None,
            Some(i) => {
                let len = v.unicode_len();
                let algorithm = v.substring_char(0, i);
                let rest = v.substring_char(i + 1, len);
                let digest = match find_char(rest, ':') {
                    Some(j) => rest.substring_char(0, j),
                    None => rest,
                };
                proof {
                    assert(has_char(v@, ':'));
                    let ci = choose|ci: int| first_at(v@, ':', ci);
                    lemma_first_at_unique(v@, ':', i as int, ci);
                }
                Some(Hash { algorithm: algorithm.to_owned(), digest: digest.to_owned() })
            },
        }
    }

    /// The textual `algorithm:digest` form.
    pub fn to_string(&self) -> (r: String)
        ensures
            r@ == self.algorithm@ + ":"@ + self.digest@,
    {
        let mut r = self.algorithm.clone();
        r.append(":");
        r.append(self.digest.as_str());
        r
    }

    /// Whether `other` records the same algorithm and digest.
    pub fn same_as(&self, other: &Hash) -> (r: bool)
        ensures
            r == (self.algorithm@ == other.algorithm@ && self.digest@ == other.digest@),
    {
        str_eq(self.algorithm.as_str(), other.algorithm.as_str())
            && str_eq(self.digest.as_str(), other.digest.as_str())
    }
}

/// Round trip: on a string whose only `:` is the separator, parsing and
/// rendering reproduce the string exactly.
pub proof fn lemma_hash_round_trip(s: Seq<char>, i: int)
    requires
        first_at(s, ':', i),
        forall|j: int| i < j < s.len() ==> s[j] != ':',
    ensures
        spec_parse_hash(s) matches Some(p) && p.0 + ":"@ + p.1 =~= s,
{
    assert(has_char(s, ':'));
    let ci = choose|ci: int| first_at(s, ':', ci);
    lemma_first_at_unique(s, ':', i, ci);
    let rest = s.subrange(i + 1, s.len() as int);
    assert(forall|j: int| 0 <= j < rest.len() ==> rest[j] == s[i + 1 + j]);
    assert(!has_char(rest, ':'));
    reveal_strlit(":");
    assert((":"@).len() == 1);
    assert((":"@)[0] == ':');
}

/// A set of content hashes: no entry is recorded twice, and the order of the
/// distinct entries is the order in which they were first added.
#[derive(Debug)]
pub struct Hashes {
    pub items: Vec<Hash>,
}

impl Hashes {
    /// The recorded `(algorithm, digest)` pairs, in insertion order.
    pub open spec fn pairs(self) -> Seq<(Seq<char>, Seq<char>)> {
        self.items@.map_values(|h: Hash| (h.algorithm@, h.digest@))
    }

    /// No pair occurs twice.
    pub open spec fn wf(self) -> bool {
        self.pairs().no_duplicates()
    }

    pub open spec fn spec_contains(self, algorithm: Seq<char>, digest: Seq<char>) -> bool {
        exists|i: int|
            0 <= i < self.items@.len() && self.items@[i].algorithm@ == algorithm
                && self.items@[i].digest@ == digest
    }

    pub fn new() -> (r: Hashes)
        ensures
            r.items@.len() == 0,
            r.wf(),
    {
        Hashes { items: Vec::new() }
    }

    /// Record `h` unless an equal entry is already present.
    pub fn add(&mut self, h: Hash)
        requires
            old(self).wf(),
        ensures
            final(self).wf(),
            old(self).spec_contains(h.algorithm@, h.digest@) ==> final(self).items
                == old(self).items,
            !old(self).spec_contains(h.algorithm@, h.digest@) ==> final(self).items@
                == old(self).items@.push(h),
    {
        if self.contains(&h) {
            return ;
        }
        proof {
            assert forall|i: int| 0 <= i < self.pairs().len() implies self.pairs()[i] != (
                h.algorithm@,
                h.digest@,
            ) by {
                assert(self.pairs()[i] == (self.items@[i].algorithm@, self.items@[i].digest@));
            }
        }
        self.items.push(h);
        proof {
            assert(self.pairs() =~= old(self).pairs().push((h.algorithm@, h.digest@)));
        }
    }

    pub fn len(&self) -> (r: usize)
        ensures
            r == self.items@.len(),
    {
        self.items.len()
    }

    /// Whether an entry equal to `value` is present.
    pub fn contains(&self, value: &Hash) -> (r: bool)
        ensures
            r == self.spec_contains(value.algorithm@, value.digest@),
    {
        let n = self.items.len();
        let mut i: usize = 0;
        while i < n
            invariant
                i <= n,
                n == self.items@.len(),
                forall|j: int|
                    0 <= j < i ==> !(self.items@[j].algorithm@ == value.algorithm@
                        && self.items@[j].digest@ == value.digest@),
            decreases n - i,
        {
            if self.items[i].same_as(value) {
                return true;
            }
            i = i + 1;
        }
        false
    }

    /// The entries, in insertion order.
    pub fn iter(&self) -> (r: &Vec<Hash>)
        ensures
            r == &self.items,
    {
        &self.items
    }
}

/// Set semantics: a well-formed `Hashes` holds as many entries as there are
/// distinct pairs among them, so repeated additions never inflate it.
pub proof fn lemma_hashes_dedup(h: Hashes)
    requires
        h.wf(),
    ensures
        h.pairs().to_set().len() == h.pairs().len(),
{
    h.pairs().unique_seq_to_set();
}

} // verus!
