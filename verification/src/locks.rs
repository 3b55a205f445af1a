//! The lock document and the two-phase builder that turns it into a
//! validated dependency graph.
//!
//! A `LockDocument` is the plain-value shape of the on-disk lock file: maps
//! are lists of keyed entries, in document order.  `Lock::from_document`
//! materializes every node first and links edges second, so an edge can only
//! ever point at a node that exists; any structural fault rejects the whole
//! document with a `ParseError` naming the offending key or field.

use vstd::prelude::*;

use crate::deps::{marker_conditions, Dependencies, Marker};
use crate::hashes::{spec_parse_hash, Hashes};
use crate::pypackages::{PythonPackage, PythonPackageSpecifier};
use crate::sources::{Source, Sources};
use crate::strutil::{find_char, has_char, str_eq};
use crate::urls::{url_check, url_parse};

verus! {

/// One entry of the document's source map.
#[derive(Debug)]
pub struct SourceEntry {
    pub name: String,
    pub url: String,
    pub no_verify_ssl: Option<bool>,
}

/// The inline package description of a dependency entry.  Exactly one of
/// `version`, `url`, `path` and `vcs` must be set; `source` accompanies
/// `version`, `no_verify_ssl` accompanies `url`, `rev` accompanies `vcs`.
#[derive(Debug)]
pub struct PackageEntry {
    pub name: String,
    pub version: Option<String>,
    pub source: Option<String>,
    pub url: Option<String>,
    pub no_verify_ssl: Option<bool>,
    pub path: Option<String>,
    pub vcs: Option<String>,
    pub rev: Option<String>,
}

/// One entry of the document's dependency map: an optional inline package
/// and the outgoing edges, each an edge key with an optional marker.
#[derive(Debug)]
pub struct DependencyEntry {
    pub python: Option<PackageEntry>,
    pub dependencies: Vec<(String, Option<Marker>)>,
}

/// The whole lock document, in plain values.
#[derive(Debug)]
pub struct LockDocument {
    pub sources: Vec<SourceEntry>,
    pub dependencies: Vec<(String, DependencyEntry)>,
    pub hashes: Vec<(String, Vec<String>)>,
}

/// A structural fault that rejects the whole document.
#[derive(Debug)]
pub enum ParseError {
    /// A key or field occurs twice in one body.
    DuplicateField(String),
    /// A required field is absent: `rev`, `no_verify_ssl`, or any specifier.
    MissingField(String),
    /// More than one of `version`, `url`, `path`, `vcs` is set; names the key.
    RedundantPackageFields(String),
    /// A package names a source the source map does not define.
    UnresolvableSourceName(String),
    /// An edge names a dependency key the dependency map does not define.
    UnresolvableDependencyKey(String),
    /// A hash string without the `algorithm:digest` separator.
    InvalidHash(String),
    /// A URL the URL parser rejects.
    InvalidUrl(String),
}

/// The views of a list of strings.
pub open spec fn str_views(v: Seq<String>) -> Seq<Seq<char>> {
    Seq::new(v.len(), |i: int| v[i]@)
}

pub open spec fn nvs_or_false(o: Option<bool>) -> bool {
    match o {
        Some(b) => b,
        None => false,
    }
}

/// `s` is what the builder makes of the document entry `e`.
pub open spec fn source_model_matches(s: Source, e: SourceEntry) -> bool {
    &&& s.name@ == e.name@
    &&& Some(s.base_url@) == url_parse(e.url@)
    &&& s.no_verify_ssl == nvs_or_false(e.no_verify_ssl)
}

/// Deduplicating left fold of parsed hash strings, mirroring insertion into
/// a hash set in document order.
pub open spec fn spec_hash_fold(list: Seq<Seq<char>>) -> Seq<(Seq<char>, Seq<char>)>
    decreases list.len(),
{
    if list.len() == 0 {
        Seq::<(Seq<char>, Seq<char>)>::empty()
    } else {
        let prev = spec_hash_fold(list.drop_last());
        let pair = spec_parse_hash(list.last())->Some_0;
        if prev.contains(pair) {
            prev
        } else {
            prev.push(pair)
        }
    }
}

/// The pair a hash string parses to.
pub open spec fn spec_pair_of(s: Seq<char>) -> (Seq<char>, Seq<char>) {
    spec_parse_hash(s)->Some_0
}

/// What the deduplicating fold holds: exactly the pairs the listed strings
/// parse to, each once.
pub proof fn lemma_hash_fold_elements(list: Seq<Seq<char>>)
    ensures
        forall|p: (Seq<char>, Seq<char>)|
            #[trigger] spec_hash_fold(list).contains(p) <==> exists|i: int|
                0 <= i < list.len() && spec_pair_of(#[trigger] list[i]) == p,
    decreases list.len(),
{
    broadcast use vstd::seq_lib::lemma_seq_contains_after_push;

    if list.len() == 0 {
    } else {
        let front = list.drop_last();
        lemma_hash_fold_elements(front);
        let pair = spec_pair_of(list.last());
        assert forall|p: (Seq<char>, Seq<char>)| #[trigger]
            spec_hash_fold(list).contains(p) <==> exists|i: int|
                0 <= i < list.len() && spec_pair_of(#[trigger] list[i]) == p by {
            assert(forall|i: int| 0 <= i < front.len() ==> #[trigger] front[i] == list[i]);
            if spec_hash_fold(list).contains(p) {
                if spec_hash_fold(front).contains(p) {
                    let i = choose|i: int| 0 <= i < front.len() && spec_pair_of(front[i]) == p;
                    assert(spec_pair_of(list[i]) == p);
                } else {
                    assert(p == pair);
                    assert(spec_pair_of(list[list.len() - 1]) == p);
                }
            }
            if exists|i: int| 0 <= i < list.len() && spec_pair_of(#[trigger] list[i]) == p {
                let i = choose|i: int| 0 <= i < list.len() && spec_pair_of(list[i]) == p;
                if i < list.len() - 1 {
                    assert(spec_pair_of(front[i]) == p);
                    assert(spec_hash_fold(front).contains(p));
                } else {
                    assert(p == pair);
                    if !spec_hash_fold(front).contains(pair) {
                        assert(spec_hash_fold(list) == spec_hash_fold(front).push(pair));
                    }
                }
            }
        }
    }
}

/// Order irrelevance: hash lists that are permutations of one another (equal
/// multisets of strings) fold to hash sets holding the same pairs.
pub proof fn lemma_hash_set_order_irrelevant(l1: Seq<Seq<char>>, l2: Seq<Seq<char>>)
    requires
        l1.to_multiset() == l2.to_multiset(),
    ensures
        spec_hash_fold(l1).to_set() == spec_hash_fold(l2).to_set(),
{
    broadcast use vstd::seq_lib::group_to_multiset_ensures;

    lemma_hash_fold_elements(l1);
    lemma_hash_fold_elements(l2);
    assert forall|p: (Seq<char>, Seq<char>)|
        spec_hash_fold(l1).to_set().contains(p) <==> spec_hash_fold(l2).to_set().contains(
            p,
        ) by {
        if spec_hash_fold(l1).contains(p) {
            let i = choose|i: int| 0 <= i < l1.len() && spec_pair_of(#[trigger] l1[i]) == p;
            assert(l1.contains(l1[i]));
            assert(l1.to_multiset().count(l1[i]) > 0);
            assert(l2.to_multiset().count(l1[i]) > 0);
            assert(l2.contains(l1[i]));
            let j = choose|j: int| 0 <= j < l2.len() && l2[j] == l1[i];
            assert(spec_pair_of(l2[j]) == p);
        }
        if spec_hash_fold(l2).contains(p) {
            let i = choose|i: int| 0 <= i < l2.len() && spec_pair_of(#[trigger] l2[i]) == p;
            assert(l2.contains(l2[i]));
            assert(l2.to_multiset().count(l2[i]) > 0);
            assert(l1.to_multiset().count(l2[i]) > 0);
            assert(l1.contains(l2[i]));
            let j = choose|j: int| 0 <= j < l1.len() && l1[j] == l2[i];
            assert(spec_pair_of(l1[j]) == p);
        }
    }
    assert(spec_hash_fold(l1).to_set() =~= spec_hash_fold(l2).to_set());
}

/// How many of the four specifier fields are set.
pub open spec fn specifier_field_count(p: PackageEntry) -> int {
    (if p.version is Some {
        1int
    } else {
        0int
    }) + (if p.url is Some {
        1int
    } else {
        0int
    }) + (if p.path is Some {
        1int
    } else {
        0int
    }) + (if p.vcs is Some {
        1int
    } else {
        0int
    })
}

impl LockDocument {
    pub open spec fn sources_distinct(self) -> bool {
        forall|i: int, j: int|
            0 <= i < j < self.sources@.len() ==> self.sources@[i].name@ != self.sources@[j].name@
    }

    pub open spec fn sources_ok(self) -> bool {
        forall|i: int|
            0 <= i < self.sources@.len() ==> url_parse(#[trigger] self.sources@[i].url@) is Some
    }

    pub open spec fn spec_has_source(self, name: Seq<char>) -> bool {
        exists|i: int| 0 <= i < self.sources@.len() && self.sources@[i].name@ == name
    }

    pub open spec fn hashes_distinct(self) -> bool {
        forall|i: int, j: int|
            0 <= i < j < self.hashes@.len() ==> self.hashes@[i].0@ != self.hashes@[j].0@
    }

    pub open spec fn hashes_ok(self) -> bool {
        forall|i: int, j: int|
            0 <= i < self.hashes@.len() && 0 <= j < self.hashes@[i].1@.len() ==> has_char(
                #[trigger] self.hashes@[i].1@[j]@,
                ':',
            )
    }

    /// The index of the hashes entry recorded for `key`, if any.
    pub open spec fn spec_hashes_index(self, key: Seq<char>) -> Option<int> {
        if exists|i: int| 0 <= i < self.hashes@.len() && self.hashes@[i].0@ == key {
            Some(choose|i: int| 0 <= i < self.hashes@.len() && self.hashes@[i].0@ == key)
        } else {
            None
        }
    }

    pub open spec fn deps_distinct(self) -> bool {
        forall|i: int, j: int|
            0 <= i < j < self.dependencies@.len() ==> self.dependencies@[i].0@
                != self.dependencies@[j].0@
    }

    pub open spec fn spec_has_dep(self, key: Seq<char>) -> bool {
        exists|i: int| 0 <= i < self.dependencies@.len() && self.dependencies@[i].0@ == key
    }

    /// The inline package `p` is acceptable against this document.
    pub open spec fn package_entry_ok(self, p: PackageEntry) -> bool {
        &&& specifier_field_count(p) == 1
        &&& (p.url is Some ==> p.no_verify_ssl is Some && url_parse(p.url->Some_0@) is Some)
        &&& (p.vcs is Some ==> p.rev is Some && url_parse(p.vcs->Some_0@) is Some)
        &&& (p.version is Some && p.source is Some ==> self.spec_has_source(p.source->Some_0@))
    }

    pub open spec fn edges_distinct(e: DependencyEntry) -> bool {
        forall|i: int, j: int|
            0 <= i < j < e.dependencies@.len() ==> e.dependencies@[i].0@ != e.dependencies@[j].0@
    }

    pub open spec fn deps_ok(self) -> bool {
        forall|i: int|
            0 <= i < self.dependencies@.len() ==> {
                let e = (#[trigger] self.dependencies@[i]).1;
                &&& Self::edges_distinct(e)
                &&& (e.python matches Some(p) ==> self.package_entry_ok(p))
                &&& forall|k: int|
                    0 <= k < e.dependencies@.len() ==> self.spec_has_dep(
                        #[trigger] e.dependencies@[k].0@,
                    )
            }
    }

    /// Every condition under which the whole document is accepted.
    pub open spec fn doc_ok(self) -> bool {
        &&& self.sources_distinct()
        &&& self.sources_ok()
        &&& self.hashes_distinct()
        &&& self.hashes_ok()
        &&& self.deps_distinct()
        &&& self.deps_ok()
    }

    /// Every acceptance condition except edge resolvability: a document
    /// satisfying this but not `doc_ok` has a dangling edge as its only
    /// fault.
    pub open spec fn doc_ok_except_links(self) -> bool {
        &&& self.sources_distinct()
        &&& self.sources_ok()
        &&& self.hashes_distinct()
        &&& self.hashes_ok()
        &&& self.deps_distinct()
        &&& forall|i: int|
            0 <= i < self.dependencies@.len() ==> {
                let e = (#[trigger] self.dependencies@[i]).1;
                &&& Self::edges_distinct(e)
                &&& (e.python matches Some(p) ==> self.package_entry_ok(p))
            }
    }
}

/// `pkg` is what the builder makes of the inline package `p` of the
/// dependency keyed `key`.
pub open spec fn package_model_matches(
    pkg: PythonPackage,
    p: PackageEntry,
    doc: LockDocument,
    key: Seq<char>,
) -> bool {
    &&& pkg.name@ == p.name@
    &&& match doc.spec_hashes_index(key) {
        None => pkg.hashes is None,
        Some(hi) => pkg.hashes matches Some(h) && h.pairs() == spec_hash_fold(
            str_views(doc.hashes@[hi].1@),
        ),
    }
    &&& specifier_model_matches(pkg.specifier, p, doc)
}

/// The built specifier corresponds to the one populated field of `p`.
pub open spec fn specifier_model_matches(
    specifier: PythonPackageSpecifier,
    p: PackageEntry,
    doc: LockDocument,
) -> bool {
    if p.version is Some {
        specifier matches PythonPackageSpecifier::Version(v, s) && v@ == p.version->Some_0@
            && match p.source {
            None => s is None,
            Some(sn) => s matches Some(src) && src.name@ == sn@ && exists|si: int|
                0 <= si < doc.sources@.len() && doc.sources@[si].name@ == sn@
                    && source_model_matches(src, doc.sources@[si]),
        }
    } else if p.url is Some {
        specifier matches PythonPackageSpecifier::Url(u, t) && Some(u@) == url_parse(
            p.url->Some_0@,
        ) && t == nvs_or_false(p.no_verify_ssl)
    } else if p.path is Some {
        specifier matches PythonPackageSpecifier::Path(pa) && pa@ == p.path->Some_0@
    } else {
        specifier matches PythonPackageSpecifier::Vcs(u, r) && Some(u@) == url_parse(
            p.vcs->Some_0@,
        ) && r@ == p.rev->Some_0@
    }
}

/// The node at index `i` of the built graph is what the document entry at
/// the same index describes, edges included.
pub open spec fn node_model_matches(deps: Dependencies, doc: LockDocument, i: int) -> bool {
    let key = doc.dependencies@[i].0;
    let ent = doc.dependencies@[i].1;
    let node = deps.nodes@[i];
    &&& node.key@ == key@
    &&& match ent.python {
        None => node.python is None,
        Some(p) => node.python matches Some(pkg) && package_model_matches(pkg, p, doc, key@),
    }
    &&& node.edges@.len() == ent.dependencies@.len()
    &&& forall|k: int|
        0 <= k < ent.dependencies@.len() ==> {
            let edge = #[trigger] node.edges@[k];
            &&& edge.target < deps.nodes@.len()
            &&& deps.nodes@[edge.target as int].key@ == ent.dependencies@[k].0@
            &&& match ent.dependencies@[k].1 {
                None => edge.marker is None,
                Some(m) => edge.marker matches Some(m2) && marker_conditions(m2)
                    == marker_conditions(m),
            }
        }
}

/// `s` is the source table built from the document: same entries, in order.
pub open spec fn sources_table_matches(s: Sources, doc: LockDocument) -> bool {
    &&& s.items@.len() == doc.sources@.len()
    &&& forall|i: int|
        0 <= i < doc.sources@.len() ==> source_model_matches(
            s.items@[i],
            #[trigger] doc.sources@[i],
        )
}

/// Check the whole hashes table: unique keys, every string with a `:`.
fn validate_hashes(doc: &LockDocument) -> (r: Result<(), ParseError>)
    ensures
        match r {
            Ok(()) => doc.hashes_distinct() && doc.hashes_ok(),
            Err(e) => !(doc.hashes_distinct() && doc.hashes_ok()) && match e {
                ParseError::DuplicateField(k) => exists|i: int, j: int|
                    0 <= i < j < doc.hashes@.len() && doc.hashes@[i].0@ == doc.hashes@[j].0@
                        && k@ == doc.hashes@[i].0@,
                ParseError::InvalidHash(s) => exists|i: int, j: int|
                    0 <= i < doc.hashes@.len() && 0 <= j < doc.hashes@[i].1@.len() && s@
                        == doc.hashes@[i].1@[j]@ && !has_char(s@, ':'),
                _ => false,
            },
        },
{
    let n = doc.hashes.len();
    let mut i: usize = 0;
    while i < n
        invariant
            i <= n,
            n == doc.hashes@.len(),
            forall|a: int, b: int|
                0 <= a < b < i ==> doc.hashes@[a].0@ != doc.hashes@[b].0@,
            forall|a: int, b: int|
                0 <= a < i && 0 <= b < doc.hashes@[a].1@.len() ==> has_char(
                    #[trigger] doc.hashes@[a].1@[b]@,
                    ':',
                ),
        decreases n - i,
    {
        let mut j: usize = 0;
        while j < i
            invariant
                j <= i,
                i < n,
                n == doc.hashes@.len(),
                forall|b: int| 0 <= b < j ==> doc.hashes@[b].0@ != doc.hashes@[i as int].0@,
            decreases i - j,
        {
            if str_eq(doc.hashes[j].0.as_str(), doc.hashes[i].0.as_str()) {
                return Err(ParseError::DuplicateField(doc.hashes[j].0.clone()));
            }
            j = j + 1;
        }
        let list = &doc.hashes[i].1;
        let m = list.len();
        let mut k: usize = 0;
        while k < m
            invariant
                k <= m,
                i < n,
                n == doc.hashes@.len(),
                m == doc.hashes@[i as int].1@.len(),
                forall|b: int| 0 <= b < k ==> has_char(#[trigger] doc.hashes@[i as int].1@[b]@, ':'),
            decreases m - k,
        {
            if find_char(doc.hashes[i].1[k].as_str(), ':').is_none() {
                return Err(ParseError::InvalidHash(doc.hashes[i].1[k].clone()));
            }
            k = k + 1;
        }
        i = i + 1;
    }
    Ok(())
}

/// Parse the hashes recorded for `key` into a deduplicated set, or `None`
/// when the table has no entry for it.
fn hashes_for(doc: &LockDocument, key: &str) -> (r: Option<Hashes>)
    requires
        doc.hashes_distinct(),
        doc.hashes_ok(),
    ensures
        match doc.spec_hashes_index(key@) {
            None => r is None,
            Some(hi) => r matches Some(h) && h.wf() && h.pairs() == spec_hash_fold(
                str_views(doc.hashes@[hi].1@),
            ),
        },
{
    let n = doc.hashes.len();
    let mut i: usize = 0;
    while i < n
        invariant
            i <= n,
            n == doc.hashes@.len(),
            doc.hashes_distinct(),
            doc.hashes_ok(),
            forall|a: int| 0 <= a < i ==> doc.hashes@[a].0@ != key@,
        decreases n - i,
    {
        if str_eq(doc.hashes[i].0.as_str(), key) {
            proof {
                assert(doc.hashes@[i as int].0@ == key@);
                let ci = choose|ci: int| 0 <= ci < doc.hashes@.len() && doc.hashes@[ci].0@ == key@;
                if ci < i as int {
                    assert(doc.hashes@[ci].0@ != doc.hashes@[i as int].0@);
                }
                if (i as int) < ci {
                    assert(doc.hashes@[i as int].0@ != doc.hashes@[ci].0@);
                }
                assert(doc.spec_hashes_index(key@) == Some(i as int));
            }
            let list = &doc.hashes[i].1;
            let ghost lv = str_views(doc.hashes@[i as int].1@);
            let m = list.len();
            let mut hs = Hashes::new();
            let mut k: usize = 0;
            proof {
                assert(lv.take(0) =~= Seq::<Seq<char>>::empty());
                assert(hs.pairs() =~= Seq::<(Seq<char>, Seq<char>)>::empty());
            }
            while k < m
                invariant
                    k <= m,
                    i < n,
                    n == doc.hashes@.len(),
                    doc.hashes_ok(),
                    m == doc.hashes@[i as int].1@.len(),
                    lv == str_views(doc.hashes@[i as int].1@),
                    hs.wf(),
                    hs.pairs() == spec_hash_fold(lv.take(k as int)),
                decreases m - k,
            {
                match crate::hashes::Hash::parse(doc.hashes[i].1[k].as_str()) {
                    None => {
                        proof {
                            assert(has_char(doc.hashes@[i as int].1@[k as int]@, ':'));
                            assert(false);
                        }
                        return None;
                    },
                    Some(h) => {
                        let ghost pair = (h.algorithm@, h.digest@);
                        proof {
                            assert(lv[k as int] == doc.hashes@[i as int].1@[k as int]@);
                            assert(spec_parse_hash(lv[k as int]) == Some(pair));
                            assert(hs.spec_contains(h.algorithm@, h.digest@) == hs.pairs().contains(
                                pair,
                            )) by {
                                if hs.spec_contains(h.algorithm@, h.digest@) {
                                    let w = choose|w: int|
                                        0 <= w < hs.items@.len() && hs.items@[w].algorithm@
                                            == h.algorithm@ && hs.items@[w].digest@ == h.digest@;
                                    assert(hs.pairs()[w] == pair);
                                }
                                if hs.pairs().contains(pair) {
                                    let w = choose|w: int|
                                        0 <= w < hs.pairs().len() && hs.pairs()[w] == pair;
                                    assert(hs.items@[w].algorithm@ == h.algorithm@
                                        && hs.items@[w].digest@ == h.digest@);
                                }
                            }
                        }
                        let ghost before = hs;
                        hs.add(h);
                        proof {
                            assert(lv.take(k + 1 as int).drop_last() =~= lv.take(k as int));
                            assert(lv.take(k + 1 as int).last() == lv[k as int]);
                            if before.spec_contains(h.algorithm@, h.digest@) {
                                assert(hs.items == before.items);
                                assert(hs.pairs() == before.pairs());
                            } else {
                                assert(hs.items@ == before.items@.push(h));
                                assert(hs.pairs() =~= before.pairs().push(pair));
                            }
                            assert(hs.pairs() == spec_hash_fold(lv.take(k + 1 as int)));
                        }
                    },
                }
                k = k + 1;
            }
            proof {
                assert(lv.take(m as int) =~= lv);
            }
            return Some(hs);
        }
        i = i + 1;
    }
    proof {
        if doc.spec_hashes_index(key@) is Some {
            let ci = choose|ci: int| 0 <= ci < doc.hashes@.len() && doc.hashes@[ci].0@ == key@;
            assert(doc.hashes@[ci].0@ != key@);
        }
    }
    None
}

/// Build the source table: every entry's URL must parse, and no name may
/// repeat.
fn build_sources(doc: &LockDocument) -> (r: Result<Sources, ParseError>)
    ensures
        match r {
            Ok(s) => doc.sources_distinct() && doc.sources_ok() && s.wf()
                && sources_table_matches(s, *doc),
            Err(e) => !(doc.sources_distinct() && doc.sources_ok()) && match e {
                ParseError::DuplicateField(k) => exists|i: int, j: int|
                    0 <= i < j < doc.sources@.len() && doc.sources@[i].name@
                        == doc.sources@[j].name@ && k@ == doc.sources@[i].name@,
                ParseError::InvalidUrl(u) => exists|i: int|
                    0 <= i < doc.sources@.len() && u@ == doc.sources@[i].url@ && url_parse(u@)
                        is None,
                _ => false,
            },
        },
{
    let n = doc.sources.len();
    let mut table = Sources::new();
    let mut i: usize = 0;
    while i < n
        invariant
            i <= n,
            n == doc.sources@.len(),
            table.wf(),
            table.items@.len() == i,
            forall|a: int|
                0 <= a < i ==> source_model_matches(table.items@[a], #[trigger] doc.sources@[a]),
        decreases n - i,
    {
        let e = &doc.sources[i];
        match table.get(e.name.as_str()) {
            Some(_) => {
                proof {
                    let w = choose|w: int|
                        0 <= w < table.items@.len() && table.items@[w].name@ == e.name@;
                    assert(doc.sources@[w].name@ == doc.sources@[i as int].name@);
                }
                return Err(ParseError::DuplicateField(e.name.clone()));
            },
            None => {},
        }
        match url_check(e.url.as_str()) {
            None => {
                return Err(ParseError::InvalidUrl(e.url.clone()));
            },
            Some(norm) => {
                let nvs = match e.no_verify_ssl {
                    Some(b) => b,
                    None => false,
                };
                let source = Source::new(e.name.as_str(), norm.as_str(), nvs);
                let ghost gsource = source;
                let ghost before = table;
                proof {
                    assert(source.wf());
                }
                let added = table.add(source);
                proof {
                    assert(added is None);
                    assert(table.items@ == before.items@.push(gsource));
                    assert forall|a: int| 0 <= a < i + 1 implies source_model_matches(
                        table.items@[a],
                        #[trigger] doc.sources@[a],
                    ) by {
                        if a < i as int {
                            assert(before.items@.push(gsource)[a] == before.items@[a]);
                            assert(source_model_matches(before.items@[a], doc.sources@[a]));
                        } else {
                            assert(before.items@.push(gsource)[a] == gsource);
                        }
                    }
                }
            },
        }
        i = i + 1;
    }
    proof {
        assert forall|a: int, b: int|
            0 <= a < b < doc.sources@.len() implies doc.sources@[a].name@
            != doc.sources@[b].name@ by {
            assert(table.items@[a].name@ == doc.sources@[a].name@);
            assert(table.items@[b].name@ == doc.sources@[b].name@);
        }
        assert forall|a: int|
            0 <= a < doc.sources@.len() implies url_parse(#[trigger] doc.sources@[a].url@)
            is Some by {
            assert(source_model_matches(table.items@[a], doc.sources@[a]));
        }
    }
    Ok(table)
}

/// Resolve the inline package `p` of the dependency keyed `key`: exactly one
/// specifier field, a resolvable source name, a revision for VCS references,
/// parseable URLs.
fn resolve_package(
    doc: &LockDocument,
    table: &Sources,
    p: &PackageEntry,
    key: &str,
    hashes: Option<Hashes>,
) -> (r: Result<PythonPackage, ParseError>)
    requires
        table.wf(),
        sources_table_matches(*table, *doc),
    ensures
        match r {
            Ok(pkg) => {
                &&& doc.package_entry_ok(*p)
                &&& pkg.name@ == p.name@
                &&& pkg.hashes == hashes
                &&& specifier_model_matches(pkg.specifier, *p, *doc)
                &&& pkg.urls_ok()
            },
            Err(e) => !doc.package_entry_ok(*p) && match e {
                ParseError::MissingField(f) => (f@ == "rev"@ && p.vcs is Some && p.rev is None) || (
                f@ == "no_verify_ssl"@ && p.url is Some && p.no_verify_ssl is None) || (f@
                    == "version or url"@ && specifier_field_count(*p) == 0),
                ParseError::RedundantPackageFields(k) => k@ == key@ && specifier_field_count(*p)
                    > 1,
                ParseError::UnresolvableSourceName(sn) => p.version is Some && (p.source matches Some(s2) && s2@ == sn@) && !doc.spec_has_source(sn@),
                ParseError::InvalidUrl(u) => url_parse(u@) is None && ((p.url matches Some(u2)
                    && u2@ == u@) || (p.vcs matches Some(u3) && u3@ == u@)),
                _ => false,
            },
        },
{
    let mut count: usize = 0;
    if p.version.is_some() {
        count = count + 1;
    }
    if p.url.is_some() {
        count = count + 1;
    }
    if p.path.is_some() {
        count = count + 1;
    }
    if p.vcs.is_some() {
        count = count + 1;
    }
    proof {
        assert(count as int == specifier_field_count(*p));
    }
    if count == 0 {
        return Err(ParseError::MissingField("version or url".to_owned()));
    }
    if count > 1 {
        return Err(ParseError::RedundantPackageFields(key.to_owned()));
    }
    match &p.version {
        Some(v) => {
            let source = match &p.source {
                None => None,
                Some(sn) => match table.get(sn.as_str()) {
                    None => {
                        proof {
                            if doc.spec_has_source(sn@) {
                                let w = choose|w: int|
                                    0 <= w < doc.sources@.len() && doc.sources@[w].name@ == sn@;
                                assert(source_model_matches(table.items@[w], doc.sources@[w]));
                                assert(table.items@[w].name@ == sn@);
                            }
                        }
                        return Err(ParseError::UnresolvableSourceName(sn.clone()));
                    },
                    Some(src) => {
                        let copy = src.duplicate();
                        proof {
                            let w = choose|w: int|
                                0 <= w < table.items@.len() && table.items@[w] == *src && src.name@
                                    == sn@;
                            assert(source_model_matches(table.items@[w], doc.sources@[w]));
                            assert(doc.sources@[w].name@ == sn@);
                            assert(source_model_matches(copy, doc.sources@[w]));
                            assert(table.items@[w].wf());
                            assert(copy.wf());
                        }
                        Some(copy)
                    },
                },
            };
            Ok(PythonPackage::new(
                p.name.as_str(),
                PythonPackageSpecifier::Version(v.clone(), source),
                hashes,
            ))
        },
        None => match &p.url {
            Some(u) => {
                let trust = match p.no_verify_ssl {
                    Some(b) => b,
                    None => {
                        return Err(ParseError::MissingField("no_verify_ssl".to_owned()));
                    },
                };
                match url_check(u.as_str()) {
                    None => Err(ParseError::InvalidUrl(u.clone())),
                    Some(norm) => Ok(PythonPackage::new(
                        p.name.as_str(),
                        PythonPackageSpecifier::Url(norm, trust),
                        hashes,
                    )),
                }
            },
            None => match &p.path {
                Some(pa) => Ok(PythonPackage::new(
                    p.name.as_str(),
                    PythonPackageSpecifier::Path(pa.clone()),
                    hashes,
                )),
                None => match &p.vcs {
                    Some(vu) => {
                        let rev = match &p.rev {
                            Some(rv) => rv.clone(),
                            None => {
                                return Err(ParseError::MissingField("rev".to_owned()));
                            },
                        };
                        match url_check(vu.as_str()) {
                            None => Err(ParseError::InvalidUrl(vu.clone())),
                            Some(norm) => Ok(PythonPackage::new(
                                p.name.as_str(),
                                PythonPackageSpecifier::Vcs(norm, rev),
                                hashes,
                            )),
                        }
                    },
                    None => {
                        proof {
                            assert(false);
                        }
                        Err(ParseError::MissingField("version or url".to_owned()))
                    },
                },
            },
        },
    }
}

/// The parsed document: the source table and the linked dependency graph.
pub struct Lock {
    pub sources: Sources,
    pub dependencies: Dependencies,
}

impl Lock {
    /// Everything `from_document` guarantees of a lock it returns.
    pub open spec fn wf(self) -> bool {
        &&& self.sources.wf()
        &&& self.dependencies.graph_wf()
        &&& forall|i: int|
            0 <= i < self.dependencies.nodes@.len() ==> {
                match (#[trigger] self.dependencies.nodes@[i]).python {
                    Some(pkg) => pkg.urls_ok() && pkg.hashes_wf(),
                    None => true,
                }
            }
    }

    pub fn from(sources: Sources, dependencies: Dependencies) -> (r: Lock)
        ensures
            r.sources == sources,
            r.dependencies == dependencies,
    {
        Lock { sources, dependencies }
    }

    pub fn sources(&self) -> (r: &Sources)
        ensures
            r == &self.sources,
    {
        &self.sources
    }

    pub fn dependencies(&self) -> (r: &Dependencies)
        ensures
            r == &self.dependencies,
    {
        &self.dependencies
    }
}

/// The package payload of `node` is what `ent` describes.
pub open spec fn node_python_matches(
    node: crate::deps::Dependency,
    ent: DependencyEntry,
    doc: LockDocument,
    key: Seq<char>,
) -> bool {
    match ent.python {
        None => node.python is None,
        Some(p) => node.python matches Some(pkg) && package_model_matches(pkg, p, doc, key),
    }
}

/// The package payload of `node` carries canonical URLs and deduplicated
/// hashes.
pub open spec fn node_python_wf(node: crate::deps::Dependency) -> bool {
    match node.python {
        Some(pkg) => pkg.urls_ok() && pkg.hashes_wf(),
        None => true,
    }
}

/// Edge `k` of node `i` is what edge `k` of `ent` describes.
pub open spec fn edge_model_matches(
    deps: Dependencies,
    ent: DependencyEntry,
    i: int,
    k: int,
) -> bool {
    let edge = deps.nodes@[i].edges@[k];
    &&& edge.target < deps.nodes@.len()
    &&& deps.nodes@[edge.target as int].key@ == ent.dependencies@[k].0@
    &&& match ent.dependencies@[k].1 {
        None => edge.marker is None,
        Some(m) => edge.marker matches Some(m2) && marker_conditions(m2) == marker_conditions(m),
    }
}

/// A witness in the document for the returned error.
pub open spec fn error_witnessed(e: ParseError, doc: LockDocument) -> bool {
    match e {
        ParseError::DuplicateField(k) => {
            ||| exists|i: int, j: int|
                0 <= i < j < doc.sources@.len() && doc.sources@[i].name@ == doc.sources@[j].name@
                    && k@ == doc.sources@[i].name@
            ||| exists|i: int, j: int|
                0 <= i < j < doc.hashes@.len() && doc.hashes@[i].0@ == doc.hashes@[j].0@ && k@
                    == doc.hashes@[i].0@
            ||| exists|i: int, j: int|
                0 <= i < j < doc.dependencies@.len() && doc.dependencies@[i].0@
                    == doc.dependencies@[j].0@ && k@ == doc.dependencies@[i].0@
            ||| exists|i: int, x: int, y: int|
                0 <= i < doc.dependencies@.len() && 0 <= x < y
                    < doc.dependencies@[i].1.dependencies@.len()
                    && doc.dependencies@[i].1.dependencies@[x].0@
                    == doc.dependencies@[i].1.dependencies@[y].0@ && k@
                    == doc.dependencies@[i].1.dependencies@[x].0@
        },
        ParseError::InvalidHash(s) => exists|i: int, j: int|
            0 <= i < doc.hashes@.len() && 0 <= j < doc.hashes@[i].1@.len() && s@
                == doc.hashes@[i].1@[j]@ && !has_char(s@, ':'),
        ParseError::InvalidUrl(u) => url_parse(u@) is None && {
            ||| exists|i: int| 0 <= i < doc.sources@.len() && u@ == doc.sources@[i].url@
            ||| exists|i: int|
                0 <= i < doc.dependencies@.len() && ((#[trigger] doc.dependencies@[i]).1.python
                    matches Some(p) && ((p.url matches Some(u2) && u2@ == u@) || (p.vcs
                    matches Some(u3) && u3@ == u@)))
        },
        ParseError::MissingField(f) => exists|i: int|
            0 <= i < doc.dependencies@.len() && ((#[trigger] doc.dependencies@[i]).1.python
                matches Some(p) && ((f@ == "rev"@ && p.vcs is Some && p.rev is None) || (f@
                == "no_verify_ssl"@ && p.url is Some && p.no_verify_ssl is None) || (f@
                == "version or url"@ && specifier_field_count(p) == 0))),
        ParseError::RedundantPackageFields(k) => exists|i: int|
            0 <= i < doc.dependencies@.len() && (#[trigger] doc.dependencies@[i]).0@ == k@ && (
            doc.dependencies@[i].1.python matches Some(p) && specifier_field_count(p) > 1),
        ParseError::UnresolvableSourceName(sn) => !doc.spec_has_source(sn@) && exists|i: int|
            0 <= i < doc.dependencies@.len() && ((#[trigger] doc.dependencies@[i]).1.python
                matches Some(p) && p.version is Some && (p.source matches Some(s2) && s2@ == sn@)),
        ParseError::UnresolvableDependencyKey(k) => !doc.spec_has_dep(k@) && exists|i: int, j: int|
            0 <= i < doc.dependencies@.len() && 0 <= j < doc.dependencies@[i].1.dependencies@.len()
                && doc.dependencies@[i].1.dependencies@[j].0@ == k@,
    }
}

impl Lock {
    /// Parse a lock document: build the source table, validate the hashes
    /// table, materialize every dependency node, then link every edge.  The
    /// document is accepted exactly when every structural condition of
    /// `doc_ok` holds; otherwise the first fault found, in that order, is
    /// returned and no partial lock escapes.
    pub fn from_document(doc: &LockDocument) -> (r: Result<Lock, ParseError>)
        ensures
            (r is Ok) == doc.doc_ok(),
            r matches Ok(lock) ==> {
                &&& lock.wf()
                &&& sources_table_matches(lock.sources, *doc)
                &&& lock.dependencies.nodes@.len() == doc.dependencies@.len()
                &&& forall|i: int|
                    0 <= i < doc.dependencies@.len() ==> node_model_matches(
                        lock.dependencies,
                        *doc,
                        i,
                    )
            },
            r matches Err(e) ==> error_witnessed(e, *doc),
            doc.doc_ok_except_links() && !doc.doc_ok() ==> (r matches Err(
                ParseError::UnresolvableDependencyKey(k2),
            ) && !doc.spec_has_dep(k2@)),
    {
        let table = match build_sources(doc) {
            Ok(t) => t,
            Err(e) => {
                return Err(e);
            },
        };
        match validate_hashes(doc) {
            Ok(()) => {},
            Err(e) => {
                return Err(e);
            },
        }
        let n = doc.dependencies.len();

        // Phase 1: materialize every node, resolving packages, but link no
        // edge yet.
        let mut deps = Dependencies::new();
        let mut i: usize = 0;
        while i < n
            invariant
                i <= n,
                n == doc.dependencies@.len(),
                table.wf(),
                sources_table_matches(table, *doc),
                doc.sources_distinct(),
                doc.sources_ok(),
                doc.hashes_distinct(),
                doc.hashes_ok(),
                deps.graph_wf(),
                deps.nodes@.len() == i,
                forall|a: int|
                    0 <= a < i ==> (#[trigger] deps.nodes@[a]).key@ == doc.dependencies@[a].0@,
                forall|a: int|
                    0 <= a < i ==> node_python_matches(
                        #[trigger] deps.nodes@[a],
                        doc.dependencies@[a].1,
                        *doc,
                        doc.dependencies@[a].0@,
                    ),
                forall|a: int| 0 <= a < i ==> node_python_wf(#[trigger] deps.nodes@[a]),
                forall|a: int| 0 <= a < i ==> (#[trigger] deps.nodes@[a]).edges@.len() == 0,
                forall|a: int|
                    0 <= a < i ==> ((#[trigger] doc.dependencies@[a]).1.python matches Some(p)
                        ==> doc.package_entry_ok(p)),
            decreases n - i,
        {
            let key = &doc.dependencies[i].0;
            let ent = &doc.dependencies[i].1;
            match deps.index_of(key.as_str()) {
                Some(w) => {
                    proof {
                        assert(deps.nodes@[w as int].key@ == doc.dependencies@[w as int].0@);
                        assert(doc.dependencies@[w as int].0@ == doc.dependencies@[i as int].0@);
                        if doc.deps_distinct() {
                            assert(false);
                        }
                    }
                    return Err(ParseError::DuplicateField(key.clone()));
                },
                None => {},
            }
            let python = match &ent.python {
                None => None,
                Some(p) => {
                    let hs = hashes_for(doc, key.as_str());
                    let ghost ghs = hs;
                    match resolve_package(doc, &table, p, key.as_str(), hs) {
                        Ok(pkg) => Some(pkg),
                        Err(e) => {
                            proof {
                                if doc.deps_ok() {
                                    assert((#[trigger] doc.dependencies@[i as int]).1.python
                                        matches Some(q) && doc.package_entry_ok(q));
                                    assert(false);
                                }
                                if doc.doc_ok_except_links() {
                                    assert((#[trigger] doc.dependencies@[i as int]).1.python
                                        matches Some(q) && doc.package_entry_ok(q));
                                    assert(false);
                                }
                            }
                            return Err(e);
                        },
                    }
                },
            };
            let ghost gpython = python;
            let ghost before = deps;
            let added = deps.add_dependency(key.as_str(), python);
            proof {
                assert(added is None);
                assert(deps.nodes@.drop_last() == before.nodes@);
                assert forall|a: int| 0 <= a < i implies deps.nodes@[a] == before.nodes@[a] by {
                    assert(deps.nodes@.drop_last()[a] == deps.nodes@[a]);
                }
                assert(deps.nodes@[i as int] == deps.nodes@.last());
                assert(deps.nodes@[i as int].key@ == doc.dependencies@[i as int].0@);
                assert(deps.nodes@[i as int].python == gpython);
                assert(node_python_matches(
                    deps.nodes@[i as int],
                    doc.dependencies@[i as int].1,
                    *doc,
                    doc.dependencies@[i as int].0@,
                ));
                assert(node_python_wf(deps.nodes@[i as int]));
            }
            i = i + 1;
        }

        // Phase 2: link every edge against the completed node table.
        let mut i2: usize = 0;
        while i2 < n
            invariant
                i2 <= n,
                n == doc.dependencies@.len(),
                table.wf(),
                sources_table_matches(table, *doc),
                doc.sources_distinct(),
                doc.sources_ok(),
                doc.hashes_distinct(),
                doc.hashes_ok(),
                deps.graph_wf(),
                deps.nodes@.len() == n,
                forall|a: int|
                    0 <= a < n ==> (#[trigger] deps.nodes@[a]).key@ == doc.dependencies@[a].0@,
                forall|a: int|
                    0 <= a < n ==> node_python_matches(
                        #[trigger] deps.nodes@[a],
                        doc.dependencies@[a].1,
                        *doc,
                        doc.dependencies@[a].0@,
                    ),
                forall|a: int| 0 <= a < n ==> node_python_wf(#[trigger] deps.nodes@[a]),
                forall|a: int|
                    0 <= a < n ==> ((#[trigger] doc.dependencies@[a]).1.python matches Some(p)
                        ==> doc.package_entry_ok(p)),
                forall|a: int|
                    i2 <= a < n ==> (#[trigger] deps.nodes@[a]).edges@.len() == 0,
                forall|a: int|
                    0 <= a < i2 ==> (#[trigger] deps.nodes@[a]).edges@.len()
                        == doc.dependencies@[a].1.dependencies@.len(),
                forall|a: int, k: int|
                    0 <= a < i2 && 0 <= k < doc.dependencies@[a].1.dependencies@.len()
                        ==> #[trigger] edge_model_matches(deps, doc.dependencies@[a].1, a, k),
                forall|a: int|
                    0 <= a < i2 ==> LockDocument::edges_distinct(
                        (#[trigger] doc.dependencies@[a]).1,
                    ),
            decreases n - i2,
        {
            let key = &doc.dependencies[i2].0;
            let ent = &doc.dependencies[i2].1;
            let m = ent.dependencies.len();
            let mut k: usize = 0;
            while k < m
                invariant
                    *key == doc.dependencies@[i2 as int].0,
                    *ent == doc.dependencies@[i2 as int].1,
                    k <= m,
                    i2 < n,
                    n == doc.dependencies@.len(),
                    m == doc.dependencies@[i2 as int].1.dependencies@.len(),
                    deps.graph_wf(),
                    deps.nodes@.len() == n,
                    forall|a: int|
                        0 <= a < n ==> (#[trigger] deps.nodes@[a]).key@ == doc.dependencies@[a].0@,
                    forall|a: int|
                        0 <= a < n ==> node_python_matches(
                            #[trigger] deps.nodes@[a],
                            doc.dependencies@[a].1,
                            *doc,
                            doc.dependencies@[a].0@,
                        ),
                    forall|a: int| 0 <= a < n ==> node_python_wf(#[trigger] deps.nodes@[a]),
                    forall|a: int|
                        0 <= a < n ==> ((#[trigger] doc.dependencies@[a]).1.python matches Some(p)
                            ==> doc.package_entry_ok(p)),
                    forall|a: int|
                        i2 < a < n ==> (#[trigger] deps.nodes@[a]).edges@.len() == 0,
                    deps.nodes@[i2 as int].edges@.len() == k,
                    forall|a: int|
                        0 <= a < i2 ==> (#[trigger] deps.nodes@[a]).edges@.len()
                            == doc.dependencies@[a].1.dependencies@.len(),
                    forall|a: int, x: int|
                        0 <= a < i2 && 0 <= x < doc.dependencies@[a].1.dependencies@.len()
                            ==> #[trigger] edge_model_matches(deps, doc.dependencies@[a].1, a, x),
                    forall|a: int|
                        0 <= a < i2 ==> LockDocument::edges_distinct(
                            (#[trigger] doc.dependencies@[a]).1,
                        ),
                    forall|x: int|
                        0 <= x < k ==> edge_model_matches(
                            deps,
                            doc.dependencies@[i2 as int].1,
                            i2 as int,
                            x,
                        ),
                    forall|x: int, y: int|
                        0 <= x < y < k ==> doc.dependencies@[i2 as int].1.dependencies@[x].0@
                            != doc.dependencies@[i2 as int].1.dependencies@[y].0@,
                decreases m - k,
            {
                let child = &ent.dependencies[k].0;
                let mut j: usize = 0;
                while j < k
                    invariant
                        j <= k,
                        k < m,
                        i2 < n,
                        n == doc.dependencies@.len(),
                        m == doc.dependencies@[i2 as int].1.dependencies@.len(),
                        *ent == doc.dependencies@[i2 as int].1,
                        *child == doc.dependencies@[i2 as int].1.dependencies@[k as int].0,
                        forall|x: int|
                            0 <= x < j ==> doc.dependencies@[i2 as int].1.dependencies@[x].0@
                                != doc.dependencies@[i2 as int].1.dependencies@[k as int].0@,
                    decreases k - j,
                {
                    if str_eq(ent.dependencies[j].0.as_str(), child.as_str()) {
                        proof {
                            if doc.deps_ok() {
                                assert(LockDocument::edges_distinct(
                                    (#[trigger] doc.dependencies@[i2 as int]).1,
                                ));
                                assert(false);
                            }
                            if doc.doc_ok_except_links() {
                                assert(LockDocument::edges_distinct(
                                    (#[trigger] doc.dependencies@[i2 as int]).1,
                                ));
                                assert(false);
                            }
                        }
                        return Err(ParseError::DuplicateField(child.clone()));
                    }
                    j = j + 1;
                }
                let marker = match &ent.dependencies[k].1 {
                    None => None,
                    Some(mk) => Some(mk.duplicate()),
                };
                let ghost gmarker = marker;
                let ghost before = deps;
                match deps.add_dependence(key.as_str(), child.as_str(), marker) {
                    Ok(()) => {
                        proof {
                            let (wi, wj) = choose|wi: int, wj: int|
                                {
                                    &&& 0 <= wi < before.nodes@.len()
                                    &&& 0 <= wj < before.nodes@.len()
                                    &&& before.nodes@[wi].key@ == child@
                                    &&& before.nodes@[wj].key@ == key@
                                    &&& deps.nodes@ == before.nodes@.update(
                                        wj,
                                        crate::deps::Dependency {
                                            key: before.nodes@[wj].key,
                                            python: before.nodes@[wj].python,
                                            edges: deps.nodes@[wj].edges,
                                        },
                                    )
                                    &&& deps.nodes@[wj].edges@.len() == before.nodes@[wj].edges@.len() + 1
                                    &&& deps.nodes@[wj].edges@.drop_last()
                                        == before.nodes@[wj].edges@
                                    &&& deps.nodes@[wj].edges@.last().target == wi
                                    &&& deps.nodes@[wj].edges@.last().marker == gmarker
                                };
                            if wj != i2 as int {
                                assert(before.nodes@[wj].key@ != before.nodes@[i2 as int].key@);
                                assert(false);
                            }
                            assert forall|a: int|
                                0 <= a < n && a != i2 as int implies deps.nodes@[a]
                                == before.nodes@[a] by {
                                assert(before.nodes@.update(
                                    wj,
                                    crate::deps::Dependency {
                                        key: before.nodes@[wj].key,
                                        python: before.nodes@[wj].python,
                                        edges: deps.nodes@[wj].edges,
                                    },
                                )[a] == before.nodes@[a]);
                            }
                            assert(deps.nodes@[i2 as int].key == before.nodes@[i2 as int].key);
                            assert(deps.nodes@[i2 as int].python == before.nodes@[i2 as int].python);
                            assert forall|x: int| 0 <= x < k + 1 implies edge_model_matches(
                                deps,
                                doc.dependencies@[i2 as int].1,
                                i2 as int,
                                x,
                            ) by {
                                if x < k {
                                    assert(deps.nodes@[i2 as int].edges@.drop_last()[x]
                                        == deps.nodes@[i2 as int].edges@[x]);
                                    assert(edge_model_matches(
                                        before,
                                        doc.dependencies@[i2 as int].1,
                                        i2 as int,
                                        x,
                                    ));
                                } else {
                                    assert(deps.nodes@[i2 as int].edges@.last().target == wi);
                                    assert(deps.nodes@[wi].key@ == child@);
                                }
                            }
                            assert forall|a: int, x: int|
                                0 <= a < i2 && 0 <= x
                                    < doc.dependencies@[a].1.dependencies@.len() implies #[trigger] edge_model_matches(
                                deps,
                                doc.dependencies@[a].1,
                                a,
                                x,
                            ) by {
                                assert(edge_model_matches(
                                    before,
                                    doc.dependencies@[a].1,
                                    a,
                                    x,
                                ));
                                assert(deps.nodes@[a] == before.nodes@[a]);
                                let t = before.nodes@[a].edges@[x].target as int;
                                assert(deps.nodes@[t].key == before.nodes@[t].key);
                            }
                        }
                    },
                    Err(missing) => {
                        proof {
                            assert(deps.spec_has_key(key@)) by {
                                assert(deps.nodes@[i2 as int].key@ == key@);
                            }
                            assert(missing@ == child@ && !deps.spec_has_key(child@));
                            if doc.spec_has_dep(child@) {
                                let w = choose|w: int|
                                    0 <= w < doc.dependencies@.len() && doc.dependencies@[w].0@
                                        == child@;
                                assert(deps.nodes@[w].key@ == child@);
                                assert(false);
                            }
                            if doc.deps_ok() {
                                assert(doc.spec_has_dep(
                                    (#[trigger] doc.dependencies@[i2 as int]).1.dependencies@[k as int].0@,
                                ));
                                assert(false);
                            }
                        }
                        return Err(ParseError::UnresolvableDependencyKey(missing));
                    },
                }
                k = k + 1;
            }
            i2 = i2 + 1;
        }
        proof {
            assert forall|a: int, b: int|
                0 <= a < b < doc.dependencies@.len() implies doc.dependencies@[a].0@
                != doc.dependencies@[b].0@ by {
                assert(deps.nodes@[a].key@ == doc.dependencies@[a].0@);
                assert(deps.nodes@[b].key@ == doc.dependencies@[b].0@);
            }
            assert forall|a: int| 0 <= a < doc.dependencies@.len() implies {
                let e = (#[trigger] doc.dependencies@[a]).1;
                &&& LockDocument::edges_distinct(e)
                &&& (e.python matches Some(p) ==> doc.package_entry_ok(p))
                &&& forall|k: int|
                    0 <= k < e.dependencies@.len() ==> doc.spec_has_dep(
                        #[trigger] e.dependencies@[k].0@,
                    )
            } by {
                let e = doc.dependencies@[a].1;
                assert forall|x: int| 0 <= x < e.dependencies@.len() implies doc.spec_has_dep(
                    #[trigger] e.dependencies@[x].0@,
                ) by {
                    assert(edge_model_matches(deps, e, a, x));
                    let t = deps.nodes@[a].edges@[x].target as int;
                    assert(deps.nodes@[t].key@ == e.dependencies@[x].0@);
                    assert(doc.dependencies@[t].0@ == e.dependencies@[x].0@);
                }
            }
            assert(doc.doc_ok());
            assert forall|a: int| 0 <= a < doc.dependencies@.len() implies node_model_matches(
                deps,
                *doc,
                a,
            ) by {
                assert forall|x: int|
                    0 <= x < doc.dependencies@[a].1.dependencies@.len() implies {
                    let edge = #[trigger] deps.nodes@[a].edges@[x];
                    &&& edge.target < deps.nodes@.len()
                    &&& deps.nodes@[edge.target as int].key@
                        == doc.dependencies@[a].1.dependencies@[x].0@
                    &&& match doc.dependencies@[a].1.dependencies@[x].1 {
                        None => edge.marker is None,
                        Some(m) => edge.marker matches Some(m2) && marker_conditions(m2)
                            == marker_conditions(m),
                    }
                } by {
                    assert(edge_model_matches(deps, doc.dependencies@[a].1, a, x));
                }
            }
        }
        Ok(Lock { sources: table, dependencies: deps })
    }
}

/// Graph edge integrity: in a well-formed lock no edge dangles — every
/// edge's target is a node of the table, and that node's key is a key the
/// table holds.
pub proof fn lemma_edge_integrity(lock: Lock, i: int, k: int)
    requires
        lock.wf(),
        0 <= i < lock.dependencies.nodes@.len(),
        0 <= k < lock.dependencies.nodes@[i].edges@.len(),
    ensures
        lock.dependencies.nodes@[i].edges@[k].target < lock.dependencies.nodes@.len(),
        lock.dependencies.spec_has_key(
            lock.dependencies.nodes@[lock.dependencies.nodes@[i].edges@[k].target as int].key@,
        ),
{
    let t = lock.dependencies.nodes@[i].edges@[k].target as int;
    assert(lock.dependencies.nodes@[i].edges@[k].target < lock.dependencies.nodes@.len());
    assert(lock.dependencies.nodes@[t].key@ == lock.dependencies.nodes@[t].key@);
}

} // verus!
