//! The dependency graph: named nodes with optional package payloads, and
//! marker-guarded edges kept as indexes into one arena, so that every edge to
//! the same key shares one node.

use vstd::prelude::*;
use vstd::string::StringExecFns;
use crate::pypackages::PythonPackage;
use crate::strutil::str_eq;

verus! {

/// An ordered list of raw environment-condition expressions attached to an
/// edge.  An edge with no marker at all is unconditional; an attached marker
/// holds when ANY of its conditions holds, so an attached empty marker never
/// holds.
#[derive(Debug)]
pub struct Marker(pub Vec<String>);

/// The condition texts, in order.
pub open spec fn marker_conditions(m: Marker) -> Seq<Seq<char>> {
    Seq::new(m.0@.len(), |i: int| m.0@[i]@)
}

/// The conditions wrapped in parentheses and joined with ` or `.
pub open spec fn spec_expression(conds: Seq<Seq<char>>) -> Seq<char>
    decreases conds.len(),
{
    if conds.len() == 0 {
        Seq::<char>::empty()
    } else if conds.len() == 1 {
        "("@ + conds[0] + ")"@
    } else {
        spec_expression(conds.drop_last()) + " or "@ + "("@ + conds.last() + ")"@
    }
}

impl Marker {
    pub fn from(v: Vec<String>) -> (r: Marker)
        ensures
            r.0 == v,
    {
        Marker(v)
    }

    pub fn iter(&self) -> (r: &Vec<String>)
        ensures
            r == &self.0,
    {
        &self.0
    }

    pub fn len(&self) -> (r: usize)
        ensures
            r == self.0@.len(),
    {
        self.0.len()
    }

    /// An owned copy with the same condition texts.
    pub fn duplicate(&self) -> (r: Marker)
        ensures
            marker_conditions(r) == marker_conditions(*self),
    {
        let n = self.0.len();
        let mut v: Vec<String> = Vec::new();
        let mut i: usize = 0;
        while i < n
            invariant
                i <= n,
                n == self.0@.len(),
                v@.len() == i,
                forall|a: int| 0 <= a < i ==> v@[a] == self.0@[a],
            decreases n - i,
        {
            v.push(self.0[i].clone());
            i = i + 1;
        }
        let r = Marker(v);
        proof {
            assert(marker_conditions(r) =~= marker_conditions(*self));
        }
        r
    }

    /// The boolean expression submitted to the marker evaluator: every
    /// condition in parentheses, joined with ` or `.
    pub fn expression(&self) -> (r: String)
        ensures
            r@ == spec_expression(marker_conditions(*self)),
    {
        let n = self.0.len();
        let mut r = String::new();
        let mut i: usize = 0;
        while i < n
            invariant
                i <= n,
                n == self.0@.len(),
                r@ == spec_expression(marker_conditions(*self).take(i as int)),
            decreases n - i,
        {
            if i > 0 {
                r.append(" or ");
            }
            r.append("(");
            r.append(self.0[i].as_str());
            r.append(")");
            proof {
                let conds = marker_conditions(*self);
                assert(conds.take(i + 1 as int).drop_last() =~= conds.take(i as int));
                assert(conds.take(i + 1 as int).last() == conds[i as int]);
                if i == 0 {
                    assert(spec_expression(conds.take(1)) == "("@ + conds[0] + ")"@);
                    assert(r@ =~= "("@ + conds[0] + ")"@);
                } else {
                    assert(r@ =~= spec_expression(conds.take(i as int)) + " or "@ + "("@
                        + conds[i as int] + ")"@);
                }
            }
            i = i + 1;
        }
        proof {
            assert(marker_conditions(*self).take(n as int) =~= marker_conditions(*self));
        }
        r
    }
}

/// One outgoing edge: the arena index of the target node, and an optional
/// guarding marker.
#[derive(Debug)]
pub struct Edge {
    pub target: usize,
    pub marker: Option<Marker>,
}

/// A named node of the graph: an optional package payload (absent for pure
/// section nodes) and the outgoing edges.
#[derive(Debug)]
pub struct Dependency {
    pub key: String,
    pub python: Option<PythonPackage>,
    pub edges: Vec<Edge>,
}

impl Dependency {
    pub fn key(&self) -> (r: &str)
        ensures
            r@ == self.key@,
    {
        self.key.as_str()
    }

    pub fn python(&self) -> (r: Option<&PythonPackage>)
        ensures
            match r {
                Some(p) => self.python matches Some(q) && q == *p,
                None => self.python is None,
            },
    {
        match &self.python {
            Some(p) => Some(p),
            None => None,
        }
    }

    pub fn dependencies(&self) -> (r: &Vec<Edge>)
        ensures
            r == &self.edges,
    {
        &self.edges
    }
}

/// The arena of dependency nodes.  Keys are unique; every edge's target is a
/// valid index, so no edge can dangle.
#[derive(Debug)]
pub struct Dependencies {
    pub nodes: Vec<Dependency>,
}

impl Dependencies {
    /// Keys unique and every edge in bounds.
    pub open spec fn graph_wf(self) -> bool {
        &&& forall|i: int, j: int|
            0 <= i < j < self.nodes@.len() ==> self.nodes@[i].key@ != self.nodes@[j].key@
        &&& forall|i: int, k: int|
            0 <= i < self.nodes@.len() && 0 <= k < self.nodes@[i].edges@.len()
                ==> #[trigger] self.nodes@[i].edges@[k].target < self.nodes@.len()
    }

    pub open spec fn spec_has_key(self, key: Seq<char>) -> bool {
        exists|i: int| 0 <= i < self.nodes@.len() && self.nodes@[i].key@ == key
    }

    pub fn new() -> (r: Dependencies)
        ensures
            r.nodes@.len() == 0,
            r.graph_wf(),
    {
        Dependencies { nodes: Vec::new() }
    }

    pub fn len(&self) -> (r: usize)
        ensures
            r == self.nodes@.len(),
    {
        self.nodes.len()
    }

    /// The arena index of the node registered under `key`.
    pub fn index_of(&self, key: &str) -> (r: Option<usize>)
        ensures
            match r {
                Some(i) => i < self.nodes@.len() && self.nodes@[i as int].key@ == key@,
                None => !self.spec_has_key(key@),
            },
    {
        let n = self.nodes.len();
        let mut i: usize = 0;
        while i < n
            invariant
                i <= n,
                n == self.nodes@.len(),
                forall|j: int| 0 <= j < i ==> self.nodes@[j].key@ != key@,
            decreases n - i,
        {
            if str_eq(self.nodes[i].key.as_str(), key) {
                return Some(i);
            }
            i = i + 1;
        }
        None
    }

    /// The node at arena index `i`.
    pub fn node(&self, i: usize) -> (r: &Dependency)
        requires
            i < self.nodes@.len(),
        ensures
            *r == self.nodes@[i as int],
    {
        &self.nodes[i]
    }

    /// The default section: the node keyed by the empty string.
    pub fn default(&self) -> (r: Option<&Dependency>)
        ensures
            match r {
                Some(d) => exists|i: int|
                    0 <= i < self.nodes@.len() && self.nodes@[i] == *d && d.key@ == ""@,
                None => !self.spec_has_key(""@),
            },
    {
        match self.index_of("") {
            Some(i) => Some(&self.nodes[i]),
            None => None,
        }
    }

    /// The node of the named extra section, keyed `[extra]`.
    pub fn extra(&self, extra: &str) -> (r: Option<&Dependency>)
        ensures
            match r {
                Some(d) => exists|i: int|
                    0 <= i < self.nodes@.len() && self.nodes@[i] == *d && d.key@ == "["@ + extra@
                        + "]"@,
                None => !self.spec_has_key("["@ + extra@ + "]"@),
            },
    {
        let mut key = String::new();
        key.append("[");
        key.append(extra);
        key.append("]");
        match self.index_of(key.as_str()) {
            Some(i) => Some(&self.nodes[i]),
            None => None,
        }
    }

    /// All nodes, in insertion order.
    pub fn iter(&self) -> (r: &Vec<Dependency>)
        ensures
            r == &self.nodes,
    {
        &self.nodes
    }

    /// Register a bare node (no edges yet) under `key`, replacing any node
    /// already registered under it; the displaced node is returned.
    pub fn add_dependency(&mut self, key: &str, python: Option<PythonPackage>) -> (r: Option<
        Dependency,
    >)
        requires
            old(self).graph_wf(),
        ensures
            final(self).graph_wf(),
            final(self).spec_has_key(key@),
            forall|n: Seq<char>|
                #[trigger] final(self).spec_has_key(n) == (old(self).spec_has_key(n) || n == key@),
            match r {
                Some(displaced) => {
                    &&& old(self).spec_has_key(key@)
                    &&& displaced.key@ == key@
                    &&& exists|i: int|
                        0 <= i < old(self).nodes@.len() && old(self).nodes@[i] == displaced
                            && final(self).nodes@ == old(self).nodes@.update(
                            i,
                            Dependency {
                                key: final(self).nodes@[i].key,
                                python: final(self).nodes@[i].python,
                                edges: final(self).nodes@[i].edges,
                            },
                        ) && final(self).nodes@[i].key@ == key@ && final(self).nodes@[i].python
                            == python && final(self).nodes@[i].edges@.len() == 0
                },
                None => {
                    &&& !old(self).spec_has_key(key@)
                    &&& final(self).nodes@.len() == old(self).nodes@.len() + 1
                    &&& final(self).nodes@.drop_last() == old(self).nodes@
                    &&& final(self).nodes@.last().key@ == key@
                    &&& final(self).nodes@.last().python == python
                    &&& final(self).nodes@.last().edges@.len() == 0
                },
            },
    {
        let node = Dependency { key: key.to_owned(), python, edges: Vec::new() };
        let n = self.nodes.len();
        let mut i: usize = 0;
        while i < n
            invariant
                i <= n,
                self.nodes == old(self).nodes,
                old(self).graph_wf(),
                n == self.nodes@.len(),
                node.key@ == key@,
                node.python == python,
                node.edges@.len() == 0,
                forall|j: int| 0 <= j < i ==> self.nodes@[j].key@ != key@,
            decreases n - i,
        {
            if str_eq(self.nodes[i].key.as_str(), key) {
                let ghost seen: int = i as int;
                proof {
                    assert(old(self).nodes@[seen].key@ == key@);
                }
                let displaced = self.nodes.remove(i);
                self.nodes.insert(i, node);
                proof {
                    assert(self.nodes@ =~= old(self).nodes@.update(seen, self.nodes@[seen]));
                    assert(old(self).nodes@[seen] == displaced);
                    assert forall|x: int|
                        0 <= x < self.nodes@.len() && x != seen implies self.nodes@[x] == old(
                        self,
                    ).nodes@[x] by {
                        assert(old(self).nodes@.update(seen, self.nodes@[seen])[x] == old(
                            self,
                        ).nodes@[x]);
                    }
                    assert forall|a: int, b: int|
                        0 <= a < b < self.nodes@.len() implies self.nodes@[a].key@
                        != self.nodes@[b].key@ by {
                        if a == seen {
                            assert(old(self).nodes@[seen].key@ == key@);
                            assert(old(self).nodes@[seen].key@ != old(self).nodes@[b].key@);
                            assert(self.nodes@[b] == old(self).nodes@[b]);
                        } else if b == seen {
                            assert(old(self).nodes@[a].key@ != old(self).nodes@[seen].key@);
                            assert(self.nodes@[a] == old(self).nodes@[a]);
                        } else {
                            assert(old(self).nodes@[a].key@ != old(self).nodes@[b].key@);
                            assert(self.nodes@[a] == old(self).nodes@[a]);
                            assert(self.nodes@[b] == old(self).nodes@[b]);
                        }
                    }
                    assert forall|a: int, k: int|
                        0 <= a < self.nodes@.len() && 0 <= k < self.nodes@[a].edges@.len() implies #[trigger] self.nodes@[a].edges@[k].target
                        < self.nodes@.len() by {
                        if a != seen {
                            assert(self.nodes@[a] == old(self).nodes@[a]);
                        } else {
                            assert(self.nodes@[seen].edges@.len() == 0);
                        }
                    }
                    assert(self.nodes@[seen].key@ == key@);
                    assert forall|m: Seq<char>| #[trigger]
                        self.spec_has_key(m) == (old(self).spec_has_key(m) || m == key@) by {
                        if self.spec_has_key(m) {
                            let k = choose|k: int|
                                0 <= k < self.nodes@.len() && self.nodes@[k].key@ == m;
                            if k != seen {
                                assert(old(self).nodes@[k].key@ == m);
                            }
                        }
                        if old(self).spec_has_key(m) {
                            let k = choose|k: int|
                                0 <= k < old(self).nodes@.len() && old(self).nodes@[k].key@ == m;
                            if k != seen {
                                assert(self.nodes@[k].key@ == m);
                            }
                        }
                        if m == key@ {
                            assert(self.nodes@[seen].key@ == m);
                        }
                    }
                }
                return Some(displaced);
            }
            i = i + 1;
        }
        let ghost gnode = node;
        self.nodes.push(node);
        proof {
            let last = old(self).nodes@.len() as int;
            assert(self.nodes@ == old(self).nodes@.push(gnode));
            assert forall|a: int| 0 <= a < last implies self.nodes@[a] == old(
                self,
            ).nodes@[a] by {
                assert(old(self).nodes@.push(gnode)[a] == old(self).nodes@[a]);
            }
            assert(self.nodes@.drop_last() =~= old(self).nodes@);
            assert(self.nodes@[last] == old(self).nodes@.push(gnode)[last]);
            assert(self.nodes@[last].key@ == key@);
            assert forall|a: int, b: int|
                0 <= a < b < self.nodes@.len() implies self.nodes@[a].key@
                != self.nodes@[b].key@ by {
                if b < last {
                    assert(old(self).nodes@[a].key@ != old(self).nodes@[b].key@);
                } else {
                    assert(old(self).nodes@[a].key@ != key@);
                }
            }
            assert forall|a: int, k: int|
                0 <= a < self.nodes@.len() && 0 <= k < self.nodes@[a].edges@.len() implies #[trigger] self.nodes@[a].edges@[k].target
                < self.nodes@.len() by {
                if a < last {
                    assert(self.nodes@[a] == old(self).nodes@[a]);
                }
            }
            assert forall|m: Seq<char>| #[trigger]
                self.spec_has_key(m) == (old(self).spec_has_key(m) || m == key@) by {
                if self.spec_has_key(m) {
                    let k = choose|k: int| 0 <= k < self.nodes@.len() && self.nodes@[k].key@ == m;
                    if k < last {
                        assert(old(self).nodes@[k].key@ == m);
                    }
                }
                if old(self).spec_has_key(m) {
                    let k = choose|k: int|
                        0 <= k < old(self).nodes@.len() && old(self).nodes@[k].key@ == m;
                    assert(self.nodes@[k].key@ == m);
                }
            }
        }
        None
    }

    /// Append to `dependent` an edge to `depended`, guarded by `marker`.
    /// Fails with the missing key when either node is absent; `depended` is
    /// looked up first, as its absence is the interesting one.
    pub fn add_dependence(&mut self, dependent: &str, depended: &str, marker: Option<Marker>) -> (r:
        Result<(), String>)
        requires
            old(self).graph_wf(),
        ensures
            final(self).graph_wf(),
            match r {
                Ok(()) => exists|i: int, j: int|
                    {
                        &&& 0 <= i < old(self).nodes@.len()
                        &&& 0 <= j < old(self).nodes@.len()
                        &&& old(self).nodes@[i].key@ == depended@
                        &&& old(self).nodes@[j].key@ == dependent@
                        &&& final(self).nodes@ == old(self).nodes@.update(
                            j,
                            Dependency {
                                key: old(self).nodes@[j].key,
                                python: old(self).nodes@[j].python,
                                edges: final(self).nodes@[j].edges,
                            },
                        )
                        &&& final(self).nodes@[j].edges@.len() == old(self).nodes@[j].edges@.len()
                            + 1
                        &&& final(self).nodes@[j].edges@.drop_last() == old(self).nodes@[j].edges@
                        &&& final(self).nodes@[j].edges@.last().target == i
                        &&& final(self).nodes@[j].edges@.last().marker == marker
                    },
                Err(k) => {
                    &&& final(self).nodes == old(self).nodes
                    &&& (k@ == depended@ && !old(self).spec_has_key(depended@)) || (k@ == dependent@
                        && old(self).spec_has_key(depended@) && !old(self).spec_has_key(
                        dependent@,
                    ))
                },
            },
    {
        let target = match self.index_of(depended) {
            Some(i) => i,
            None => {
                return Err(depended.to_owned());
            },
        };
        let at = match self.index_of(dependent) {
            Some(j) => j,
            None => {
                proof {
                    assert(old(self).nodes@[target as int].key@ == depended@);
                }
                return Err(dependent.to_owned());
            },
        };
        let mut node = self.nodes.remove(at);
        node.edges.push(Edge { target, marker });
        self.nodes.insert(at, node);
        proof {
            let i = target as int;
            let j = at as int;
            assert(self.nodes@ =~= old(self).nodes@.update(j, self.nodes@[j]));
            assert(self.nodes@[j].edges@.drop_last() =~= old(self).nodes@[j].edges@);
            assert forall|a: int, k: int|
                0 <= a < self.nodes@.len() && 0 <= k < self.nodes@[a].edges@.len() implies #[trigger] self.nodes@[a].edges@[k].target
                < self.nodes@.len() by {
                if a != j {
                    assert(self.nodes@[a] == old(self).nodes@[a]);
                } else {
                    if k < old(self).nodes@[j].edges@.len() {
                        assert(self.nodes@[j].edges@[k] == old(self).nodes@[j].edges@[k]);
                    } else {
                        assert(self.nodes@[j].edges@[k].target == i);
                    }
                }
            }
            assert forall|a: int, b: int|
                0 <= a < b < self.nodes@.len() implies self.nodes@[a].key@
                != self.nodes@[b].key@ by {
                assert(old(self).nodes@[a].key@ != old(self).nodes@[b].key@);
                assert(self.nodes@[a].key == old(self).nodes@[a].key);
                assert(self.nodes@[b].key == old(self).nodes@[b].key);
            }
        }
        Ok(())
    }
}

} // verus!
