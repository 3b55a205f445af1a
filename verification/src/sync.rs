//! The synchronizer: decide which packages a requested combination of
//! sections needs, and how each one is installed.
//!
//! Marker evaluation and the installer are outside capabilities, so the
//! traversal is an explicit machine: `next` advances the depth-first walk
//! until it needs a marker verdict, fails on a missing section, or is done;
//! the caller evaluates the handed-out expression and feeds the verdict back
//! through `answer`.  One shared visited set spans all roots, so a package
//! reachable from many parents resolves exactly once.

use vstd::prelude::*;
use vstd::seq_lib::*;
use vstd::string::StringExecFns;
use crate::deps::{marker_conditions, spec_expression, Marker};
use crate::locks::Lock;
use crate::pypackages::{spec_rendered_requirement, spec_requirement};
use crate::strutil::str_eq;

verus! {

/// Why a synchronization run stops without installing everything.
#[derive(Debug)]
pub enum Error {
    /// The default section was requested but the lock has no `""` node.
    DefaultSectionNotFound,
    /// A named extra was requested but the lock has no `[name]` node.
    ExtraSectionNotFound(String),
    /// Installer invocations that exited non-zero, with their exit codes.
    InstallCommandError(Vec<(String, Option<i32>)>),
    /// The evaluator rejected a marker: its stdout and its diagnostic text.
    InvalidMarkerError(String, String),
}

/// A requested traversal root: the default section or a named extra.
#[derive(Debug)]
pub enum Root {
    Default,
    Extra(String),
}

/// What one call of `Traversal::next` came to.
#[derive(Debug)]
pub enum Step {
    /// Progress was made; call `next` again.
    Continue,
    /// The walk reached a guarded edge: evaluate this expression and feed
    /// the verdict to `answer`.
    NeedsMarker(String),
    /// A requested section is absent; the run is over, nothing is installed.
    Failed(Error),
    /// The walk is complete; the resolved set is final.
    Done,
}

/// What a traversal does with one edge, decided by its marker alone.
#[derive(Debug)]
pub enum EdgeAction {
    /// No marker attached: the edge is always included.
    Follow,
    /// An attached marker with zero conditions: the edge is never included,
    /// and the evaluator is never consulted.
    Skip,
    /// An attached non-empty marker: include the edge only if this
    /// expression evaluates true.
    Evaluate(String),
}

/// Empty-marker semantics, decided in one place: an edge with no marker is
/// always followed; an attached empty marker always excludes the edge; only
/// a non-empty marker reaches the evaluator, as its ` or `-joined expression.
pub fn edge_action(marker: &Option<Marker>) -> (r: EdgeAction)
    ensures
        match marker {
            None => r == EdgeAction::Follow,
            Some(m) => if m.0@.len() == 0 {
                r == EdgeAction::Skip
            } else {
                r matches EdgeAction::Evaluate(e) && e@ == spec_expression(marker_conditions(*m))
            },
        },
{
    match marker {
        None => EdgeAction::Follow,
        Some(m) => {
            if m.len() == 0 {
                EdgeAction::Skip
            } else {
                EdgeAction::Evaluate(m.expression())
            }
        },
    }
}

/// A position in the depth-first walk: a node and the index of its next
/// unprocessed edge.
#[derive(Clone, Copy, Debug)]
pub struct Frame {
    pub node: usize,
    pub edge: usize,
}

/// The arena key a requested root is looked up under.
pub open spec fn spec_root_key(r: Root) -> Seq<char> {
    match r {
        Root::Default => ""@,
        Root::Extra(n) => "["@ + n@ + "]"@,
    }
}

/// The stack with its top frame moved past the current edge.
pub open spec fn spec_advanced(stack: Seq<Frame>) -> Seq<Frame> {
    stack.update(
        stack.len() - 1,
        Frame { node: stack.last().node, edge: (stack.last().edge + 1) as usize },
    )
}

/// `post` is `pre` after node `i` was visited, the stack standing at
/// `pre_stack`: a first visit marks the node, schedules its edges, and (when
/// it carries a package) appends it to the resolved set; a repeated visit
/// changes nothing.
pub open spec fn visit_rel(
    pre_stack: Seq<Frame>,
    pre: Traversal,
    post: Traversal,
    lock: Lock,
    i: usize,
) -> bool {
    if pre.visited@[i as int] {
        &&& post.visited == pre.visited
        &&& post.resolved == pre.resolved
        &&& post.stack@ == pre_stack
    } else {
        &&& post.visited@ == pre.visited@.update(i as int, true)
        &&& post.stack@ == pre_stack.push(Frame { node: i, edge: 0 })
        &&& (lock.dependencies.nodes@[i as int].python is Some ==> post.resolved@
            == pre.resolved@.push(i))
        &&& (lock.dependencies.nodes@[i as int].python is None ==> post.resolved == pre.resolved)
    }
}

/// How one call of `Traversal::next` relates the state before (`pre`) to
/// the state after (`post`) and the returned step: a root taken up, an
/// exhausted frame popped, an unguarded edge followed, an attached empty
/// marker excluding its edge, a non-empty marker handed out for evaluation,
/// a missing section failing the run (only between roots, with nothing on
/// the stack), or completion.
pub open spec fn next_rel(pre: Traversal, post: Traversal, lock: Lock, r: Step) -> bool {
    &&& post.roots == pre.roots
    &&& pre.resolved@.is_prefix_of(post.resolved@)
    &&& (forall|x: int| 0 <= x < pre.visited@.len() && pre.visited@[x] ==> post.visited@[x])
    &&& (pre.finished ==> r is Done && post == pre)
    &&& match r {
        Step::Continue => {
            &&& !post.finished
            &&& !post.awaiting
            &&& post.failed == pre.failed
            &&& ({
                ||| (pre.stack@.len() == 0 && pre.cursor < pre.roots@.len() && post.cursor
                    == pre.cursor + 1 && exists|i: usize|
                    i < lock.dependencies.nodes@.len() && (
                    #[trigger] lock.dependencies.nodes@[i as int]).key@ == spec_root_key(
                        pre.roots@[pre.cursor as int],
                    ) && visit_rel(pre.stack@, pre, post, lock, i))
                ||| (pre.stack@.len() > 0 && post.cursor == pre.cursor && pre.stack@.last().edge
                    == lock.dependencies.nodes@[pre.stack@.last().node as int].edges@.len()
                    && post.stack@ == pre.stack@.drop_last() && post.resolved == pre.resolved
                    && post.visited == pre.visited)
                ||| (pre.stack@.len() > 0 && post.cursor == pre.cursor && pre.stack@.last().edge
                    < lock.dependencies.nodes@[pre.stack@.last().node as int].edges@.len()
                    && pre.current_edge(lock).marker is None && visit_rel(
                    spec_advanced(pre.stack@),
                    pre,
                    post,
                    lock,
                    pre.current_edge(lock).target,
                ))
                ||| (pre.stack@.len() > 0 && post.cursor == pre.cursor && pre.stack@.last().edge
                    < lock.dependencies.nodes@[pre.stack@.last().node as int].edges@.len() && (
                pre.current_edge(lock).marker matches Some(m) && m.0@.len() == 0) && post.stack@
                    == spec_advanced(pre.stack@) && post.resolved == pre.resolved && post.visited
                    == pre.visited)
            })
        },
        Step::NeedsMarker(expr) => {
            &&& post.awaiting
            &&& !post.finished
            &&& post.stack == pre.stack
            &&& post.cursor == pre.cursor
            &&& post.resolved == pre.resolved
            &&& post.visited == pre.visited
            &&& (post.current_edge(lock).marker matches Some(m) && m.0@.len() > 0 && expr@
                == spec_expression(marker_conditions(m)))
        },
        Step::Failed(e) => {
            &&& post.finished
            &&& post.failed
            &&& pre.stack@.len() == 0
            &&& post.stack == pre.stack
            &&& post.resolved == pre.resolved
            &&& post.visited == pre.visited
            &&& pre.cursor < pre.roots@.len()
            &&& post.cursor == pre.cursor + 1
            &&& match e {
                Error::DefaultSectionNotFound => pre.roots@[pre.cursor as int] == Root::Default
                    && !lock.dependencies.spec_has_key(""@),
                Error::ExtraSectionNotFound(nm) => (pre.roots@[pre.cursor as int] matches Root::Extra(x)
                    && x@ == nm@) && !lock.dependencies.spec_has_key("["@ + nm@ + "]"@),
                _ => false,
            }
        },
        Step::Done => {
            &&& post.finished
            &&& post.resolved == pre.resolved
            &&& post.visited == pre.visited
            &&& (pre.finished || (pre.stack@.len() == 0 && pre.cursor == pre.roots@.len()))
            &&& (!pre.finished ==> !post.failed)
        },
    }
}

/// How one call of `Traversal::answer` relates the state before (`pre`) to
/// the state after (`post`): the pending edge is moved past; a true verdict
/// visits its target, a false verdict changes nothing else.
pub open spec fn answer_rel(pre: Traversal, post: Traversal, lock: Lock, verdict: bool) -> bool {
    &&& !post.awaiting
    &&& !post.finished
    &&& post.failed == pre.failed
    &&& post.roots == pre.roots
    &&& post.cursor == pre.cursor
    &&& pre.resolved@.is_prefix_of(post.resolved@)
    &&& (forall|x: int| 0 <= x < pre.visited@.len() && pre.visited@[x] ==> post.visited@[x])
    &&& (!verdict ==> post.stack@ == spec_advanced(pre.stack@) && post.resolved == pre.resolved
        && post.visited == pre.visited)
    &&& (verdict ==> visit_rel(
        spec_advanced(pre.stack@),
        pre,
        post,
        lock,
        pre.current_edge(lock).target,
    ) && post.visited@[pre.current_edge(lock).target as int])
}

/// One synchronization run's traversal state.
#[derive(Debug)]
pub struct Traversal {
    /// The requested roots, processed in order.
    pub roots: Vec<Root>,
    /// How many roots have been taken up.
    pub cursor: usize,
    /// The depth-first stack.
    pub stack: Vec<Frame>,
    /// Which nodes have been seen, by arena index.
    pub visited: Vec<bool>,
    /// Arena indexes of the visited nodes that carry a package, in the
    /// order they were first reached.
    pub resolved: Vec<usize>,
    /// A guarded edge is waiting for a verdict.
    pub awaiting: bool,
    /// The walk is over.
    pub finished: bool,
    /// The walk stopped on a missing section.
    pub failed: bool,
}

impl Traversal {
    pub open spec fn wf(self, lock: Lock) -> bool {
        &&& self.visited@.len() == lock.dependencies.nodes@.len()
        &&& self.cursor <= self.roots@.len()
        &&& forall|x: int|
            0 <= x < self.stack@.len() ==> {
                let f = #[trigger] self.stack@[x];
                &&& f.node < lock.dependencies.nodes@.len()
                &&& f.edge <= lock.dependencies.nodes@[f.node as int].edges@.len()
                &&& self.visited@[f.node as int]
            }
        &&& forall|x: int|
            0 <= x < self.resolved@.len() ==> {
                let n = #[trigger] self.resolved@[x];
                &&& n < lock.dependencies.nodes@.len()
                &&& self.visited@[n as int]
                &&& lock.dependencies.nodes@[n as int].python is Some
            }
        &&& forall|x: int, y: int|
            0 <= x < y < self.resolved@.len() ==> self.resolved@[x] != self.resolved@[y]
        &&& (self.awaiting ==> {
            &&& !self.finished
            &&& self.stack@.len() > 0
            &&& self.stack@.last().edge < lock.dependencies.nodes@[self.stack@.last().node as int].edges@.len()
            &&& (self.current_edge(lock).marker matches Some(m) && m.0@.len() > 0)
        })
        &&& (self.failed ==> self.finished)
    }

    /// The edge the top frame stands at.
    pub open spec fn current_edge(self, lock: Lock) -> crate::deps::Edge {
        lock.dependencies.nodes@[self.stack@.last().node as int].edges@[self.stack@.last().edge as int]
    }

    pub fn is_done(&self) -> (r: bool)
        ensures
            r == self.finished,
    {
        self.finished
    }

    pub fn has_failed(&self) -> (r: bool)
        ensures
            r == self.failed,
    {
        self.failed
    }

    /// The resolved arena indexes, in resolution order.
    pub fn resolved_nodes(&self) -> (r: &Vec<usize>)
        ensures
            r == &self.resolved,
    {
        &self.resolved
    }

    /// Mark `i` seen: the first time, its package (if any) joins the
    /// resolved set and its edges are scheduled; later times do nothing.
    fn visit(&mut self, lock: &Lock, i: usize)
        requires
            old(self).wf(*lock),
            !old(self).awaiting,
            i < lock.dependencies.nodes@.len(),
        ensures
            final(self).wf(*lock),
            final(self).roots == old(self).roots,
            final(self).cursor == old(self).cursor,
            final(self).awaiting == old(self).awaiting,
            final(self).finished == old(self).finished,
            final(self).failed == old(self).failed,
            final(self).visited@[i as int],
            old(self).visited@[i as int] ==> *final(self) == *old(self),
            !old(self).visited@[i as int] ==> {
                &&& final(self).visited@ == old(self).visited@.update(i as int, true)
                &&& final(self).stack@ == old(self).stack@.push(Frame { node: i, edge: 0 })
                &&& (lock.dependencies.nodes@[i as int].python is Some ==> final(self).resolved@
                    == old(self).resolved@.push(i))
                &&& (lock.dependencies.nodes@[i as int].python is None ==> final(self).resolved
                    == old(self).resolved)
            },
    {
        if self.visited[i] {
            return ;
        }
        self.visited.set(i, true);
        proof {
            assert forall|x: int|
                0 <= x < self.resolved@.len() implies (#[trigger] self.resolved@[x])
                != i by {
                assert(old(self).visited@[self.resolved@[x] as int]);
            }
        }
        if self.lock_node_has_python(lock, i) {
            self.resolved.push(i);
        }
        self.stack.push(Frame { node: i, edge: 0 });
    }

    /// Whether the node at `i` carries a package.
    fn lock_node_has_python(&self, lock: &Lock, i: usize) -> (r: bool)
        requires
            i < lock.dependencies.nodes@.len(),
        ensures
            r == (lock.dependencies.nodes@[i as int].python is Some),
    {
        match &lock.dependencies.nodes[i].python {
            Some(_) => true,
            None => false,
        }
    }

    /// Advance the walk by one small step: take up the next root, pop an
    /// exhausted frame, follow or skip the current edge, or hand out the
    /// marker that must be evaluated first.  Everything a step may do is
    /// fixed by `next_rel`.
    pub fn next(&mut self, lock: &Lock) -> (r: Step)
        requires
            old(self).wf(*lock),
            lock.dependencies.graph_wf(),
            !old(self).awaiting,
        ensures
            final(self).wf(*lock),
            next_rel(*old(self), *final(self), *lock, r),
    {
        if self.finished {
            return Step::Done;
        }
        let slen = self.stack.len();
        if slen == 0 {
            if self.cursor == self.roots.len() {
                self.finished = true;
                return Step::Done;
            }
            let cur = self.cursor;
            self.cursor = cur + 1;
            let (keystr, extra_name): (String, Option<String>) = match &self.roots[cur] {
                Root::Default => {
                    let k = String::new();
                    proof {
                        reveal_strlit("");
                        assert(k@ =~= ""@);
                    }
                    (k, None)
                },
                Root::Extra(name) => {
                    let mut k = String::new();
                    k.append("[");
                    k.append(name.as_str());
                    k.append("]");
                    (k, Some(name.clone()))
                },
            };
            proof {
                assert(keystr@ == spec_root_key(old(self).roots@[cur as int]));
            }
            match lock.dependencies.index_of(keystr.as_str()) {
                Some(i) => {
                    let ghost pre = *self;
                    self.visit(lock, i);
                    proof {
                        assert(pre.visited == old(self).visited && pre.resolved == old(self).resolved && pre.stack == old(self).stack);
                        assert(visit_rel(old(self).stack@, *old(self), *self, *lock, i));
                        assert(lock.dependencies.nodes@[i as int].key@ == spec_root_key(
                            old(self).roots@[cur as int],
                        ));
                    }
                    Step::Continue
                },
                None => {
                    self.finished = true;
                    self.failed = true;
                    match extra_name {
                        None => Step::Failed(Error::DefaultSectionNotFound),
                        Some(nm) => Step::Failed(Error::ExtraSectionNotFound(nm)),
                    }
                },
            }
        } else {
            let top = self.stack[slen - 1];
            proof {
                assert(top == old(self).stack@.last());
            }
            let edge_count = lock.dependencies.nodes[top.node].edges.len();
            if top.edge == edge_count {
                self.stack.pop();
                proof {
                    assert(self.stack@ =~= old(self).stack@.drop_last());
                }
                return Step::Continue;
            }
            let action = edge_action(&lock.dependencies.nodes[top.node].edges[top.edge].marker);
            match action {
                EdgeAction::Follow => {
                    let child = lock.dependencies.nodes[top.node].edges[top.edge].target;
                    self.stack.set(slen - 1, Frame { node: top.node, edge: top.edge + 1 });
                    proof {
                        assert(self.stack@ == spec_advanced(old(self).stack@));
                    }
                    let ghost pre = *self;
                    self.visit(lock, child);
                    proof {
                        assert(pre.visited == old(self).visited && pre.resolved == old(self).resolved);
                        assert(visit_rel(
                            spec_advanced(old(self).stack@),
                            *old(self),
                            *self,
                            *lock,
                            child,
                        ));
                    }
                    Step::Continue
                },
                EdgeAction::Skip => {
                    self.stack.set(slen - 1, Frame { node: top.node, edge: top.edge + 1 });
                    proof {
                        assert(self.stack@ == spec_advanced(old(self).stack@));
                    }
                    Step::Continue
                },
                EdgeAction::Evaluate(expr) => {
                    self.awaiting = true;
                    Step::NeedsMarker(expr)
                },
            }
        }
    }

    /// Feed back the verdict of the pending marker: `true` follows the edge,
    /// `false` skips it; either way the walk moves past it.
    pub fn answer(&mut self, lock: &Lock, verdict: bool)
        requires
            old(self).wf(*lock),
            lock.dependencies.graph_wf(),
            old(self).awaiting,
        ensures
            final(self).wf(*lock),
            answer_rel(*old(self), *final(self), *lock, verdict),
    {
        proof {
            assert(old(self).stack@.len() > 0);
        }
        let slen = self.stack.len();
        let top = self.stack[slen - 1];
        proof {
            assert(top == old(self).stack@.last());
        }
        let edge_count = lock.dependencies.nodes[top.node].edges.len();
        proof {
            assert(top.edge < edge_count);
        }
        self.stack.set(slen - 1, Frame { node: top.node, edge: top.edge + 1 });
        self.awaiting = false;
        proof {
            assert(self.stack@ == spec_advanced(old(self).stack@));
        }
        if verdict {
            let child = lock.dependencies.nodes[top.node].edges[top.edge].target;
            let ghost pre = *self;
            self.visit(lock, child);
            proof {
                assert(pre.visited == old(self).visited && pre.resolved == old(self).resolved);
                assert(visit_rel(
                    spec_advanced(old(self).stack@),
                    *old(self),
                    *self,
                    *lock,
                    child,
                ));
            }
        }
    }
}

/// Shared identity: distinct entries of one traversal's resolved set are
/// distinct nodes with distinct keys — a package referenced by many parents
/// appears exactly once, however it was reached.
pub proof fn lemma_resolved_unique(t: Traversal, lock: Lock)
    requires
        t.wf(lock),
        lock.dependencies.graph_wf(),
    ensures
        forall|i: int, j: int|
            0 <= i < j < t.resolved@.len() ==> lock.dependencies.nodes@[t.resolved@[i] as int].key@
                != lock.dependencies.nodes@[t.resolved@[j] as int].key@,
{
    assert forall|i: int, j: int|
        0 <= i < j < t.resolved@.len() implies lock.dependencies.nodes@[t.resolved@[i] as int].key@
        != lock.dependencies.nodes@[t.resolved@[j] as int].key@ by {
        let a = t.resolved@[i] as int;
        let b = t.resolved@[j] as int;
        assert(t.resolved@[i] != t.resolved@[j]);
        if a < b {
            assert(lock.dependencies.nodes@[a].key@ != lock.dependencies.nodes@[b].key@);
        } else {
            assert(lock.dependencies.nodes@[b].key@ != lock.dependencies.nodes@[a].key@);
        }
    }
}

/// An edge with no marker attached is always included: at a state standing
/// on such an edge, the only step `next_rel` admits is `Continue`, and that
/// step visits the edge's target — the evaluator is never consulted for it.
pub proof fn lemma_unmarked_edge_followed(pre: Traversal, post: Traversal, lock: Lock, r: Step)
    requires
        pre.wf(lock),
        lock.dependencies.graph_wf(),
        !pre.awaiting,
        !pre.finished,
        pre.stack@.len() > 0,
        pre.stack@.last().edge < lock.dependencies.nodes@[pre.stack@.last().node as int].edges@.len(),
        pre.current_edge(lock).marker is None,
        next_rel(pre, post, lock, r),
    ensures
        r is Continue,
        visit_rel(spec_advanced(pre.stack@), pre, post, lock, pre.current_edge(lock).target),
        post.visited@[pre.current_edge(lock).target as int],
        post.roots == pre.roots,
        post.cursor == pre.cursor,
        post.failed == pre.failed,
        !post.finished,
        !post.awaiting,
{
    match r {
        Step::Continue => {
            assert(visit_rel(
                spec_advanced(pre.stack@),
                pre,
                post,
                lock,
                pre.current_edge(lock).target,
            ));
        },
        Step::NeedsMarker(_) => {
            assert(post.current_edge(lock) == pre.current_edge(lock));
            assert(false);
        },
        Step::Failed(_) => {
            assert(false);
        },
        Step::Done => {
            assert(false);
        },
    }
}

/// An attached marker with zero conditions always excludes its edge: at a
/// state standing on such an edge, the only step `next_rel` admits is
/// `Continue` past it, with the resolved set and the visited set unchanged —
/// the evaluator is never consulted for it either.
pub proof fn lemma_empty_marker_edge_skipped(pre: Traversal, post: Traversal, lock: Lock, r: Step)
    requires
        pre.wf(lock),
        lock.dependencies.graph_wf(),
        !pre.awaiting,
        !pre.finished,
        pre.stack@.len() > 0,
        pre.stack@.last().edge < lock.dependencies.nodes@[pre.stack@.last().node as int].edges@.len(),
        pre.current_edge(lock).marker matches Some(m) && m.0@.len() == 0,
        next_rel(pre, post, lock, r),
    ensures
        r is Continue,
        post.stack@ == spec_advanced(pre.stack@),
        post.resolved == pre.resolved,
        post.visited == pre.visited,
        post.roots == pre.roots,
        post.cursor == pre.cursor,
        post.failed == pre.failed,
        !post.finished,
        !post.awaiting,
{
    match r {
        Step::Continue => {
        },
        Step::NeedsMarker(_) => {
            assert(post.current_edge(lock) == pre.current_edge(lock));
            assert(false);
        },
        Step::Failed(_) => {
            assert(false);
        },
        Step::Done => {
            assert(false);
        },
    }
}

/// A frame whose edges are exhausted is popped: the only admissible step is
/// `Continue` with the top frame removed and nothing else changed.
pub proof fn lemma_exhausted_frame_popped(pre: Traversal, post: Traversal, lock: Lock, r: Step)
    requires
        pre.wf(lock),
        post.wf(lock),
        lock.dependencies.graph_wf(),
        !pre.awaiting,
        !pre.finished,
        pre.stack@.len() > 0,
        pre.stack@.last().edge == lock.dependencies.nodes@[pre.stack@.last().node as int].edges@.len(),
        next_rel(pre, post, lock, r),
    ensures
        r is Continue,
        post.stack@ == pre.stack@.drop_last(),
        post.resolved == pre.resolved,
        post.visited == pre.visited,
        post.roots == pre.roots,
        post.cursor == pre.cursor,
        post.failed == pre.failed,
        !post.finished,
        !post.awaiting,
{
    match r {
        Step::Continue => {
        },
        Step::NeedsMarker(_) => {
            assert(post.stack@.last() == pre.stack@.last());
            assert(false);
        },
        Step::Failed(_) => {
            assert(false);
        },
        Step::Done => {
            assert(false);
        },
    }
}

/// The end-to-end scenario graph: the default section with one unguarded
/// edge to the `bar` package node, whose one edge to the `baz` package node
/// is guarded by a marker with a single condition.
pub open spec fn scenario_lock(lock: Lock) -> bool {
    let nodes = lock.dependencies.nodes@;
    &&& lock.dependencies.graph_wf()
    &&& nodes.len() == 3
    &&& nodes[0].key@ == ""@
    &&& nodes[0].python is None
    &&& nodes[0].edges@.len() == 1
    &&& nodes[0].edges@[0].target == 1
    &&& nodes[0].edges@[0].marker is None
    &&& nodes[1].key@ == "bar"@
    &&& nodes[1].python is Some
    &&& nodes[1].edges@.len() == 1
    &&& nodes[1].edges@[0].target == 2
    &&& (nodes[1].edges@[0].marker matches Some(m) && m.0@.len() == 1)
    &&& nodes[2].key@ == "baz"@
    &&& nodes[2].python is Some
    &&& nodes[2].edges@.len() == 0
}

/// The state `Synchronizer::begin` hands back when only the default section
/// is requested, on a three-node lock.
pub open spec fn scenario_start(t: Traversal, lock: Lock) -> bool {
    &&& t.wf(lock)
    &&& t.roots@.len() == 1
    &&& t.roots@[0] == Root::Default
    &&& t.cursor == 0
    &&& t.stack@.len() == 0
    &&& t.resolved@.len() == 0
    &&& t.visited@.len() == 3
    &&& !t.visited@[0]
    &&& !t.visited@[1]
    &&& !t.visited@[2]
    &&& !t.awaiting
    &&& !t.finished
    &&& !t.failed
}

/// The state the scenario reaches when the guarded edge's marker is handed
/// out: the section and `bar` visited, `bar` resolved, the walk standing on
/// the guarded edge.
pub open spec fn scenario_at_marker(t: Traversal, lock: Lock) -> bool {
    &&& t.wf(lock)
    &&& t.roots@.len() == 1
    &&& t.roots@[0] == Root::Default
    &&& t.cursor == 1
    &&& t.stack@ == seq![Frame { node: 0, edge: 1 }, Frame { node: 1, edge: 0 }]
    &&& t.resolved@ == seq![1usize]
    &&& t.visited@ == seq![true, true, false]
    &&& t.awaiting
    &&& !t.finished
    &&& !t.failed
}

/// End-to-end scenario, first act: on the scenario lock, any three steps
/// from the start state are forced — the default section is taken up, the
/// unguarded edge to `bar` is followed and `bar` alone is resolved, and the
/// walk stops at the guarded edge, handing out exactly its marker's
/// expression for evaluation.
pub proof fn lemma_scenario_reaches_marker(
    lock: Lock,
    t0: Traversal,
    t1: Traversal,
    t2: Traversal,
    t3: Traversal,
    r1: Step,
    r2: Step,
    r3: Step,
)
    requires
        scenario_lock(lock),
        scenario_start(t0, lock),
        t1.wf(lock),
        t2.wf(lock),
        t3.wf(lock),
        next_rel(t0, t1, lock, r1),
        next_rel(t1, t2, lock, r2),
        next_rel(t2, t3, lock, r3),
    ensures
        r1 is Continue,
        r2 is Continue,
        r3 matches Step::NeedsMarker(e) && (lock.dependencies.nodes@[1].edges@[0].marker
            matches Some(m) && e@ == spec_expression(marker_conditions(m))),
        scenario_at_marker(t3, lock),
        t3.current_edge(lock) == lock.dependencies.nodes@[1].edges@[0],
{
    let nodes = lock.dependencies.nodes@;
    // Step 1: the default root is taken up and node 0 is visited.
    match r1 {
        Step::Continue => {
            let i = choose|i: usize|
                i < nodes.len() && (#[trigger] nodes[i as int]).key@ == spec_root_key(
                    t0.roots@[t0.cursor as int],
                ) && visit_rel(t0.stack@, t0, t1, lock, i);
            assert(nodes[i as int].key@ == ""@);
            if i != 0 {
                assert(nodes[0].key@ != nodes[i as int].key@);
                assert(false);
            }
            assert(visit_rel(t0.stack@, t0, t1, lock, 0));
        },
        Step::NeedsMarker(_) => {
            assert(t1.stack@.len() == 0);
            assert(false);
        },
        Step::Failed(_) => {
            assert(nodes[0].key@ == ""@);
            assert(lock.dependencies.spec_has_key(""@));
            assert(false);
        },
        Step::Done => {
            assert(false);
        },
    }
    assert(t1.stack@ =~= seq![Frame { node: 0, edge: 0 }]);
    assert(t1.visited@ =~= seq![true, false, false]);
    assert(t1.resolved@ =~= t0.resolved@);
    assert(t1.cursor == 1);
    // Step 2: the unguarded edge to node 1 is followed.
    assert(t1.stack@.last() == Frame { node: 0, edge: 0 });
    assert(t1.current_edge(lock) == nodes[0].edges@[0]);
    lemma_unmarked_edge_followed(t1, t2, lock, r2);
    assert(spec_advanced(t1.stack@) =~= seq![Frame { node: 0, edge: 1 }]);
    assert(visit_rel(spec_advanced(t1.stack@), t1, t2, lock, 1));
    assert(t2.stack@ =~= seq![Frame { node: 0, edge: 1 }, Frame { node: 1, edge: 0 }]);
    assert(t2.visited@ =~= seq![true, true, false]);
    assert(t2.resolved@ =~= seq![1usize]);
    assert(t2.cursor == 1);
    // Step 3: the guarded edge's marker is handed out.
    assert(t2.stack@.last() == Frame { node: 1, edge: 0 });
    assert(t2.current_edge(lock) == nodes[1].edges@[0]);
    match r3 {
        Step::Continue => {
            assert(false);
        },
        Step::NeedsMarker(_) => {
            assert(t3.stack@ == t2.stack@);
            assert(t3.current_edge(lock) == t2.current_edge(lock));
        },
        Step::Failed(_) => {
            assert(false);
        },
        Step::Done => {
            assert(false);
        },
    }
}

/// End-to-end scenario, marker answered false: the guarded edge is
/// skipped, the walk unwinds, and the run completes with exactly the `bar`
/// node resolved — `baz` is never entered.
pub proof fn lemma_scenario_marker_false(
    lock: Lock,
    t3: Traversal,
    t4: Traversal,
    t5: Traversal,
    t6: Traversal,
    t7: Traversal,
    r5: Step,
    r6: Step,
    r7: Step,
)
    requires
        scenario_lock(lock),
        scenario_at_marker(t3, lock),
        t4.wf(lock),
        t5.wf(lock),
        t6.wf(lock),
        t7.wf(lock),
        answer_rel(t3, t4, lock, false),
        next_rel(t4, t5, lock, r5),
        next_rel(t5, t6, lock, r6),
        next_rel(t6, t7, lock, r7),
    ensures
        r5 is Continue,
        r6 is Continue,
        r7 is Done,
        t7.finished,
        !t7.failed,
        t7.resolved@ == seq![1usize],
        lock.dependencies.nodes@[1].key@ == "bar"@,
        !t7.visited@[2],
{
    assert(t4.stack@ =~= seq![Frame { node: 0, edge: 1 }, Frame { node: 1, edge: 1 }]);
    assert(t4.resolved@ == seq![1usize]);
    assert(t4.visited@ == seq![true, true, false]);
    // Steps 5 and 6: both frames are exhausted and popped.
    assert(t4.stack@.last() == Frame { node: 1, edge: 1 });
    lemma_exhausted_frame_popped(t4, t5, lock, r5);
    assert(t5.stack@ =~= seq![Frame { node: 0, edge: 1 }]);
    assert(t5.stack@.last() == Frame { node: 0, edge: 1 });
    lemma_exhausted_frame_popped(t5, t6, lock, r6);
    assert(t6.stack@ =~= Seq::<Frame>::empty());
    // Step 7: all roots are spent, so the walk completes.
    match r7 {
        Step::Continue => {
            assert(false);
        },
        Step::NeedsMarker(_) => {
            assert(t7.stack@.len() == 0);
            assert(false);
        },
        Step::Failed(_) => {
            assert(false);
        },
        Step::Done => {
        },
    }
    assert(t7.resolved@ == seq![1usize]);
    assert(t7.visited@ == seq![true, true, false]);
}

/// End-to-end scenario, marker answered true: the guarded edge is
/// followed, `baz` joins the resolved set after `bar`, the walk unwinds,
/// and the run completes with both packages resolved, each exactly once.
pub proof fn lemma_scenario_marker_true(
    lock: Lock,
    t3: Traversal,
    t4: Traversal,
    t5: Traversal,
    t6: Traversal,
    t7: Traversal,
    t8: Traversal,
    r5: Step,
    r6: Step,
    r7: Step,
    r8: Step,
)
    requires
        scenario_lock(lock),
        scenario_at_marker(t3, lock),
        t4.wf(lock),
        t5.wf(lock),
        t6.wf(lock),
        t7.wf(lock),
        t8.wf(lock),
        answer_rel(t3, t4, lock, true),
        next_rel(t4, t5, lock, r5),
        next_rel(t5, t6, lock, r6),
        next_rel(t6, t7, lock, r7),
        next_rel(t7, t8, lock, r8),
    ensures
        r5 is Continue,
        r6 is Continue,
        r7 is Continue,
        r8 is Done,
        t8.finished,
        !t8.failed,
        t8.resolved@ == seq![1usize, 2usize],
        lock.dependencies.nodes@[1].key@ == "bar"@,
        lock.dependencies.nodes@[2].key@ == "baz"@,
{
    assert(t3.current_edge(lock) == lock.dependencies.nodes@[1].edges@[0]);
    assert(spec_advanced(t3.stack@) =~= seq![
        Frame { node: 0, edge: 1 },
        Frame { node: 1, edge: 1 },
    ]);
    assert(visit_rel(spec_advanced(t3.stack@), t3, t4, lock, 2));
    assert(t4.stack@ =~= seq![
        Frame { node: 0, edge: 1 },
        Frame { node: 1, edge: 1 },
        Frame { node: 2, edge: 0 },
    ]);
    assert(t4.visited@ =~= seq![true, true, true]);
    assert(t4.resolved@ =~= seq![1usize, 2usize]);
    // Steps 5 to 7: all three frames are exhausted and popped.
    assert(t4.stack@.last() == Frame { node: 2, edge: 0 });
    lemma_exhausted_frame_popped(t4, t5, lock, r5);
    assert(t5.stack@ =~= seq![Frame { node: 0, edge: 1 }, Frame { node: 1, edge: 1 }]);
    assert(t5.stack@.last() == Frame { node: 1, edge: 1 });
    lemma_exhausted_frame_popped(t5, t6, lock, r6);
    assert(t6.stack@ =~= seq![Frame { node: 0, edge: 1 }]);
    assert(t6.stack@.last() == Frame { node: 0, edge: 1 });
    lemma_exhausted_frame_popped(t6, t7, lock, r7);
    assert(t7.stack@ =~= Seq::<Frame>::empty());
    // Step 8: all roots are spent, so the walk completes.
    match r8 {
        Step::Continue => {
            assert(false);
        },
        Step::NeedsMarker(_) => {
            assert(t8.stack@.len() == 0);
            assert(false);
        },
        Step::Failed(_) => {
            assert(false);
        },
        Step::Done => {
        },
    }
    assert(t8.resolved@ == seq![1usize, 2usize]);
}

/// One planned installer invocation.
#[derive(Debug)]
pub struct InstallStep {
    pub key: String,
    pub requirement_txt: String,
    pub require_hashes: bool,
}

/// Drives one lock through marker-gated traversal and install planning.
pub struct Synchronizer {
    pub lock: Lock,
}

impl Synchronizer {
    pub fn new(lock: Lock) -> (r: Synchronizer)
        ensures
            r.lock == lock,
    {
        Synchronizer { lock }
    }

    pub fn lock(&self) -> (r: &Lock)
        ensures
            r == &self.lock,
    {
        &self.lock
    }

    /// Start a traversal of the default section (if requested) and the named
    /// extras, in that order.
    pub fn begin(&self, include_default: bool, extras: &Vec<String>) -> (t: Traversal)
        ensures
            t.wf(self.lock),
            !t.awaiting,
            !t.finished,
            !t.failed,
            t.cursor == 0,
            t.stack@.len() == 0,
            t.resolved@.len() == 0,
            forall|x: int| 0 <= x < t.visited@.len() ==> !t.visited@[x],
            t.roots@.len() == (if include_default {
                1int
            } else {
                0int
            }) + extras@.len(),
            include_default ==> t.roots@[0] == Root::Default && forall|x: int|
                0 <= x < extras@.len() ==> ((#[trigger] t.roots@[x + 1]) matches Root::Extra(nm)
                    && nm@ == extras@[x]@),
            !include_default ==> forall|x: int|
                0 <= x < extras@.len() ==> ((#[trigger] t.roots@[x]) matches Root::Extra(nm) && nm@
                    == extras@[x]@),
    {
        let mut roots: Vec<Root> = Vec::new();
        if include_default {
            roots.push(Root::Default);
        }
        let ghost base = roots@.len() as int;
        let n = extras.len();
        let mut i: usize = 0;
        while i < n
            invariant
                i <= n,
                n == extras@.len(),
                base == (if include_default {
                    1int
                } else {
                    0int
                }),
                roots@.len() == base + i,
                include_default ==> roots@.len() > 0 && roots@[0] == Root::Default,
                forall|x: int|
                    0 <= x < i ==> ((#[trigger] roots@[x + base]) matches Root::Extra(nm) && nm@
                        == extras@[x]@),
            decreases n - i,
        {
            roots.push(Root::Extra(extras[i].clone()));
            i = i + 1;
        }
        let nodes = self.lock.dependencies.len();
        let mut visited: Vec<bool> = Vec::new();
        let mut v: usize = 0;
        while v < nodes
            invariant
                v <= nodes,
                visited@.len() == v,
                forall|x: int| 0 <= x < v ==> !visited@[x],
            decreases nodes - v,
        {
            visited.push(false);
            v = v + 1;
        }
        proof {
            assert forall|x: int| 0 <= x < extras@.len() implies ((#[trigger] roots@[x + base])
                matches Root::Extra(nm) && nm@ == extras@[x]@) by {}
            if include_default {
                assert forall|x: int| 0 <= x < extras@.len() implies ((#[trigger] roots@[x + 1])
                    matches Root::Extra(nm) && nm@ == extras@[x]@) by {
                    assert(x + 1 == x + base);
                    assert(roots@[x + base] matches Root::Extra(nm) && nm@ == extras@[x]@);
                }
            } else {
                assert forall|x: int| 0 <= x < extras@.len() implies ((#[trigger] roots@[x])
                    matches Root::Extra(nm) && nm@ == extras@[x]@) by {
                    assert(x == x + base);
                    assert(roots@[x + base] matches Root::Extra(nm) && nm@ == extras@[x]@);
                }
            }
        }
        Traversal {
            roots,
            cursor: 0,
            stack: Vec::new(),
            visited,
            resolved: Vec::new(),
            awaiting: false,
            finished: false,
            failed: false,
        }
    }

    /// Render the installation plan of a completed traversal: one step per
    /// resolved package, in resolution order.
    pub fn plan(&self, t: &Traversal) -> (r: Vec<InstallStep>)
        requires
            t.wf(self.lock),
            t.finished,
            !t.failed,
        ensures
            r@.len() == t.resolved@.len(),
            forall|i: int|
                0 <= i < r@.len() ==> {
                    let node = self.lock.dependencies.nodes@[t.resolved@[i] as int];
                    &&& (#[trigger] r@[i]).key@ == node.key@
                    &&& (node.python matches Some(pkg) && r@[i].require_hashes
                        == pkg.spec_has_hashes() && r@[i].requirement_txt@
                        == spec_rendered_requirement(pkg) && (pkg.urls_ok() && pkg.spec_fits()
                        ==> r@[i].requirement_txt@ == spec_requirement(pkg)))
                },
    {
        let n = t.resolved.len();
        let mut out: Vec<InstallStep> = Vec::new();
        let mut i: usize = 0;
        while i < n
            invariant
                i <= n,
                n == t.resolved@.len(),
                t.wf(self.lock),
                out@.len() == i,
                forall|x: int|
                    0 <= x < i ==> {
                        let node = self.lock.dependencies.nodes@[t.resolved@[x] as int];
                        &&& (#[trigger] out@[x]).key@ == node.key@
                        &&& (node.python matches Some(pkg) && out@[x].require_hashes
                            == pkg.spec_has_hashes() && out@[x].requirement_txt@
                            == spec_rendered_requirement(pkg) && (pkg.urls_ok() && pkg.spec_fits()
                            ==> out@[x].requirement_txt@ == spec_requirement(pkg)))
                    },
            decreases n - i,
        {
            let ni = t.resolved[i];
            let node = &self.lock.dependencies.nodes[ni];
            let (hashed, txt) = match &node.python {
                Some(pkg) => pkg.to_requirement_txt(),
                None => {
                    proof {
                        assert(false);
                    }
                    (false, String::new())
                },
            };
            out.push(InstallStep { key: node.key.clone(), requirement_txt: txt, require_hashes: hashed });
            i = i + 1;
        }
        out
    }

    /// The installer's argument list for one requirement file, exactly as
    /// the invocation contract fixes it.
    pub fn install_args(requirement: &str, prefix: &str, require_hashes: bool) -> (r: Vec<String>)
        ensures
            r@.len() == (if require_hashes {
                9int
            } else {
                8int
            }),
            r@[0]@ == "-m"@,
            r@[1]@ == "pip"@,
            r@[2]@ == "install"@,
            r@[3]@ == "--requirement"@,
            r@[4]@ == requirement@,
            r@[5]@ == "--prefix"@,
            r@[6]@ == prefix@,
            r@[7]@ == "--no-deps"@,
            require_hashes ==> r@[8]@ == "--require-hashes"@,
    {
        let mut args: Vec<String> = Vec::new();
        args.push("-m".to_owned());
        args.push("pip".to_owned());
        args.push("install".to_owned());
        args.push("--requirement".to_owned());
        args.push(requirement.to_owned());
        args.push("--prefix".to_owned());
        args.push(prefix.to_owned());
        args.push("--no-deps".to_owned());
        if require_hashes {
            args.push("--require-hashes".to_owned());
        }
        args
    }

    /// The environment settings of every installer invocation: no version
    /// self-check, no script-location warnings, no virtualenv requirement.
    pub fn install_env() -> (r: Vec<(String, String)>)
        ensures
            r@.len() == 3,
            r@[0].0@ == "PIP_DISABLE_PIP_VERSION_CHECK"@ && r@[0].1@ == "1"@,
            r@[1].0@ == "PIP_NO_WARN_SCRIPT_LOCATION"@ && r@[1].1@ == "0"@,
            r@[2].0@ == "PIP_REQUIRE_VIRTUALENV"@ && r@[2].1@ == "0"@,
    {
        let mut env: Vec<(String, String)> = Vec::new();
        env.push(("PIP_DISABLE_PIP_VERSION_CHECK".to_owned(), "1".to_owned()));
        env.push(("PIP_NO_WARN_SCRIPT_LOCATION".to_owned(), "0".to_owned()));
        env.push(("PIP_REQUIRE_VIRTUALENV".to_owned(), "0".to_owned()));
        env
    }

    /// What the marker evaluator's output means: exactly `True` or `False`
    /// on stdout is a verdict; anything else is an invalid marker, reported
    /// with the stdout text and the stderr diagnostic.
    pub fn interpret_marker_output(stdout: &str, stderr: &str) -> (r: Result<bool, Error>)
        ensures
            stdout@ == "True"@ ==> r == Ok::<bool, Error>(true),
            stdout@ == "False"@ ==> r == Ok::<bool, Error>(false),
            (stdout@ != "True"@ && stdout@ != "False"@) ==> (r matches Err(
                Error::InvalidMarkerError(s, d),
            ) && s@ == stdout@ && d@ == stderr@),
    {
        proof {
            reveal_strlit("True");
            reveal_strlit("False");
            assert(("True"@).len() == 4);
            assert(("False"@).len() == 5);
        }
        if str_eq(stdout, "True") {
            Ok(true)
        } else if str_eq(stdout, "False") {
            Ok(false)
        } else {
            Err(Error::InvalidMarkerError(stdout.to_owned(), stderr.to_owned()))
        }
    }

    /// Best-effort aggregation: installation succeeds exactly when no
    /// per-package invocation failed; otherwise every recorded failure is
    /// reported together.
    pub fn conclude(errors: Vec<(String, Option<i32>)>) -> (r: Result<(), Error>)
        ensures
            errors@.len() == 0 <==> r is Ok,
            r matches Err(e) ==> e matches Error::InstallCommandError(v) && v == errors,
    {
        if errors.len() == 0 {
            Ok(())
        } else {
            Err(Error::InstallCommandError(errors))
        }
    }
}

} // verus!
