use vstd::prelude::*;
use crate::model::{Children, Node, NodeView, lemma_children_decrease, views};
use crate::builder::lemma_views_index;

verus! {

/// Whether a visit happens before a node's children (or for a leaf, its only visit) or
/// after them.
#[derive(Clone, Copy, Debug, PartialEq, Eq, Structural)]
pub enum Direction {
    Entering,
    Exiting,
}

/// What a visitor asks the traversal to do next.
#[derive(Clone, Copy, Debug, PartialEq, Eq, Structural)]
pub enum NextAction {
    GotoNext,
    SkipChildren,
    End,
}

/// One call of a visitor: the node visited, the direction, and the visitor's answer.
pub struct Visit {
    pub node: NodeView,
    pub direction: Direction,
    pub action: NextAction,
}

/// A consumer driven by the traversal. It keeps, as ghost state, the calls it has answered.
pub trait Visitor<'a> {
    /// The calls answered so far. A visitor verified against `visit`'s contract must override
    /// this and record each call, since the empty default cannot grow; a visitor written
    /// outside verification may leave it.
    open spec fn visits(&self) -> Seq<Visit> {
        Seq::empty()
    }

    fn visit(&mut self, node: &'a Node<'a>, direction: Direction) -> (r: NextAction)
        ensures
            final(self).visits() == old(self).visits().push(
                Visit { node: node@, direction, action: r },
            ),
    ;
}

/// `t[j]` is the exiting visit of `n`: then the visits used up to it and its answer.
pub open spec fn exit_of(n: NodeView, t: Seq<Visit>, j: int) -> Option<(int, NextAction)> {
    if 0 <= j < t.len() && t[j].node == n && t[j].direction == Direction::Exiting {
        Some((j + 1, t[j].action))
    } else {
        None
    }
}

/// Whether the visits `t` begin with a traversal of `n`; if so, how many visits it made and
/// what it returned.
///
/// A leaf is entered once and the answer returned. A container is entered; on `GotoNext` its
/// children are traversed in order, and if one of them returns `End` the traversal returns
/// `End` at once, with no exiting visit; otherwise the container is exited and the answer to
/// that returned. On `SkipChildren` it is exited at once; on `End` it is exited and `End`
/// returned.
#[verifier::opaque]
pub open spec fn run(n: NodeView, t: Seq<Visit>) -> Option<(int, NextAction)>
    decreases n, 1int,
{
    if t.len() == 0 || t[0].node != n || t[0].direction != Direction::Entering {
        None
    } else if !n.kind.is_container() {
        Some((1, t[0].action))
    } else {
        match t[0].action {
            NextAction::GotoNext => match run_children(n.children, 0, t, 1) {
                None => None,
                Some((j, ended)) => if ended {
                    Some((j, NextAction::End))
                } else {
                    exit_of(n, t, j)
                },
            },
            NextAction::SkipChildren => exit_of(n, t, 1),
            NextAction::End => match exit_of(n, t, 1) {
                Some((j, _)) => Some((j, NextAction::End)),
                None => None,
            },
        }
    }
}

/// The traversal of the children `cs[i..]` in order from `t[j]` on: the position reached and
/// whether one of them returned `End`.
#[verifier::opaque]
pub open spec fn run_children(cs: Seq<NodeView>, i: int, t: Seq<Visit>, j: int) -> Option<
    (int, bool),
>
    decreases cs, cs.len() - i,
{
    if i < 0 || i >= cs.len() || j < 0 || j > t.len() {
        if 0 <= j <= t.len() {
            Some((j, false))
        } else {
            None
        }
    } else {
        match run(cs[i], t.subrange(j, t.len() as int)) {
            None => None,
            Some((c, a)) => if a == NextAction::End {
                Some((j + c, true))
            } else {
                run_children(cs, i + 1, t, j + c)
            },
        }
    }
}

pub open spec fn used(o: Option<(int, NextAction)>) -> int {
    match o {
        Some((c, _)) => c,
        None => 0,
    }
}

pub open spec fn answer(o: Option<(int, NextAction)>) -> NextAction {
    match o {
        Some((_, a)) => a,
        None => NextAction::GotoNext,
    }
}

pub open spec fn ended(o: Option<(int, bool)>) -> bool {
    match o {
        Some((_, e)) => e,
        None => false,
    }
}

pub open spec fn reached(o: Option<(int, bool)>) -> int {
    match o {
        Some((j, _)) => j,
        None => 0,
    }
}

/// A traversal uses only the visits it makes: later visits do not change it.
pub proof fn lemma_run_extend(n: NodeView, t: Seq<Visit>, u: Seq<Visit>)
    requires
        run(n, t) is Some,
    ensures
        run(n, t + u) == run(n, t),
        1 <= used(run(n, t)) <= t.len(),
    decreases n, 1int,
{
    reveal(run);
    reveal(run_children);
    let tu = t + u;
    assert(tu[0] == t[0]);
    if n.kind.is_container() {
        match t[0].action {
            NextAction::GotoNext => {
                lemma_run_children_extend(n.children, 0, t, 1, u);
                let (j, ended) = run_children(n.children, 0, t, 1)->0;
                if !ended {
                    assert(tu[j] == t[j]);
                }
            },
            _ => {
                assert(tu[1] == t[1]);
            },
        }
    }
}

pub proof fn lemma_run_children_extend(
    cs: Seq<NodeView>,
    i: int,
    t: Seq<Visit>,
    j: int,
    u: Seq<Visit>,
)
    requires
        run_children(cs, i, t, j) is Some,
    ensures
        run_children(cs, i, t + u, j) == run_children(cs, i, t, j),
        j <= reached(run_children(cs, i, t, j)) <= t.len(),
    decreases cs, cs.len() - i,
{
    reveal(run);
    reveal(run_children);
    let tu = t + u;
    if !(i < 0 || i >= cs.len() || j < 0 || j > t.len()) {
        let rest = t.subrange(j, t.len() as int);
        assert(tu.subrange(j, tu.len() as int) =~= rest + u);
        lemma_run_extend(cs[i], rest, u);
        let (c, a) = run(cs[i], rest)->0;
        if a != NextAction::End {
            lemma_run_children_extend(cs, i + 1, t, j + c, u);
        }
    }
}

proof fn lemma_views_at<'a>(s: Seq<Node<'a>>, k: int)
    requires
        0 <= k < s.len(),
    ensures
        views(s).len() == s.len(),
        views(s)[k] == s[k]@,
{
    lemma_views_index(s);
}

/// The run of the children so far, on any continuation of the visits, is the run of the
/// remaining ones from where they stopped.
#[verifier::opaque]
pub open spec fn children_so_far(cs: Seq<NodeView>, i: int, log: Seq<Visit>) -> bool {
    forall|u: Seq<Visit>| #[trigger] run_children(cs, 0, log + u, 1) == run_children(
        cs,
        i,
        log + u,
        log.len() as int,
    )
}

proof fn lemma_children_start(cs: Seq<NodeView>, log: Seq<Visit>)
    requires
        log.len() == 1,
    ensures
        children_so_far(cs, 0, log),
{
    reveal(children_so_far);
}

proof fn lemma_children_step(cs: Seq<NodeView>, i: int, log: Seq<Visit>, t: Seq<Visit>, a: NextAction)
    requires
        0 <= i < cs.len(),
        1 <= log.len(),
        run(cs[i], t) == Some((t.len() as int, a)),
        children_so_far(cs, i, log),
    ensures
        a != NextAction::End ==> children_so_far(cs, i + 1, log + t),
        a == NextAction::End ==> run_children(cs, 0, log + t, 1) == Some(
            ((log + t).len() as int, true),
        ),
{
    reveal(run);
    reveal(run_children);
    reveal(children_so_far);
    assert forall|u: Seq<Visit>| #[trigger] run_children(cs, 0, (log + t) + u, 1) == if a
        == NextAction::End {
        Some(((log + t).len() as int, true))
    } else {
        run_children(cs, i + 1, (log + t) + u, (log + t).len() as int)
    } by {
        let w = t + u;
        assert((log + t) + u =~= log + w);
        assert((log + w).subrange(log.len() as int, (log + w).len() as int) =~= w);
        lemma_run_extend(cs[i], t, u);
        assert(run_children(cs, 0, log + w, 1) == run_children(cs, i, log + w, log.len() as int));
    }
    if a == NextAction::End {
        let e = Seq::<Visit>::empty();
        assert((log + t) + e =~= log + t);
    }
}

proof fn lemma_loop_step(
    cs: Seq<NodeView>,
    i: int,
    log: Seq<Visit>,
    v0: Seq<Visit>,
    before: Seq<Visit>,
    after: Seq<Visit>,
    a: NextAction,
)
    requires
        0 <= i < cs.len(),
        1 <= log.len(),
        before == v0 + log,
        before.len() < after.len(),
        after.subrange(0, before.len() as int) == before,
        run(cs[i], after.subrange(before.len() as int, after.len() as int)) == Some(
            ((after.len() - before.len()) as int, a),
        ),
        children_so_far(cs, i, log),
    ensures
        after == v0 + (log + after.subrange(before.len() as int, after.len() as int)),
        (log + after.subrange(before.len() as int, after.len() as int))[0] == log[0],
        a != NextAction::End ==> children_so_far(
            cs,
            i + 1,
            log + after.subrange(before.len() as int, after.len() as int),
        ),
        a == NextAction::End ==> run_children(
            cs,
            0,
            log + after.subrange(before.len() as int, after.len() as int),
            1,
        ) == Some(((log + after.subrange(before.len() as int, after.len() as int)).len() as int, true)),
{
    let t = after.subrange(before.len() as int, after.len() as int);
    assert(after =~= before + t);
    assert(after =~= v0 + (log + t));
    lemma_children_step(cs, i, log, t, a);
}

proof fn lemma_children_done(n: NodeView, log: Seq<Visit>, exit: Visit, v0: Seq<Visit>, full: Seq<Visit>)
    requires
        full == (v0 + log).push(exit),
        n.kind.is_container(),
        log.len() >= 1,
        log[0].node == n,
        log[0].direction == Direction::Entering,
        log[0].action == NextAction::GotoNext,
        children_so_far(n.children, n.children.len() as int, log),
        exit.node == n,
        exit.direction == Direction::Exiting,
    ensures
        run(n, full.subrange(v0.len() as int, full.len() as int)) == Some(
            ((log.len() + 1) as int, exit.action),
        ),
        full.subrange(0, v0.len() as int) == v0,
{
    assert(full.subrange(v0.len() as int, full.len() as int) =~= log.push(exit));
    assert(full.subrange(0, v0.len() as int) =~= v0);
    reveal(run);
    reveal(run_children);
    reveal(children_so_far);
    let u = seq![exit];
    assert(log + u =~= log.push(exit));
    assert(run_children(n.children, 0, log + u, 1) == run_children(
        n.children,
        n.children.len() as int,
        log + u,
        log.len() as int,
    ));
}

proof fn lemma_children_ended(n: NodeView, log: Seq<Visit>, v0: Seq<Visit>, full: Seq<Visit>)
    requires
        full == v0 + log,
        n.kind.is_container(),
        log.len() >= 1,
        log[0].node == n,
        log[0].direction == Direction::Entering,
        log[0].action == NextAction::GotoNext,
        run_children(n.children, 0, log, 1) == Some((log.len() as int, true)),
    ensures
        run(n, full.subrange(v0.len() as int, full.len() as int)) == Some(
            (log.len() as int, NextAction::End),
        ),
        full.subrange(0, v0.len() as int) == v0,
{
    assert(full.subrange(v0.len() as int, full.len() as int) =~= log);
    assert(full.subrange(0, v0.len() as int) =~= v0);
    reveal(run);
    reveal(run_children);
}

impl<'a> Node<'a> {
    /// Walks the tree from this node depth first, calling the visitor on entering each node
    /// and on leaving each container, until the visitor answers `End`. Returns the answer
    /// that ended the walk of this node: `End` if the walk was stopped.
    pub fn traverse<V: Visitor<'a>>(&'a self, visitor: &mut V) -> (r: NextAction)
        ensures
            old(visitor).visits().len() < final(visitor).visits().len(),
            final(visitor).visits().subrange(0, old(visitor).visits().len() as int) == old(
                visitor,
            ).visits(),
            run(
                self@,
                final(visitor).visits().subrange(
                    old(visitor).visits().len() as int,
                    final(visitor).visits().len() as int,
                ),
            ) == Some(
                (
                    (final(visitor).visits().len() - old(visitor).visits().len()) as int,
                    r,
                ),
            ),
        decreases self, 0int,
    {
        let ghost v0 = visitor.visits();
        let ghost s0 = v0.len() as int;
        let children: &'a Children<'a> = match self.children() {
            Some(c) => c,
            None => {
                let r = visitor.visit(self, Direction::Entering);
                proof {
                    let t = visitor.visits().subrange(s0, visitor.visits().len() as int);
                    assert(t =~= seq![
                        Visit { node: self@, direction: Direction::Entering, action: r },
                    ]);
                    assert(visitor.visits().subrange(0, s0) =~= v0);
                    assert(run(self@, t) == Some((1int, r))) by {
                        reveal(run);
                    }
                }
                return r;
            },
        };
        let first = visitor.visit(self, Direction::Entering);
        let ghost mut log = seq![
            Visit { node: self@, direction: Direction::Entering, action: first },
        ];
        assert(visitor.visits() =~= v0 + log);
        let ghost me = self@;
        let ghost cs = me.children;
        if first != NextAction::GotoNext {
            let r = visitor.visit(self, Direction::Exiting);
            proof {
                let t = visitor.visits().subrange(s0, visitor.visits().len() as int);
                assert(t =~= log.push(
                    Visit { node: self@, direction: Direction::Exiting, action: r },
                ));
                assert(visitor.visits().subrange(0, s0) =~= v0);
                let result = if first == NextAction::End {
                    NextAction::End
                } else {
                    r
                };
                assert(run(self@, t) == Some((2int, result))) by {
                    reveal(run);
                }
            }
            return if first == NextAction::End {
                NextAction::End
            } else {
                r
            };
        }
        let n = children.0.len();
        let mut i: usize = 0;
        let mut stopped = false;
        proof {
            lemma_children_start(cs, log);
            lemma_views_index(children.0@);
        }
        while i < n && !stopped
            invariant
                n == children.0@.len(),
                cs == views(children.0@),
                cs.len() == n,
                me == self@,
                me.kind.is_container(),
                me.children == cs,
                i <= n,
                log.len() >= 1,
                log[0] == (Visit { node: me, direction: Direction::Entering, action: first }),
                visitor.visits() == v0 + log,
                !stopped ==> children_so_far(cs, i as int, log),
                stopped ==> run_children(cs, 0, log, 1) == Some((log.len() as int, true)),
                children.0@ == self.child_nodes(),
            decreases n - i,
        {
            proof {
                lemma_children_decrease(*self, i as int);
                lemma_views_at(children.0@, i as int);
                assert(decreases_to!(*self => children.0@[i as int]));
            }
            let ghost before = visitor.visits();
            let a = children.0[i].traverse(visitor);
            let ghost t = visitor.visits().subrange(before.len() as int, visitor.visits().len() as int);
            proof {
                lemma_loop_step(cs, i as int, log, v0, before, visitor.visits(), a);
                log = log + t;
            }
            i += 1;
            stopped = a == NextAction::End;
        }
        if stopped {
            proof {
                lemma_children_ended(me, log, v0, visitor.visits());
            }
            return NextAction::End;
        }
        let r = visitor.visit(self, Direction::Exiting);
        proof {
            let exit = Visit { node: me, direction: Direction::Exiting, action: r };
            lemma_children_done(me, log, exit, v0, visitor.visits());
        }
        r
    }
}

/// Walks the tree from `root` depth first: the walk of `Node::traverse`.
pub fn walk<'a, V: Visitor<'a>>(root: &'a Node<'a>, visitor: &mut V) -> (r: NextAction)
    ensures
        old(visitor).visits().len() < final(visitor).visits().len(),
        final(visitor).visits().subrange(0, old(visitor).visits().len() as int) == old(
            visitor,
        ).visits(),
        run(
            root@,
            final(visitor).visits().subrange(
                old(visitor).visits().len() as int,
                final(visitor).visits().len() as int,
            ),
        ) == Some(((final(visitor).visits().len() - old(visitor).visits().len()) as int, r)),
{
    root.traverse(visitor)
}

} // verus!
