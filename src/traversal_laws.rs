use vstd::prelude::*;
use crate::model::NodeView;
use crate::traversal::{
    Direction, NextAction, Visit, answer, ended, reached, run, run_children, used,
};

verus! {

/// The node and direction of each visit.
pub open spec fn events(t: Seq<Visit>) -> Seq<(NodeView, Direction)> {
    Seq::new(t.len(), |k: int| (t[k].node, t[k].direction))
}

/// The visits of a full walk of `n`: a leaf is entered once; a container is entered, its
/// children are walked in order, and it is exited.
pub open spec fn brackets(n: NodeView) -> Seq<(NodeView, Direction)>
    decreases n, 1int,
{
    if !n.kind.is_container() {
        seq![(n, Direction::Entering)]
    } else {
        seq![(n, Direction::Entering)] + brackets_from(n.children, 0) + seq![
            (n, Direction::Exiting),
        ]
    }
}

/// The full walks of `cs[i..]`, one after the other.
pub open spec fn brackets_from(cs: Seq<NodeView>, i: int) -> Seq<(NodeView, Direction)>
    decreases cs, cs.len() - i,
{
    if i < 0 || i >= cs.len() {
        Seq::empty()
    } else {
        brackets(cs[i]) + brackets_from(cs, i + 1)
    }
}

pub open spec fn all_go_next(t: Seq<Visit>) -> bool {
    forall|k: int| 0 <= k < t.len() ==> (#[trigger] t[k]).action == NextAction::GotoNext
}

/// With a visitor that always answers `GotoNext`, a traversal of `n` makes exactly the visits
/// of `brackets(n)`: each container entered and later exited around its children, each leaf
/// entered once and never exited; and it returns `GotoNext`.
pub proof fn lemma_walk_brackets(n: NodeView, t: Seq<Visit>)
    requires
        all_go_next(t),
        run(n, t) is Some,
    ensures
        run(n, t) == Some((brackets(n).len() as int, NextAction::GotoNext)),
        events(t).subrange(0, brackets(n).len() as int) == brackets(n),
        brackets(n).len() <= t.len(),
    decreases n, 1int,
{
    reveal(run);
    reveal(run_children);
    assert(t[0].action == NextAction::GotoNext);
    if !n.kind.is_container() {
        assert(events(t).subrange(0, 1) =~= brackets(n));
    } else {
        lemma_children_brackets(n.children, 0, t, 1);
        let j = 1 + brackets_from(n.children, 0).len() as int;
        assert(t[j].action == NextAction::GotoNext);
        assert(events(t).subrange(0, j + 1) =~= seq![(n, Direction::Entering)] + events(
            t,
        ).subrange(1, j) + seq![(n, Direction::Exiting)]);
    }
}

pub proof fn lemma_children_brackets(cs: Seq<NodeView>, i: int, t: Seq<Visit>, j: int)
    requires
        all_go_next(t),
        0 <= i <= cs.len(),
        0 <= j <= t.len(),
        run_children(cs, i, t, j) is Some,
    ensures
        run_children(cs, i, t, j) == Some((j + brackets_from(cs, i).len(), false)),
        events(t).subrange(j, j + brackets_from(cs, i).len()) == brackets_from(cs, i),
        j + brackets_from(cs, i).len() <= t.len(),
    decreases cs, cs.len() - i,
{
    reveal(run_children);
    reveal(run);
    if i < cs.len() {
        let rest = t.subrange(j, t.len() as int);
        assert(all_go_next(rest)) by {
            assert forall|k: int| 0 <= k < rest.len() implies (#[trigger] rest[k]).action
                == NextAction::GotoNext by {
                assert(rest[k] == t[j + k]);
            }
        }
        lemma_walk_brackets(cs[i], rest);
        let c = brackets(cs[i]).len() as int;
        assert(events(rest).subrange(0, c) =~= events(t).subrange(j, j + c));
        lemma_children_brackets(cs, i + 1, t, j + c);
        let m = brackets_from(cs, i + 1).len() as int;
        assert(events(t).subrange(j, j + c + m) =~= events(t).subrange(j, j + c) + events(
            t,
        ).subrange(j + c, j + c + m));
    } else {
        assert(events(t).subrange(j, j) =~= brackets_from(cs, i));
    }
}

/// No visit among `t[lo..hi]` was answered `End`.
pub open spec fn no_end(t: Seq<Visit>, lo: int, hi: int) -> bool {
    forall|k: int| lo <= k < hi ==> (#[trigger] t[k]).action != NextAction::End
}

/// The visits `t[lo..hi]` stop at the first `End`: either the last of them is the one
/// answered `End`, or it is the exiting visit of the node whose entering visit, just before,
/// was answered `End`. No visit before that was answered `End`.
pub open spec fn stops(t: Seq<Visit>, lo: int, hi: int) -> bool {
    ||| lo < hi && t[hi - 1].action == NextAction::End && no_end(t, lo, hi - 1)
    ||| lo + 2 <= hi && t[hi - 2].action == NextAction::End && t[hi - 2].direction
        == Direction::Entering && t[hi - 1].direction == Direction::Exiting && t[hi - 1].node
        == t[hi - 2].node && no_end(t, lo, hi - 2)
}

proof fn lemma_shift(t: Seq<Visit>, j: int, c: int, a: NextAction)
    requires
        0 <= j <= t.len(),
        0 <= c <= t.len() - j,
        a == NextAction::End ==> stops(t.subrange(j, t.len() as int), 0, c),
        a != NextAction::End ==> no_end(t.subrange(j, t.len() as int), 0, c),
    ensures
        a == NextAction::End ==> stops(t, j, j + c),
        a != NextAction::End ==> no_end(t, j, j + c),
{
    let rest = t.subrange(j, t.len() as int);
    assert forall|k: int| 0 <= k < c implies #[trigger] rest[k] == t[j + k] by {}
    if a == NextAction::End {
        if c >= 1 {
            assert(rest[c - 1] == t[j + c - 1]);
        }
        if c >= 2 {
            assert(rest[c - 2] == t[j + c - 2]);
        }
        assert forall|k: int| j <= k < j + c - 1 && no_end(rest, 0, c - 1) implies (#[trigger] t[k]).action
            != NextAction::End by {
            assert(rest[k - j] == t[k]);
        }
        assert forall|k: int| j <= k < j + c - 2 && no_end(rest, 0, c - 2) implies (#[trigger] t[k]).action
            != NextAction::End by {
            assert(rest[k - j] == t[k]);
        }
    } else {
        assert forall|k: int| j <= k < j + c implies (#[trigger] t[k]).action
            != NextAction::End by {
            assert(rest[k - j] == t[k]);
        }
    }
}

/// A walk that returns `End` stops right after the visit that asked for it, so no ancestor
/// of the node that stopped it gets its exiting visit and no later subtree is visited; a walk
/// that returns anything else was never asked to stop.
pub proof fn lemma_walk_stops(n: NodeView, t: Seq<Visit>)
    requires
        run(n, t) is Some,
    ensures
        1 <= used(run(n, t)) <= t.len(),
        answer(run(n, t)) == NextAction::End ==> stops(t, 0, used(run(n, t))),
        answer(run(n, t)) != NextAction::End ==> no_end(t, 0, used(run(n, t))),
    decreases n, 1int,
{
    reveal(run);
    reveal(run_children);
    if n.kind.is_container() {
        if t[0].action == NextAction::GotoNext {
            lemma_children_stop(n.children, 0, t, 1);
        }
    }
}

pub proof fn lemma_children_stop(cs: Seq<NodeView>, i: int, t: Seq<Visit>, j: int)
    requires
        1 <= j <= t.len(),
        t[0].action != NextAction::End,
        no_end(t, 0, j),
        run_children(cs, i, t, j) is Some,
    ensures
        j <= reached(run_children(cs, i, t, j)) <= t.len(),
        ended(run_children(cs, i, t, j)) ==> stops(t, 0, reached(run_children(cs, i, t, j))),
        !ended(run_children(cs, i, t, j)) ==> no_end(t, 0, reached(run_children(cs, i, t, j))),
    decreases cs, cs.len() - i,
{
    reveal(run_children);
    reveal(run);
    if 0 <= i < cs.len() {
        let rest = t.subrange(j, t.len() as int);
        lemma_walk_stops(cs[i], rest);
        let (c, a) = run(cs[i], rest)->0;
        lemma_shift(t, j, c, a);
        if a != NextAction::End {
            lemma_children_stop(cs, i + 1, t, j + c);
        }
    }
}

} // verus!
