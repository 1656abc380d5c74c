use vstd::prelude::*;
use vstd::string::StringSliceAdditionalSpecFns;
use crate::model::{Kind, Node, NodeView, Reference};
use crate::traversal::{Direction, NextAction, Visit, Visitor};

verus! {

/// Whether two texts hold the same bytes.
pub fn same_text(a: &str, b: &str) -> (r: bool)
    ensures
        r == (a.spec_bytes() == b.spec_bytes()),
{
    let x = a.as_bytes();
    let y = b.as_bytes();
    if x.len() != y.len() {
        return false;
    }
    let mut i: usize = 0;
    while i < x.len()
        invariant
            x@ == a.spec_bytes(),
            y@ == b.spec_bytes(),
            x@.len() == y@.len(),
            i <= x@.len(),
            forall|k: int| 0 <= k < i ==> x@[k] == y@[k],
        decreases x@.len() - i,
    {
        if x[i] != y[i] {
            return false;
        }
        i += 1;
    }
    assert(x@ =~= y@);
    true
}

/// The position of the last definition named `name` among `defs`.
pub open spec fn last_named<'a>(defs: Seq<&'a Reference<'a>>, name: Seq<u8>) -> Option<int>
    decreases defs.len(),
{
    if defs.len() == 0 {
        None
    } else if defs.last().name.spec_bytes() == name {
        Some(defs.len() - 1)
    } else {
        last_named(defs.drop_last(), name)
    }
}

/// The reference definitions entered among the visits `log`, in order.
pub open spec fn entered_references(log: Seq<Visit>) -> Seq<NodeView>
    decreases log.len(),
{
    if log.len() == 0 {
        Seq::empty()
    } else {
        let prev = entered_references(log.drop_last());
        let v = log.last();
        if v.direction == Direction::Entering && v.node.kind is Reference {
            prev.push(v.node)
        } else {
            prev
        }
    }
}

/// The position of the last reference definition named `name` among the views `es`.
pub open spec fn last_entered_named(es: Seq<NodeView>, name: Seq<u8>) -> Option<int>
    decreases es.len(),
{
    if es.len() == 0 {
        None
    } else if es.last().kind matches Kind::Reference { name: n, .. } && n == name {
        Some(es.len() - 1)
    } else {
        last_entered_named(es.drop_last(), name)
    }
}

proof fn lemma_last_named_views<'a>(defs: Seq<&'a Reference<'a>>, es: Seq<NodeView>, name: Seq<u8>)
    requires
        defs.len() == es.len(),
        forall|k: int| 0 <= k < defs.len() ==> #[trigger] Node::Reference(*defs[k])@ == es[k],
    ensures
        last_named(defs, name) == last_entered_named(es, name),
        last_named(defs, name) matches Some(i) ==> 0 <= i < defs.len(),
    decreases defs.len(),
{
    if defs.len() > 0 {
        let k = defs.len() - 1;
        assert(Node::Reference(*defs[k])@ == es[k]);
        reveal_with_fuel(Node::view, 1);
        lemma_last_named_views(defs.drop_last(), es.drop_last(), name);
    }
}

/// Collects the reference definitions of a document, so that links can be resolved by name.
pub struct LinkResolver<'a> {
    definitions: Vec<&'a Reference<'a>>,
    history: Ghost<Seq<Visit>>,
}

impl<'a> LinkResolver<'a> {
    /// The definitions collected so far, in the order they were met.
    pub closed spec fn defs(&self) -> Seq<&'a Reference<'a>> {
        self.definitions@
    }

    /// The definitions held are exactly the reference definitions entered among the visits,
    /// in the same order.
    pub open spec fn tracks_visits(&self) -> bool {
        &&& self.defs().len() == entered_references(self.visits()).len()
        &&& forall|k: int|
            0 <= k < self.defs().len() ==> #[trigger] Node::Reference(*self.defs()[k])@
                == entered_references(self.visits())[k]
    }

    pub fn new() -> (r: Self)
        ensures
            r.defs().len() == 0,
            r.visits().len() == 0,
            r.tracks_visits(),
    {
        LinkResolver { definitions: Vec::new(), history: Ghost(Seq::empty()) }
    }

    /// Records a definition; a later one with the same name hides the earlier.
    pub fn define(&mut self, reference: &'a Reference<'a>)
        ensures
            final(self).defs() == old(self).defs().push(reference),
            final(self).visits() == old(self).visits(),
    {
        self.definitions.push(reference);
    }

    /// Records the node on entering it if it is a reference definition. Answers `GotoNext`
    /// for definitions and for the document, whose children are where definitions stand, and
    /// `SkipChildren` for everything else.
    pub fn record(&mut self, node: &'a Node<'a>, direction: Direction) -> (r: NextAction)
        ensures
            direction == Direction::Entering ==> (node matches Node::Reference(d)
                ==> final(self).defs() == old(self).defs().push(d)),
            !(node is Reference && direction == Direction::Entering) ==> final(self).defs()
                == old(self).defs(),
            final(self).visits() == old(self).visits(),
            r == if node is Reference || node is Document {
                NextAction::GotoNext
            } else {
                NextAction::SkipChildren
            },
    {
        match node {
            Node::Reference(reference) => {
                if direction == Direction::Entering {
                    self.define(reference);
                }
                NextAction::GotoNext
            },
            Node::Document(_) => NextAction::GotoNext,
            _ => NextAction::SkipChildren,
        }
    }

    /// The last definition collected under `name`, if any.
    pub fn resolve(&self, name: &str) -> (r: Option<&'a Reference<'a>>)
        ensures
            r is Some <==> last_named(self.defs(), name.spec_bytes()) is Some,
            r matches Some(d) ==> d == self.defs()[last_named(self.defs(), name.spec_bytes())->0],
    {
        let mut i = self.definitions.len();
        assert(self.definitions@.subrange(0, i as int) =~= self.definitions@);
        while i > 0
            invariant
                i <= self.definitions@.len(),
                last_named(self.definitions@, name.spec_bytes()) == last_named(
                    self.definitions@.subrange(0, i as int),
                    name.spec_bytes(),
                ),
            decreases i,
        {
            let d = self.definitions[i - 1];
            let ghost pre = self.definitions@.subrange(0, i as int);
            assert(pre.drop_last() =~= self.definitions@.subrange(0, i - 1));
            if same_text(d.name, name) {
                return Some(d);
            }
            i -= 1;
        }
        None
    }
}

/// After a pass that began with no definitions, the definition found for a name is the last
/// reference definition of that name entered during the pass: a later one replaces an
/// earlier.
pub proof fn lemma_resolve_after_pass<'a>(resolver: &LinkResolver<'a>, name: Seq<u8>)
    requires
        resolver.tracks_visits(),
    ensures
        last_named(resolver.defs(), name) == last_entered_named(
            entered_references(resolver.visits()),
            name,
        ),
        last_named(resolver.defs(), name) matches Some(i) ==> Node::Reference(
            *resolver.defs()[i],
        )@ == entered_references(resolver.visits())[i],
{
    let defs = resolver.defs();
    let es = entered_references(resolver.visits());
    lemma_last_named_views(defs, es, name);
    match last_named(defs, name) {
        Some(i) => {
            assert(Node::Reference(*defs[i])@ == es[i]);
        },
        None => {},
    }
}

impl<'a> Visitor<'a> for LinkResolver<'a> {
    closed spec fn visits(&self) -> Seq<Visit> {
        self.history@
    }

    /// Records each reference definition on entering it; descends only from the document.
    fn visit(&mut self, node: &'a Node<'a>, direction: Direction) -> (r: NextAction)
        ensures
            r == if node is Reference || node is Document {
                NextAction::GotoNext
            } else {
                NextAction::SkipChildren
            },
            direction == Direction::Entering ==> (node matches Node::Reference(d)
                ==> final(self).defs() == old(self).defs().push(d)),
            !(node is Reference && direction == Direction::Entering) ==> final(self).defs()
                == old(self).defs(),
            old(self).tracks_visits() ==> final(self).tracks_visits(),
    {
        let ghost before = *self;
        let r = self.record(node, direction);
        self.history = Ghost(self.history@.push(Visit { node: node@, direction, action: r }));
        proof {
            let log = self.history@;
            assert(log.drop_last() =~= before.history@);
            if before.tracks_visits() {
                let e = entered_references(log);
                assert forall|k: int| 0 <= k < self.defs().len() implies #[trigger] Node::Reference(
                    *self.defs()[k],
                )@ == e[k] by {
                    if k < before.defs().len() {
                        assert(self.defs()[k] == before.defs()[k]);
                    }
                }
            }
        }
        r
    }
}

} // verus!
