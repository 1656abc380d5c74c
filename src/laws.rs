use vstd::prelude::*;
use vstd::string::StringSliceAdditionalSpecFns;
use crate::build_model::{
    build, children_of, coalesce, flush, renumber, renumber_step, text_view,
    lemma_renumber_unfold, lemma_coalesce_unfold,
};
use crate::model::{Kind, NodeView, Reference};
use crate::rule::Rule;
use crate::resolver::last_named;
use crate::span::Span;

verus! {

/// Of two definitions with the same name, the one collected later is the one found.
pub proof fn lemma_last_definition_wins<'a>(
    defs: Seq<&'a Reference<'a>>,
    first: &'a Reference<'a>,
    second: &'a Reference<'a>,
)
    requires
        first.name.spec_bytes() == second.name.spec_bytes(),
    ensures
        last_named(defs.push(first).push(second), first.name.spec_bytes()) == Some(
            defs.len() as int + 1,
        ),
        defs.push(first).push(second)[defs.len() as int + 1] == second,
{
}

/// The sub-spans `cs` cover `[start, end)` end to end, with nothing between them.
pub open spec fn tiles(cs: Seq<Span>, start: int, end: int) -> bool {
    &&& cs.len() > 0
    &&& cs[0].start == start
    &&& cs[cs.len() - 1].end == end
    &&& forall|k: int| 0 < k < cs.len() ==> #[trigger] cs[k].start == cs[k - 1].end
}

proof fn lemma_plaintext_run(b: Seq<u8>, cs: Seq<Span>, i: int, start: int)
    requires
        1 <= i <= cs.len(),
        cs[0].start == start,
        forall|k: int| 0 < k < cs.len() ==> #[trigger] cs[k].start == cs[k - 1].end,
        forall|k: int| 0 <= k < cs.len() ==> (#[trigger] cs[k]).rule.plaintext(),
        forall|k: int| 0 <= k < cs.len() ==> (#[trigger] cs[k]).start <= cs[k].end,
        start <= cs[i - 1].end,
    ensures
        coalesce(b, cs, i, start, cs[i - 1].end as int, Seq::empty()) == coalesce(
            b,
            cs,
            cs.len() as int,
            start,
            cs[cs.len() - 1].end as int,
            Seq::empty(),
        ),
    decreases cs.len() - i,
{
    lemma_coalesce_unfold(b, cs, i, start, cs[i - 1].end as int, Seq::empty());
    if i < cs.len() {
        assert(cs[i].start == cs[i - 1].end);
        lemma_plaintext_run(b, cs, i + 1, start);
    }
}

/// Building a container whose sub-spans are all plaintext and cover it end to end gives
/// exactly one child: a text node spanning the whole container.
pub proof fn lemma_plaintext_container(b: Seq<u8>, s: Span)
    requires
        s.wf(b),
        s.start < s.end,
        tiles(s.inner@, s.start as int, s.end as int),
        forall|k: int| 0 <= k < s.inner@.len() ==> (#[trigger] s.inner@[k]).rule.plaintext(),
    ensures
        children_of(b, s, 0) == Ok::<Seq<NodeView>, Seq<char>>(
            seq![text_view(b, s.start as int, s.end as int)],
        ),
{
    let cs = s.inner@;
    assert(cs[0].wf(b));
    assert forall|k: int| 0 <= k < cs.len() implies (#[trigger] cs[k]).start <= cs[k].end by {
        assert(cs[k].wf(b));
    }
    lemma_plaintext_run(b, cs, 1, s.start as int);
    lemma_coalesce_unfold(b, cs, 0, s.start as int, s.start as int, Seq::empty());
    lemma_coalesce_unfold(b, cs, cs.len() as int, s.start as int, s.end as int, Seq::empty());
    assert(coalesce(b, cs, 0, s.start as int, s.start as int, Seq::empty()) == coalesce(
        b,
        cs,
        1,
        s.start as int,
        cs[0].end as int,
        Seq::empty(),
    ));
    assert(Seq::<NodeView>::empty().push(text_view(b, s.start as int, s.end as int)) =~= seq![
        text_view(b, s.start as int, s.end as int),
    ]);
}

/// No text node in the tree `v` has an empty span.
pub open spec fn texts_nonempty(v: NodeView) -> bool
    decreases v,
{
    &&& (v.kind is Text ==> v.span.len() > 0)
    &&& forall|k: int| 0 <= k < v.children.len() ==> texts_nonempty(#[trigger] v.children[k])
}

pub open spec fn all_texts_nonempty(vs: Seq<NodeView>) -> bool {
    forall|k: int| 0 <= k < vs.len() ==> texts_nonempty(#[trigger] vs[k])
}

proof fn lemma_node_of_children(v: NodeView)
    requires
        !(v.kind is Text),
        all_texts_nonempty(v.children),
    ensures
        texts_nonempty(v),
{
}

proof fn lemma_coalesce_texts(
    b: Seq<u8>,
    cs: Seq<Span>,
    i: int,
    rs: int,
    re: int,
    acc: Seq<NodeView>,
)
    requires
        0 <= i <= cs.len(),
        0 <= rs <= re <= b.len(),
        i < cs.len() ==> re <= cs[i].start,
        forall|k: int| i <= k < cs.len() ==> (#[trigger] cs[k]).wf(b),
        forall|k: int| i < k < cs.len() ==> cs[k - 1].end <= #[trigger] cs[k].start,
        all_texts_nonempty(acc),
        coalesce(b, cs, i, rs, re, acc) is Ok,
    ensures
        all_texts_nonempty(coalesce(b, cs, i, rs, re, acc)->Ok_0),
    decreases cs, cs.len() - i,
{
    lemma_coalesce_unfold(b, cs, i, rs, re, acc);
    let f = flush(b, rs, re, acc);
    assert(all_texts_nonempty(f)) by {
        if rs != re {
            assert(texts_nonempty(text_view(b, rs, re)));
            assert forall|k: int| 0 <= k < f.len() implies texts_nonempty(#[trigger] f[k]) by {
                if k < acc.len() {
                    assert(f[k] == acc[k]);
                }
            }
        }
    }
    if i < cs.len() {
        let c = cs[i];
        assert(c.wf(b));
        if c.rule.plaintext() {
            let rs2 = if c.start > re {
                c.start as int
            } else {
                rs
            };
            lemma_coalesce_texts(b, cs, i + 1, rs2, c.end as int, acc);
        } else {
            let n = build(b, c)->Ok_0;
            lemma_build_texts(b, c);
            let g = f.push(n);
            assert forall|k: int| 0 <= k < g.len() implies texts_nonempty(#[trigger] g[k]) by {
                if k < f.len() {
                    assert(g[k] == f[k]);
                }
            }
            lemma_coalesce_texts(b, cs, i + 1, c.end as int, c.end as int, g);
        }
    }
}

proof fn lemma_children_texts(b: Seq<u8>, s: Span, from: int)
    requires
        s.wf(b),
        0 <= from <= s.inner@.len(),
        children_of(b, s, from) is Ok,
    ensures
        all_texts_nonempty(children_of(b, s, from)->Ok_0),
    decreases s, 2int,
{
    assert(decreases_to!(s => s.inner@));
    lemma_coalesce_texts(b, s.inner@, from, s.start as int, s.start as int, Seq::empty());
}

proof fn lemma_renumber_texts(items: Seq<NodeView>, i: int, prev: u32, acc: Seq<NodeView>)
    requires
        0 <= i <= items.len(),
        all_texts_nonempty(items),
        all_texts_nonempty(acc),
        renumber(items, i, prev, acc) is Some,
    ensures
        all_texts_nonempty(renumber(items, i, prev, acc)->0),
    decreases items.len() - i,
{
    lemma_renumber_unfold(items, i, prev, acc);
    if i < items.len() {
        let (m, p) = renumber_step(items[i], prev)->0;
        assert(texts_nonempty(items[i]));
        assert(texts_nonempty(m));
        let g = acc.push(m);
        assert forall|k: int| 0 <= k < g.len() implies texts_nonempty(#[trigger] g[k]) by {
            if k < acc.len() {
                assert(g[k] == acc[k]);
            }
        }
        lemma_renumber_texts(items, i + 1, p, g);
    }
}

/// Every tree the builder produces has no text node with an empty span.
pub proof fn lemma_build_texts(b: Seq<u8>, s: Span)
    requires
        s.wf(b),
        build(b, s) is Ok,
    ensures
        texts_nonempty(build(b, s)->Ok_0),
    decreases s, 4int,
{
    reveal(build);
    let v = build(b, s)->Ok_0;
    if s.inner@.len() > 0 {
        assert(s.inner@[0].wf(b));
        assert(decreases_to!(s => s.inner@[0]));
    }
    if v.kind.is_container() {
        if s.rule == Rule::BulletList || s.rule == Rule::OrderedList {
            let form = s.inner@[0];
            lemma_children_texts(b, form, 0);
            lemma_renumber_texts(children_of(b, form, 0)->Ok_0, 0, 0, Seq::empty());
        } else if s.rule == Rule::Link || s.rule == Rule::Reference {
            lemma_children_texts(b, s.inner@[0], 0);
        } else if s.rule == Rule::Header || s.rule == Rule::ListItem
            || s.rule == Rule::ListItemTight {
            lemma_children_texts(b, s, 1);
        } else if s.rule == Rule::FencedCodeblock && s.inner@.len() > 0
            && s.inner@[0].rule == Rule::InfoStringLanguage {
            lemma_children_texts(b, s, 1);
        } else {
            lemma_children_texts(b, s, 0);
        }
        lemma_node_of_children(v);
    }
}

pub open spec fn item_index(v: NodeView) -> Option<u32> {
    match v.kind {
        Kind::ListItem { index } => Some(index),
        _ => None,
    }
}

/// The list items among `vs` have strictly increasing indices, each at least `low`.
pub open spec fn numbered_from(vs: Seq<NodeView>, low: int) -> bool {
    &&& forall|i: int|
        0 <= i < vs.len() && #[trigger] item_index(vs[i]) is Some ==> low <= item_index(vs[i])->0
    &&& forall|i: int, j: int|
        0 <= i < j < vs.len() && #[trigger] item_index(vs[i]) is Some
            && #[trigger] item_index(vs[j]) is Some ==> item_index(vs[i])->0 < item_index(
            vs[j],
        )->0
}

proof fn lemma_renumber_increasing(items: Seq<NodeView>, i: int, prev: u32, acc: Seq<NodeView>)
    requires
        0 <= i <= items.len(),
        numbered_from(acc, 1),
        forall|k: int|
            0 <= k < acc.len() && #[trigger] item_index(acc[k]) is Some ==> item_index(acc[k])->0
                <= prev,
        renumber(items, i, prev, acc) is Some,
    ensures
        numbered_from(renumber(items, i, prev, acc)->0, 1),
    decreases items.len() - i,
{
    lemma_renumber_unfold(items, i, prev, acc);
    if i < items.len() {
        let (m, p) = renumber_step(items[i], prev)->0;
        let g = acc.push(m);
        assert(item_index(m) is Some ==> item_index(m)->0 == p && p > prev && p >= 1);
        assert(item_index(m) is None ==> p == prev);
        assert forall|k: int|
            0 <= k < g.len() && #[trigger] item_index(g[k]) is Some implies item_index(g[k])->0
                <= p by {
            if k < acc.len() {
                assert(g[k] == acc[k]);
            }
        }
        assert forall|k: int|
            0 <= k < g.len() && #[trigger] item_index(g[k]) is Some implies 1 <= item_index(
                g[k],
            )->0 by {
            if k < acc.len() {
                assert(g[k] == acc[k]);
            }
        }
        assert forall|x: int, y: int|
            0 <= x < y < g.len() && #[trigger] item_index(g[x]) is Some
                && #[trigger] item_index(g[y]) is Some implies item_index(g[x])->0
                < item_index(g[y])->0 by {
            assert(g[x] == acc[x]);
            if y < acc.len() {
                assert(g[y] == acc[y]);
            }
        }
        lemma_renumber_increasing(items, i + 1, p, g);
    }
}

/// In every list the builder produces, the items are numbered from 1 up, strictly increasing,
/// whatever numbers the source wrote.
pub proof fn lemma_list_numbering_increases(b: Seq<u8>, s: Span)
    requires
        s.wf(b),
        s.rule == Rule::BulletList || s.rule == Rule::OrderedList,
        build(b, s) is Ok,
    ensures
        numbered_from(build(b, s)->Ok_0.children, 1),
{
    reveal(build);
    let items = children_of(b, s.inner@[0], 0)->Ok_0;
    lemma_renumber_increasing(items, 0, 0, Seq::empty());
}

} // verus!
