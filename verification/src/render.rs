//! The renderer: each paragraph becomes one presentational block whose
//! nodes are rendered per element kind. A nested block renders as an
//! ordered list whose items each run the full pipeline again — segment,
//! then render — so the same paragraph rules hold at every depth.

use crate::model::ElemModel;
use crate::model::Paragraph;
use crate::model::RichElement;
use crate::model::RichString;
use crate::model::elem_model;
use crate::model::elems_model;
use crate::model::lemma_elems_model_len;
use crate::model::paras_model;
use crate::model::saga_items_model;
use crate::model::lemma_saga_items_model_len;
use crate::nesting::elem_height;
use crate::nesting::items_height;
use crate::nesting::lemma_items_height_para;
use crate::nesting::lemma_para_height_elem;
use crate::nesting::lemma_segment_height;
use crate::nesting::para_height;
use crate::segment::segment;
use crate::segment::segment_model;
use vstd::prelude::*;

verus! {

/// One rendered inline node.
#[derive(Debug, PartialEq)]
pub enum RenderNode {
    /// A literal text node: a plain run or a bare card mention.
    Text(String),
    /// A navigable reference to the card-detail view keyed by `id`.
    CardNav { label: String, id: String },
    /// A navigable reference to the search view for a stored query.
    SearchNav { label: String, query: String },
    /// An ordered list: one fully rendered document per nested item.
    List(Vec<RenderedItem>),
    /// The rendering of an explicit break standing inside a paragraph.
    Break,
}

/// The rendering of one nested item: its own sequence of blocks.
pub type RenderedItem = Vec<RenderBlock>;

/// One block-level output unit; every paragraph becomes exactly one.
#[derive(Debug, PartialEq)]
pub struct RenderBlock {
    pub nodes: Vec<RenderNode>,
}

/// The mathematical value of a rendered node.
#[verifier::ext_equal]
pub enum NodeModel {
    Text(Seq<char>),
    CardNav { label: Seq<char>, id: Seq<char> },
    SearchNav { label: Seq<char>, query: Seq<char> },
    List(Seq<Seq<Seq<NodeModel>>>),
    Break,
}

pub open spec fn node_model(n: RenderNode) -> NodeModel
    decreases n,
{
    match n {
        RenderNode::Text(s) => NodeModel::Text(s@),
        RenderNode::CardNav { label, id } => NodeModel::CardNav { label: label@, id: id@ },
        RenderNode::SearchNav { label, query } => NodeModel::SearchNav {
            label: label@,
            query: query@,
        },
        RenderNode::List(items) => NodeModel::List(rendered_items_model(items@)),
        RenderNode::Break => NodeModel::Break,
    }
}

pub open spec fn rendered_items_model(its: Seq<RenderedItem>) -> Seq<Seq<Seq<NodeModel>>>
    decreases its,
{
    if its.len() == 0 {
        Seq::empty()
    } else {
        rendered_items_model(its.drop_last()).push(blocks_model(its.last()@))
    }
}

pub open spec fn blocks_model(bs: Seq<RenderBlock>) -> Seq<Seq<NodeModel>>
    decreases bs,
{
    if bs.len() == 0 {
        Seq::empty()
    } else {
        blocks_model(bs.drop_last()).push(nodes_model(bs.last().nodes@))
    }
}

pub open spec fn nodes_model(ns: Seq<RenderNode>) -> Seq<NodeModel>
    decreases ns,
{
    if ns.len() == 0 {
        Seq::empty()
    } else {
        nodes_model(ns.drop_last()).push(node_model(ns.last()))
    }
}

/// What one element renders to.
pub open spec fn render_elem_model(m: ElemModel) -> NodeModel
    decreases elem_height(m), 0int, 0int,
{
    match m {
        ElemModel::PlainText { text } => NodeModel::Text(text),
        ElemModel::CardReference { display, identity } => NodeModel::Text(display),
        ElemModel::SpecificCardLink { display, id } => NodeModel::CardNav { label: display, id },
        ElemModel::SearchLink { display, query } => NodeModel::SearchNav {
            label: display,
            query,
        },
        ElemModel::Saga { items } => NodeModel::List(render_items_model(items)),
        ElemModel::LineBreak => NodeModel::Break,
    }
}

/// What the items of a nested block render to: one document each.
pub open spec fn render_items_model(items: Seq<Seq<ElemModel>>) -> Seq<Seq<Seq<NodeModel>>>
    decreases items_height(items), 4int, items.len(),
{
    if items.len() == 0 {
        Seq::empty()
    } else {
        render_items_model(items.drop_last()).push(render_doc_model(items.last()))
    }
}

/// What a whole rich string renders to: segment, then render.
pub open spec fn render_doc_model(rs: Seq<ElemModel>) -> Seq<Seq<NodeModel>>
    decreases para_height(rs), 3int, 0int,
    via render_doc_model_decreases
{
    render_paras_model(segment_model(rs))
}

#[via_fn]
proof fn render_doc_model_decreases(rs: Seq<ElemModel>) {
    lemma_segment_height(rs);
}

/// What a sequence of paragraphs renders to: one block each.
pub open spec fn render_paras_model(ps: Seq<Seq<ElemModel>>) -> Seq<Seq<NodeModel>>
    decreases items_height(ps), 2int, ps.len(),
{
    if ps.len() == 0 {
        Seq::empty()
    } else {
        render_paras_model(ps.drop_last()).push(render_para_model(ps.last()))
    }
}

/// What one paragraph renders to: its elements' nodes, in order.
pub open spec fn render_para_model(p: Seq<ElemModel>) -> Seq<NodeModel>
    decreases para_height(p), 1int, p.len(),
{
    if p.len() == 0 {
        Seq::empty()
    } else {
        render_para_model(p.drop_last()).push(render_elem_model(p.last()))
    }
}

pub proof fn lemma_render_items_model_index(items: Seq<Seq<ElemModel>>)
    ensures
        render_items_model(items).len() == items.len(),
        forall|i: int| 0 <= i < items.len() ==> render_items_model(items)[i]
            == render_doc_model(items[i]),
    decreases items.len(),
{
    if items.len() > 0 {
        lemma_render_items_model_index(items.drop_last());
    }
}

proof fn lemma_nodes_model_push(ns: Seq<RenderNode>, n: RenderNode)
    ensures
        nodes_model(ns.push(n)) == nodes_model(ns).push(node_model(n)),
{
    assert(ns.push(n).drop_last() =~= ns);
    assert(ns.push(n).last() == n);
}

proof fn lemma_blocks_model_push(bs: Seq<RenderBlock>, b: RenderBlock)
    ensures
        blocks_model(bs.push(b)) == blocks_model(bs).push(nodes_model(b.nodes@)),
{
    assert(bs.push(b).drop_last() =~= bs);
    assert(bs.push(b).last() == b);
}

proof fn lemma_rendered_items_model_push(its: Seq<RenderedItem>, it: RenderedItem)
    ensures
        rendered_items_model(its.push(it)) == rendered_items_model(its).push(blocks_model(it@)),
{
    assert(its.push(it).drop_last() =~= its);
    assert(its.push(it).last() == it);
}

proof fn lemma_render_items_model_push(items: Seq<Seq<ElemModel>>, rs: Seq<ElemModel>)
    ensures
        render_items_model(items.push(rs)) == render_items_model(items).push(
            render_doc_model(rs),
        ),
{
    assert(items.push(rs).drop_last() =~= items);
    assert(items.push(rs).last() == rs);
}

proof fn lemma_render_paras_model_push(ps: Seq<Seq<ElemModel>>, p: Seq<ElemModel>)
    ensures
        render_paras_model(ps.push(p)) == render_paras_model(ps).push(render_para_model(p)),
{
    assert(ps.push(p).drop_last() =~= ps);
    assert(ps.push(p).last() == p);
}

proof fn lemma_render_para_model_push(p: Seq<ElemModel>, m: ElemModel)
    ensures
        render_para_model(p.push(m)) == render_para_model(p).push(render_elem_model(m)),
{
    assert(p.push(m).drop_last() =~= p);
    assert(p.push(m).last() == m);
}

proof fn lemma_paras_advance(
    all: Seq<Seq<ElemModel>>,
    k: int,
    prev: Seq<Paragraph>,
    cur: Seq<Paragraph>,
)
    requires
        0 <= k <= all.len(),
        paras_model(prev) == all.skip(k),
        prev.len() > 0,
        cur == prev.drop_first(),
    ensures
        k < all.len(),
        elems_model(prev[0]@) == all[k],
        paras_model(cur) == all.skip(k + 1),
{
    assert(all.skip(k).len() == all.len() - k);
    assert(paras_model(prev).len() == prev.len());
    assert(paras_model(prev)[0] == elems_model(prev[0]@));
    vstd::seq_lib::lemma_seq_skip_index(all, k, 0);
    assert forall|j: int| 0 <= j < cur.len() implies #[trigger] paras_model(cur)[j] == all.skip(
        k + 1,
    )[j] by {
        assert(paras_model(cur)[j] == elems_model(cur[j]@));
        assert(cur[j] == prev[j + 1]);
        assert(paras_model(prev)[j + 1] == elems_model(prev[j + 1]@));
        vstd::seq_lib::lemma_seq_skip_index(all, k, j + 1);
        vstd::seq_lib::lemma_seq_skip_index(all, k + 1, j);
    }
    assert(paras_model(cur) =~= all.skip(k + 1));
}

proof fn lemma_items_advance(
    all: Seq<Seq<ElemModel>>,
    k: int,
    prev: Seq<RichString>,
    cur: Seq<RichString>,
)
    requires
        0 <= k <= all.len(),
        saga_items_model(prev) == all.skip(k),
        prev.len() > 0,
        cur == prev.drop_first(),
    ensures
        k < all.len(),
        elems_model(prev[0]@) == all[k],
        saga_items_model(cur) == all.skip(k + 1),
{
    lemma_saga_items_model_len(prev);
    lemma_saga_items_model_len(cur);
    assert(all.skip(k).len() == all.len() - k);
    assert(saga_items_model(prev)[0] == elems_model(prev[0]@));
    vstd::seq_lib::lemma_seq_skip_index(all, k, 0);
    assert forall|j: int| 0 <= j < cur.len() implies #[trigger] saga_items_model(cur)[j]
        == all.skip(k + 1)[j] by {
        assert(saga_items_model(cur)[j] == elems_model(cur[j]@));
        assert(cur[j] == prev[j + 1]);
        assert(saga_items_model(prev)[j + 1] == elems_model(prev[j + 1]@));
        vstd::seq_lib::lemma_seq_skip_index(all, k, j + 1);
        vstd::seq_lib::lemma_seq_skip_index(all, k + 1, j);
    }
    assert(saga_items_model(cur) =~= all.skip(k + 1));
}

/// Renders one element to its presentational node.
pub fn render_element(e: RichElement) -> (r: RenderNode)
    ensures
        node_model(r) == render_elem_model(elem_model(e)),
    decreases elem_height(elem_model(e)), 0int, 0int,
{
    match e {
        RichElement::PlainText(text) => RenderNode::Text(text),
        RichElement::CardReference { display, identity: _ } => RenderNode::Text(display),
        RichElement::SpecificCardLink { display, id } => RenderNode::CardNav {
            label: display,
            id,
        },
        RichElement::SearchLink { display, query } => RenderNode::SearchNav {
            label: display,
            query,
        },
        RichElement::Saga(items) => RenderNode::List(render_saga_items(items)),
        RichElement::LineBreak => RenderNode::Break,
    }
}

/// Renders the items of a nested block: one full document each.
fn render_saga_items(items: Vec<RichString>) -> (r: Vec<RenderedItem>)
    ensures
        rendered_items_model(r@) == render_items_model(saga_items_model(items@)),
    decreases items_height(saga_items_model(items@)), 4int, 0int,
{
    let ghost all = saga_items_model(items@);
    let mut rest = items;
    let mut out: Vec<RenderedItem> = Vec::new();
    let ghost mut k: int = 0;
    proof {
        assert(all.skip(0) =~= all);
        assert(all.take(0) =~= Seq::<Seq<ElemModel>>::empty());
        assert(rendered_items_model(out@) == Seq::<Seq<Seq<NodeModel>>>::empty());
        assert(render_items_model(all.take(0)) == Seq::<Seq<Seq<NodeModel>>>::empty());
    }
    while rest.len() > 0
        invariant
            0 <= k <= all.len(),
            saga_items_model(rest@) == all.skip(k),
            rendered_items_model(out@) == render_items_model(all.take(k)),
            items_height(all) <= items_height(saga_items_model(items@)),
            all == saga_items_model(items@),
        decreases rest.len(),
    {
        let ghost prev = rest@;
        let item = rest.remove(0);
        proof {
            assert(rest@ =~= prev.drop_first());
            lemma_items_advance(all, k, prev, rest@);
            lemma_items_height_para(all, k);
        }
        let doc = render_rich_string(item);
        proof {
            lemma_rendered_items_model_push(out@, doc);
            assert(all.take(k + 1) =~= all.take(k).push(all[k]));
            lemma_render_items_model_push(all.take(k), all[k]);
        }
        out.push(doc);
        proof {
            k = k + 1;
        }
    }
    proof {
        assert(all.take(k) =~= all);
    }
    out
}

/// Runs the full pipeline on one rich string: segment, then render.
pub fn render_rich_string(s: RichString) -> (r: Vec<RenderBlock>)
    ensures
        blocks_model(r@) == render_doc_model(elems_model(s@)),
    decreases para_height(elems_model(s@)), 3int, 0int,
{
    let ghost sm = elems_model(s@);
    let paras = segment(s);
    proof {
        lemma_segment_height(sm);
    }
    render(paras)
}

/// Renders a sequence of paragraphs: one block per paragraph, in order.
pub fn render(paras: Vec<Paragraph>) -> (r: Vec<RenderBlock>)
    ensures
        blocks_model(r@) == render_paras_model(paras_model(paras@)),
    decreases items_height(paras_model(paras@)), 2int, 0int,
{
    let ghost all = paras_model(paras@);
    let mut rest = paras;
    let mut out: Vec<RenderBlock> = Vec::new();
    let ghost mut k: int = 0;
    proof {
        assert(all.skip(0) =~= all);
        assert(all.take(0) =~= Seq::<Seq<ElemModel>>::empty());
        assert(blocks_model(out@) == Seq::<Seq<NodeModel>>::empty());
        assert(render_paras_model(all.take(0)) == Seq::<Seq<NodeModel>>::empty());
    }
    while rest.len() > 0
        invariant
            0 <= k <= all.len(),
            paras_model(rest@) == all.skip(k),
            blocks_model(out@) == render_paras_model(all.take(k)),
            all == paras_model(paras@),
        decreases rest.len(),
    {
        let ghost prev = rest@;
        let p = rest.remove(0);
        proof {
            assert(rest@ =~= prev.drop_first());
            lemma_paras_advance(all, k, prev, rest@);
            lemma_items_height_para(all, k);
        }
        let block = render_paragraph(p);
        proof {
            lemma_blocks_model_push(out@, block);
            assert(all.take(k + 1) =~= all.take(k).push(all[k]));
            lemma_render_paras_model_push(all.take(k), all[k]);
        }
        out.push(block);
        proof {
            k = k + 1;
        }
    }
    proof {
        assert(all.take(k) =~= all);
    }
    out
}

/// Renders one paragraph into its block.
pub fn render_paragraph(p: Paragraph) -> (r: RenderBlock)
    ensures
        nodes_model(r.nodes@) == render_para_model(elems_model(p@)),
    decreases para_height(elems_model(p@)), 1int, 0int,
{
    let ghost all = elems_model(p@);
    let mut rest = p;
    let mut nodes: Vec<RenderNode> = Vec::new();
    let ghost mut k: int = 0;
    proof {
        assert(all.skip(0) =~= all);
        assert(all.take(0) =~= Seq::<ElemModel>::empty());
        assert(nodes_model(nodes@) == Seq::<NodeModel>::empty());
        assert(render_para_model(all.take(0)) == Seq::<NodeModel>::empty());
    }
    while rest.len() > 0
        invariant
            0 <= k <= all.len(),
            elems_model(rest@) == all.skip(k),
            nodes_model(nodes@) == render_para_model(all.take(k)),
            all == elems_model(p@),
        decreases rest.len(),
    {
        let ghost prev = rest@;
        let e = rest.remove(0);
        proof {
            assert(rest@ =~= prev.drop_first());
            crate::segment::lemma_advance(all, k, prev, rest@);
            lemma_para_height_elem(all, k);
        }
        let n = render_element(e);
        proof {
            lemma_nodes_model_push(nodes@, n);
            assert(all.take(k + 1) =~= all.take(k).push(all[k]));
            lemma_render_para_model_push(all.take(k), all[k]);
        }
        nodes.push(n);
        proof {
            k = k + 1;
        }
    }
    proof {
        assert(all.take(k) =~= all);
    }
    RenderBlock { nodes }
}

} // verus!
