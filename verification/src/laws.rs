//! The laws the pipeline obeys, proved once and for all inputs: no
//! fragment of a segmented paragraph spans a line break, nested blocks
//! always stand alone in their paragraph, the empty rich string segments
//! to no paragraphs at all, and nested items are rendered by exactly the
//! same rules as the top level.

use crate::model::ElemModel;
use crate::render::NodeModel;
use crate::render::render_doc_model;
use crate::render::render_elem_model;
use crate::render::render_items_model;
use crate::render::render_paras_model;
use crate::render::lemma_render_items_model_index;
use crate::segment::append_last;
use crate::segment::seg_more_lines;
use crate::segment::seg_states;
use crate::segment::seg_step;
use crate::segment::segment_model;
use crate::text::lemma_split_lines_pieces;
use crate::text::lemma_split_lines_text;
use crate::text::lines_text;
use crate::text::sans_breaks;
use crate::text::split_lines_model;
use vstd::prelude::*;

verus! {

/// An element that does not span a line break: either it is no plain
/// run at all, or its text holds no line-break character.
pub open spec fn line_free_elem(m: ElemModel) -> bool {
    m matches ElemModel::PlainText { text } ==> !text.contains('\n')
}

pub open spec fn line_free_para(p: Seq<ElemModel>) -> bool {
    forall|j: int| 0 <= j < p.len() ==> line_free_elem(#[trigger] p[j])
}

pub open spec fn line_free_paras(ps: Seq<Seq<ElemModel>>) -> bool {
    forall|i: int| 0 <= i < ps.len() ==> line_free_para(#[trigger] ps[i])
}

/// A paragraph in which a nested block, if present, is the only element.
pub open spec fn saga_alone_para(p: Seq<ElemModel>) -> bool {
    forall|j: int| 0 <= j < p.len() && (#[trigger] p[j]) is Saga ==> p.len() == 1
}

pub open spec fn saga_alone_paras(ps: Seq<Seq<ElemModel>>) -> bool {
    forall|i: int| 0 <= i < ps.len() ==> saga_alone_para(#[trigger] ps[i])
}

/// A paragraph holding no nested block at all.
pub open spec fn saga_free_para(p: Seq<ElemModel>) -> bool {
    forall|j: int| 0 <= j < p.len() ==> !((#[trigger] p[j]) is Saga)
}

proof fn lemma_free_push(ps: Seq<Seq<ElemModel>>, p: Seq<ElemModel>)
    requires
        line_free_paras(ps),
        line_free_para(p),
        saga_alone_paras(ps),
        saga_alone_para(p),
    ensures
        line_free_paras(ps.push(p)),
        saga_alone_paras(ps.push(p)),
{
    assert forall|i: int| 0 <= i < ps.push(p).len() implies line_free_para(
        #[trigger] ps.push(p)[i],
    ) && saga_alone_para(ps.push(p)[i]) by {
        if i < ps.len() {
            assert(ps.push(p)[i] == ps[i]);
        } else {
            assert(ps.push(p)[i] == p);
        }
    }
}

proof fn lemma_free_append_last(ps: Seq<Seq<ElemModel>>, m: ElemModel)
    requires
        ps.len() > 0,
        line_free_paras(ps),
        line_free_elem(m),
        saga_alone_paras(ps),
        saga_free_para(ps.last()),
        !(m is Saga),
    ensures
        line_free_paras(append_last(ps, m)),
        saga_alone_paras(append_last(ps, m)),
        saga_free_para(append_last(ps, m).last()),
{
    let q = ps.last().push(m);
    assert forall|j: int| 0 <= j < q.len() implies line_free_elem(#[trigger] q[j]) && !(
    q[j] is Saga) by {
        if j < ps.last().len() {
            assert(q[j] == ps.last()[j]);
        } else {
            assert(q[j] == m);
        }
    }
    let u = append_last(ps, m);
    assert(u.last() == q);
    assert forall|i: int| 0 <= i < u.len() implies line_free_para(#[trigger] u[i])
        && saga_alone_para(u[i]) by {
        if i < ps.len() - 1 {
            assert(u[i] == ps[i]);
        } else {
            assert(u[i] == q);
        }
    }
}

proof fn lemma_seg_more_lines_free(ps: Seq<Seq<ElemModel>>, lines: Seq<Seq<char>>)
    requires
        ps.len() > 0,
        line_free_paras(ps),
        saga_alone_paras(ps),
        saga_free_para(ps.last()),
        forall|i: int| 0 <= i < lines.len() ==> !(#[trigger] lines[i]).contains('\n'),
    ensures
        seg_more_lines(ps, lines).len() > 0,
        line_free_paras(seg_more_lines(ps, lines)),
        saga_alone_paras(seg_more_lines(ps, lines)),
        saga_free_para(seg_more_lines(ps, lines).last()),
    decreases lines.len(),
{
    if lines.len() > 0 {
        assert forall|i: int| 0 <= i < lines.drop_first().len() implies !(
        #[trigger] lines.drop_first()[i]).contains('\n') by {
            assert(lines.drop_first()[i] == lines[i + 1]);
        }
        if lines[0].len() == 0 {
            lemma_seg_more_lines_free(ps, lines.drop_first());
        } else {
            let frag = ElemModel::PlainText { text: lines[0] };
            let p = seq![frag];
            assert forall|j: int| 0 <= j < p.len() implies line_free_elem(#[trigger] p[j]) && !(
            p[j] is Saga) by {
                assert(p[j] == frag);
            }
            lemma_free_push(ps, p);
            assert(ps.push(p).last() == p);
            lemma_seg_more_lines_free(ps.push(p), lines.drop_first());
        }
    }
}

proof fn lemma_seg_step_free(st: (Seq<Seq<ElemModel>>, bool), m: ElemModel)
    requires
        line_free_paras(st.0),
        saga_alone_paras(st.0),
        st.1 ==> st.0.len() > 0 && saga_free_para(st.0.last()),
    ensures
        line_free_paras(seg_step(st, m).0),
        saga_alone_paras(seg_step(st, m).0),
        seg_step(st, m).1 ==> seg_step(st, m).0.len() > 0 && saga_free_para(
            seg_step(st, m).0.last(),
        ),
{
    match m {
        ElemModel::PlainText { text } => {
            let lines = split_lines_model(text);
            lemma_split_lines_pieces(text);
            let empty_p = Seq::<ElemModel>::empty();
            let ps0 = if st.1 {
                st.0
            } else {
                st.0.push(empty_p)
            };
            if !st.1 {
                lemma_free_push(st.0, empty_p);
                assert(st.0.push(empty_p).last() == empty_p);
            }
            assert(ps0.len() > 0);
            assert(saga_free_para(ps0.last()));
            let frag = ElemModel::PlainText { text: lines[0] };
            let ps1 = if lines[0].len() == 0 {
                ps0
            } else {
                append_last(ps0, frag)
            };
            if lines[0].len() != 0 {
                lemma_free_append_last(ps0, frag);
            }
            assert forall|i: int| 0 <= i < lines.drop_first().len() implies !(
            #[trigger] lines.drop_first()[i]).contains('\n') by {
                assert(lines.drop_first()[i] == lines[i + 1]);
            }
            lemma_seg_more_lines_free(ps1, lines.drop_first());
        },
        ElemModel::Saga { items } => {
            let p = seq![m];
            assert forall|j: int| 0 <= j < p.len() implies line_free_elem(#[trigger] p[j]) by {
                assert(p[j] == m);
            }
            assert(saga_alone_para(p));
            lemma_free_push(st.0, p);
        },
        ElemModel::LineBreak => {
            let empty_p = Seq::<ElemModel>::empty();
            lemma_free_push(st.0, empty_p);
            assert(st.0.push(empty_p).last() == empty_p);
        },
        _ => {
            if st.1 {
                lemma_free_append_last(st.0, m);
            } else {
                let p = seq![m];
                assert forall|j: int| 0 <= j < p.len() implies line_free_elem(#[trigger] p[j])
                    && !(p[j] is Saga) by {
                    assert(p[j] == m);
                }
                lemma_free_push(st.0, p);
                assert(st.0.push(p).last() == p);
            }
        },
    }
}

proof fn lemma_seg_states_free(ms: Seq<ElemModel>)
    ensures
        line_free_paras(seg_states(ms).0),
        saga_alone_paras(seg_states(ms).0),
        seg_states(ms).1 ==> seg_states(ms).0.len() > 0 && saga_free_para(
            seg_states(ms).0.last(),
        ),
    decreases ms.len(),
{
    if ms.len() > 0 {
        lemma_seg_states_free(ms.drop_last());
        lemma_seg_step_free(seg_states(ms.drop_last()), ms.last());
    }
}

/// Segmentation is total and the empty rich string yields no paragraphs.
pub proof fn lemma_segment_of_empty()
    ensures
        segment_model(Seq::<ElemModel>::empty()) == Seq::<Seq<ElemModel>>::empty(),
{
}

/// A rich string with any element at all yields at least one paragraph:
/// the output is empty exactly when the input is.
pub proof fn lemma_segment_nonempty(ms: Seq<ElemModel>)
    requires
        ms.len() > 0,
    ensures
        segment_model(ms).len() > 0,
{
    let st = seg_states(ms.drop_last());
    crate::nesting::lemma_seg_states_wf(ms.drop_last());
    match ms.last() {
        ElemModel::PlainText { text } => {
            let lines = split_lines_model(text);
            let ps0 = if st.1 {
                st.0
            } else {
                st.0.push(Seq::empty())
            };
            let frag = ElemModel::PlainText { text: lines[0] };
            let ps1 = if lines[0].len() == 0 {
                ps0
            } else {
                append_last(ps0, frag)
            };
            assert(ps1.len() >= 1);
            crate::nesting::lemma_seg_more_lines_len(ps1, lines.drop_first());
        },
        _ => {},
    }
}

/// No paragraph that segmentation produces holds a plain-text fragment
/// with an embedded line break.
pub proof fn lemma_segment_line_free(ms: Seq<ElemModel>)
    ensures
        line_free_paras(segment_model(ms)),
{
    lemma_seg_states_free(ms);
}

/// A nested block never shares its paragraph: any paragraph of the
/// segmentation that holds one holds nothing else.
pub proof fn lemma_segment_saga_alone(ms: Seq<ElemModel>)
    ensures
        saga_alone_paras(segment_model(ms)),
{
    lemma_seg_states_free(ms);
}

/// The text one element contributes to its paragraph: a plain run's
/// characters; every other element keeps its text in fields that
/// segmentation never touches.
pub open spec fn plain_text_of(m: ElemModel) -> Seq<char> {
    match m {
        ElemModel::PlainText { text } => text,
        _ => Seq::empty(),
    }
}

pub open spec fn para_text(p: Seq<ElemModel>) -> Seq<char>
    decreases p.len(),
{
    if p.len() == 0 {
        Seq::empty()
    } else {
        para_text(p.drop_last()) + plain_text_of(p.last())
    }
}

pub open spec fn paras_text(ps: Seq<Seq<ElemModel>>) -> Seq<char>
    decreases ps.len(),
{
    if ps.len() == 0 {
        Seq::empty()
    } else {
        paras_text(ps.drop_last()) + para_text(ps.last())
    }
}

/// The visible text of a rich string once breaks are read as structure:
/// its plain runs joined in order, with the break characters removed.
pub open spec fn content_text(ms: Seq<ElemModel>) -> Seq<char>
    decreases ms.len(),
{
    if ms.len() == 0 {
        Seq::empty()
    } else {
        content_text(ms.drop_last()) + sans_breaks(plain_text_of(ms.last()))
    }
}

proof fn lemma_para_text_push(p: Seq<ElemModel>, m: ElemModel)
    ensures
        para_text(p.push(m)) == para_text(p) + plain_text_of(m),
{
    assert(p.push(m).drop_last() =~= p);
    assert(p.push(m).last() == m);
}

proof fn lemma_paras_text_push(ps: Seq<Seq<ElemModel>>, p: Seq<ElemModel>)
    ensures
        paras_text(ps.push(p)) == paras_text(ps) + para_text(p),
{
    assert(ps.push(p).drop_last() =~= ps);
    assert(ps.push(p).last() == p);
}

proof fn lemma_para_text_singleton(m: ElemModel)
    ensures
        para_text(seq![m]) == plain_text_of(m),
{
    let s = seq![m];
    assert(s.len() == 1);
    assert(s.last() == m);
    assert(s.drop_last() =~= Seq::<ElemModel>::empty());
    assert(para_text(Seq::<ElemModel>::empty()) == Seq::<char>::empty());
    assert(Seq::<char>::empty() + plain_text_of(m) =~= plain_text_of(m));
}

proof fn lemma_paras_text_append_last(ps: Seq<Seq<ElemModel>>, m: ElemModel)
    requires
        ps.len() > 0,
    ensures
        paras_text(append_last(ps, m)) == paras_text(ps) + plain_text_of(m),
{
    let u = append_last(ps, m);
    assert(u.len() == ps.len());
    assert(u.drop_last() =~= ps.drop_last());
    assert(u.last() == ps.last().push(m));
    lemma_para_text_push(ps.last(), m);
    assert(paras_text(ps.drop_last()) + (para_text(ps.last()) + plain_text_of(m)) =~= (paras_text(
        ps.drop_last(),
    ) + para_text(ps.last())) + plain_text_of(m));
}

proof fn lemma_seg_more_lines_text(ps: Seq<Seq<ElemModel>>, lines: Seq<Seq<char>>)
    ensures
        paras_text(seg_more_lines(ps, lines)) == paras_text(ps) + lines_text(lines),
    decreases lines.len(),
{
    if lines.len() == 0 {
        assert(paras_text(ps) + lines_text(lines) =~= paras_text(ps));
    } else if lines[0].len() == 0 {
        lemma_seg_more_lines_text(ps, lines.drop_first());
        assert(lines[0] =~= Seq::<char>::empty());
        assert(paras_text(ps) + (lines[0] + lines_text(lines.drop_first())) =~= paras_text(ps)
            + lines_text(lines.drop_first()));
    } else {
        let frag = ElemModel::PlainText { text: lines[0] };
        let ps1 = ps.push(seq![frag]);
        lemma_paras_text_push(ps, seq![frag]);
        lemma_para_text_singleton(frag);
        lemma_seg_more_lines_text(ps1, lines.drop_first());
        assert((paras_text(ps) + lines[0]) + lines_text(lines.drop_first()) =~= paras_text(ps) + (
        lines[0] + lines_text(lines.drop_first())));
    }
}

proof fn lemma_seg_step_text(st: (Seq<Seq<ElemModel>>, bool), m: ElemModel)
    requires
        st.1 ==> st.0.len() > 0,
    ensures
        paras_text(seg_step(st, m).0) == paras_text(st.0) + sans_breaks(plain_text_of(m)),
{
    match m {
        ElemModel::PlainText { text } => {
            let lines = split_lines_model(text);
            lemma_split_lines_text(text);
            let empty_p = Seq::<ElemModel>::empty();
            let ps0 = if st.1 {
                st.0
            } else {
                st.0.push(empty_p)
            };
            if !st.1 {
                lemma_paras_text_push(st.0, empty_p);
                assert(paras_text(st.0) + para_text(empty_p) =~= paras_text(st.0));
            }
            assert(paras_text(ps0) == paras_text(st.0));
            let frag = ElemModel::PlainText { text: lines[0] };
            let ps1 = if lines[0].len() == 0 {
                ps0
            } else {
                append_last(ps0, frag)
            };
            lemma_seg_more_lines_text(ps1, lines.drop_first());
            if lines[0].len() == 0 {
                assert(lines[0] =~= Seq::<char>::empty());
                assert(paras_text(st.0) + lines_text(lines.drop_first()) =~= paras_text(st.0) + (
                lines[0] + lines_text(lines.drop_first())));
            } else {
                lemma_paras_text_append_last(ps0, frag);
                assert((paras_text(st.0) + lines[0]) + lines_text(lines.drop_first())
                    =~= paras_text(st.0) + (lines[0] + lines_text(lines.drop_first())));
            }
            assert(lines[0] + lines_text(lines.drop_first()) == lines_text(lines));
        },
        ElemModel::Saga { items } => {
            lemma_paras_text_push(st.0, seq![m]);
            lemma_para_text_singleton(m);
            assert(paras_text(st.0) + plain_text_of(m) =~= paras_text(st.0) + sans_breaks(
                plain_text_of(m),
            ));
        },
        ElemModel::LineBreak => {
            lemma_paras_text_push(st.0, Seq::<ElemModel>::empty());
            assert(paras_text(st.0) + para_text(Seq::<ElemModel>::empty()) =~= paras_text(st.0)
                + sans_breaks(plain_text_of(m)));
        },
        _ => {
            if st.1 {
                lemma_paras_text_append_last(st.0, m);
            } else {
                lemma_paras_text_push(st.0, seq![m]);
                lemma_para_text_singleton(m);
            }
            assert(paras_text(st.0) + plain_text_of(m) =~= paras_text(st.0) + sans_breaks(
                plain_text_of(m),
            ));
        },
    }
}

/// Segmentation keeps the visible text: the paragraphs' plain runs,
/// joined in order, are the rich string's own plain runs with every
/// break character removed — breaks become structure, never content.
pub proof fn lemma_segment_keeps_text(ms: Seq<ElemModel>)
    ensures
        paras_text(segment_model(ms)) == content_text(ms),
    decreases ms.len(),
{
    if ms.len() > 0 {
        lemma_segment_keeps_text(ms.drop_last());
        crate::nesting::lemma_seg_states_wf(ms.drop_last());
        lemma_seg_step_text(seg_states(ms.drop_last()), ms.last());
    }
}

/// A nested block's items run through exactly the pipeline that the top
/// level runs: each item is segmented and rendered by the same rules,
/// whatever the depth.
pub proof fn lemma_nested_items_same_rules(items: Seq<Seq<ElemModel>>, i: int)
    requires
        0 <= i < items.len(),
    ensures
        render_elem_model(ElemModel::Saga { items }) == NodeModel::List(
            render_items_model(items),
        ),
        render_items_model(items).len() == items.len(),
        render_items_model(items)[i] == render_doc_model(items[i]),
        render_doc_model(items[i]) == render_paras_model(segment_model(items[i])),
{
    lemma_render_items_model_index(items);
}

} // verus!
