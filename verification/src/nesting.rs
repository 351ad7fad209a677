//! Nesting depth of rich text. Nested blocks may hold full rich strings,
//! so rendering recurses; these measures bound that recursion, and the
//! main lemma shows that segmentation never deepens the nesting.

use crate::model::ElemModel;
use crate::segment::append_last;
use crate::segment::seg_more_lines;
use crate::segment::seg_states;
use crate::segment::seg_step;
use crate::segment::segment_model;
use vstd::prelude::*;

verus! {

/// How deeply nested blocks stand inside one element.
pub open spec fn elem_height(m: ElemModel) -> nat
    decreases m,
{
    match m {
        ElemModel::Saga { items } => 1 + items_height(items),
        _ => 0,
    }
}

/// The deepest nesting over a list of paragraphs or block items.
pub open spec fn items_height(its: Seq<Seq<ElemModel>>) -> nat
    decreases its,
{
    if its.len() == 0 {
        0
    } else {
        let a = para_height(its.last());
        let b = items_height(its.drop_last());
        if a >= b {
            a
        } else {
            b
        }
    }
}

/// The deepest nesting over one sequence of elements.
pub open spec fn para_height(p: Seq<ElemModel>) -> nat
    decreases p,
{
    if p.len() == 0 {
        0
    } else {
        let a = elem_height(p.last());
        let b = para_height(p.drop_last());
        if a >= b {
            a
        } else {
            b
        }
    }
}

pub proof fn lemma_para_height_elem(p: Seq<ElemModel>, j: int)
    requires
        0 <= j < p.len(),
    ensures
        elem_height(p[j]) <= para_height(p),
    decreases p.len(),
{
    if j == p.len() - 1 {
    } else {
        assert(p.drop_last()[j] == p[j]);
        lemma_para_height_elem(p.drop_last(), j);
    }
}

pub proof fn lemma_items_height_para(its: Seq<Seq<ElemModel>>, i: int)
    requires
        0 <= i < its.len(),
    ensures
        para_height(its[i]) <= items_height(its),
    decreases its.len(),
{
    if i == its.len() - 1 {
    } else {
        assert(its.drop_last()[i] == its[i]);
        lemma_items_height_para(its.drop_last(), i);
    }
}

proof fn lemma_para_height_push(p: Seq<ElemModel>, m: ElemModel)
    ensures
        para_height(p.push(m)) == if elem_height(m) >= para_height(p) {
            elem_height(m)
        } else {
            para_height(p)
        },
{
    assert(p.push(m).drop_last() =~= p);
    assert(p.push(m).last() == m);
}

proof fn lemma_items_height_push(its: Seq<Seq<ElemModel>>, p: Seq<ElemModel>)
    ensures
        items_height(its.push(p)) == if para_height(p) >= items_height(its) {
            para_height(p)
        } else {
            items_height(its)
        },
{
    assert(its.push(p).drop_last() =~= its);
    assert(its.push(p).last() == p);
}

proof fn lemma_para_height_singleton(m: ElemModel)
    ensures
        para_height(seq![m]) == elem_height(m),
{
    let s = seq![m];
    assert(s.len() == 1);
    assert(s.last() == m);
    assert(s.drop_last() =~= Seq::<ElemModel>::empty());
    assert(para_height(Seq::<ElemModel>::empty()) == 0);
    assert(para_height(s) == elem_height(m));
}

proof fn lemma_append_last_height(ps: Seq<Seq<ElemModel>>, m: ElemModel)
    requires
        ps.len() > 0,
    ensures
        items_height(append_last(ps, m)) <= if elem_height(m) >= items_height(ps) {
            elem_height(m)
        } else {
            items_height(ps)
        },
{
    let u = append_last(ps, m);
    assert(u.len() == ps.len());
    assert(u.drop_last() =~= ps.drop_last());
    assert(u.last() == ps.last().push(m));
    lemma_para_height_push(ps.last(), m);
}

pub proof fn lemma_seg_more_lines_len(ps: Seq<Seq<ElemModel>>, lines: Seq<Seq<char>>)
    ensures
        seg_more_lines(ps, lines).len() >= ps.len(),
    decreases lines.len(),
{
    if lines.len() > 0 {
        if lines[0].len() == 0 {
            lemma_seg_more_lines_len(ps, lines.drop_first());
        } else {
            let frag = ElemModel::PlainText { text: lines[0] };
            lemma_seg_more_lines_len(ps.push(seq![frag]), lines.drop_first());
        }
    }
}

/// In every reachable state an open paragraph exists to be appended to.
pub proof fn lemma_seg_states_wf(ms: Seq<ElemModel>)
    ensures
        seg_states(ms).1 ==> seg_states(ms).0.len() > 0,
    decreases ms.len(),
{
    if ms.len() > 0 {
        lemma_seg_states_wf(ms.drop_last());
        let st = seg_states(ms.drop_last());
        match ms.last() {
            ElemModel::PlainText { text } => {
                let lines = crate::text::split_lines_model(text);
                let ps0 = if st.1 {
                    st.0
                } else {
                    st.0.push(Seq::empty())
                };
                let frag = ElemModel::PlainText { text: lines[0] };
                let ps1 = if lines[0].len() == 0 {
                    ps0
                } else {
                    append_last(ps0, frag)
                };
                assert(ps1.len() >= 1);
                lemma_seg_more_lines_len(ps1, lines.drop_first());
            },
            _ => {},
        }
    }
}

proof fn lemma_seg_more_lines_height(ps: Seq<Seq<ElemModel>>, lines: Seq<Seq<char>>)
    ensures
        items_height(seg_more_lines(ps, lines)) == items_height(ps),
    decreases lines.len(),
{
    if lines.len() > 0 {
        if lines[0].len() == 0 {
            lemma_seg_more_lines_height(ps, lines.drop_first());
        } else {
            let frag = ElemModel::PlainText { text: lines[0] };
            lemma_para_height_singleton(frag);
            lemma_items_height_push(ps, seq![frag]);
            lemma_seg_more_lines_height(ps.push(seq![frag]), lines.drop_first());
        }
    }
}

proof fn lemma_seg_step_height(st: (Seq<Seq<ElemModel>>, bool), m: ElemModel)
    requires
        st.1 ==> st.0.len() > 0,
    ensures
        items_height(seg_step(st, m).0) <= if elem_height(m) >= items_height(st.0) {
            elem_height(m)
        } else {
            items_height(st.0)
        },
{
    match m {
        ElemModel::PlainText { text } => {
            let lines = crate::text::split_lines_model(text);
            let ps0 = if st.1 {
                st.0
            } else {
                st.0.push(Seq::empty())
            };
            if !st.1 {
                lemma_items_height_push(st.0, Seq::empty());
            }
            assert(items_height(ps0) == items_height(st.0));
            let frag = ElemModel::PlainText { text: lines[0] };
            let ps1 = if lines[0].len() == 0 {
                ps0
            } else {
                append_last(ps0, frag)
            };
            if lines[0].len() != 0 {
                lemma_append_last_height(ps0, frag);
            }
            assert(items_height(ps1) <= items_height(st.0));
            lemma_seg_more_lines_height(ps1, lines.drop_first());
        },
        ElemModel::Saga { items } => {
            lemma_para_height_singleton(m);
            lemma_items_height_push(st.0, seq![m]);
        },
        ElemModel::LineBreak => {
            lemma_items_height_push(st.0, Seq::empty());
        },
        _ => {
            if st.1 {
                lemma_append_last_height(st.0, m);
            } else {
                lemma_para_height_singleton(m);
                lemma_items_height_push(st.0, seq![m]);
            }
        },
    }
}

/// Segmentation never deepens the nesting: the paragraphs of a rich
/// string nest no deeper than the rich string itself.
pub proof fn lemma_segment_height(ms: Seq<ElemModel>)
    ensures
        items_height(segment_model(ms)) <= para_height(ms),
    decreases ms.len(),
{
    if ms.len() == 0 {
    } else {
        lemma_segment_height(ms.drop_last());
        lemma_seg_states_wf(ms.drop_last());
        lemma_seg_step_height(seg_states(ms.drop_last()), ms.last());
    }
}

} // verus!
