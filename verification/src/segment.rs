//! The segmenter: one left-to-right pass that turns a rich string into a
//! sequence of paragraphs. Plain runs are split on line breaks, inline
//! elements accumulate in the open paragraph, nested blocks always stand
//! alone in a paragraph of their own, and an explicit break opens a new
//! empty paragraph.

use crate::model::ElemModel;
use crate::model::Paragraph;
use crate::model::RichElement;
use crate::model::RichString;
use crate::model::elem_model;
use crate::model::elems_model;
use crate::model::lemma_elems_model_len;
use crate::model::lemma_elems_model_push;
use crate::model::lemma_paras_model_push;
use crate::model::paras_model;
use crate::text::split_lines;
use crate::text::split_lines_model;
use crate::text::strings_model;
use vstd::prelude::*;

verus! {

/// The state of the pass is a pair: the paragraphs built so far, and
/// whether the last of them is still open for further inline content.
/// At the start there are no paragraphs and none is open.
pub open spec fn seg_init() -> (Seq<Seq<ElemModel>>, bool) {
    (Seq::empty(), false)
}

/// Appends an element to the last paragraph.
pub open spec fn append_last(ps: Seq<Seq<ElemModel>>, m: ElemModel) -> Seq<Seq<ElemModel>>
    recommends
        ps.len() > 0,
{
    ps.update(ps.len() - 1, ps.last().push(m))
}

/// Every line after the first opens a paragraph of its own; empty lines
/// are dropped and open nothing.
pub open spec fn seg_more_lines(ps: Seq<Seq<ElemModel>>, lines: Seq<Seq<char>>) -> Seq<
    Seq<ElemModel>,
>
    decreases lines.len(),
{
    if lines.len() == 0 {
        ps
    } else {
        let ps1 = if lines[0].len() == 0 {
            ps
        } else {
            ps.push(seq![ElemModel::PlainText { text: lines[0] }])
        };
        seg_more_lines(ps1, lines.drop_first())
    }
}

/// A plain run: ensure a paragraph is open, append the first line to it
/// when that line is not empty, and give every later non-empty line a
/// paragraph of its own. The last paragraph stays open.
pub open spec fn seg_text(st: (Seq<Seq<ElemModel>>, bool), text: Seq<char>) -> (
    Seq<Seq<ElemModel>>,
    bool,
) {
    let lines = split_lines_model(text);
    let ps0 = if st.1 {
        st.0
    } else {
        st.0.push(Seq::empty())
    };
    let ps1 = if lines[0].len() == 0 {
        ps0
    } else {
        append_last(ps0, ElemModel::PlainText { text: lines[0] })
    };
    (seg_more_lines(ps1, lines.drop_first()), true)
}

/// An inline element joins the open paragraph, or opens one of its own.
pub open spec fn seg_inline(st: (Seq<Seq<ElemModel>>, bool), m: ElemModel) -> (
    Seq<Seq<ElemModel>>,
    bool,
) {
    if st.1 {
        (append_last(st.0, m), true)
    } else {
        (st.0.push(seq![m]), true)
    }
}

/// One step of the pass, by element kind. A nested block closes its own
/// paragraph behind itself; an explicit break opens a new empty one.
pub open spec fn seg_step(st: (Seq<Seq<ElemModel>>, bool), m: ElemModel) -> (
    Seq<Seq<ElemModel>>,
    bool,
) {
    match m {
        ElemModel::PlainText { text } => seg_text(st, text),
        ElemModel::Saga { items } => (st.0.push(seq![m]), false),
        ElemModel::LineBreak => (st.0.push(Seq::<ElemModel>::empty()), true),
        _ => seg_inline(st, m),
    }
}

/// The state after the whole input has been walked.
pub open spec fn seg_states(ms: Seq<ElemModel>) -> (Seq<Seq<ElemModel>>, bool)
    decreases ms.len(),
{
    if ms.len() == 0 {
        seg_init()
    } else {
        seg_step(seg_states(ms.drop_last()), ms.last())
    }
}

/// The paragraphs that segmentation produces for a rich string's model.
pub open spec fn segment_model(ms: Seq<ElemModel>) -> Seq<Seq<ElemModel>> {
    seg_states(ms).0
}

pub proof fn lemma_seg_states_step(all: Seq<ElemModel>, k: int)
    requires
        0 <= k < all.len(),
    ensures
        seg_states(all.take(k + 1)) == seg_step(seg_states(all.take(k)), all[k]),
{
    assert(all.take(k + 1).drop_last() =~= all.take(k));
    assert(all.take(k + 1).last() == all[k]);
}

/// Consuming the front element of the remaining input advances the model
/// cursor by one.
pub proof fn lemma_advance(all: Seq<ElemModel>, k: int, prev: Seq<RichElement>, cur: Seq<RichElement>)
    requires
        0 <= k <= all.len(),
        elems_model(prev) == all.skip(k),
        prev.len() > 0,
        cur == prev.drop_first(),
    ensures
        k < all.len(),
        elem_model(prev[0]) == all[k],
        elems_model(cur) == all.skip(k + 1),
{
    lemma_elems_model_len(prev);
    lemma_elems_model_len(cur);
    assert(all.skip(k).len() == all.len() - k);
    assert(elems_model(prev)[0] == elem_model(prev[0]));
    vstd::seq_lib::lemma_seq_skip_index(all, k, 0);
    assert forall|j: int| 0 <= j < cur.len() implies #[trigger] elems_model(cur)[j] == all.skip(
        k + 1,
    )[j] by {
        assert(elems_model(cur)[j] == elem_model(cur[j]));
        assert(cur[j] == prev[j + 1]);
        assert(elems_model(prev)[j + 1] == elem_model(prev[j + 1]));
        vstd::seq_lib::lemma_seq_skip_index(all, k, j + 1);
        vstd::seq_lib::lemma_seq_skip_index(all, k + 1, j);
    }
    assert(elems_model(cur) =~= all.skip(k + 1));
}

/// Replacing the last paragraph by itself with one more element matches
/// `append_last` on the model.
proof fn lemma_paras_model_set_last(ps: Seq<Paragraph>, q: Paragraph, e: RichElement)
    requires
        ps.len() > 0,
        q@ == ps.last()@.push(e),
    ensures
        paras_model(ps.drop_last().push(q)) == append_last(paras_model(ps), elem_model(e)),
{
    lemma_elems_model_push(ps.last()@, e);
    assert(paras_model(ps.drop_last().push(q)) =~= append_last(paras_model(ps), elem_model(e)));
}

proof fn lemma_elems_model_singleton(e: RichElement)
    ensures
        elems_model(seq![e]) == seq![elem_model(e)],
{
    let s = seq![e];
    assert(s.len() == 1);
    assert(s.last() == e);
    assert(s.drop_last() =~= Seq::<RichElement>::empty());
    assert(elems_model(Seq::<RichElement>::empty()) == Seq::<ElemModel>::empty());
    assert(elems_model(s) == Seq::<ElemModel>::empty().push(elem_model(e)));
    assert(Seq::<ElemModel>::empty().push(elem_model(e)) =~= seq![elem_model(e)]);
}

/// Segments a rich string into its paragraphs, as the model demands.
pub fn segment(input: RichString) -> (r: Vec<Paragraph>)
    ensures
        paras_model(r@) == segment_model(elems_model(input@)),
{
    let ghost all = elems_model(input@);
    let mut rest = input;
    let mut paras: Vec<Paragraph> = Vec::new();
    let mut open: bool = false;
    let ghost mut k: int = 0;
    proof {
        assert(all.skip(0) =~= all);
        assert(all.take(0) =~= Seq::<ElemModel>::empty());
        assert(paras_model(paras@) =~= seg_states(all.take(0)).0);
    }
    while rest.len() > 0
        invariant
            0 <= k <= all.len(),
            elems_model(rest@) == all.skip(k),
            paras_model(paras@) == seg_states(all.take(k)).0,
            open == seg_states(all.take(k)).1,
            open ==> paras.len() > 0,
        decreases rest.len(),
    {
        let ghost prev = rest@;
        let e = rest.remove(0);
        proof {
            assert(rest@ =~= prev.drop_first());
            lemma_advance(all, k, prev, rest@);
            lemma_seg_states_step(all, k);
        }
        let ghost st = seg_states(all.take(k));
        let ghost m = all[k];
        match e {
            RichElement::PlainText(text) => {
                proof {
                    assert(seg_step(st, m) == seg_text(st, text@));
                }
                if !open {
                    let p: Paragraph = Vec::new();
                    proof {
                        lemma_paras_model_push(paras@, p);
                        assert(elems_model(p@) =~= Seq::<ElemModel>::empty());
                    }
                    paras.push(p);
                    open = true;
                }
                let mut lines = split_lines(text.as_str());
                let ghost lprev = lines@;
                let first = lines.remove(0);
                proof {
                    assert(lines@ =~= lprev.drop_first());
                    assert(first@ == strings_model(lprev)[0]);
                    assert(strings_model(lines@) =~= strings_model(lprev).drop_first());
                }
                if !first.as_str().is_empty() {
                    let ghost pprev = paras@;
                    let mut last = paras.pop().unwrap();
                    last.push(RichElement::PlainText(first));
                    proof {
                        assert(last@ == pprev.last()@.push(RichElement::PlainText(first)));
                    }
                    paras.push(last);
                    proof {
                        lemma_paras_model_set_last(
                            pprev,
                            last,
                            RichElement::PlainText(first),
                        );
                    }
                }
                proof {
                    assert(seg_more_lines(paras_model(paras@), strings_model(lines@))
                        == seg_text(st, text@).0);
                }
                while lines.len() > 0
                    invariant
                        seg_more_lines(paras_model(paras@), strings_model(lines@)) == seg_text(
                            st,
                            text@,
                        ).0,
                        paras.len() > 0,
                    decreases lines.len(),
                {
                    let ghost lp = lines@;
                    let l = lines.remove(0);
                    proof {
                        assert(lines@ =~= lp.drop_first());
                        assert(l@ == strings_model(lp)[0]);
                        assert(strings_model(lines@) =~= strings_model(lp).drop_first());
                        assert(strings_model(lp).len() > 0);
                    }
                    if !l.as_str().is_empty() {
                        let mut p: Paragraph = Vec::new();
                        p.push(RichElement::PlainText(l));
                        proof {
                            lemma_paras_model_push(paras@, p);
                            lemma_elems_model_singleton(RichElement::PlainText(l));
                            assert(p@ =~= seq![RichElement::PlainText(l)]);
                        }
                        paras.push(p);
                    }
                }
                proof {
                    assert(strings_model(lines@).len() == 0);
                    assert(paras_model(paras@) == seg_text(st, text@).0);
                }
            },
            RichElement::Saga(items) => {
                let mut p: Paragraph = Vec::new();
                p.push(RichElement::Saga(items));
                proof {
                    let se = p@.last();
                    lemma_paras_model_push(paras@, p);
                    lemma_elems_model_singleton(se);
                    assert(p@ =~= seq![se]);
                    assert(elem_model(se) == m);
                }
                paras.push(p);
                open = false;
            },
            RichElement::LineBreak => {
                let p: Paragraph = Vec::new();
                proof {
                    lemma_paras_model_push(paras@, p);
                    assert(elems_model(p@) =~= Seq::<ElemModel>::empty());
                }
                paras.push(p);
                open = true;
            },
            el => {
                proof {
                    assert(seg_step(st, m) == seg_inline(st, m));
                }
                let ghost ev = el;
                if open {
                    let ghost pprev = paras@;
                    let mut last = paras.pop().unwrap();
                    last.push(el);
                    paras.push(last);
                    proof {
                        lemma_paras_model_set_last(pprev, last, ev);
                        assert(elem_model(ev) == m);
                    }
                } else {
                    let mut p: Paragraph = Vec::new();
                    p.push(el);
                    proof {
                        lemma_paras_model_push(paras@, p);
                        lemma_elems_model_singleton(ev);
                        assert(p@ =~= seq![ev]);
                        assert(elem_model(ev) == m);
                    }
                    paras.push(p);
                }
                open = true;
            },
        }
        proof {
            k = k + 1;
        }
    }
    proof {
        assert(all.take(k) =~= all);
    }
    paras
}

} // verus!
