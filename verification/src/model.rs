//! The rich-text data model: the element kinds a card description is made
//! of, and the mathematical model that contracts are stated over.

use vstd::prelude::*;

verus! {

/// One typed fragment of a rich string.
#[derive(Debug, PartialEq)]
pub enum RichElement {
    /// A literal run of text; it may contain embedded line-break characters.
    PlainText(String),
    /// A bare textual mention of a card; rendered as plain text. The
    /// identity is carried through unchanged but plays no part in rendering.
    CardReference { display: String, identity: String },
    /// A clickable reference to a specific card, navigable by its id.
    SpecificCardLink { display: String, id: String },
    /// A clickable reference that re-runs a stored search query.
    SearchLink { display: String, query: String },
    /// A nested enumerated block; each item is itself a full rich string.
    Saga(Vec<RichString>),
    /// An explicit forced paragraph break.
    LineBreak,
}

/// A rich string: an ordered sequence of elements. Order is the only
/// relationship between elements.
pub type RichString = Vec<RichElement>;

/// A paragraph derived by segmentation: a run of elements none of which
/// spans a line break, with nested blocks always standing alone.
pub type Paragraph = Vec<RichElement>;

/// The mathematical value of a `RichElement`: strings become sequences of
/// characters and vectors become sequences, recursively.
#[verifier::ext_equal]
pub enum ElemModel {
    PlainText { text: Seq<char> },
    CardReference { display: Seq<char>, identity: Seq<char> },
    SpecificCardLink { display: Seq<char>, id: Seq<char> },
    SearchLink { display: Seq<char>, query: Seq<char> },
    Saga { items: Seq<Seq<ElemModel>> },
    LineBreak,
}

/// The model of one element.
pub open spec fn elem_model(e: RichElement) -> ElemModel
    decreases e,
{
    match e {
        RichElement::PlainText(text) => ElemModel::PlainText { text: text@ },
        RichElement::CardReference { display, identity } => ElemModel::CardReference {
            display: display@,
            identity: identity@,
        },
        RichElement::SpecificCardLink { display, id } => ElemModel::SpecificCardLink {
            display: display@,
            id: id@,
        },
        RichElement::SearchLink { display, query } => ElemModel::SearchLink {
            display: display@,
            query: query@,
        },
        RichElement::Saga(items) => ElemModel::Saga { items: saga_items_model(items@) },
        RichElement::LineBreak => ElemModel::LineBreak,
    }
}

/// The models of the items of a nested block, in order.
pub open spec fn saga_items_model(items: Seq<RichString>) -> Seq<Seq<ElemModel>>
    decreases items,
{
    if items.len() == 0 {
        Seq::empty()
    } else {
        saga_items_model(items.drop_last()).push(elems_model(items.last()@))
    }
}

/// The models of a sequence of elements, in order.
pub open spec fn elems_model(es: Seq<RichElement>) -> Seq<ElemModel>
    decreases es,
{
    if es.len() == 0 {
        Seq::empty()
    } else {
        elems_model(es.drop_last()).push(elem_model(es.last()))
    }
}

/// The models of a sequence of paragraphs, in order.
pub open spec fn paras_model(ps: Seq<Paragraph>) -> Seq<Seq<ElemModel>> {
    Seq::new(ps.len(), |i: int| elems_model(ps[i]@))
}

pub proof fn lemma_elems_model_len(es: Seq<RichElement>)
    ensures
        elems_model(es).len() == es.len(),
        forall|i: int| 0 <= i < es.len() ==> elems_model(es)[i] == elem_model(es[i]),
    decreases es.len(),
{
    if es.len() > 0 {
        lemma_elems_model_len(es.drop_last());
    }
}

pub proof fn lemma_saga_items_model_len(items: Seq<RichString>)
    ensures
        saga_items_model(items).len() == items.len(),
        forall|i: int| 0 <= i < items.len() ==> saga_items_model(items)[i] == elems_model(
            items[i]@,
        ),
    decreases items.len(),
{
    if items.len() > 0 {
        lemma_saga_items_model_len(items.drop_last());
    }
}

pub proof fn lemma_elems_model_push(es: Seq<RichElement>, e: RichElement)
    ensures
        elems_model(es.push(e)) == elems_model(es).push(elem_model(e)),
{
    assert(es.push(e).drop_last() =~= es);
    assert(es.push(e).last() == e);
}

pub proof fn lemma_paras_model_push(ps: Seq<Paragraph>, p: Paragraph)
    ensures
        paras_model(ps.push(p)) == paras_model(ps).push(elems_model(p@)),
{
    assert(paras_model(ps.push(p)) =~= paras_model(ps).push(elems_model(p@)));
}

} // verus!
