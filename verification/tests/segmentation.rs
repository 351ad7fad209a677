use cardtext::model::RichElement;
use cardtext::segment::segment;

#[test]
fn empty_input_yields_no_paragraphs() {
    let out = segment(vec![]);
    assert_eq!(out, Vec::<Vec<RichElement>>::new());
}

#[test]
fn single_plain_run_is_one_paragraph() {
    let out = segment(vec![RichElement::PlainText("hello".to_string())]);
    assert_eq!(out, vec![vec![RichElement::PlainText("hello".to_string())]]);
}

#[test]
fn embedded_break_splits_into_two_paragraphs() {
    let out = segment(vec![RichElement::PlainText("a\nb".to_string())]);
    assert_eq!(
        out,
        vec![
            vec![RichElement::PlainText("a".to_string())],
            vec![RichElement::PlainText("b".to_string())],
        ]
    );
}

#[test]
fn explicit_break_splits_into_two_paragraphs() {
    let out = segment(vec![
        RichElement::PlainText("a".to_string()),
        RichElement::LineBreak,
        RichElement::PlainText("b".to_string()),
    ]);
    assert_eq!(
        out,
        vec![
            vec![RichElement::PlainText("a".to_string())],
            vec![RichElement::PlainText("b".to_string())],
        ]
    );
}

#[test]
fn inline_link_accumulates_in_one_paragraph() {
    let out = segment(vec![
        RichElement::PlainText("a".to_string()),
        RichElement::SpecificCardLink {
            display: "X".to_string(),
            id: "id1".to_string(),
        },
        RichElement::PlainText("b".to_string()),
    ]);
    assert_eq!(
        out,
        vec![vec![
            RichElement::PlainText("a".to_string()),
            RichElement::SpecificCardLink {
                display: "X".to_string(),
                id: "id1".to_string(),
            },
            RichElement::PlainText("b".to_string()),
        ]]
    );
}

#[test]
fn saga_always_stands_alone() {
    let out = segment(vec![
        RichElement::PlainText("a".to_string()),
        RichElement::Saga(vec![
            vec![RichElement::PlainText("i1".to_string())],
            vec![RichElement::PlainText("i2".to_string())],
        ]),
        RichElement::PlainText("b".to_string()),
    ]);
    assert_eq!(
        out,
        vec![
            vec![RichElement::PlainText("a".to_string())],
            vec![RichElement::Saga(vec![
                vec![RichElement::PlainText("i1".to_string())],
                vec![RichElement::PlainText("i2".to_string())],
            ])],
            vec![RichElement::PlainText("b".to_string())],
        ]
    );
}

#[test]
fn empty_run_contributes_no_fragment() {
    let out = segment(vec![
        RichElement::PlainText(String::new()),
        RichElement::PlainText("x".to_string()),
    ]);
    assert_eq!(out, vec![vec![RichElement::PlainText("x".to_string())]]);
}

#[test]
fn lone_explicit_break_emits_one_empty_paragraph() {
    let out = segment(vec![RichElement::LineBreak]);
    assert_eq!(out, vec![Vec::<RichElement>::new()]);
}

#[test]
fn run_of_only_breaks_emits_one_empty_paragraph() {
    let out = segment(vec![RichElement::PlainText("\n\n".to_string())]);
    assert_eq!(out, vec![Vec::<RichElement>::new()]);
}

#[test]
fn leading_empty_line_keeps_leading_empty_paragraph() {
    let out = segment(vec![RichElement::PlainText("\na".to_string())]);
    assert_eq!(
        out,
        vec![vec![], vec![RichElement::PlainText("a".to_string())]]
    );
}

#[test]
fn two_sagas_never_merge() {
    let out = segment(vec![
        RichElement::Saga(vec![vec![RichElement::PlainText("x".to_string())]]),
        RichElement::Saga(vec![vec![RichElement::PlainText("y".to_string())]]),
    ]);
    assert_eq!(
        out,
        vec![
            vec![RichElement::Saga(vec![vec![RichElement::PlainText(
                "x".to_string()
            )]])],
            vec![RichElement::Saga(vec![vec![RichElement::PlainText(
                "y".to_string()
            )]])],
        ]
    );
}

#[test]
fn element_after_saga_opens_fresh_paragraph() {
    let out = segment(vec![
        RichElement::Saga(vec![vec![RichElement::PlainText("x".to_string())]]),
        RichElement::CardReference {
            display: "M".to_string(),
            identity: "m1".to_string(),
        },
    ]);
    assert_eq!(
        out,
        vec![
            vec![RichElement::Saga(vec![vec![RichElement::PlainText(
                "x".to_string()
            )]])],
            vec![RichElement::CardReference {
                display: "M".to_string(),
                identity: "m1".to_string(),
            }],
        ]
    );
}

#[test]
fn trailing_break_leaves_paragraph_open() {
    let out = segment(vec![
        RichElement::PlainText("a\n".to_string()),
        RichElement::PlainText("b".to_string()),
    ]);
    assert_eq!(
        out,
        vec![vec![
            RichElement::PlainText("a".to_string()),
            RichElement::PlainText("b".to_string()),
        ]]
    );
}
