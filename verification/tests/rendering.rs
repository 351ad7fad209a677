use cardtext::model::RichElement;
use cardtext::render::RenderBlock;
use cardtext::render::RenderNode;
use cardtext::render::render;
use cardtext::render::render_element;
use cardtext::render::render_paragraph;
use cardtext::render::render_rich_string;

#[test]
fn rendering_nothing_yields_no_blocks() {
    let out = render(vec![]);
    assert_eq!(out, Vec::<RenderBlock>::new());
}

#[test]
fn each_element_kind_renders_to_its_node() {
    let block = render_paragraph(vec![
        RichElement::PlainText("t".to_string()),
        RichElement::CardReference {
            display: "M".to_string(),
            identity: "m1".to_string(),
        },
        RichElement::SpecificCardLink {
            display: "X".to_string(),
            id: "id1".to_string(),
        },
        RichElement::SearchLink {
            display: "Q".to_string(),
            query: "k:ant".to_string(),
        },
        RichElement::LineBreak,
    ]);
    assert_eq!(
        block,
        RenderBlock {
            nodes: vec![
                RenderNode::Text("t".to_string()),
                RenderNode::Text("M".to_string()),
                RenderNode::CardNav {
                    label: "X".to_string(),
                    id: "id1".to_string(),
                },
                RenderNode::SearchNav {
                    label: "Q".to_string(),
                    query: "k:ant".to_string(),
                },
                RenderNode::Break,
            ],
        }
    );
}

#[test]
fn card_reference_identity_is_not_rendered() {
    let node = render_element(RichElement::CardReference {
        display: "shown".to_string(),
        identity: "hidden".to_string(),
    });
    assert_eq!(node, RenderNode::Text("shown".to_string()));
}

#[test]
fn full_pipeline_renders_saga_as_nested_documents() {
    let out = render_rich_string(vec![
        RichElement::PlainText("a".to_string()),
        RichElement::Saga(vec![
            vec![RichElement::PlainText("i1".to_string())],
            vec![RichElement::PlainText("i2".to_string())],
        ]),
        RichElement::PlainText("b".to_string()),
    ]);
    assert_eq!(
        out,
        vec![
            RenderBlock {
                nodes: vec![RenderNode::Text("a".to_string())],
            },
            RenderBlock {
                nodes: vec![RenderNode::List(vec![
                    vec![RenderBlock {
                        nodes: vec![RenderNode::Text("i1".to_string())],
                    }],
                    vec![RenderBlock {
                        nodes: vec![RenderNode::Text("i2".to_string())],
                    }],
                ])],
            },
            RenderBlock {
                nodes: vec![RenderNode::Text("b".to_string())],
            },
        ]
    );
}

#[test]
fn nested_item_obeys_the_same_segmentation_rules() {
    // The item's own run holds an embedded break, so at depth one it must
    // split into two paragraphs exactly as it would at the top level.
    let out = render_rich_string(vec![RichElement::Saga(vec![vec![
        RichElement::PlainText("p\nq".to_string()),
    ]])]);
    assert_eq!(
        out,
        vec![RenderBlock {
            nodes: vec![RenderNode::List(vec![vec![
                RenderBlock {
                    nodes: vec![RenderNode::Text("p".to_string())],
                },
                RenderBlock {
                    nodes: vec![RenderNode::Text("q".to_string())],
                },
            ]])],
        }]
    );
}

#[test]
fn saga_within_saga_renders_at_every_depth() {
    let out = render_rich_string(vec![RichElement::Saga(vec![vec![
        RichElement::Saga(vec![vec![RichElement::PlainText("deep".to_string())]]),
    ]])]);
    assert_eq!(
        out,
        vec![RenderBlock {
            nodes: vec![RenderNode::List(vec![vec![RenderBlock {
                nodes: vec![RenderNode::List(vec![vec![RenderBlock {
                    nodes: vec![RenderNode::Text("deep".to_string())],
                }]])],
            }]])],
        }]
    );
}

#[test]
fn explicit_break_renders_an_empty_block() {
    let out = render_rich_string(vec![RichElement::LineBreak]);
    assert_eq!(out, vec![RenderBlock { nodes: vec![] }]);
}
