use cardtext::text::flavor_paragraphs;
use cardtext::text::split_lines;
use cardtext::views::CardThumbnailProps;

#[test]
fn split_keeps_every_piece_between_breaks() {
    let lines = split_lines("a\nb\nc");
    assert_eq!(
        lines,
        vec!["a".to_string(), "b".to_string(), "c".to_string()]
    );
}

#[test]
fn split_of_empty_text_is_one_empty_piece() {
    let lines = split_lines("");
    assert_eq!(lines, vec![String::new()]);
}

#[test]
fn split_keeps_empty_pieces_around_breaks() {
    let lines = split_lines("\na\n");
    assert_eq!(
        lines,
        vec![String::new(), "a".to_string(), String::new()]
    );
}

#[test]
fn flavor_text_keeps_only_nonempty_lines() {
    let out = flavor_paragraphs("first\n\nsecond\n");
    assert_eq!(out, vec!["first".to_string(), "second".to_string()]);
}

#[test]
fn flavor_text_of_empty_input_is_empty() {
    let out = flavor_paragraphs("");
    assert_eq!(out, Vec::<String>::new());
}

#[test]
fn unnamed_authors_get_a_placeholder_label() {
    let props = CardThumbnailProps {
        id: "c1".to_string(),
        image: "img".to_string(),
        art: 0,
        authors: vec![],
    };
    assert_eq!(props.author_label(), "Unspecified author".to_string());
}

#[test]
fn single_author_is_named_alone() {
    let props = CardThumbnailProps {
        id: "c1".to_string(),
        image: "img".to_string(),
        art: 0,
        authors: vec!["Ada".to_string()],
    };
    assert_eq!(props.author_label(), "Ada".to_string());
}

#[test]
fn several_authors_name_the_first_of_many() {
    let props = CardThumbnailProps {
        id: "c1".to_string(),
        image: "img".to_string(),
        art: 1,
        authors: vec!["Ada".to_string(), "Grace".to_string()],
    };
    assert_eq!(props.author_label(), "Ada et al".to_string());
}
