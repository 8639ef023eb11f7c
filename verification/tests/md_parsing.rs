use pkmt::md_parsing::{parse_md_text, ListElement, MdComponent};

#[test]
fn test_basic_list() {
    let text = "- a\n- b";
    let result = parse_md_text(text).unwrap();
    let expected = vec![MdComponent::List(
        vec![
            ListElement::new_text("a".to_string()),
            ListElement::new_text("b".to_string()),
        ],
        false,
    )];
    assert_eq!(result, expected);
}

#[test]
fn test_multiple_headings() {
    let text = "# a\n## b\n##### c";
    let result = parse_md_text(text).unwrap();
    let expected = vec![
        MdComponent::Heading(1, "a".to_string()),
        MdComponent::Heading(2, "b".to_string()),
        MdComponent::Heading(5, "c".to_string()),
    ];
    assert_eq!(result, expected);
}

#[test]
fn md_parsing_test_nested_list() {
    let text = "- a\n\t- a1\n\t- a2\n- b";
    let result = parse_md_text(text).unwrap();
    let mut a_list = ListElement::new_text("a".to_string());
    a_list.children = vec![
        ListElement::new_text("a1".to_string()),
        ListElement::new_text("a2".to_string()),
    ];

    let expected = vec![MdComponent::List(
        vec![a_list, ListElement::new_text("b".to_string())],
        false,
    )];
    assert_eq!(result, expected);
}

#[test]
fn test_involved_list() {
    let text = "- a\n\t- a1\n\t- a2\n- b\n\n# Heading\nsome text";
    let result = parse_md_text(text).unwrap();
    let mut a_list = ListElement::new_text("a".to_string());
    a_list.children = vec![
        ListElement::new_text("a1".to_string()),
        ListElement::new_text("a2".to_string()),
    ];

    let expected = vec![
        MdComponent::List(vec![a_list, ListElement::new_text("b".to_string())], true),
        MdComponent::Heading(1, "Heading".to_string()),
        MdComponent::Text("some text".to_string()),
    ];
    assert_eq!(result, expected);
}

#[test]
fn test_multiline_list_element() {
    let text = "- a\n  b";
    let result = parse_md_text(text).unwrap();
    let expected = vec![MdComponent::List(
        vec![ListElement::new_text("a\n  b".to_string())],
        false,
    )];
    assert_eq!(result, expected)
}

#[test]
fn test_list_with_dash() {
    let text = "- a - b\n- c";
    let result = parse_md_text(text).unwrap();
    let expected = vec![MdComponent::List(
        vec![
            ListElement::new_text("a - b".to_string()),
            ListElement::new_text("c".to_string()),
        ],
        false,
    )];
    assert_eq!(result, expected)
}

#[test]
fn md_text_with_unknown_character_is_refused() {
    assert!(parse_md_text("a @ b").is_err());
}

#[test]
fn md_heading_without_text() {
    let result = parse_md_text("#").unwrap();
    assert_eq!(result, vec![MdComponent::Heading(1, String::new())]);
}
