use pkmt::document::{
    DocumentComponent, DocumentElement, ListElem, MentionedFile, ParsedDocument, PropType,
    PropValue, Property,
};
use pkmt::zk_parsing::{parse_zk_text, parse_zk_text_inner};

fn props_comp(props: Vec<Property>) -> DocumentComponent {
    DocumentComponent::new(DocumentElement::Properties(props))
}

#[test]
fn zk_parsing_test_admonition() {
    let text = "```ad-note
title: Title
Some text with $x+1$ math...
A new line!
```";

    let res = parse_zk_text(text, &None);
    if let Ok(res) = res {
        let props = vec![("title".to_string(), "Title".to_string())];
        let expected = ParsedDocument::ParsedText(vec![DocumentComponent::new(
            DocumentElement::Admonition(
                vec![DocumentComponent::new_text(
                    "Some text with $x+1$ math...\nA new line!",
                )],
                props,
            ),
        )]);
        assert_eq!(res, expected);
    } else {
        panic!("Got {res:?}")
    }
}

#[test]
fn zk_parsing_test_text_parsing() {
    let text = "Let $n$ denote the number of vertices in an input graph, and consider any constant $\\epsilon > 0$. Then there does not exist an $O(n^{\\epsilon-1})$-approximation algorithm for the [maximum clique problem](MaximumClique.md), unless P = NP.";
    let res = parse_zk_text(text, &None);
    if let Ok(res) = res {
        let expected = ParsedDocument::ParsedText(vec![
            DocumentComponent::new(DocumentElement::Text("Let $n$ denote the number of vertices in an input graph, and consider any constant $\\epsilon > 0$. Then there does not exist an $O(n^{\\epsilon-1})$-approximation algorithm for the ".to_string())),
            DocumentComponent::new(DocumentElement::FileLink(
                MentionedFile::FileName("MaximumClique.md".to_string()),
                None,
                Some("maximum clique problem".to_string()),
            )),
            DocumentComponent::new(DocumentElement::Text(", unless P = NP.".to_string())),
        ]);
        assert_eq!(res, expected);
    } else {
        panic!("Got {res:?}")
    }
}

#[test]
fn zk_parsing_test_image_embed_conversion() {
    let test_text =
        "variables will become nonzero, so we only need to keep track of these nonzero variables.

#### Initial Algorithm";
    let res = parse_zk_text(test_text, &None);
    if let Ok(pd) = res {
        let zk_text = pd.to_zk_text(&None);
        assert_eq!(zk_text, test_text);
    } else {
        panic!("Error: {res:?}");
    }
}

#[test]
fn zk_parsing_test_simple_list() {
    let text = "- item 1\n- item 2";
    let res = parse_zk_text(text, &None);
    if let Ok(pd) = res {
        assert_eq!(
            pd,
            ParsedDocument::ParsedText(vec![DocumentComponent::new(DocumentElement::List(
                vec![
                    ListElem {
                        contents: ParsedDocument::ParsedText(vec![DocumentComponent::new_text(
                            "item 1"
                        )]),
                        children: vec![]
                    },
                    ListElem {
                        contents: ParsedDocument::ParsedText(vec![DocumentComponent::new_text(
                            "item 2"
                        )]),
                        children: vec![]
                    }
                ],
                false
            ))])
        );
    } else {
        panic!("Error: {res:?}");
    }
}

#[test]
fn zk_parsing_test_nested_list() {
    let text = "- item 1\n    - item 1.1\n    - item 1.2\n- item 2\n    - item 2.1";
    let res = parse_zk_text(text, &None);
    if let Ok(pd) = res {
        let res = pd.to_zk_text(&None);
        assert_eq!(text, res);
    } else {
        panic!("Error: {res:?}");
    }
}

#[test]
fn zk_parsing_test_curly_heading_list() {
    let text = "# {{test}}";
    let res = parse_zk_text(text, &None);
    if let Ok(pd) = res {
        let res = pd.to_zk_text(&None);
        assert_eq!(text, res);
    } else {
        panic!("Error: {res:?}");
    }
}

#[test]
fn zk_parsing_test_yt_template() {
    let text = "---
date: 2024-12-01 12:05:11
tags: [video, youtube]
---

# {{blabla}}
- channel::= 
- status::= inbox
";
    let res = parse_zk_text(text, &None);
    if let Ok(pd) = res {
        let res = pd.to_zk_text(&None);
        assert_eq!(text.replace("::=", " ::=").trim(), res);
    } else {
        panic!("Error: {res:?}");
    }
}

#[test]
fn zk_parsing_test_curly_braces() {
    let text = "{{blabla}}";
    let res = parse_zk_text(text, &None);
    if let Ok(pd) = res {
        let res = pd.to_zk_text(&None);
        assert_eq!(text.replace("    ", "\t"), res);
    } else {
        panic!("Error: {res:?}");
    }
}

#[test]
fn zk_parsing_test_unicode() {
    let text = "🥭🍚";
    let res = parse_zk_text(text, &None);
    if let Ok(pd) = res {
        let res = pd.to_zk_text(&None);
        assert_eq!(text, res);
    } else {
        panic!("Error: {res:?}");
    }
}

#[test]
fn zk_parsing_test_multi_property() {
    let text = "property::= [test, ab]";
    let res = parse_zk_text(text, &None);
    let prop = props_comp(vec![Property::new(
        "property".to_string(),
        PropType::CompactList,
        vec![
            PropValue::String("test".to_string()),
            PropValue::String("ab".to_string()),
        ],
    )]);
    if let Ok(pd) = res {
        let expected = ParsedDocument::ParsedText(vec![prop]);
        assert_eq!(pd, expected);
        let res = pd.to_zk_text(&None);
        assert_eq!("property ::= [test, ab]", res);
    } else {
        panic!("Error: {res:?}");
    }
}

#[test]
fn zk_parsing_test_multi_property_empty() {
    let text = "property::= []";
    let res = parse_zk_text(text, &None);
    let prop = props_comp(vec![Property::new(
        "property".to_string(),
        PropType::CompactList,
        vec![],
    )]);
    if let Ok(pd) = res {
        let expected = ParsedDocument::ParsedText(vec![prop]);
        assert_eq!(pd, expected);
        let res = pd.to_zk_text(&None);
        let expected = "property ::= []";
        assert_eq!(expected, res);
    } else {
        panic!("Error: {res:?}");
    }
}

#[test]
fn zk_parsing_test_multi_property_single_char() {
    let text = "p ::= [a]";
    let res = parse_zk_text(text, &None);
    let prop = props_comp(vec![Property::new(
        "p".to_string(),
        PropType::CompactList,
        vec![PropValue::String("a".to_string())],
    )]);
    if let Ok(pd) = res {
        let expected = ParsedDocument::ParsedText(vec![prop]);
        assert_eq!(pd, expected);
        let res = pd.to_zk_text(&None);
        assert_eq!(text.replace("    ", "\t"), res);
    } else {
        panic!("Error: {res:?}");
    }
}

#[test]
fn test_single_property_file_name() {
    let text = "property::= [test](../test.md)";
    let res = parse_zk_text(text, &None);
    let prop = props_comp(vec![Property::new(
        "property".to_string(),
        PropType::Single,
        vec![PropValue::FileLink(
            MentionedFile::FileName("../test.md".to_string()),
            None,
            Some("test".to_string()),
        )],
    )]);
    if let Ok(pd) = res {
        let expected = ParsedDocument::ParsedText(vec![prop]);
        assert_eq!(pd, expected);
        let res = pd.to_zk_text(&None);
        let expected = "property ::= [test](../test.md)";
        assert_eq!(expected, res);
    } else {
        panic!("Error: {res:?}");
    }
}

#[test]
fn test_multi_property_file_name() {
    let text = "property::= [[test](../test.md)]";
    let res = parse_zk_text(text, &None);
    let prop = props_comp(vec![Property::new(
        "property".to_string(),
        PropType::CompactList,
        vec![PropValue::FileLink(
            MentionedFile::FileName("../test.md".to_string()),
            None,
            Some("test".to_string()),
        )],
    )]);
    if let Ok(pd) = res {
        let expected = ParsedDocument::ParsedText(vec![prop]);
        assert_eq!(pd, expected);
        let res = pd.to_zk_text(&None);
        let expected = "property ::= [[test](../test.md)]";
        assert_eq!(expected, res);
    } else {
        panic!("Error: {res:?}");
    }
}

#[test]
fn zk_parsing_test_property_text() {
    let text = "property ::= value";
    let res = parse_zk_text(text, &None);
    let prop = props_comp(vec![Property::new(
        "property".to_string(),
        PropType::Single,
        vec![PropValue::String("value".to_string())],
    )]);
    if let Ok(pd) = res {
        let expected = ParsedDocument::ParsedText(vec![prop]);
        assert_eq!(pd, expected);
        let res = pd.to_zk_text(&None);
        assert_eq!(res, text);
    } else {
        panic!("Error: {res:?}");
    }
}

#[test]
fn test_link_in_list() {
    let text =
        "- [Radtour München - Starnberger See](../../txpk-radtour-munchen-starnberger-see.md)";
    let res = parse_zk_text(text, &None).unwrap();
    let res = res.to_zk_text(&None);
    assert_eq!(res, text);
}

#[test]
fn test_text_after_list() {
    let text = "- a\n- b\n\nsome other text";
    let res = parse_zk_text(text, &None).unwrap();
    let res = res.to_zk_text(&None);
    assert_eq!(text, res);
}

#[test]
fn test_paranthesis_in_link_name() {
    let text = "[link (name)](some_file.md)";
    let res = parse_zk_text(text, &None).unwrap();
    let expected = ParsedDocument::ParsedText(vec![DocumentComponent::new(DocumentElement::FileLink(
        MentionedFile::FileName("some_file.md".into()),
        None,
        Some("link (name)".to_string()),
    ))]);
    assert_eq!(res, expected);
    let res = res.to_zk_text(&None);
    assert_eq!(text, res);
}

#[test]
fn test_link_with_special() {
    let text = "[Why don't movies look like *movies* anymore? | foo_bar](../../uuiv-why-dont-movies-look-like-movies-anymore.md)";
    let res = parse_zk_text(text, &None).unwrap();
    let expected = ParsedDocument::ParsedText(vec![DocumentComponent::new(DocumentElement::FileLink(
        MentionedFile::FileName("../../uuiv-why-dont-movies-look-like-movies-anymore.md".into()),
        None,
        Some("Why don't movies look like *movies* anymore? | foo_bar".to_string()),
    ))]);
    assert_eq!(res, expected);
    let res = res.to_zk_text(&None);
    assert_eq!(text, res);
}

#[test]
fn test_frontmatter_with_md_list() {
    let text = "---\nprop: val\ntags:\n    - a\n    - b\n---";
    let res = parse_zk_text(text, &None).unwrap();
    let expected = ParsedDocument::ParsedText(vec![DocumentComponent::new(
        DocumentElement::Frontmatter(vec![
            Property::new(
                "prop".to_string(),
                PropType::Single,
                vec![PropValue::String("val".to_string())],
            ),
            Property::new(
                "tags".to_string(),
                PropType::List,
                vec![
                    PropValue::String("a".to_string()),
                    PropValue::String("b".into()),
                ],
            ),
        ]),
    )]);
    assert_eq!(res, expected);
    assert_eq!(res.to_zk_text(&None), text);
}

// Further cases.

#[test]
fn zk_link_to_existing_file_keeps_its_path() {
    // The root directory exists on every machine the tests run on.
    let res = parse_zk_text("[root](/)", &None).unwrap();
    let expected = ParsedDocument::ParsedText(vec![DocumentComponent::new(DocumentElement::FileLink(
        MentionedFile::FilePath("/".to_string()),
        None,
        Some("root".to_string()),
    ))]);
    assert_eq!(res, expected);
}

#[test]
fn zk_bracket_without_link_is_text() {
    let res = parse_zk_text("a [b] c", &None).unwrap();
    let expected = ParsedDocument::ParsedText(vec![DocumentComponent::new_text("a [b] c")]);
    assert_eq!(res, expected);
}

#[test]
fn zk_embed_by_name() {
    let res = parse_zk_text_inner("![[note#part]]", &None).unwrap();
    let expected = ParsedDocument::ParsedText(vec![DocumentComponent::new(DocumentElement::FileEmbed(
        MentionedFile::FileName("note".to_string()),
        Some("part".to_string()),
    ))]);
    assert_eq!(res, expected);
}

#[test]
fn zk_property_after_text_is_text() {
    let res = parse_zk_text_inner("x a::= b", &None).unwrap();
    let expected = ParsedDocument::ParsedText(vec![DocumentComponent::new_text("x a::= b")]);
    assert_eq!(res, expected);
}

#[test]
fn zk_unclosed_frontmatter_fails() {
    assert!(parse_zk_text_inner("---\na: b", &None).is_err());
}
