use pkmt::document::{DocumentComponent, DocumentElement, ListElem, MentionedFile, ParsedDocument};
use pkmt::logseq_parsing::parse_logseq_text;

#[test]
fn test_simple_list_parsing() {
    let text = "- first block test [[mention]]\n    - nested block";

    let res = parse_logseq_text(text, &None).unwrap();
    let expected = ParsedDocument::ParsedText(vec![DocumentComponent::new(DocumentElement::List(
        vec![ListElem {
            contents: ParsedDocument::ParsedText(vec![
                DocumentComponent::new_text("first block test "),
                DocumentComponent::new(DocumentElement::FileLink(
                    MentionedFile::FileName("mention".to_string()),
                    None,
                    None,
                )),
            ]),
            children: vec![ListElem {
                contents: ParsedDocument::ParsedText(vec![DocumentComponent::new_text("nested block")]),
                children: vec![],
            }],
        }],
        false,
    ))]);

    assert_eq!(res, expected);

    let txt = res.to_logseq_text(&None);
    assert_eq!(txt, text);
}

#[test]
fn test_parse_properties() {
    let text = "- # Blog\n\t- template:: blog\n\t  tags:: [[blog]]\n\t  source::\n\t  description::\n\t  url::";

    let res = parse_logseq_text(text, &None).unwrap();
    let res = res.to_logseq_text(&None);
    assert_eq!(res, text.replace("\t", "    "));
}

#[test]
fn test_parse_youtube_template() {
    let text = "## Youtube\n\t- template:: youtube\n\t  tags:: #video, #youtube\n\t  status:: #Inbox\n\t  description:: \n\t  authors::\n\t\t- [[YouTube Embed]]\n\t\t\t-\n\t\t- [[Video Notes]]\n\t\t\t-";

    let res = parse_logseq_text(text, &None).unwrap();

    let res = res.to_logseq_text(&None);

    let expected = "- ## Youtube\n\t- template:: youtube\n\t  tags:: #video, #youtube\n\t  status:: #Inbox\n\t  description:: \n\t  authors::\n\t\t- [[YouTube Embed]]\n\t\t\t-\n\t\t- [[Video Notes]]\n\t\t\t-";
    assert_eq!(res, expected.replace("\t", "    "));
}

#[test]
fn test_code_block() {
    let text = "```python\nres=set()\n```";
    let res = parse_logseq_text(text, &None).unwrap();
    let res = res.to_logseq_text(&None);
    let expected = "- ```python\n  res=set()\n  ```";
    assert_eq!(res, expected);
}

#[test]
fn test_umlaut() {
    let text = "üÜäÄöÖß";
    let res = parse_logseq_text(text, &None);
    let res = res.unwrap().to_logseq_text(&None);
    let expected = "- üÜäÄöÖß";
    assert_eq!(res, expected);
}

// Further cases.

#[test]
fn logseq_heading_inside_block() {
    let res = parse_logseq_text("a # b", &None).unwrap();
    let expected = ParsedDocument::ParsedText(vec![
        DocumentComponent::new_text("a "),
        DocumentComponent::new(DocumentElement::Heading(1, "b".to_string())),
    ]);
    assert_eq!(res, expected);
}

#[test]
fn logseq_code_block_without_language() {
    let res = parse_logseq_text("```x = 1```", &None).unwrap();
    let expected = ParsedDocument::ParsedText(vec![DocumentComponent::new(
        DocumentElement::CodeBlock("x = 1".to_string(), None),
    )]);
    assert_eq!(res, expected);
}

#[test]
fn logseq_unclosed_mention_fails() {
    assert!(parse_logseq_text("see [[page", &None).is_err());
}

#[test]
fn logseq_unknown_character_fails() {
    assert!(parse_logseq_text("a`b", &None).is_err());
}
