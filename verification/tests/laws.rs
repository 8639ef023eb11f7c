use pkmt::document::{
    DocumentComponent, DocumentElement, FileInfo, ListElem, MentionedFile, ParsedDocument, TextMode,
};
use pkmt::obsidian_parsing::parse_obsidian_text;
use pkmt::search::FnSelector;
use pkmt::util::apply_substitutions;

fn sample() -> ParsedDocument {
    let item = ListElem {
        contents: ParsedDocument::ParsedText(vec![
            DocumentComponent::new_text("x"),
            DocumentComponent::new_text("y"),
        ]),
        children: vec![],
    };
    ParsedDocument::ParsedText(vec![
        DocumentComponent::new_text("a"),
        DocumentComponent::new(DocumentElement::List(vec![item], false)),
        DocumentComponent::new_text("b"),
        DocumentComponent::new(DocumentElement::Heading(1, "h".to_string())),
        DocumentComponent::new_text("c"),
    ])
}

#[test]
fn collapsing_twice_is_collapsing_once() {
    let once = sample().collapse_text();
    let twice = once.collapse_text();
    assert_eq!(once, twice);
    let expected_item = ListElem {
        contents: ParsedDocument::ParsedText(vec![DocumentComponent::new_text("xy")]),
        children: vec![],
    };
    assert_eq!(
        once,
        ParsedDocument::ParsedText(vec![
            DocumentComponent::new(DocumentElement::List(vec![expected_item], false)),
            DocumentComponent::new_text("ab"),
            DocumentComponent::new(DocumentElement::Heading(1, "h".to_string())),
            DocumentComponent::new_text("c"),
        ])
    );
}

#[test]
fn substituting_twice_is_substituting_once() {
    let t = "a\u{2212}b \u{201c}q\u{201d} x \u{2208} y \u{2203} z\u{2019}s \u{2013} \u{2217}";
    let once = apply_substitutions(t);
    assert_eq!(once, "a-b \"q\" x \\in  y EXISTS z's - *");
    assert_eq!(apply_substitutions(&once), once);
}

#[test]
fn substitution_keeps_ascii_text() {
    let t = "plain ASCII text - with [[links]] and *stars*";
    assert_eq!(apply_substitutions(t), t);
}

#[test]
fn mutable_search_finds_what_plain_search_finds() {
    let sel = FnSelector { f: |c: &DocumentComponent| matches!(c.element, DocumentElement::Heading(..)) };
    let mut pd = sample();
    let plain = pd.get_document_component(&sel);
    let found = pd.get_document_component_mut(&sel).map(|c| DocumentComponent::new(DocumentElement::Heading(
        match c.element {
            DocumentElement::Heading(l, _) => l,
            _ => 0,
        },
        "h".to_string(),
    )));
    assert_eq!(plain, found);
    assert_eq!(pd, sample());
}

#[test]
fn to_string_agrees_with_the_format_renderers() {
    let pd = sample();
    let fi = Some(FileInfo::new_same_file("note.md".to_string()));
    assert_eq!(pd.to_string(TextMode::LogSeq, &fi), pd.to_logseq_text(&fi));
    assert_eq!(pd.to_string(TextMode::Zk, &fi), pd.to_zk_text(&fi));
    assert_eq!(pd.try_to_string(TextMode::Obsidian, &fi), None);
}

#[test]
fn a_destination_without_parent_matters_only_for_images() {
    let fi = Some(FileInfo::new(
        "note.md".to_string(),
        Some("/".to_string()),
        Some(("in".to_string(), "out".to_string())),
    ));
    let plain = sample();
    assert_eq!(plain.try_to_string(TextMode::Zk, &fi), Some(plain.to_zk_text(&None)));
    let with_image = ParsedDocument::ParsedText(vec![DocumentComponent::new(DocumentElement::FileEmbed(
        MentionedFile::FileName("pic.png".to_string()),
        None,
    ))]);
    assert_eq!(with_image.try_to_string(TextMode::Zk, &fi), None);
    let with_other = ParsedDocument::ParsedText(vec![DocumentComponent::new(DocumentElement::FileEmbed(
        MentionedFile::FileName("doc.pdf".to_string()),
        None,
    ))]);
    assert!(with_other.try_to_string(TextMode::Zk, &fi).is_some());
}

#[test]
fn an_admonition_keeps_each_key_once() {
    let text = "```ad-note\ntitle: First\ncolor: red\ntitle: Second\nbody\n```";
    let pd = parse_obsidian_text(text, &None).unwrap();
    let expected = ParsedDocument::ParsedText(vec![DocumentComponent::new(DocumentElement::Admonition(
        vec![DocumentComponent::new_text("body")],
        vec![("title".to_string(), "Second".to_string()), ("color".to_string(), "red".to_string())],
    ))]);
    assert_eq!(pd, expected);
}
