use pkmt::checklist::{checklist_text, is_empty_note};
use pkmt::document::{DocumentComponent, DocumentElement, ListElem, MentionedFile, ParsedDocument};
use pkmt::mentions::mentioned_images;

fn strings(v: &[&str]) -> Vec<String> {
    v.iter().map(|s| s.to_string()).collect()
}

#[test]
fn text_cleanup_drops_blank_lines() {
    assert_eq!(DocumentElement::cleanup_text("  a\n\n\nb\nc  \n"), "a\n\nb\n\nc");
    assert_eq!(DocumentElement::cleanup_text("one\ntwo"), "one\ntwo");
    assert_eq!(DocumentElement::cleanup_text("   "), "");
}

#[test]
fn elements_are_cleaned() {
    let mut h = DocumentElement::Heading(2, " x ".to_string());
    h.cleanup();
    assert_eq!(h, DocumentElement::Heading(2, "x".to_string()));
    let mut a = DocumentElement::Admonition(
        vec![DocumentComponent::new(DocumentElement::Text(" t \n\n u".to_string()))],
        vec![],
    );
    a.cleanup();
    match a {
        DocumentElement::Admonition(cs, _) => {
            assert_eq!(cs[0].element, DocumentElement::Text("t \n\n u".to_string()))
        }
        _ => panic!("admonition expected"),
    }
}

#[test]
fn mentioned_files_in_order() {
    let child = DocumentComponent::new(DocumentElement::FileLink(
        MentionedFile::FileName("c".to_string()),
        None,
        None,
    ));
    let pd = ParsedDocument::ParsedText(vec![
        DocumentComponent::new(DocumentElement::FileLink(MentionedFile::FileName("a".to_string()), None, None)),
        DocumentComponent::new_with_children(
            DocumentElement::FileEmbed(MentionedFile::FilePath("/p/img.png".to_string()), None),
            vec![child],
        ),
        DocumentComponent::new_text("x"),
    ]);
    assert_eq!(pd.mentioned_files(), strings(&["a", "img.png", "c"]));
    assert_eq!(pd.checked_mentioned_files(), Some(strings(&["a", "img.png", "c"])));
    let bad = ParsedDocument::ParsedText(vec![DocumentComponent::new(DocumentElement::FileEmbed(
        MentionedFile::FilePath("/".to_string()),
        None,
    ))]);
    assert_eq!(bad.checked_mentioned_files(), None);
}

#[test]
fn images_mentioned_by_name_or_stem() {
    let files = strings(&["/im/a.png", "/im/b.png", "/im/c.png"]);
    assert_eq!(mentioned_images(&files, &strings(&["a.png", "b"])), strings(&["/im/a.png", "/im/b.png"]));
}

#[test]
fn checklist_of_a_directory() {
    let text = checklist_text(
        "/root",
        &strings(&["/root/a.md", "/root/b.md"]),
        &strings(&["- [ ] `/root/sub`\n\t- [ ] files in directory"]),
        "[ ]",
    );
    assert_eq!(
        text,
        Some(
            "- [ ] `/root`\n\t- [ ] files in directory\n\t\t- [ ] `a.md`\n\t\t- [ ] `b.md`\n\t- [ ] `/root/sub`\n\t\t- [ ] files in directory"
                .to_string()
        )
    );
    assert_eq!(checklist_text("/r", &[], &[], "T"), Some("- T `/r`".to_string()));
}

#[test]
fn empty_notes() {
    assert!(is_empty_note("---"));
    assert!(is_empty_note(""));
    assert!(!is_empty_note("---\n"));
    assert!(!is_empty_note("text"));
}

#[test]
fn new_list_element_has_no_children() {
    let l = ListElem::new(ParsedDocument::ParsedText(vec![]));
    assert!(l.children.is_empty());
}

#[test]
fn nth_component_of_a_document() {
    let mut pd = ParsedDocument::ParsedText(vec![DocumentComponent::new_text("a"), DocumentComponent::new_text("b")]);
    if let Some(c) = pd._get_nth_child_mut(1) {
        c.element = DocumentElement::Text("c".to_string());
    }
    assert_eq!(pd.components()[1].element, DocumentElement::Text("c".to_string()));
    assert!(pd._get_nth_child_mut(2).is_none());
}
