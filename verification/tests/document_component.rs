use pkmt::document::{DocumentComponent, DocumentElement, ParsedDocument};

#[test]
fn test_text_elem_to_logseq() {
    let text = "line 1\n\t  line 2".to_string();
    let elem = DocumentElement::Text(text.clone());
    let res = elem.to_logseq_text(&None);

    assert_eq!(res, text)
}

#[test]
fn test_list_element_to_logseq() {
    let text = "line 1\nline 2".to_string();
    let pd = ParsedDocument::ParsedText(vec![DocumentComponent::new_text(&text)]);
    let le = DocumentElement::ListElement(pd, vec![]);
    let res = le.to_logseq_text(&None);

    assert_eq!(res, format!("- line 1\n  line 2"));

    let list_elem = DocumentElement::ListElement(
        ParsedDocument::ParsedText(vec![]),
        vec![
            ("template".to_string(), "blog".to_string()),
            ("tags".to_string(), "[[blog]]".to_string()),
        ],
    );

    assert_eq!(
        list_elem.to_logseq_text(&None),
        "- template:: blog\n  tags:: [[blog]]".to_string()
    );
}

#[test]
fn test_comp_text_element_to_logseq() {
    let text = "\n  source::\n  description::\n  url::";

    let comp = DocumentComponent::new_text(text);
    let res = comp.to_logseq_text(&None);
    let expected = "\n  source::\n  description::\n  url::";
    assert_eq!(res, expected);
}

#[test]
fn test_almost_empty_pd_to_logseq() {
    let pd = ParsedDocument::ParsedText(vec![DocumentComponent::new(DocumentElement::ListElement(
        ParsedDocument::ParsedText(vec![]),
        vec![],
    ))]);
    let expected = "-";
    assert_eq!(pd.to_logseq_text(&None), expected);
}
