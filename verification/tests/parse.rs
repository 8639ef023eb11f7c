use pkmt::document::{
    DocumentComponent, DocumentElement, MentionedFile, ParsedDocument, PropType, PropValue,
    Property, TextMode,
};
use pkmt::parse::{parse_text, ParseMode};

#[test]
fn parse_text_dispatches_on_the_mode() {
    let zk = parse_text("[a](b.md)", &TextMode::Zk, &None).unwrap();
    assert_eq!(
        zk,
        ParsedDocument::ParsedText(vec![DocumentComponent::new(DocumentElement::FileLink(
            MentionedFile::FileName("b.md".to_string()),
            None,
            Some("a".to_string()),
        ))])
    );
    let obs = parse_text("[[b]]", &TextMode::Obsidian, &None).unwrap();
    assert_eq!(
        obs,
        ParsedDocument::ParsedText(vec![DocumentComponent::new(DocumentElement::FileLink(
            MentionedFile::FileName("b".to_string()),
            None,
            None,
        ))])
    );
    let ls = parse_text("[[b]]", &TextMode::LogSeq, &None).unwrap();
    assert_eq!(ls, obs);
}

#[test]
fn property_values_read_as_links() {
    let v = Property::try_prop_value_parse("[n](x.md)", &TextMode::Zk, &None);
    assert_eq!(v, PropValue::FileLink(MentionedFile::FileName("x.md".to_string()), None, Some("n".to_string())));
    let t = Property::try_prop_value_parse("plain text", &TextMode::Zk, &None);
    assert_eq!(t, PropValue::String("plain text".to_string()));
    let two = Property::try_prop_value_parse("[n](x.md) and more", &TextMode::Zk, &None);
    assert_eq!(two, PropValue::String("[n](x.md) and more".to_string()));
}

#[test]
fn new_parse_and_add_values_parse() {
    let values = vec!["[[a]]".to_string(), "b".to_string()];
    let mut p = Property::new_parse("p".to_string(), PropType::CompactList, &values, TextMode::Obsidian, &None);
    assert_eq!(
        p.values,
        vec![
            PropValue::FileLink(MentionedFile::FileName("a".to_string()), None, None),
            PropValue::String("b".to_string()),
        ]
    );
    p.add_values_parse(&["b".to_string(), "c".to_string()], &TextMode::Obsidian, &None);
    assert_eq!(p.values.len(), 3);
    assert_eq!(p.values[2], PropValue::String("c".to_string()));
}

#[test]
fn inner_readers_merge_neighbouring_texts() {
    let pd = pkmt::obsidian_parsing::parse_obsidian_text_inner("hello\nworld", &None).unwrap();
    assert_eq!(pd.components().len(), 1);
    assert_eq!(pd.components()[0].element, pkmt::document::DocumentElement::Text("hello\nworld".to_string()));
    let pd = pkmt::zk_parsing::parse_zk_text_inner("hello\nworld", &None).unwrap();
    assert_eq!(pd.components().len(), 1);
    assert_eq!(pd.components()[0].element, pkmt::document::DocumentElement::Text("hello\nworld".to_string()));
    let pd = pkmt::logseq_parsing::parse_logseq_text("some text\nmore text", &None).unwrap();
    for w in pd.components().windows(2) {
        let both_text = matches!(w[0].element, pkmt::document::DocumentElement::Text(_))
            && matches!(w[1].element, pkmt::document::DocumentElement::Text(_));
        assert!(!both_text);
    }
}

#[test]
fn parse_modes_name_text_modes() {
    assert_eq!(ParseMode::Zk.text_mode(), TextMode::Zk);
    assert_eq!(ParseMode::LogSeq.text_mode(), TextMode::LogSeq);
    assert_eq!(ParseMode::Obsidian.text_mode(), TextMode::Obsidian);
}
