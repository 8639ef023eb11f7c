use pkmt::document::{
    DocumentComponent, DocumentElement, MentionedFile, ParsedDocument, PropType, PropValue,
    Property,
};
use pkmt::duplicates::{cluster_outcome, date_order, document_date, initial_resolutions, IgnoredSimilarFiles};
use pkmt::edit::{expand_tag_lists, unquote_first_heading};
use pkmt::redirect::redirect_file_mentions;
use pkmt::similar::{cluster_representatives, similar_file_groups, similar_name_clusters};
use pkmt::ui_state::{InteractiveState, Key, OverwriteConfirmState, SimilarNameResolution, SimilarNamesState};
use pkmt::ui_state::SimilarNameResolution::{Ignore, Main, Remove, Skip};

fn strings(v: &[&str]) -> Vec<String> {
    v.iter().map(|s| s.to_string()).collect()
}

#[test]
fn clusters_follow_links_to_the_last_similar_name() {
    let names = strings(&["note", "notes", "other", "nobe"]);
    assert_eq!(cluster_representatives(&names, 1), vec![3, 1, 2, 3]);
    assert_eq!(similar_name_clusters(&names, 1), vec![vec![0, 3], vec![1], vec![2]]);
}

#[test]
fn edit_distance_decides_similarity() {
    let names = strings(&["kitten", "sitting"]);
    assert_eq!(cluster_representatives(&names, 3), vec![1, 1]);
    assert_eq!(cluster_representatives(&names, 2), vec![0, 1]);
}

#[test]
fn similar_file_groups_skip_backups() {
    let paths = strings(&["/a/note.md", "/a/bak/notes.md", "/b/notes.md", "/c/zzz.md"]);
    assert_eq!(
        similar_file_groups(&paths, 1),
        Some(vec![strings(&["/a/note.md", "/b/notes.md"])])
    );
    assert_eq!(similar_file_groups(&strings(&["/"]), 1), None);
}

#[test]
fn dates_order_stably() {
    let dates = strings(&["2024-02-01", "2023-01-01", "2024-02-01", "2022"]);
    assert_eq!(date_order(&dates), vec![3, 1, 0, 2]);
    assert_eq!(date_order(&[]), Vec::<usize>::new());
}

#[test]
fn date_of_a_note() {
    let fm = DocumentComponent::new(DocumentElement::Frontmatter(vec![
        Property::new("title".to_string(), PropType::Single, vec![PropValue::String("T".to_string())]),
        Property::new("date".to_string(), PropType::Single, vec![PropValue::String("2024-01-01".to_string())]),
        Property::new("date".to_string(), PropType::Single, vec![PropValue::String("1999".to_string())]),
    ]));
    let pd = ParsedDocument::ParsedText(vec![DocumentComponent::new_text("x"), fm]);
    assert_eq!(document_date(&pd), Some("2024-01-01".to_string()));
    let none = ParsedDocument::ParsedText(vec![DocumentComponent::new_text("x")]);
    assert_eq!(document_date(&none), None);
}

#[test]
fn outcome_of_a_cluster() {
    let fp = vec![
        ("a".to_string(), Main),
        ("b".to_string(), Remove),
        ("c".to_string(), Ignore),
        ("d".to_string(), Skip),
    ];
    let o = cluster_outcome(&fp, &[10, 11, 12, 13]);
    assert_eq!(o.main, "a");
    assert_eq!(o.delete, vec![("b".to_string(), 11)]);
    assert_eq!(o.ignore, vec![("a".to_string(), "c".to_string())]);
    let init = initial_resolutions(strings(&["x", "y", "z"]));
    assert_eq!(init, vec![("x".to_string(), Main), ("y".to_string(), Skip), ("z".to_string(), Skip)]);
}

#[test]
fn ignored_pairs_in_either_order() {
    let mut ig = IgnoredSimilarFiles { ignore_similar: vec![] };
    let a = "a".to_string();
    let b = "b".to_string();
    assert!(!ig.contains(&a, &b));
    assert!(ig.ensure_contains(&a, &b));
    assert!(ig.contains(&b, &a));
    assert!(!ig.ensure_contains(&b, &a));
    assert_eq!(ig.ignore_similar.len(), 1);
}

#[test]
fn links_are_redirected() {
    let link = DocumentComponent::new(DocumentElement::FileLink(
        MentionedFile::FilePath("/x/old.md".to_string()),
        None,
        Some("Old".to_string()),
    ));
    let props = DocumentComponent::new(DocumentElement::Properties(vec![Property::new(
        "source".to_string(),
        PropType::Single,
        vec![
            PropValue::FileLink(MentionedFile::FilePath("/x/old.md".to_string()), None, None),
            PropValue::String("keep".to_string()),
        ],
    )]));
    let other = DocumentComponent::new(DocumentElement::FileLink(
        MentionedFile::FilePath("/x/other.md".to_string()),
        None,
        None,
    ));
    let mut pd = ParsedDocument::ParsedText(vec![link, props, other]);
    let changed = redirect_file_mentions(&mut pd, &strings(&["/x/old.md"]), &"/x/new.md".to_string());
    assert!(changed);
    let comps = pd.components();
    assert_eq!(
        comps[0].element,
        DocumentElement::FileLink(MentionedFile::FilePath("/x/new.md".to_string()), None, Some("Old".to_string()))
    );
    match &comps[1].element {
        DocumentElement::Properties(ps) => {
            assert_eq!(
                ps[0].values[0],
                PropValue::FileLink(MentionedFile::FilePath("/x/new.md".to_string()), None, None)
            );
            assert_eq!(ps[0].values[1], PropValue::String("keep".to_string()));
        }
        _ => panic!("properties expected"),
    }
    assert_eq!(
        comps[2].element,
        DocumentElement::FileLink(MentionedFile::FilePath("/x/other.md".to_string()), None, None)
    );
    let mut plain = ParsedDocument::ParsedText(vec![DocumentComponent::new_text("t")]);
    assert!(!redirect_file_mentions(&mut plain, &strings(&["/x/old.md"]), &"/x/new.md".to_string()));
}

#[test]
fn compact_tag_lists_are_expanded() {
    let fm = DocumentComponent::new(DocumentElement::Frontmatter(vec![
        Property::new("tags".to_string(), PropType::CompactList, vec![PropValue::String("a".to_string())]),
        Property::new("aliases".to_string(), PropType::CompactList, vec![]),
    ]));
    let mut pd = ParsedDocument::ParsedText(vec![fm]);
    assert!(expand_tag_lists(&mut pd));
    match &pd.components()[0].element {
        DocumentElement::Frontmatter(ps) => {
            assert_eq!(ps[0].prop_type, PropType::List);
            assert_eq!(ps[1].prop_type, PropType::CompactList);
        }
        _ => panic!("frontmatter expected"),
    }
    assert!(!expand_tag_lists(&mut pd));
}

#[test]
fn quoted_titles_are_unquoted() {
    let mut pd = ParsedDocument::ParsedText(vec![DocumentComponent::new(DocumentElement::Heading(
        1,
        "\"Title\"".to_string(),
    ))]);
    assert_eq!(unquote_first_heading(&mut pd), Some("\"Title\"".to_string()));
    assert_eq!(pd.components()[0].element, DocumentElement::Heading(1, "Title".to_string()));
    assert_eq!(unquote_first_heading(&mut pd), None);
}

#[test]
fn interactive_assignment_keys() {
    let mut s = InteractiveState::new(strings(&["t1", "t2"]), strings(&["a", "b", "c"]));
    s.handle_key_event(Key::Down);
    s.handle_key_event(Key::Down);
    s.handle_key_event(Key::Down);
    assert_eq!(s.choices_pos, 2);
    s.handle_key_event(Key::Up);
    assert_eq!(s.choices_pos, 1);
    s.handle_key_event(Key::Char(' '));
    assert_eq!(s.done_choices, vec![Some(1)]);
    assert_eq!(s.data_pos, 1);
    assert!(!s.exit);
    s.handle_key_event(Key::Char('s'));
    assert_eq!(s.done_choices, vec![Some(1), None]);
    assert!(s.exit);
}

#[test]
fn cancelling_skips_the_rest() {
    let mut s = InteractiveState::new(strings(&["t1", "t2", "t3"]), strings(&["a"]));
    s.handle_key_event(Key::Char(' '));
    s.handle_key_event(Key::Char('c'));
    assert_eq!(s.done_choices, vec![Some(0), None, None]);
    assert!(s.exit);
}

#[test]
fn similar_names_dialog_keys() {
    let mut s = SimilarNamesState::new(vec![
        ("a".to_string(), Main),
        ("b".to_string(), Skip),
        ("c".to_string(), Skip),
    ]);
    assert_eq!(s.position, 1);
    s.handle_key_event(Key::Char('d'));
    assert_eq!(s.file_paths[1], ("b".to_string(), Remove));
    s.handle_key_event(Key::Down);
    s.handle_key_event(Key::Down);
    assert_eq!(s.position, 2);
    s.handle_key_event(Key::Char('m'));
    assert_eq!(s.file_paths[0], ("a".to_string(), Main));
    assert_eq!(s.file_paths[2], ("c".to_string(), Main));
    s.handle_key_event(Key::Up);
    s.handle_key_event(Key::Up);
    s.handle_key_event(Key::Up);
    assert_eq!(s.position, 0);
    s.handle_key_event(Key::Char('i'));
    assert_eq!(s.file_paths[0], ("a".to_string(), Main));
    s.handle_key_event(Key::Char('q'));
    assert!(s.exit);
}

#[test]
fn overwrite_dialog_keys() {
    let mut s = OverwriteConfirmState::new("o".to_string(), "n".to_string(), "i".to_string());
    s.handle_key_event(Key::Other);
    assert!(!s.exit);
    s.handle_key_event(Key::Char('y'));
    assert!(s.choice && s.exit);
    s.handle_key_event(Key::Char('n'));
    assert!(!s.choice && s.exit);
}
