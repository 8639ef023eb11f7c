use pkmt::document::MentionedFile;
use pkmt::obsidian_parsing::ParseError;
use pkmt::resolve::{lookup_paths, pick_resolution, resolve_name};

#[test]
fn lookup_paths_joins_the_directory_first() {
    let (in_dir, as_given) = lookup_paths(&"note.md".to_string(), "notes");
    assert_eq!(in_dir, "notes/note.md");
    assert_eq!(as_given, "note.md");
}

#[test]
fn pick_resolution_fails_when_the_file_in_the_directory_has_no_canonical_path() {
    let r = pick_resolution(&"a".to_string(), Some(None), Some(Some("/x/a".to_string())));
    assert_eq!(r, Err(ParseError::Unresolved));
}

#[test]
fn pick_resolution_fails_when_the_file_as_given_has_no_canonical_path() {
    let r = pick_resolution(&"a".to_string(), Some(Some("/d/a".to_string())), Some(None));
    assert_eq!(r, Err(ParseError::Unresolved));
}

#[test]
fn pick_resolution_prefers_the_file_as_given() {
    let r = pick_resolution(&"a".to_string(), Some(Some("/d/a".to_string())), Some(Some("/w/a".to_string())));
    assert_eq!(r, Ok(MentionedFile::FilePath("/w/a".to_string())));
}

#[test]
fn pick_resolution_takes_the_file_in_the_directory() {
    let r = pick_resolution(&"a".to_string(), Some(Some("/d/a".to_string())), None);
    assert_eq!(r, Ok(MentionedFile::FilePath("/d/a".to_string())));
}

#[test]
fn pick_resolution_keeps_the_name_when_no_file_exists() {
    let r = pick_resolution(&"a".to_string(), None, None);
    assert_eq!(r, Ok(MentionedFile::FileName("a".to_string())));
}

#[test]
fn resolve_name_keeps_a_name_that_names_no_file() {
    let r = resolve_name(&"no-such-note-here.md".to_string(), "no-such-directory-here");
    assert_eq!(r, Ok(MentionedFile::FileName("no-such-note-here.md".to_string())));
}
