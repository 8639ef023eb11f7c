use pkmt::config::{ChannelTags, Config, KeywordTags, Keys, Tags};
use pkmt::document::{
    DocumentComponent, DocumentElement, ListElem, MentionedFile, ParsedDocument, PropType,
    PropValue, Property, TextMode,
};
use pkmt::handlers::{fill_all_props_le, LogSeqHandler, LogSeqTemplates, ZkHandler};
use pkmt::logseq_parsing::parse_logseq_text;
use pkmt::tasks::{find_inbox, get_lonely_tasks, TaskData, TodoistProject, TodoistTask};
use pkmt::zk_parsing::parse_zk_text;

fn strings(v: &[&str]) -> Vec<String> {
    v.iter().map(|s| s.to_string()).collect()
}

fn config() -> Config {
    let tags = Tags::new(
        vec![
            ChannelTags { channel: "Chan".to_string(), tags: strings(&["a", "b"]) },
            ChannelTags { channel: "Chan".to_string(), tags: strings(&["z"]) },
        ],
        vec![
            KeywordTags { keyword: "Rust".to_string(), tags: strings(&["programming"]) },
            KeywordTags { keyword: "squat".to_string(), tags: strings(&["fitness", "legs"]) },
        ],
    );
    Config::new(Keys { yt_api_key: "k1".to_string(), todoist_api_key: "k2".to_string() }, tags)
}

#[test]
fn channel_tags_of_first_rule() {
    let c = config();
    assert_eq!(c.get_channel_tags("Chan"), Some(strings(&["a", "b"])));
    assert_eq!(c.get_channel_tags("Other"), None);
}

#[test]
fn keyword_tags_ignore_case() {
    let c = config();
    assert_eq!(c.get_keyword_tags("Learning RUST and SQUATS"), strings(&["programming", "fitness", "legs"]));
    assert_eq!(c.get_keyword_tags("nothing here"), Vec::<String>::new());
}

#[test]
fn adding_tags_to_a_channel() {
    let mut c = config();
    c.tags.add_yt_tags("Chan".to_string(), strings(&["b", "c", "c"]));
    assert_eq!(c.tags.yt_tag[0].tags, strings(&["a", "b", "c", "c"]));
    assert_eq!(c.tags.yt_tag[1].tags, strings(&["z"]));
    c.tags.add_yt_tags("New".to_string(), strings(&["n"]));
    assert_eq!(c.tags.yt_tag.len(), 3);
    assert_eq!(c.tags.yt_tag[2].channel, "New");
    // adding the same tags again changes nothing
    c.tags.add_yt_tags("Chan".to_string(), strings(&["b", "c", "c"]));
    assert_eq!(c.tags.yt_tag[0].tags, strings(&["a", "b", "c", "c"]));
}

#[test]
fn adding_keyword_tags() {
    let mut c = config();
    c.tags.add_kw_tags("squat".to_string(), strings(&["legs", "strength"]));
    assert_eq!(c.tags.kw_tag[1].tags, strings(&["fitness", "legs", "strength"]));
    c.tags.add_kw_tags("bench".to_string(), strings(&["chest"]));
    assert_eq!(c.tags.kw_tag[2].keyword, "bench");
    assert_eq!(c.get_keyword_tags("Bench press"), strings(&["chest"]));
}

fn task(id: &str, content: &str, parent: Option<&str>) -> TodoistTask {
    TodoistTask::new(id.to_string(), content.to_string(), parent.map(|p| p.to_string()))
}

#[test]
fn lonely_tasks_have_no_parent_and_no_children() {
    let tasks = vec![
        task("1", "a", None),
        task("2", "b", None),
        task("3", "c", Some("2")),
        task("4", "d", None),
    ];
    let lonely = get_lonely_tasks(&tasks);
    let ids: Vec<&str> = lonely.iter().map(|t| t.id.as_str()).collect();
    assert_eq!(ids, vec!["1", "4"]);
}

#[test]
fn scheduled_tasks_are_not_imported() {
    let tasks = vec![
        task("1", "a", None),
        TodoistTask::new_scheduled("2".to_string(), "b".to_string(), None, true),
        task("3", "c", None),
    ];
    let lonely = get_lonely_tasks(&tasks);
    let ids: Vec<&str> = lonely.iter().map(|t| t.id.as_str()).collect();
    assert_eq!(ids, vec!["1", "3"]);
}

#[test]
fn inbox_is_the_first_inbox_project() {
    let projects = vec![
        TodoistProject { id: "p".to_string(), inbox_project: false },
        TodoistProject { id: "i".to_string(), inbox_project: true },
    ];
    assert_eq!(find_inbox(&projects), Some(1));
    assert_eq!(find_inbox(&projects[..1]), None);
}

#[test]
fn task_data_getters() {
    let td = TaskData::Youtube("u".to_string(), "t".to_string(), "c".to_string(), strings(&["x"]));
    assert_eq!(td.get_title(), Some("t".to_string()));
    assert_eq!(td.get_url(), Some("u".to_string()));
    assert_eq!(td.get_tags(), strings(&["x"]));
    let sbs = TaskData::Sbs("u".to_string(), None, None, vec![], None);
    assert_eq!(sbs.get_title(), None);
    assert_eq!(TaskData::Unhandled.get_url(), None);
    assert_eq!(TaskData::YtPlaylist("u".into(), "c".into(), "t".into()).get_tags(), Vec::<String>::new());
}

const TEMPLATES: &str = "- Templates\n    - template:: youtube\n      authors::\n      description::\n      tags::\n        - embed\n            -\n    - template:: article\n      source::\n      url::\n      description::";

fn templates() -> LogSeqTemplates {
    LogSeqTemplates::new(parse_logseq_text(TEMPLATES, &None).unwrap())
}

#[test]
fn template_found_by_name() {
    let ts = templates();
    let t = ts.get_template_comp("youtube").unwrap();
    assert_eq!(t.children.len(), 1);
    assert!(ts.get_template_comp("missing").is_none());
    assert!(ts.get_template_comp("article").unwrap().children.is_empty());
}

#[test]
fn template_names_of_top_level_blocks() {
    // the search for template names does not look into lists
    assert_eq!(templates().template_names(), Vec::<String>::new());
    let pd = ParsedDocument::ParsedText(vec![DocumentComponent::new(DocumentElement::Properties(vec![
        Property::new("template".to_string(), PropType::Single, vec![PropValue::String("blog".to_string())]),
    ]))]);
    assert_eq!(LogSeqTemplates::new(pd).template_names(), strings(&["blog"]));
}

#[test]
fn filling_list_item_properties() {
    let mut t = templates().get_template_comp("article").unwrap();
    fill_all_props_le(
        &mut t,
        &[
            ("url".to_string(), vec![PropValue::String("https://x".to_string())]),
            ("missing".to_string(), vec![PropValue::String("y".to_string())]),
        ],
    );
    let pd = ParsedDocument::ParsedText(vec![DocumentComponent::new(DocumentElement::List(vec![t], false))]);
    let text = pd.to_logseq_text(&None);
    // the template's empty values are kept: an empty text
    assert_eq!(text, "- template:: article\n  source::\n  url:: , https://x\n  description::");
}

#[test]
fn logseq_journal_gets_a_video_block() {
    let journal = ParsedDocument::ParsedText(vec![
        DocumentComponent::new_text("first"),
        DocumentComponent::new(DocumentElement::ListElement(ParsedDocument::ParsedText(vec![]), vec![])),
    ]);
    let mut h = LogSeqHandler::new(templates(), journal, "journal.md".to_string());
    assert_eq!(h.todays_journal.components().len(), 1);
    let td = TaskData::Youtube("https://youtu.be/x".to_string(), "Title".to_string(), "Chan".to_string(), strings(&["video"]));
    assert!(h.handle_task_data(&td));
    assert_eq!(h.todays_journal.components().len(), 2);
    let text = h.todays_journal.to_logseq_text(&None);
    assert_eq!(
        text,
        "- first\n- template:: youtube\n  authors:: , [[Chan]]\n  description:: , Title\n  tags:: , video\n    - embed\n        - {{video https://youtu.be/x}}"
    );
    assert!(!h.handle_task_data(&TaskData::Unhandled));
    assert_eq!(h.todays_journal.components().len(), 2);
}

const ZK_NOTE: &str = "---\ndate: 2024-12-31 01:09:55\ntags: [video, youtube, inbox]\n---\n\n# title\nchannel::= c\ndescription::= d\nurl::= u";

#[test]
fn zk_note_filled_in() {
    let mut pd = parse_zk_text(ZK_NOTE, &None).unwrap();
    let h = ZkHandler::new("/notes".to_string());
    let td = TaskData::Youtube("url".to_string(), "title".to_string(), "test_channel".to_string(), strings(&["#tag1", "tag2"]));
    assert_eq!(ZkHandler::creators_of(&td), strings(&["test_channel"]));
    assert!(h.add_to_zk_pd(&mut pd, &td, &None, &[Some("".to_string())]));
    let text = pd.to_zk_text(&None);
    assert_eq!(
        text,
        "---\ndate: 2024-12-31 01:09:55\ntags: [video, youtube, inbox, tag1, tag2]\n---\n\n# title\nchannel ::= c, [test_channel]()\ndescription ::= d, title\nurl ::= u, url"
    );
}

#[test]
fn zk_note_without_creator_fails() {
    let mut pd = parse_zk_text(ZK_NOTE, &None).unwrap();
    let h = ZkHandler::new("/notes".to_string());
    let td = TaskData::YtPlaylist("url".to_string(), "chan".to_string(), "t".to_string());
    assert!(!h.add_to_zk_pd(&mut pd, &td, &None, &[None]));
    let mut no_fm = parse_zk_text("# title", &None).unwrap();
    assert!(!h.add_to_zk_pd(&mut no_fm, &td, &None, &[Some("f".to_string())]));
}

#[test]
fn zk_listing_and_titles() {
    let h = ZkHandler::new("/notes".to_string());
    let listing = "Other||||a.md\nMy - Title||||sub/b.md\nMy - Title||||c.md";
    assert_eq!(h.listed_file(listing, "My - Title"), Some("/notes/sub/b.md".to_string()));
    assert_eq!(h.listed_file(listing, "Missing"), None);
    assert_eq!(ZkHandler::normalize_title("My | Title"), "My - Title");
    assert_eq!(h.creator_template(), "/notes/.zk/templates/creator.md");
    let td = TaskData::Interactive("note.md".into(), None, None, vec![], vec![]);
    assert_eq!(h.template_file(&td), Some("/notes/.zk/templates/note.md".to_string()));
    assert_eq!(h.template_file(&TaskData::Unhandled), None);
}

#[test]
fn zk_journal_mention() {
    let m = ZkHandler::journal_mention("/notes/a.md".to_string(), "A".to_string());
    let pd = ParsedDocument::ParsedText(vec![m]);
    assert_eq!(pd.to_zk_text(&None), "- [A](/notes/a.md)");
    let expected = DocumentComponent::new(DocumentElement::List(
        vec![ListElem {
            contents: ParsedDocument::ParsedText(vec![DocumentComponent::new(DocumentElement::FileLink(
                MentionedFile::FilePath("/notes/a.md".to_string()),
                None,
                Some("A".to_string()),
            ))]),
            children: vec![],
        }],
        false,
    ));
    assert_eq!(pd.components()[0], expected);
    let _ = TextMode::Zk;
}
