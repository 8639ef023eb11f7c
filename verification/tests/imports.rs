use pkmt::config::{ChannelTags, Config, KeywordTags, Keys, Tags};
use pkmt::document::{DocumentComponent, DocumentElement, ParsedDocument, PropType, PropValue, Property};
use pkmt::imports::{
    fill_properties, is_youtube_playlist, sbs_article_url, sbs_page_data, url_is_duplicate,
    youtube_playlist_data, youtube_task_data, youtube_video_url,
};
use pkmt::tasks::{sort_dedup_tasks, Resolution, TaskData, TodoistTask};
use pkmt::imports::interactive_task_data;
use pkmt::youtube::{first_value, playlist_details, playlist_id, video_details, video_id};

fn strings(v: &[&str]) -> Vec<String> {
    v.iter().map(|s| s.to_string()).collect()
}

fn config() -> Config {
    let tags = Tags::new(
        vec![ChannelTags { channel: "Chan".to_string(), tags: strings(&["b", "a"]) }],
        vec![
            KeywordTags { keyword: "Rust".to_string(), tags: strings(&["programming", "a"]) },
            KeywordTags { keyword: "squat".to_string(), tags: strings(&["fitness", "legs"]) },
        ],
    );
    Config::new(Keys { yt_api_key: "k1".to_string(), todoist_api_key: "k2".to_string() }, tags)
}

#[test]
fn youtube_tags_are_sorted_and_unique() {
    let td = youtube_task_data(
        "https://youtu.be/x".to_string(),
        "Rust squat".to_string(),
        "Chan".to_string(),
        &config(),
    );
    match td {
        TaskData::Youtube(url, title, channel, tags) => {
            assert_eq!(url, "https://youtu.be/x");
            assert_eq!(title, "Rust squat");
            assert_eq!(channel, "Chan");
            assert_eq!(tags, strings(&["a", "b", "fitness", "legs", "programming"]));
        }
        _ => panic!("youtube data expected"),
    }
}

#[test]
fn youtube_urls_in_task_text() {
    assert_eq!(
        youtube_video_url("watch https://www.youtube.com/watch?v=abc_1 now"),
        Some("https://www.youtube.com/watch?v=abc_1".to_string())
    );
    assert_eq!(youtube_video_url("https://youtu.be/shorts/Xy-1"), Some("https://youtu.be/shorts/Xy-1".to_string()));
    assert_eq!(youtube_video_url("no video"), None);
    assert!(is_youtube_playlist("https://www.youtube.com/playlist?list=PL123"));
    assert!(!is_youtube_playlist("https://www.youtube.com/watch?v=1"));
    match youtube_playlist_data("c".to_string(), "d".to_string(), "ch".to_string()) {
        TaskData::YtPlaylist(u, ch, d) => {
            assert_eq!((u.as_str(), ch.as_str(), d.as_str()), ("c", "ch", "d"));
        }
        _ => panic!("playlist expected"),
    }
}

#[test]
fn sbs_urls_in_task_text() {
    assert_eq!(
        sbs_article_url("read https://ckarchive.com/b/abc123?ck_subscriber_id=2334581400 later"),
        Some(("https://ckarchive.com/b/abc123?ck_subscriber_id=2334581400".to_string(), true))
    );
    assert_eq!(
        sbs_article_url("https://www.strongerbyscience.com/squat-depth/ x"),
        Some(("https://www.strongerbyscience.com/squat-depth/".to_string(), false))
    );
    assert_eq!(sbs_article_url("nothing"), None);
}

#[test]
fn sbs_page_is_read() {
    let page = "<html><head><title>Squats &#8226; Stronger by Science</title>\
        <meta name=\"author\" content=\"Greg Nuckols\" /></head><body>\
        <div class=\"elementor-widget-theme-post-excerpt\"> Short <b>desc</b> </div></body></html>";
    match sbs_page_data("u".to_string(), page, false) {
        TaskData::Sbs(url, author, title, tags, desc) => {
            assert_eq!(url, "u");
            assert_eq!(author, Some("Greg Nuckols".to_string()));
            assert_eq!(title, Some("Squats".to_string()));
            assert_eq!(tags, strings(&["fitness"]));
            assert_eq!(desc, Some("Shortdesc".to_string()));
        }
        _ => panic!("article expected"),
    }
    let newsletter = "x newsletter is by Eric Trexler.&lt;/h3&gt; y";
    match sbs_page_data("u".to_string(), newsletter, true) {
        TaskData::Sbs(_, author, title, _, desc) => {
            assert_eq!(author, Some("Eric Trexler".to_string()));
            assert_eq!(title, None);
            assert_eq!(desc, None);
        }
        _ => panic!("article expected"),
    }
}

#[test]
fn template_properties_are_filled() {
    let props = vec![
        ("template".to_string(), "youtube".to_string()),
        ("tags".to_string(), " ".to_string()),
        ("authors".to_string(), "x".to_string()),
        ("other".to_string(), "o".to_string()),
    ];
    let add = vec![
        ("tags".to_string(), strings(&["a", "b"])),
        ("authors".to_string(), strings(&["y"])),
        ("tags".to_string(), strings(&["never"])),
    ];
    let r = fill_properties(&props, &add, &strings(&["template"]));
    assert_eq!(
        r,
        vec![
            ("tags".to_string(), "a, b".to_string()),
            ("authors".to_string(), "x, y".to_string()),
            ("other".to_string(), "o".to_string()),
        ]
    );
}

#[test]
fn noted_urls_are_found() {
    let props = DocumentComponent::new(DocumentElement::Properties(vec![Property::new(
        "url".to_string(),
        PropType::Single,
        vec![PropValue::String("https://x".to_string())],
    )]));
    let docs = vec![
        ParsedDocument::ParsedText(vec![DocumentComponent::new_text("t")]),
        ParsedDocument::ParsedText(vec![props]),
    ];
    assert!(url_is_duplicate(&docs, &"https://x".to_string()));
    assert!(!url_is_duplicate(&docs, &"https://y".to_string()));
}

#[test]
fn tasks_sorted_by_content_first_kept() {
    let tasks = vec![
        TodoistTask::new("1".to_string(), "b".to_string(), None),
        TodoistTask::new("2".to_string(), "a".to_string(), None),
        TodoistTask::new("3".to_string(), "b".to_string(), None),
    ];
    let r = sort_dedup_tasks(&tasks);
    let ids: Vec<&str> = r.iter().map(|t| t.id.as_str()).collect();
    assert_eq!(ids, vec!["2", "1"]);
}

#[test]
fn video_ids_from_urls() {
    assert_eq!(video_id("https://www.youtube.com/shorts/Ab_1"), Some("Ab_1".to_string()));
    assert_eq!(video_id("https://www.youtube.com/watch?x=1&v=NkM6wQL2UvM"), Some("NkM6wQL2UvM".to_string()));
    assert_eq!(video_id("https://www.youtube.com/watch"), None);
    assert_eq!(video_id("not a url"), None);
    assert_eq!(playlist_id("https://www.youtube.com/playlist?list=PL1"), Some("PL1".to_string()));
}

#[test]
fn details_from_api_answers() {
    let answer = r#"{"items":[{"snippet":{"title":"A","channelTitle":"B","description":"x"}},{"snippet":{"title":"T","channelTitle":"C","description":"line1\nline2"}}]}"#;
    assert_eq!(video_details(answer), Some(("T".to_string(), "C".to_string())));
    assert_eq!(playlist_details(answer), Some(("T: line1 line2".to_string(), "C".to_string())));
    assert_eq!(video_details("{\"items\":[]}"), Some(("null".to_string(), "null".to_string())));
    assert_eq!(video_details("not json"), None);
}

#[test]
fn hand_assigned_tasks() {
    let (res, td) = interactive_task_data("article".to_string(), "see [ Rust tips ](https://x.org/a) now", &config());
    assert_eq!(res, Resolution::ToHandle);
    match td {
        TaskData::Interactive(t, u, title, tags, sources) => {
            assert_eq!(t, "article");
            assert_eq!(u, Some("https://x.org/a".to_string()));
            assert_eq!(title, Some("Rust tips".to_string()));
            assert_eq!(tags, strings(&["programming", "a"]));
            assert!(sources.is_empty());
        }
        _ => panic!("interactive data expected"),
    }
    let (res, td) = interactive_task_data("article".to_string(), "[](https://x.org)", &config());
    assert_eq!(res, Resolution::ToHandle);
    assert_eq!(td.get_title(), Some("untitled".to_string()));
    let (res, td) = interactive_task_data("article".to_string(), "no link", &config());
    assert_eq!(res, Resolution::Skip);
    assert!(matches!(td, TaskData::Unhandled));
}

#[test]
fn first_value_takes_the_first_pair_with_the_key() {
    let pairs = vec![
        ("a".to_string(), "1".to_string()),
        ("v".to_string(), "x".to_string()),
        ("v".to_string(), "y".to_string()),
    ];
    assert_eq!(first_value(&pairs, "v"), Some("x".to_string()));
    assert_eq!(first_value(&pairs, "a"), Some("1".to_string()));
    assert_eq!(first_value(&pairs, "list"), None);
    assert_eq!(first_value(&vec![], "v"), None);
}

#[test]
fn a_repeated_query_parameter_gives_its_first_value() {
    assert_eq!(video_id("https://www.youtube.com/watch?v=first&v=second"), Some("first".to_string()));
    assert_eq!(playlist_id("https://www.youtube.com/playlist?list=A%20B"), Some("A B".to_string()));
}

#[test]
fn hand_assigned_task_takes_the_first_link_that_reads() {
    let (res, td) = interactive_task_data(
        "article".to_string(),
        "[a [b](no space) and [Second](https://y.org/b) [Third](https://z.org)",
        &config(),
    );
    assert_eq!(res, Resolution::ToHandle);
    match td {
        TaskData::Interactive(_, u, title, _, _) => {
            assert_eq!(u, Some("https://y.org/b".to_string()));
            assert_eq!(title, Some("Second".to_string()));
        }
        _ => panic!("interactive data expected"),
    }
}
