//! What an import reads from a task: a YouTube video, a YouTube playlist, or an article of
//! Stronger by Science, and whether a url is noted in some document already.
use vstd::prelude::*;
use crate::config::{Config, keyword_tags, kw_rules, rule_index, strs_v, yt_rules};
use crate::document::{DocumentComponent, DocumentElement, ParsedDocument, PropValue, PropValueV, opt_v, props_v};
use crate::order::{sorted_unique, strictly_sorted};
use crate::search::{Selector, find_pd};
use crate::tasks::TaskData;
use crate::text::{chars_of, concat, ends_with, ends_with_vec, join, push_all, slice_of, string_of, trim, trim_vec, views};

verus! {

/// The imports a task is tried with, each for its own kind of link.
#[derive(Clone, Copy, Debug, PartialEq, Eq, Structural)]
pub enum ImportKind {
    YouTubeVideo,
    SbsArticle,
    YouTubePlaylist,
}

/// The import to try on a task after `tried` (the first one where `None`) left it unhandled:
/// a YouTube video, then a Stronger by Science article, then a YouTube playlist, then none.
pub fn next_import(tried: Option<ImportKind>) -> (r: Option<ImportKind>)
    ensures
        r == match tried {
            None => Some(ImportKind::YouTubeVideo),
            Some(ImportKind::YouTubeVideo) => Some(ImportKind::SbsArticle),
            Some(ImportKind::SbsArticle) => Some(ImportKind::YouTubePlaylist),
            Some(ImportKind::YouTubePlaylist) => None::<ImportKind>,
        },
{
    match tried {
        None => Some(ImportKind::YouTubeVideo),
        Some(ImportKind::YouTubeVideo) => Some(ImportKind::SbsArticle),
        Some(ImportKind::SbsArticle) => Some(ImportKind::YouTubePlaylist),
        Some(ImportKind::YouTubePlaylist) => None,
    }
}

// ---------------------------------------------------------------------------
// Regular expressions and HTML, computed by the `regex` and `scraper` crates.
/// The text of the first (leftmost) match of `pattern` in `text`, as `regex` finds it; `None`
/// where nothing matches.
pub uninterp spec fn regex_first_match(pattern: Seq<char>, text: Seq<char>) -> Option<Seq<char>>;

/// The text of the first capture group of the first match of `pattern` in `text`.
pub uninterp spec fn regex_first_group(pattern: Seq<char>, text: Seq<char>) -> Option<Seq<char>>;

/// The text pieces of the first element of the HTML document that the CSS selector selects, in
/// document order, as `scraper` gives them.
pub uninterp spec fn html_first_texts(selector: Seq<char>, html: Seq<char>) -> Option<Seq<Seq<char>>>;

/// Calls `regex::Regex::new` and `Regex::find`. Claimed: the result is the named value
/// `regex_first_match` of the pattern and the text (a pattern that does not compile gives
/// `None`, which the constant patterns here never are).
#[verifier::external_body]
fn regex_find(pattern: &str, text: &str) -> (r: Option<String>)
    ensures
        opt_v(r) == regex_first_match(pattern@, text@),
{
    let re = regex::Regex::new(pattern).ok()?;
    re.find(text).map(|m| m.as_str().to_string())
}

/// Calls `regex::Regex::new` and `Regex::captures`, and takes the first group. Claimed: the
/// result is the named value `regex_first_group` of the pattern and the text.
#[verifier::external_body]
fn regex_group(pattern: &str, text: &str) -> (r: Option<String>)
    ensures
        opt_v(r) == regex_first_group(pattern@, text@),
{
    let re = regex::Regex::new(pattern).ok()?;
    let c = re.captures(text)?;
    c.get(1).map(|m| m.as_str().to_string())
}

/// Calls `scraper::Html::parse_document`, `scraper::Selector::parse`, `Html::select` and
/// `ElementRef::text` on the first selected element. Claimed: the pieces are the named value
/// `html_first_texts` of the selector and the document.
#[verifier::external_body]
fn html_texts(selector: &str, html: &str) -> (r: Option<Vec<String>>)
    ensures
        match r {
            Some(v) => html_first_texts(selector@, html@) == Some(strs_v(v@)),
            None => html_first_texts(selector@, html@) is None,
        },
{
    let doc = scraper::Html::parse_document(html);
    let sel = scraper::Selector::parse(selector).ok()?;
    let node = doc.select(&sel).next()?;
    Some(node.text().map(|t| t.to_string()).collect())
}

// ---------------------------------------------------------------------------
// Finding text.
/// The first position at or after `i` where `p` occurs in `s`, or -1.
pub open spec fn find_from(s: Seq<char>, p: Seq<char>, i: int) -> int
    decreases s.len() + 1 - i,
{
    if i < 0 || i + p.len() > s.len() {
        -1
    } else if s.subrange(i, i + p.len()) == p {
        i
    } else {
        find_from(s, p, i + 1)
    }
}

proof fn lemma_find_from(s: Seq<char>, p: Seq<char>, i: int)
    requires
        0 <= i,
    ensures
        find_from(s, p, i) == -1 || (i <= find_from(s, p, i) && find_from(s, p, i) + p.len()
            <= s.len()),
    decreases s.len() + 1 - i,
{
    if i + p.len() <= s.len() && s.subrange(i, i + p.len()) != p {
        lemma_find_from(s, p, i + 1);
    }
}

/// The first position where `p` occurs in `s` (as `str::find` gives it, counted in characters).
pub fn find_text(s: &Vec<char>, p: &Vec<char>) -> (r: Option<usize>)
    ensures
        match r {
            Some(k) => find_from(s@, p@, 0) == k && k + p.len() <= s.len(),
            None => find_from(s@, p@, 0) == -1,
        },
{
    if p.len() > s.len() {
        return None;
    }
    let mut i: usize = 0;
    while i <= s.len() - p.len()
        invariant
            p.len() <= s.len(),
            find_from(s@, p@, 0) == find_from(s@, p@, i as int),
        decreases s.len() + 1 - i,
    {
        let mut j: usize = 0;
        while j < p.len() && s[i + j] == p[j]
            invariant
                i + p.len() <= s.len(),
                j <= p.len(),
                forall|k: int| 0 <= k < j ==> s@[i + k] == p@[k],
            decreases p.len() - j,
        {
            j = j + 1;
        }
        if j == p.len() {
            proof {
                assert(s@.subrange(i as int, i + p.len()) =~= p@);
            }
            return Some(i);
        }
        proof {
            assert(s@.subrange(i as int, i + p.len())[j as int] != p@[j as int]);
        }
        i = i + 1;
    }
    None
}

/// `s` with `p` removed from its end as often as it ends with it (`str::trim_end_matches`).
pub open spec fn trim_end_all(s: Seq<char>, p: Seq<char>) -> Seq<char>
    decreases s.len(),
{
    if p.len() > 0 && ends_with(s, p) {
        trim_end_all(s.take(s.len() - p.len()), p)
    } else {
        s
    }
}

fn trim_end_all_exec(s: &Vec<char>, p: &Vec<char>) -> (r: Vec<char>)
    ensures
        r@ == trim_end_all(s@, p@),
{
    let mut cur = crate::text::copy_chars(s);
    while p.len() > 0 && ends_with_vec(&cur, p)
        invariant
            trim_end_all(cur@, p@) == trim_end_all(s@, p@),
        decreases cur.len(),
    {
        cur = slice_of(&cur, 0, cur.len() - p.len());
    }
    cur
}

// ---------------------------------------------------------------------------
// YouTube.
pub open spec fn youtube_video_pattern() -> Seq<char> {
    "(https://)(?:www\\.)?(?:youtu.be|youtube\\.com)/(shorts/)?[A-Za-z0-9?=\\-_&]*"@
}

pub open spec fn youtube_playlist_pattern() -> Seq<char> {
    "https://www\\.youtube\\.com/playlist\\?list=[a-zA-Z0-9]+"@
}

/// The url of a YouTube video that the task's text holds: the first match of the video pattern.
pub fn youtube_video_url(content: &str) -> (r: Option<String>)
    ensures
        opt_v(r) == regex_first_match(youtube_video_pattern(), content@),
{
    regex_find("(https://)(?:www\\.)?(?:youtu.be|youtube\\.com)/(shorts/)?[A-Za-z0-9?=\\-_&]*", content)
}

/// The task's text holds a YouTube playlist url.
pub fn is_youtube_playlist(content: &str) -> (r: bool)
    ensures
        r == regex_first_match(youtube_playlist_pattern(), content@) is Some,
{
    regex_find("https://www\\.youtube\\.com/playlist\\?list=[a-zA-Z0-9]+", content).is_some()
}

/// The tags of a channel by the configured rules, or none.
pub open spec fn channel_tags(config: Config, channel: Seq<char>) -> Seq<Seq<char>> {
    let rules = yt_rules(config.tags.yt_tag@);
    let i = rule_index(rules, channel);
    if i >= 0 {
        rules[i].1
    } else {
        Seq::empty()
    }
}

/// The tags of a video: its channel's tags and the keyword tags of its title.
pub open spec fn video_tags(config: Config, title: Seq<char>, channel: Seq<char>) -> Seq<Seq<char>> {
    channel_tags(config, channel) + keyword_tags(kw_rules(config.tags.kw_tag@), title)
}

/// The data of a YouTube video task: the video's url, title and channel, and as tags the
/// channel's tags and the title's keyword tags, sorted, each once.
pub fn youtube_task_data(video_url: String, title: String, channel: String, config: &Config) -> (r: TaskData)
    ensures
        r matches TaskData::Youtube(u, t, c, tags) && u == video_url && t == title && c == channel
            && strictly_sorted(strs_v(tags@)) && strs_v(tags@).to_set() == video_tags(
            *config,
            title@,
            channel@,
        ).to_set(),
{
    let mut tags: Vec<String> = Vec::new();
    match config.get_channel_tags(channel.as_str()) {
        Some(ct) => {
            tags = ct;
        },
        None => {
            proof {
                assert(strs_v(tags@) =~= Seq::<Seq<char>>::empty());
            }
        },
    }
    let kw = config.get_keyword_tags(title.as_str());
    let ghost t0 = strs_v(tags@);
    let mut i: usize = 0;
    while i < kw.len()
        invariant
            i <= kw.len(),
            strs_v(tags@) == t0 + strs_v(kw@).take(i as int),
        decreases kw.len() - i,
    {
        let ghost before = strs_v(tags@);
        let k = kw[i].clone();
        tags.push(k);
        proof {
            assert(strs_v(tags@) =~= before.push(kw@[i as int]@));
            assert(strs_v(kw@).take(i + 1) =~= strs_v(kw@).take(i as int).push(kw@[i as int]@));
        }
        i = i + 1;
    }
    proof {
        assert(strs_v(kw@).take(kw.len() as int) =~= strs_v(kw@));
    }
    let sorted = sorted_unique(&tags);
    TaskData::Youtube(video_url, title, channel, sorted)
}

/// The data of a YouTube playlist task: its text as the url, the channel and the description.
pub fn youtube_playlist_data(content: String, description: String, channel: String) -> (r: TaskData)
    ensures
        r == TaskData::YtPlaylist(content, channel, description),
{
    TaskData::YtPlaylist(content, channel, description)
}

// ---------------------------------------------------------------------------
// Stronger by Science.
pub open spec fn sbs_newsletter_pattern() -> Seq<char> {
    "https://ckarchive\\.com/b/[a-zA-Z0-9]*\\?ck_subscriber_id=2334581400"@
}

pub open spec fn sbs_website_pattern() -> Seq<char> {
    "https://www.strongerbyscience.com/[0-9a-zA-Z-]+/"@
}

/// Where the author is named: in the newsletter's heading or in the website's meta data.
pub open spec fn sbs_author_pattern(newsletter: bool) -> Seq<char> {
    if newsletter {
        " newsletter is by ([a-zA-Z\\.\\s]*).&lt;/h3&gt;"@
    } else {
        "<meta name=\"author\" content=\"([a-zA-Z\\s\\-]+)\" />"@
    }
}

pub open spec fn sbs_excerpt_selector() -> Seq<char> {
    ".elementor-widget-theme-post-excerpt"@
}

pub open spec fn title_open() -> Seq<char> {
    "<title>"@
}

pub open spec fn title_close() -> Seq<char> {
    "</title>"@
}

pub open spec fn title_suffix() -> Seq<char> {
    " &#8226; Stronger by Science"@
}

/// The article url a task's text holds: a newsletter link (`true`), else a website link
/// (`false`).
pub open spec fn sbs_url(content: Seq<char>) -> Option<(Seq<char>, bool)> {
    match regex_first_match(sbs_newsletter_pattern(), content) {
        Some(u) => Some((u, true)),
        None => match regex_first_match(sbs_website_pattern(), content) {
            Some(u) => Some((u, false)),
            None => None,
        },
    }
}

/// The url of the article a task's text mentions, and whether it is a newsletter link.
pub fn sbs_article_url(content: &str) -> (r: Option<(String, bool)>)
    ensures
        match sbs_url(content@) {
            Some((u, n)) => r matches Some((a, b)) && a@ == u && b == n,
            None => r is None,
        },
{
    match regex_find("https://ckarchive\\.com/b/[a-zA-Z0-9]*\\?ck_subscriber_id=2334581400", content) {
        Some(u) => Some((u, true)),
        None => match regex_find("https://www.strongerbyscience.com/[0-9a-zA-Z-]+/", content) {
            Some(u) => Some((u, false)),
            None => None,
        },
    }
}

/// An author's name without a final full stop.
pub open spec fn without_final_dot(a: Seq<char>) -> Seq<char> {
    if a.len() > 0 && a.last() == '.' {
        a.drop_last()
    } else {
        a
    }
}

/// The page has a title element whose text can be cut out: where both tags occur, the first
/// closing tag does not start before the first opening tag ends.
pub open spec fn title_cut_ok(page: Seq<char>) -> bool {
    let s = find_from(page, title_open(), 0);
    let e = find_from(page, title_close(), 0);
    s >= 0 && e >= 0 ==> s + title_open().len() <= e
}

/// The page's title: the text between the first opening and the first closing title tag, with
/// the site's name removed from its end.
pub open spec fn page_title(page: Seq<char>) -> Option<Seq<char>> {
    let s = find_from(page, title_open(), 0);
    let e = find_from(page, title_close(), 0);
    if s >= 0 && e >= 0 {
        Some(trim_end_all(page.subrange(s + title_open().len(), e), title_suffix()))
    } else {
        None
    }
}

/// The trimmed text pieces, one after the other.
pub open spec fn trimmed_concat(pieces: Seq<Seq<char>>) -> Seq<char> {
    concat(pieces.map_values(|p: Seq<char>| trim(p)))
}

/// The article's description: the trimmed text pieces of its excerpt, one after the other.
pub open spec fn page_description(page: Seq<char>) -> Option<Seq<char>> {
    match html_first_texts(sbs_excerpt_selector(), page) {
        Some(pieces) => Some(trimmed_concat(pieces)),
        None => None,
    }
}

pub open spec fn page_author(page: Seq<char>, newsletter: bool) -> Option<Seq<char>> {
    match regex_first_group(sbs_author_pattern(newsletter), page) {
        Some(a) => Some(without_final_dot(a)),
        None => None,
    }
}

fn concat_trimmed(pieces: &Vec<String>) -> (r: String)
    ensures
        r@ == trimmed_concat(strs_v(pieces@)),
{
    let mut out: Vec<char> = Vec::new();
    let mut i: usize = 0;
    while i < pieces.len()
        invariant
            i <= pieces.len(),
            out@ == trimmed_concat(strs_v(pieces@).take(i as int)),
        decreases pieces.len() - i,
    {
        let t = trim_vec(&chars_of(pieces[i].as_str()));
        push_all(&mut out, &t);
        proof {
            let ps = strs_v(pieces@).take(i + 1);
            assert(ps.drop_last() =~= strs_v(pieces@).take(i as int));
            assert(ps.map_values(|p: Seq<char>| trim(p)).drop_last() =~= ps.drop_last().map_values(
                |p: Seq<char>| trim(p),
            ));
            assert(ps.map_values(|p: Seq<char>| trim(p)).last() == t@);
        }
        i = i + 1;
    }
    proof {
        assert(strs_v(pieces@).take(pieces.len() as int) =~= strs_v(pieces@));
    }
    string_of(&out)
}

/// The data of an article of Stronger by Science, read from its page: the url, the author (from
/// the newsletter heading or the website's meta data, without a final full stop), the title,
/// the tag `fitness`, and the description.
pub fn sbs_page_data(article_url: String, page: &str, newsletter: bool) -> (r: TaskData)
    requires
        title_cut_ok(page@),
    ensures
        r matches TaskData::Sbs(u, a, t, tags, d) && u == article_url && opt_v(a) == page_author(
            page@,
            newsletter,
        ) && opt_v(t) == page_title(page@) && strs_v(tags@) == seq!["fitness"@] && opt_v(d)
            == page_description(page@),
{
    let author_pattern = if newsletter {
        " newsletter is by ([a-zA-Z\\.\\s]*).&lt;/h3&gt;"
    } else {
        "<meta name=\"author\" content=\"([a-zA-Z\\s\\-]+)\" />"
    };
    let author = match regex_group(author_pattern, page) {
        Some(a) => {
            let v = chars_of(a.as_str());
            if v.len() > 0 && v[v.len() - 1] == '.' {
                let w = slice_of(&v, 0, v.len() - 1);
                proof {
                    assert(w@ =~= v@.drop_last());
                }
                Some(string_of(&w))
            } else {
                Some(a)
            }
        },
        None => None,
    };
    let desc = match html_texts(".elementor-widget-theme-post-excerpt", page) {
        Some(pieces) => Some(concat_trimmed(&pieces)),
        None => None,
    };
    let text = chars_of(page);
    let start = find_text(&text, &chars_of("<title>"));
    let end = find_text(&text, &chars_of("</title>"));
    let title = match (start, end) {
        (Some(s), Some(e)) => {
            let open_len = chars_of("<title>").len();
            let inner = slice_of(&text, s + open_len, e);
            let cut = trim_end_all_exec(&inner, &chars_of(" &#8226; Stronger by Science"));
            Some(string_of(&cut))
        },
        _ => None,
    };
    let tags = vec!["fitness".to_string()];
    proof {
        assert(strs_v(tags@) =~= seq!["fitness"@]);
    }
    TaskData::Sbs(article_url, author, title, tags, desc)
}

// ---------------------------------------------------------------------------
// Urls noted in documents.
/// Accepts a properties component with a `url` property that holds the given url.
pub struct UrlSelector {
    pub url: String,
}

/// The properties hold a property `url` with the given value.
pub open spec fn notes_url(props: Seq<crate::document::PropertyV>, url: Seq<char>) -> bool {
    exists|i: int|
        0 <= i < props.len() && (#[trigger] props[i]).name == "url"@ && props[i].values.contains(
            PropValueV::Str(url),
        )
}

impl Selector for UrlSelector {
    open spec fn accepts(&self, c: DocumentComponent) -> bool {
        match c.element {
            DocumentElement::Properties(props) => notes_url(props_v(props@), self.url@),
            _ => false,
        }
    }

    open spec fn usable(&self) -> bool {
        true
    }

    fn select(&self, c: &DocumentComponent) -> (b: bool) {
        match &c.element {
            DocumentElement::Properties(props) => {
                let value = PropValue::String(self.url.clone());
                let mut i: usize = 0;
                while i < props.len()
                    invariant
                        i <= props.len(),
                        value@ == PropValueV::Str(self.url@),
                        match c.element {
                            DocumentElement::Properties(ps) => ps == *props,
                            _ => false,
                        },
                        forall|k: int|
                            0 <= k < i ==> !((#[trigger] props_v(props@)[k]).name == "url"@
                                && props_v(props@)[k].values.contains(PropValueV::Str(self.url@))),
                    decreases props.len() - i,
                {
                    proof {
                        assert(props_v(props@)[i as int] == props@[i as int]@);
                    }
                    if props[i].has_name("url") && props[i].has_value(&value) {
                        proof {
                            assert(notes_url(props_v(props@), self.url@));
                        }
                        return true;
                    }
                    i = i + 1;
                }
                false
            },
            _ => false,
        }
    }
}

/// Some document notes the url in a `url` property.
pub fn url_is_duplicate(documents: &[ParsedDocument], url: &String) -> (r: bool)
    ensures
        r == exists|i: int|
            0 <= i < documents@.len() && (find_pd(#[trigger] documents@[i], (UrlSelector { url: *url }))
                is Some),
{
    let sel = UrlSelector { url: url.clone() };
    let mut i: usize = 0;
    while i < documents.len()
        invariant
            i <= documents@.len(),
            sel == (UrlSelector { url: *url }),
            forall|k: int| 0 <= k < i ==> find_pd(#[trigger] documents@[k], sel) is None,
        decreases documents.len() - i,
    {
        let found = documents[i].get_document_component(&sel);
        if found.is_some() {
            proof {
                assert(find_pd(documents@[i as int], sel) is Some);
            }
            return true;
        }
        i = i + 1;
    }
    false
}

// ---------------------------------------------------------------------------
// Template properties.
/// The index of the first addition for `key`, or -1.
pub open spec fn addition_for(add: Seq<(Seq<char>, Seq<Seq<char>>)>, key: Seq<char>) -> int
    decreases add.len(),
{
    if add.len() == 0 {
        -1
    } else if addition_for(add.drop_last(), key) >= 0 {
        addition_for(add.drop_last(), key)
    } else if add.last().0 == key {
        add.len() - 1
    } else {
        -1
    }
}

/// The values a property gets: where values are added for its key, its own value (unless
/// blank) followed by them; else its own value.
pub open spec fn filled_values(
    key: Seq<char>,
    val: Seq<char>,
    add: Seq<(Seq<char>, Seq<Seq<char>>)>,
) -> Seq<Seq<char>> {
    let i = addition_for(add, key);
    let vals = if i >= 0 {
        (if is_blank_seq(val) {
            Seq::empty()
        } else {
            seq![val]
        }) + add[i].1
    } else {
        Seq::empty()
    };
    if vals.len() == 0 {
        seq![val]
    } else {
        vals
    }
}

pub open spec fn is_blank_seq(v: Seq<char>) -> bool {
    crate::text::is_blank(v)
}

/// The properties without those whose key is dropped, each with its values filled in and
/// joined by `, `.
pub open spec fn filled_props(
    props: Seq<(Seq<char>, Seq<char>)>,
    add: Seq<(Seq<char>, Seq<Seq<char>>)>,
    drop: Seq<Seq<char>>,
) -> Seq<(Seq<char>, Seq<char>)> {
    props.filter(|p: (Seq<char>, Seq<char>)| !drop.contains(p.0)).map_values(
        |p: (Seq<char>, Seq<char>)| (p.0, join(filled_values(p.0, p.1, add), ", "@)),
    )
}

pub open spec fn adds_v(add: Seq<(String, Vec<String>)>) -> Seq<(Seq<char>, Seq<Seq<char>>)> {
    add.map_values(|a: (String, Vec<String>)| (a.0@, strs_v(a.1@)))
}

fn addition_index(add: &[(String, Vec<String>)], key: &String) -> (r: Option<usize>)
    ensures
        match r {
            Some(i) => i < add@.len() && addition_for(adds_v(add@), key@) == i,
            None => addition_for(adds_v(add@), key@) == -1,
        },
{
    let ghost a = adds_v(add@);
    let mut i: usize = 0;
    while i < add.len()
        invariant
            i <= add@.len(),
            a == adds_v(add@),
            addition_for(a.take(i as int), key@) == -1,
        decreases add.len() - i,
    {
        proof {
            assert(a.take(i + 1).drop_last() =~= a.take(i as int));
        }
        if add[i].0 == *key {
            proof {
                lemma_addition_prefix(a, i as int + 1);
            }
            return Some(i);
        }
        i = i + 1;
    }
    proof {
        assert(a.take(add@.len() as int) =~= a);
    }
    None
}

proof fn lemma_addition_prefix(a: Seq<(Seq<char>, Seq<Seq<char>>)>, n: int)
    requires
        0 < n <= a.len(),
        addition_for(a.take(n), a[n - 1].0) == n - 1,
    ensures
        addition_for(a, a[n - 1].0) == n - 1,
    decreases a.len(),
{
    if n < a.len() {
        assert(a.drop_last().take(n) =~= a.take(n));
        lemma_addition_prefix(a.drop_last(), n);
    } else {
        assert(a.take(n) =~= a);
    }
}

fn dropped(drop: &[String], key: &String) -> (r: bool)
    ensures
        r == strs_v(drop@).contains(key@),
{
    let mut i: usize = 0;
    while i < drop.len()
        invariant
            i <= drop@.len(),
            forall|k: int| 0 <= k < i ==> strs_v(drop@)[k] != key@,
        decreases drop.len() - i,
    {
        if drop[i] == *key {
            proof {
                assert(strs_v(drop@)[i as int] == key@);
            }
            return true;
        }
        i = i + 1;
    }
    false
}

/// The properties of a template with values filled in: for each property whose key is not
/// dropped, its own value (unless blank) and the values added for its key, joined by `, `; a
/// property without added values keeps its value.
pub fn fill_properties(
    props: &[(String, String)],
    add: &[(String, Vec<String>)],
    drop: &[String],
) -> (r: Vec<(String, String)>)
    ensures
        r@.map_values(|p: (String, String)| (p.0@, p.1@)) == filled_props(
            props@.map_values(|p: (String, String)| (p.0@, p.1@)),
            adds_v(add@),
            strs_v(drop@),
        ),
{
    let ghost ps = props@.map_values(|p: (String, String)| (p.0@, p.1@));
    let ghost a = adds_v(add@);
    let mut r: Vec<(String, String)> = Vec::new();
    let mut i: usize = 0;
    while i < props.len()
        invariant
            i <= props@.len(),
            ps == props@.map_values(|p: (String, String)| (p.0@, p.1@)),
            a == adds_v(add@),
            r@.map_values(|p: (String, String)| (p.0@, p.1@)) == filled_props(
                ps.take(i as int),
                a,
                strs_v(drop@),
            ),
        decreases props.len() - i,
    {
        let key = &props[i].0;
        let val = &props[i].1;
        proof {
            assert(ps.take(i + 1).drop_last() =~= ps.take(i as int));
            assert(ps.take(i + 1).last() == (key@, val@));
            reveal(Seq::filter);
        }
        let ghost before = r@.map_values(|p: (String, String)| (p.0@, p.1@));
        if !dropped(drop, key) {
            let mut vals: Vec<Vec<char>> = Vec::new();
            match addition_index(add, key) {
                Some(j) => {
                    let v = chars_of(val.as_str());
                    if !crate::text::is_blank_vec(&v) {
                        vals.push(v);
                    }
                    let extra = &add[j].1;
                    let ghost v0 = views(vals@);
                    let mut k: usize = 0;
                    while k < extra.len()
                        invariant
                            k <= extra@.len(),
                            views(vals@) == v0 + strs_v(extra@).take(k as int),
                        decreases extra.len() - k,
                    {
                        let ghost vb = views(vals@);
                        vals.push(chars_of(extra[k].as_str()));
                        proof {
                            assert(views(vals@) =~= vb.push(extra@[k as int]@));
                            assert(strs_v(extra@).take(k + 1) =~= strs_v(extra@).take(k as int).push(extra@[k as int]@));
                        }
                        k = k + 1;
                    }
                    proof {
                        assert(strs_v(extra@).take(extra@.len() as int) =~= strs_v(extra@));
                        assert(a[j as int].1 == strs_v(extra@));
                    }
                },
                None => {},
            }
            if vals.len() == 0 {
                vals.push(chars_of(val.as_str()));
            }
            proof {
                assert(views(vals@) =~= filled_values(key@, val@, a));
            }
            let joined = crate::render::join_vec(&vals, ", ");
            r.push((key.clone(), string_of(&joined)));
            proof {
                assert(r@.map_values(|p: (String, String)| (p.0@, p.1@)) =~= before.push(
                    (key@, join(filled_values(key@, val@, a), ", "@)),
                ));
            }
        }
        i = i + 1;
    }
    proof {
        assert(ps.take(props@.len() as int) =~= ps);
    }
    r
}

// ---------------------------------------------------------------------------
// Urls noted in documents, and tasks whose url is noted already.
/// Accepts properties blocks that have a property `url`.
pub struct UrlPropsSelector;

pub open spec fn has_url_prop(props: Seq<crate::document::PropertyV>) -> bool {
    exists|i: int| 0 <= i < props.len() && (#[trigger] props[i]).name == "url"@
}

impl Selector for UrlPropsSelector {
    open spec fn accepts(&self, c: DocumentComponent) -> bool {
        match c.element {
            DocumentElement::Properties(props) => has_url_prop(props_v(props@)),
            _ => false,
        }
    }

    open spec fn usable(&self) -> bool {
        true
    }

    fn select(&self, c: &DocumentComponent) -> (b: bool) {
        match &c.element {
            DocumentElement::Properties(props) => {
                let mut i: usize = 0;
                while i < props.len()
                    invariant
                        i <= props.len(),
                        match c.element {
                            DocumentElement::Properties(ps) => ps == *props,
                            _ => false,
                        },
                        forall|k: int| 0 <= k < i ==> (#[trigger] props_v(props@)[k]).name != "url"@,
                    decreases props.len() - i,
                {
                    proof {
                        assert(props_v(props@)[i as int] == props@[i as int]@);
                    }
                    if props[i].has_name("url") {
                        return true;
                    }
                    i = i + 1;
                }
                false
            },
            _ => false,
        }
    }
}

/// The text values, in order.
pub open spec fn text_values(vs: Seq<PropValueV>) -> Seq<Seq<char>>
    decreases vs.len(),
{
    if vs.len() == 0 {
        Seq::empty()
    } else {
        text_values(vs.drop_last()) + match vs.last() {
            PropValueV::Str(s) => seq![s],
            _ => Seq::empty(),
        }
    }
}

/// The text values of the properties named `url`, in order.
pub open spec fn url_values(ps: Seq<crate::document::PropertyV>) -> Seq<Seq<char>>
    decreases ps.len(),
{
    if ps.len() == 0 {
        Seq::empty()
    } else {
        url_values(ps.drop_last()) + if ps.last().name == "url"@ {
            text_values(ps.last().values)
        } else {
            Seq::empty()
        }
    }
}

/// The urls noted in properties blocks among the components, in order.
pub open spec fn comps_urls(cs: Seq<crate::document::ComponentV>) -> Seq<Seq<char>>
    decreases cs.len(),
{
    if cs.len() == 0 {
        Seq::empty()
    } else {
        comps_urls(cs.drop_last()) + match cs.last().element {
            crate::document::ElementV::Properties(ps) => url_values(ps),
            _ => Seq::empty(),
        }
    }
}

/// The urls noted in the documents: the text values of the `url` properties of every
/// properties block with such a property that the search for components reaches.
pub open spec fn docs_urls(docs: Seq<ParsedDocument>) -> Seq<Seq<char>>
    decreases docs.len(),
{
    if docs.len() == 0 {
        Seq::empty()
    } else {
        docs_urls(docs.drop_last()) + comps_urls(crate::search::all_pd(docs.last(), UrlPropsSelector))
    }
}

fn push_texts(out: &mut Vec<String>, vs: &Vec<PropValue>)
    ensures
        strs_v(final(out)@) == strs_v(old(out)@) + text_values(crate::document::pvs_v(vs@)),
{
    let ghost start = strs_v(out@);
    let ghost pv = crate::document::pvs_v(vs@);
    let mut i: usize = 0;
    while i < vs.len()
        invariant
            i <= vs.len(),
            pv == crate::document::pvs_v(vs@),
            strs_v(out@) == start + text_values(pv.take(i as int)),
        decreases vs.len() - i,
    {
        let ghost before = strs_v(out@);
        proof {
            assert(pv.take(i + 1).drop_last() =~= pv.take(i as int));
            assert(pv.take(i + 1).last() == vs@[i as int]@);
        }
        match &vs[i] {
            PropValue::String(t) => {
                out.push(t.clone());
                proof {
                    assert(strs_v(out@) =~= before.push(t@));
                }
            },
            _ => {
                proof {
                    assert(strs_v(out@) =~= before + Seq::<Seq<char>>::empty());
                }
            },
        }
        i = i + 1;
    }
    proof {
        assert(pv.take(vs.len() as int) =~= pv);
    }
}

fn push_url_values(out: &mut Vec<String>, ps: &Vec<crate::document::Property>)
    ensures
        strs_v(final(out)@) == strs_v(old(out)@) + url_values(props_v(ps@)),
{
    let ghost start = strs_v(out@);
    let ghost pv = props_v(ps@);
    let mut i: usize = 0;
    while i < ps.len()
        invariant
            i <= ps.len(),
            pv == props_v(ps@),
            strs_v(out@) == start + url_values(pv.take(i as int)),
        decreases ps.len() - i,
    {
        let ghost before = strs_v(out@);
        proof {
            assert(pv.take(i + 1).drop_last() =~= pv.take(i as int));
            assert(pv.take(i + 1).last() == ps@[i as int]@);
        }
        if ps[i].has_name("url") {
            push_texts(out, &ps[i].values);
        } else {
            proof {
                assert(strs_v(out@) =~= before + Seq::<Seq<char>>::empty());
            }
        }
        i = i + 1;
    }
    proof {
        assert(pv.take(ps.len() as int) =~= pv);
    }
}

/// The urls noted in the documents (see `docs_urls`), in order.
pub fn noted_urls(docs: &[ParsedDocument]) -> (r: Vec<String>)
    ensures
        strs_v(r@) == docs_urls(docs@),
{
    let mut out: Vec<String> = Vec::new();
    let mut i: usize = 0;
    proof {
        assert(strs_v(out@) =~= docs_urls(docs@.take(0)));
    }
    while i < docs.len()
        invariant
            i <= docs@.len(),
            strs_v(out@) == docs_urls(docs@.take(i as int)),
        decreases docs.len() - i,
    {
        proof {
            assert(docs@.take(i + 1).drop_last() =~= docs@.take(i as int));
            assert(docs@.take(i + 1).last() == docs@[i as int]);
        }
        let comps = docs[i].get_all_document_components(&UrlPropsSelector);
        let ghost start = strs_v(out@);
        let ghost cv = crate::document::dcs_v(comps@);
        proof {
            crate::document::lemma_dcs_v_len(comps@);
        }
        let mut j: usize = 0;
        while j < comps.len()
            invariant
                j <= comps.len(),
                cv == crate::document::dcs_v(comps@),
                cv.len() == comps@.len(),
                strs_v(out@) == start + comps_urls(cv.take(j as int)),
            decreases comps.len() - j,
        {
            let ghost before = strs_v(out@);
            proof {
                assert(cv.take(j + 1).drop_last() =~= cv.take(j as int));
                crate::document::lemma_dcs_v_index(comps@, j as int);
                assert(cv.take(j + 1).last() == comps@[j as int]@);
            }
            match &comps[j].element {
                DocumentElement::Properties(ps) => push_url_values(&mut out, ps),
                _ => {
                    proof {
                        assert(strs_v(out@) =~= before + Seq::<Seq<char>>::empty());
                    }
                },
            }
            j = j + 1;
        }
        proof {
            assert(cv.take(comps.len() as int) =~= cv);
        }
        i = i + 1;
    }
    proof {
        assert(docs@.take(docs@.len() as int) =~= docs@);
    }
    out
}

/// The task's text holds one of the urls.
pub open spec fn holds_any(content: Seq<char>, urls: Seq<Seq<char>>) -> bool {
    exists|i: int| 0 <= i < urls.len() && find_from(content, #[trigger] urls[i], 0) >= 0
}

/// The tasks whose text holds none of the noted urls, in order.
pub fn tasks_without_known_urls(tasks: &[crate::tasks::TodoistTask], urls: &[String]) -> (r: Vec<
    crate::tasks::TodoistTask,
>)
    ensures
        crate::tasks::tasks_v(r@) == crate::tasks::tasks_v(tasks@).filter(
            |t: crate::tasks::TaskV| !holds_any(t.content, strs_v(urls@)),
        ),
{
    let ghost all = crate::tasks::tasks_v(tasks@);
    let ghost us = strs_v(urls@);
    let mut r: Vec<crate::tasks::TodoistTask> = Vec::new();
    let mut i: usize = 0;
    while i < tasks.len()
        invariant
            i <= tasks@.len(),
            all == crate::tasks::tasks_v(tasks@),
            us == strs_v(urls@),
            crate::tasks::tasks_v(r@) == all.take(i as int).filter(
                |t: crate::tasks::TaskV| !holds_any(t.content, us),
            ),
        decreases tasks.len() - i,
    {
        proof {
            assert(all.take(i + 1).drop_last() =~= all.take(i as int));
            assert(all.take(i + 1).last() == tasks@[i as int]@);
            reveal(Seq::filter);
        }
        let content = chars_of(tasks[i].content.as_str());
        let mut found = false;
        let mut k: usize = 0;
        while k < urls.len() && !found
            invariant
                k <= urls@.len(),
                us == strs_v(urls@),
                content@ == tasks@[i as int].content@,
                found == exists|m: int| 0 <= m < k && find_from(content@, #[trigger] us[m], 0) >= 0,
            decreases urls.len() - k,
        {
            if find_text(&content, &chars_of(urls[k].as_str())).is_some() {
                proof {
                    assert(find_from(content@, us[k as int], 0) >= 0);
                }
                found = true;
            }
            k = k + 1;
        }
        let ghost before = crate::tasks::tasks_v(r@);
        if !found {
            r.push(tasks[i].copy());
            proof {
                assert(crate::tasks::tasks_v(r@) =~= before.push(tasks@[i as int]@));
            }
        }
        i = i + 1;
    }
    proof {
        assert(all.take(tasks@.len() as int) =~= all);
    }
    r
}

// ---------------------------------------------------------------------------
// Tasks assigned to a template by hand.
pub open spec fn markdown_link_pattern() -> Seq<char> {
    "\\[([^\\[\\]]*)\\]\\(([^()\\s]+)\\)"@
}

/// The name and target of the first markdown link `[name](target)` in `t` from position `i`
/// on: the first `[` after which a link reads (see `link_match`).
pub open spec fn first_md_link(t: Seq<char>, i: int) -> Option<(Seq<char>, Seq<char>)>
    decreases t.len() - i,
{
    if i < 0 || i >= t.len() {
        None
    } else if t[i] == '[' && crate::zk_parsing::link_match(t.skip(i + 1)) is Some {
        let (n, target, _) = crate::zk_parsing::link_match(t.skip(i + 1)).unwrap();
        Some((n, target))
    } else {
        first_md_link(t, i + 1)
    }
}

/// Calls `regex::Regex::new` and `Regex::captures` with the markdown link pattern, and takes the
/// first two groups. The pattern is found at its leftmost start: a `[`, then (as for
/// `link_match`) the longest run without brackets, which must be followed by `](`, and the
/// longest run without parentheses or whitespace (at least one character), which must be
/// followed by `)`. Claimed: the groups are what `first_md_link` says.
#[verifier::external_body]
fn regex_two_groups(pattern: &str, text: &str) -> (r: Option<(String, String)>)
    requires
        pattern@ == markdown_link_pattern(),
    ensures
        match r {
            Some((a, b)) => first_md_link(text@, 0) == Some((a@, b@)),
            None => first_md_link(text@, 0) is None,
        },
{
    let re = regex::Regex::new(pattern).ok()?;
    let c = re.captures(text)?;
    Some((c.get(1)?.as_str().to_string(), c.get(2)?.as_str().to_string()))
}

/// The title of an item: the link's name trimmed, `untitled` where that is empty.
pub open spec fn item_title(name: Seq<char>) -> Seq<char> {
    if trim(name).len() == 0 {
        "untitled"@
    } else {
        trim(name)
    }
}

/// What a task assigned to a template by hand gives: where its text (with typographic
/// characters replaced) holds a markdown link, the template, the link's target as url, its name
/// as title and the title's keyword tags; else nothing to import.
pub fn interactive_task_data(template_name: String, content: &str, config: &Config) -> (r: (
    crate::tasks::Resolution,
    TaskData,
))
    ensures
        match first_md_link(crate::util::substituted(content@), 0) {
            Some((name, target)) => {
                &&& r.0 == crate::tasks::Resolution::ToHandle
                &&& r.1 matches TaskData::Interactive(t, u, ti, tags, sources) && t == template_name
                    && opt_v(u) == Some(target) && opt_v(ti) == Some(item_title(name)) && strs_v(tags@)
                    == keyword_tags(kw_rules(config.tags.kw_tag@), trim(name)) && sources@.len() == 0
            },
            None => r.0 == crate::tasks::Resolution::Skip && r.1 is Unhandled,
        },
{
    let text = crate::util::apply_substitutions(content);
    let pattern = "\\[([^\\[\\]]*)\\]\\(([^()\\s]+)\\)";
    proof {
        reveal_strlit("\\[([^\\[\\]]*)\\]\\(([^()\\s]+)\\)");
    }
    match regex_two_groups(pattern, text.as_str()) {
        Some((name, target)) => {
            let trimmed = trim_vec(&chars_of(name.as_str()));
            let title = string_of(&trimmed);
            let tags = config.get_keyword_tags(title.as_str());
            let shown = if trimmed.len() == 0 {
                let u = crate::text::string_of(&chars_of("untitled"));
                u
            } else {
                title
            };
            (crate::tasks::Resolution::ToHandle, TaskData::Interactive(template_name, Some(target), Some(shown), tags, Vec::new()))
        },
        None => (crate::tasks::Resolution::Skip, TaskData::Unhandled),
    }
}

} // verus!
