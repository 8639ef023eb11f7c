//! Reading YouTube: the id of a video from its url, and the details the data API answers.
use vstd::prelude::*;
use crate::document::{opt_v, pairs_v};
use crate::imports::{find_from, find_text};
use crate::text::{chars_of, eq_vec, replace_char, replace_char_vec, slice_of, string_of};

verus! {

/// The query pairs of the url, in order and as `url::Url` decodes them; `None` where the text
/// is no url.
pub uninterp spec fn url_query_pairs(url: Seq<char>) -> Option<Seq<(Seq<char>, Seq<char>)>>;

/// The title, channel and description in the snippet of the last item of a data API answer,
/// each as `json` writes the value (`null` where it is missing); `None` where the answer is no
/// JSON.
pub uninterp spec fn last_item_snippet(answer: Seq<char>) -> Option<(Seq<char>, Seq<char>, Seq<char>)>;

/// Calls `url::Url::parse` (through `reqwest::Url`) and `Url::query_pairs`, and collects every
/// pair as two strings. Claimed: the pairs are the named value `url_query_pairs` of the url.
#[verifier::external_body]
fn query_pairs_of(url: &str) -> (r: Option<Vec<(String, String)>>)
    ensures
        match r {
            Some(ps) => url_query_pairs(url@) == Some(pairs_v(ps@)),
            None => url_query_pairs(url@) is None,
        },
{
    let u = reqwest::Url::parse(url).ok()?;
    Some(u.query_pairs().map(|(k, v)| (k.to_string(), v.to_string())).collect())
}

/// The value of the first of `ps[i..]` whose key is `key`.
pub open spec fn first_value_from(ps: Seq<(Seq<char>, Seq<char>)>, key: Seq<char>, i: int) -> Option<Seq<char>>
    decreases ps.len() - i,
{
    if i < 0 || i >= ps.len() {
        None
    } else if ps[i].0 == key {
        Some(ps[i].1)
    } else {
        first_value_from(ps, key, i + 1)
    }
}

/// The value of the first pair whose key is `key`.
pub open spec fn first_value_of(ps: Seq<(Seq<char>, Seq<char>)>, key: Seq<char>) -> Option<Seq<char>> {
    first_value_from(ps, key, 0)
}

/// The value of the first query parameter `key` of the url; `None` where the text is no url
/// or has no such parameter.
pub open spec fn url_query_param(url: Seq<char>, key: Seq<char>) -> Option<Seq<char>> {
    match url_query_pairs(url) {
        Some(ps) => first_value_of(ps, key),
        None => None,
    }
}

/// The value of the first pair whose key is `key`, if there is one.
pub fn first_value(pairs: &Vec<(String, String)>, key: &str) -> (r: Option<String>)
    ensures
        opt_v(r) == first_value_of(pairs_v(pairs@), key@),
{
    let k = chars_of(key);
    let mut i: usize = 0;
    while i < pairs.len()
        invariant
            i <= pairs.len(),
            k@ == key@,
            first_value_of(pairs_v(pairs@), key@) == first_value_from(pairs_v(pairs@), key@, i as int),
        decreases pairs.len() - i,
    {
        proof {
            assert(pairs_v(pairs@)[i as int] == (pairs@[i as int].0@, pairs@[i as int].1@));
        }
        let name = chars_of(pairs[i].0.as_str());
        if eq_vec(&name, &k) {
            return Some(string_of(&chars_of(pairs[i].1.as_str())));
        }
        i = i + 1;
    }
    None
}

/// The value of the url's first query parameter `key`.
fn query_param(url: &str, key: &str) -> (r: Option<String>)
    ensures
        opt_v(r) == url_query_param(url@, key@),
{
    match query_pairs_of(url) {
        Some(ps) => first_value(&ps, key),
        None => None,
    }
}

/// Calls `json::parse`, `JsonValue::pop` on `items` and `to_string` on the snippet's `title`,
/// `channelTitle` and `description`. Claimed: the result is the named value
/// `last_item_snippet`.
#[verifier::external_body]
fn snippet_of(answer: &str) -> (r: Option<(String, String, String)>)
    ensures
        match r {
            Some((t, c, d)) => last_item_snippet(answer@) == Some((t@, c@, d@)),
            None => last_item_snippet(answer@) is None,
        },
{
    let mut js = json::parse(answer).ok()?;
    let snippet = js["items"].pop()["snippet"].clone();
    Some((snippet["title"].to_string(), snippet["channelTitle"].to_string(), snippet["description"].to_string()))
}

pub open spec fn shorts_marker() -> Seq<char> {
    "/shorts/"@
}

/// The id of a video: what follows `/shorts/` in its url, else its query parameter `v`.
pub open spec fn video_id_of(url: Seq<char>) -> Option<Seq<char>> {
    let p = find_from(url, shorts_marker(), 0);
    if p >= 0 {
        Some(url.skip(p + shorts_marker().len()))
    } else {
        url_query_param(url, "v"@)
    }
}

/// The id of the video at the (resolved) url.
pub fn video_id(video_url: &str) -> (r: Option<String>)
    ensures
        opt_v(r) == video_id_of(video_url@),
{
    let u = chars_of(video_url);
    let marker = chars_of("/shorts/");
    match find_text(&u, &marker) {
        Some(p) => {
            let rest = slice_of(&u, p + marker.len(), u.len());
            proof {
                assert(rest@ =~= video_url@.skip(p + shorts_marker().len()));
            }
            Some(string_of(&rest))
        },
        None => query_param(video_url, "v"),
    }
}

/// The id of the playlist at the url: its query parameter `list`.
pub fn playlist_id(playlist_url: &str) -> (r: Option<String>)
    ensures
        opt_v(r) == url_query_param(playlist_url@, "list"@),
{
    query_param(playlist_url, "list")
}

/// The title and channel of a video, from the data API's answer.
pub fn video_details(answer: &str) -> (r: Option<(String, String)>)
    ensures
        match last_item_snippet(answer@) {
            Some((t, c, _)) => r matches Some((a, b)) && a@ == t && b@ == c,
            None => r is None,
        },
{
    match snippet_of(answer) {
        Some((t, c, _)) => Some((t, c)),
        None => None,
    }
}

/// A playlist's description: its title, `: `, and its description on one line.
pub open spec fn playlist_text(title: Seq<char>, description: Seq<char>) -> Seq<char> {
    title + ": "@ + replace_char(description, '\n', " "@)
}

/// The description and channel of a playlist, from the data API's answer.
pub fn playlist_details(answer: &str) -> (r: Option<(String, String)>)
    ensures
        match last_item_snippet(answer@) {
            Some((t, c, d)) => r matches Some((a, b)) && a@ == playlist_text(t, d) && b@ == c,
            None => r is None,
        },
{
    match snippet_of(answer) {
        Some((t, c, d)) => {
            let mut out = chars_of(t.as_str());
            crate::text::push_str(&mut out, ": ");
            let line = replace_char_vec(&chars_of(d.as_str()), '\n', &chars_of(" "));
            crate::text::push_all(&mut out, &line);
            Some((string_of(&out), c))
        },
        None => None,
    }
}

} // verus!
