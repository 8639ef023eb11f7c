//! The tokens of Obsidian text: each token is the longest that matches at its position.
use vstd::prelude::*;
use crate::md_lexer::{is_space_tab, is_space_tab_exec, lemma_run, run};

verus! {

#[derive(Clone, Copy, Debug, PartialEq, Eq, Structural)]
pub enum ObsidianToken {
    SingleHash,
    AdNoteStart,
    TripleBackQuote,
    EmbedStart,
    OpenDoubleBraces,
    ClosingDoubleBraces,
    Space,
    Newline,
    CarriageReturn,
    Pipe,
    Bracket,
    ClosingBracket,
    Name,
    MiscText,
    Backslash,
    /// a character that starts no token
    Error,
}

pub open spec fn is_name_char(c: char) -> bool {
    ('a' <= c && c <= 'z') || ('A' <= c && c <= 'Z') || c == '-' || c == '_'
}

pub open spec fn is_misc_char(c: char) -> bool {
    ('0' <= c && c <= '9') || c == '.' || c == '{' || c == '}' || c == '^' || c == '$' || c == '>'
        || c == '<' || c == ',' || c == '(' || c == ')' || c == ':' || c == '=' || c == '*' || c
        == '&' || c == '/' || c == ';' || c == '\'' || c == '+' || c == '!' || c == '?' || c == '"'
}

pub fn is_name_char_exec(c: char) -> (b: bool)
    ensures
        b == is_name_char(c),
{
    ('a' <= c && c <= 'z') || ('A' <= c && c <= 'Z') || c == '-' || c == '_'
}

pub fn is_misc_char_exec(c: char) -> (b: bool)
    ensures
        b == is_misc_char(c),
{
    ('0' <= c && c <= '9') || c == '.' || c == '{' || c == '}' || c == '^' || c == '$' || c == '>'
        || c == '<' || c == ',' || c == '(' || c == ')' || c == ':' || c == '=' || c == '*' || c
        == '&' || c == '/' || c == ';' || c == '\'' || c == '+' || c == '!' || c == '?' || c == '"'
}

/// `s[i..]` starts with `p`.
pub open spec fn at(s: Seq<char>, i: int, p: Seq<char>) -> bool {
    0 <= i && i + p.len() <= s.len() && s.subrange(i, i + p.len()) == p
}

pub fn at_exec(s: &Vec<char>, i: usize, p: &str) -> (b: bool)
    ensures
        b == at(s@, i as int, p@),
{
    let pv = crate::text::chars_of(p);
    if i > s.len() || pv.len() > s.len() - i {
        return false;
    }
    let mut k: usize = 0;
    while k < pv.len()
        invariant
            i + pv.len() <= s.len(),
            pv@ == p@,
            k <= pv.len(),
            forall|j: int| 0 <= j < k ==> s@[i + j] == pv@[j],
        decreases pv.len() - k,
    {
        if s[i + k] != pv[k] {
            proof {
                assert(s@.subrange(i as int, i + pv.len())[k as int] != pv@[k as int]);
            }
            return false;
        }
        k = k + 1;
    }
    proof {
        assert(s@.subrange(i as int, i + pv.len()) =~= pv@);
    }
    true
}

/// The token at position `i` (within the text) and its length.
pub open spec fn obs_token_at(s: Seq<char>, i: int) -> (ObsidianToken, int) {
    let c = s[i];
    if c == '#' {
        (ObsidianToken::SingleHash, 1)
    } else if at(s, i, "```ad-note"@) {
        (ObsidianToken::AdNoteStart, 10)
    } else if at(s, i, "```"@) {
        (ObsidianToken::TripleBackQuote, 3)
    } else if at(s, i, "![["@) {
        (ObsidianToken::EmbedStart, 3)
    } else if at(s, i, "[["@) {
        (ObsidianToken::OpenDoubleBraces, 2)
    } else if at(s, i, "]]"@) {
        (ObsidianToken::ClosingDoubleBraces, 2)
    } else if is_space_tab(c) {
        (ObsidianToken::Space, run(s, i, |x: char| is_space_tab(x)))
    } else if c == '\n' {
        (ObsidianToken::Newline, if i + 1 < s.len() && s[i + 1] == '\r' {
            2
        } else {
            1
        })
    } else if c == '\r' {
        (ObsidianToken::CarriageReturn, 1)
    } else if c == '|' {
        (ObsidianToken::Pipe, 1)
    } else if c == '[' {
        (ObsidianToken::Bracket, 1)
    } else if c == ']' {
        (ObsidianToken::ClosingBracket, 1)
    } else if is_name_char(c) {
        (ObsidianToken::Name, run(s, i, |x: char| is_name_char(x)))
    } else if is_misc_char(c) {
        (ObsidianToken::MiscText, run(s, i, |x: char| is_misc_char(x)))
    } else if c == '\\' {
        (ObsidianToken::Backslash, 1)
    } else {
        (ObsidianToken::Error, 1)
    }
}

pub proof fn lemma_obs_token_at(s: Seq<char>, i: int)
    requires
        0 <= i < s.len(),
    ensures
        1 <= obs_token_at(s, i).1 <= s.len() - i,
{
    reveal_strlit("```ad-note");
    reveal_strlit("```");
    reveal_strlit("![[");
    reveal_strlit("[[");
    reveal_strlit("]]");
    lemma_run(s, i, |x: char| is_space_tab(x));
    lemma_run(s, i, |x: char| is_name_char(x));
    lemma_run(s, i, |x: char| is_misc_char(x));
    lemma_run(s, i + 1, |x: char| is_space_tab(x));
    lemma_run(s, i + 1, |x: char| is_name_char(x));
    lemma_run(s, i + 1, |x: char| is_misc_char(x));
}

pub open spec fn obs_tokens_from(s: Seq<char>, i: int) -> Seq<(ObsidianToken, Seq<char>)>
    decreases s.len() - i,
{
    if i < 0 || i >= s.len() {
        Seq::empty()
    } else {
        let (k, n) = obs_token_at(s, i);
        proof {
            lemma_obs_token_at(s, i);
        }
        seq![(k, s.subrange(i, i + n))] + obs_tokens_from(s, i + n)
    }
}

pub open spec fn obs_tokens(s: Seq<char>) -> Seq<(ObsidianToken, Seq<char>)> {
    obs_tokens_from(s, 0)
}

pub open spec fn obs_views(v: Seq<(ObsidianToken, Vec<char>)>) -> Seq<(ObsidianToken, Seq<char>)> {
    v.map_values(|t: (ObsidianToken, Vec<char>)| (t.0, t.1@))
}

fn class_holds(kind: u8, c: char) -> (b: bool)
    ensures
        kind == 0 ==> b == is_space_tab(c),
        kind == 1 ==> b == is_name_char(c),
        kind == 2 ==> b == is_misc_char(c),
{
    if kind == 0 {
        is_space_tab_exec(c)
    } else if kind == 1 {
        is_name_char_exec(c)
    } else {
        is_misc_char_exec(c)
    }
}

fn run_exec(s: &Vec<char>, i: usize, kind: u8) -> (n: usize)
    requires
        i <= s.len(),
        kind < 3,
    ensures
        kind == 0 ==> n == run(s@, i as int, |x: char| is_space_tab(x)),
        kind == 1 ==> n == run(s@, i as int, |x: char| is_name_char(x)),
        kind == 2 ==> n == run(s@, i as int, |x: char| is_misc_char(x)),
        n <= s.len() - i,
{
    let ghost p = if kind == 0 {
        |x: char| is_space_tab(x)
    } else if kind == 1 {
        |x: char| is_name_char(x)
    } else {
        |x: char| is_misc_char(x)
    };
    let mut j = i;
    while j < s.len() && class_holds(kind, s[j])
        invariant
            i <= j <= s.len(),
            kind < 3,
            kind == 0 ==> p == (|x: char| is_space_tab(x)),
            kind == 1 ==> p == (|x: char| is_name_char(x)),
            kind == 2 ==> p == (|x: char| is_misc_char(x)),
            run(s@, i as int, p) == (j - i) + run(s@, j as int, p),
        decreases s.len() - j,
    {
        j = j + 1;
    }
    j - i
}

pub fn obs_token_at_exec(s: &Vec<char>, i: usize) -> (r: (ObsidianToken, usize))
    requires
        i < s.len(),
    ensures
        r.0 == obs_token_at(s@, i as int).0,
        r.1 == obs_token_at(s@, i as int).1,
{
    let c = s[i];
    if c == '#' {
        (ObsidianToken::SingleHash, 1)
    } else if at_exec(s, i, "```ad-note") {
        (ObsidianToken::AdNoteStart, 10)
    } else if at_exec(s, i, "```") {
        (ObsidianToken::TripleBackQuote, 3)
    } else if at_exec(s, i, "![[") {
        (ObsidianToken::EmbedStart, 3)
    } else if at_exec(s, i, "[[") {
        (ObsidianToken::OpenDoubleBraces, 2)
    } else if at_exec(s, i, "]]") {
        (ObsidianToken::ClosingDoubleBraces, 2)
    } else if is_space_tab_exec(c) {
        (ObsidianToken::Space, run_exec(s, i, 0))
    } else if c == '\n' {
        (ObsidianToken::Newline, if i + 1 < s.len() && s[i + 1] == '\r' {
            2
        } else {
            1
        })
    } else if c == '\r' {
        (ObsidianToken::CarriageReturn, 1)
    } else if c == '|' {
        (ObsidianToken::Pipe, 1)
    } else if c == '[' {
        (ObsidianToken::Bracket, 1)
    } else if c == ']' {
        (ObsidianToken::ClosingBracket, 1)
    } else if is_name_char_exec(c) {
        (ObsidianToken::Name, run_exec(s, i, 1))
    } else if is_misc_char_exec(c) {
        (ObsidianToken::MiscText, run_exec(s, i, 2))
    } else if c == '\\' {
        (ObsidianToken::Backslash, 1)
    } else {
        (ObsidianToken::Error, 1)
    }
}

/// The tokens of `s`, each with its text.
pub fn obs_lex(s: &Vec<char>) -> (r: Vec<(ObsidianToken, Vec<char>)>)
    ensures
        obs_views(r@) == obs_tokens(s@),
{
    let mut r: Vec<(ObsidianToken, Vec<char>)> = Vec::new();
    let mut i: usize = 0;
    while i < s.len()
        invariant
            i <= s.len(),
            obs_views(r@) + obs_tokens_from(s@, i as int) == obs_tokens(s@),
        decreases s.len() - i,
    {
        proof {
            lemma_obs_token_at(s@, i as int);
        }
        let (k, n) = obs_token_at_exec(s, i);
        let piece = crate::text::slice_of(s, i, i + n);
        let ghost before = obs_views(r@);
        r.push((k, piece));
        proof {
            assert(obs_views(r@) =~= before.push((k, s@.subrange(i as int, i + n))));
            assert(obs_tokens_from(s@, i as int) == seq![(k, s@.subrange(i as int, i + n))]
                + obs_tokens_from(s@, i + n));
            assert(obs_views(r@) + obs_tokens_from(s@, i + n) =~= before + obs_tokens_from(s@, i as int));
        }
        i = i + n;
    }
    proof {
        assert(obs_tokens_from(s@, i as int) == Seq::<(ObsidianToken, Seq<char>)>::empty());
        assert(obs_views(r@) + Seq::<(ObsidianToken, Seq<char>)>::empty() =~= obs_views(r@));
    }
    r
}

} // verus!
