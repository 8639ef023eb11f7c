//! The tokens of zk text: each token is the longest that matches at its position (a literal
//! token wins over a name of the same length).
use vstd::prelude::*;
use crate::md_lexer::{is_non_ascii, is_non_ascii_exec, is_space_tab, is_space_tab_exec, lemma_run, run};
use crate::obsidian_lexer::{at, at_exec, is_name_char, is_name_char_exec};
use crate::text::{is_whitespace, is_ws};

verus! {

#[derive(Clone, Copy, Debug, PartialEq, Eq, Structural)]
pub enum ZkToken {
    SingleHash,
    AdNoteStart,
    TripleBackQuote,
    EmbedStart,
    OpenDoubleBraces,
    ClosingDoubleBraces,
    Space,
    Newline,
    CarriageReturn,
    Pipe,
    Bracket,
    ClosingBracket,
    Name,
    ListStart,
    FrontmatterDelim,
    PropertyStart,
    MiscText,
    Backslash,
    Unicode,
    /// a character that starts no token
    Error,
}

impl ZkToken {
    pub open spec fn blank(self) -> bool {
        self == ZkToken::Space || self == ZkToken::CarriageReturn || self == ZkToken::Newline
    }

    /// Spaces, line breaks and carriage returns.
    pub fn is_blank(&self) -> (b: bool)
        ensures
            b == self.blank(),
    {
        match self {
            ZkToken::Space | ZkToken::CarriageReturn | ZkToken::Newline => true,
            _ => false,
        }
    }
}

pub open spec fn is_letter(c: char) -> bool {
    ('a' <= c && c <= 'z') || ('A' <= c && c <= 'Z') || c == '_'
}

pub open spec fn is_zk_misc(c: char) -> bool {
    ('0' <= c && c <= '9') || c == '.' || c == '{' || c == '}' || c == '^' || c == '$' || c == '>'
        || c == '<' || c == ',' || c == '(' || c == ')' || c == ':' || c == '=' || c == '*' || c
        == '&' || c == '/' || c == ';' || c == '\'' || c == '+' || c == '!' || c == '?' || c == '"'
        || c == '%' || c == '@' || c == '`' || c == '~'
}

pub fn is_letter_exec(c: char) -> (b: bool)
    ensures
        b == is_letter(c),
{
    ('a' <= c && c <= 'z') || ('A' <= c && c <= 'Z') || c == '_'
}

pub fn is_zk_misc_exec(c: char) -> (b: bool)
    ensures
        b == is_zk_misc(c),
{
    ('0' <= c && c <= '9') || c == '.' || c == '{' || c == '}' || c == '^' || c == '$' || c == '>'
        || c == '<' || c == ',' || c == '(' || c == ')' || c == ':' || c == '=' || c == '*' || c
        == '&' || c == '/' || c == ';' || c == '\'' || c == '+' || c == '!' || c == '?' || c == '"'
        || c == '%' || c == '@' || c == '`' || c == '~'
}

/// Length of a property start at `i` (letters, at most three whitespace characters, `::=`,
/// then any whitespace), or 0.
pub open spec fn prop_start_len(s: Seq<char>, i: int) -> int {
    let l = run(s, i, |x: char| is_letter(x));
    let w = run(s, i + l, |x: char| is_ws(x));
    if l > 0 && w <= 3 && at(s, i + l + w, "::="@) {
        l + w + 3 + run(s, i + l + w + 3, |x: char| is_ws(x))
    } else {
        0
    }
}

/// The token at position `i` (within the text) and its length.
pub open spec fn zk_token_at(s: Seq<char>, i: int) -> (ZkToken, int) {
    let c = s[i];
    if c == '#' {
        (ZkToken::SingleHash, 1)
    } else if at(s, i, "```ad-note"@) {
        (ZkToken::AdNoteStart, 10)
    } else if at(s, i, "```"@) {
        (ZkToken::TripleBackQuote, 3)
    } else if at(s, i, "![["@) {
        (ZkToken::EmbedStart, 3)
    } else if at(s, i, "[["@) {
        (ZkToken::OpenDoubleBraces, 2)
    } else if at(s, i, "]]"@) {
        (ZkToken::ClosingDoubleBraces, 2)
    } else if is_space_tab(c) {
        (ZkToken::Space, 1)
    } else if c == '\n' {
        (ZkToken::Newline, 1)
    } else if c == '\r' {
        (ZkToken::CarriageReturn, 1)
    } else if c == '|' {
        (ZkToken::Pipe, 1)
    } else if c == '[' {
        (ZkToken::Bracket, 1)
    } else if c == ']' {
        (ZkToken::ClosingBracket, 1)
    } else if c == '-' && at(s, i, "---"@) && run(s, i, |x: char| is_name_char(x)) == 3 {
        (ZkToken::FrontmatterDelim, 3)
    } else if at(s, i, "- "@) {
        (ZkToken::ListStart, 2)
    } else if prop_start_len(s, i) > 0 {
        (ZkToken::PropertyStart, prop_start_len(s, i))
    } else if is_name_char(c) {
        (ZkToken::Name, run(s, i, |x: char| is_name_char(x)))
    } else if is_zk_misc(c) {
        (ZkToken::MiscText, 1)
    } else if c == '\\' {
        (ZkToken::Backslash, 1)
    } else if is_non_ascii(c) {
        (ZkToken::Unicode, run(s, i, |x: char| is_non_ascii(x)))
    } else {
        (ZkToken::Error, 1)
    }
}

pub proof fn lemma_zk_token_at(s: Seq<char>, i: int)
    requires
        0 <= i < s.len(),
    ensures
        1 <= zk_token_at(s, i).1 <= s.len() - i,
{
    reveal_strlit("```ad-note");
    reveal_strlit("```");
    reveal_strlit("![[");
    reveal_strlit("[[");
    reveal_strlit("]]");
    reveal_strlit("---");
    reveal_strlit("- ");
    reveal_strlit("::=");
    lemma_run(s, i, |x: char| is_name_char(x));
    lemma_run(s, i, |x: char| is_non_ascii(x));
    lemma_run(s, i, |x: char| is_letter(x));
    let l = run(s, i, |x: char| is_letter(x));
    lemma_run(s, i + l, |x: char| is_ws(x));
    let w = run(s, i + l, |x: char| is_ws(x));
    if l > 0 && w <= 3 && at(s, i + l + w, "::="@) {
        lemma_run(s, i + l + w + 3, |x: char| is_ws(x));
    }
    lemma_run(s, i + 1, |x: char| is_name_char(x));
    lemma_run(s, i + 1, |x: char| is_non_ascii(x));
}

pub open spec fn zk_tokens_from(s: Seq<char>, i: int) -> Seq<(ZkToken, Seq<char>)>
    decreases s.len() - i,
{
    if i < 0 || i >= s.len() {
        Seq::empty()
    } else {
        let (k, n) = zk_token_at(s, i);
        proof {
            lemma_zk_token_at(s, i);
        }
        seq![(k, s.subrange(i, i + n))] + zk_tokens_from(s, i + n)
    }
}

pub open spec fn zk_tokens(s: Seq<char>) -> Seq<(ZkToken, Seq<char>)> {
    zk_tokens_from(s, 0)
}

pub open spec fn zk_views(v: Seq<(ZkToken, Vec<char>)>) -> Seq<(ZkToken, Seq<char>)> {
    v.map_values(|t: (ZkToken, Vec<char>)| (t.0, t.1@))
}

fn class_holds(kind: u8, c: char) -> (b: bool)
    ensures
        kind == 0 ==> b == is_letter(c),
        kind == 1 ==> b == is_ws(c),
        kind == 2 ==> b == is_name_char(c),
        kind == 3 ==> b == is_non_ascii(c),
{
    if kind == 0 {
        is_letter_exec(c)
    } else if kind == 1 {
        is_whitespace(c)
    } else if kind == 2 {
        is_name_char_exec(c)
    } else {
        is_non_ascii_exec(c)
    }
}

fn run_exec(s: &Vec<char>, i: usize, kind: u8) -> (n: usize)
    requires
        i <= s.len(),
        kind < 4,
    ensures
        kind == 0 ==> n == run(s@, i as int, |x: char| is_letter(x)),
        kind == 1 ==> n == run(s@, i as int, |x: char| is_ws(x)),
        kind == 2 ==> n == run(s@, i as int, |x: char| is_name_char(x)),
        kind == 3 ==> n == run(s@, i as int, |x: char| is_non_ascii(x)),
        n <= s.len() - i,
{
    let ghost p = if kind == 0 {
        |x: char| is_letter(x)
    } else if kind == 1 {
        |x: char| is_ws(x)
    } else if kind == 2 {
        |x: char| is_name_char(x)
    } else {
        |x: char| is_non_ascii(x)
    };
    let mut j = i;
    while j < s.len() && class_holds(kind, s[j])
        invariant
            i <= j <= s.len(),
            kind < 4,
            kind == 0 ==> p == (|x: char| is_letter(x)),
            kind == 1 ==> p == (|x: char| is_ws(x)),
            kind == 2 ==> p == (|x: char| is_name_char(x)),
            kind == 3 ==> p == (|x: char| is_non_ascii(x)),
            run(s@, i as int, p) == (j - i) + run(s@, j as int, p),
        decreases s.len() - j,
    {
        j = j + 1;
    }
    j - i
}

fn prop_start_len_exec(s: &Vec<char>, i: usize) -> (n: usize)
    requires
        i < s.len(),
    ensures
        n == prop_start_len(s@, i as int),
{
    let l = run_exec(s, i, 0);
    let w = run_exec(s, i + l, 1);
    if l > 0 && w <= 3 && at_exec(s, i + l + w, "::=") {
        proof {
            reveal_strlit("::=");
        }
        let t = run_exec(s, i + l + w + 3, 1);
        l + w + 3 + t
    } else {
        0
    }
}

pub fn zk_token_at_exec(s: &Vec<char>, i: usize) -> (r: (ZkToken, usize))
    requires
        i < s.len(),
    ensures
        r.0 == zk_token_at(s@, i as int).0,
        r.1 == zk_token_at(s@, i as int).1,
{
    let c = s[i];
    if c == '#' {
        (ZkToken::SingleHash, 1)
    } else if at_exec(s, i, "```ad-note") {
        (ZkToken::AdNoteStart, 10)
    } else if at_exec(s, i, "```") {
        (ZkToken::TripleBackQuote, 3)
    } else if at_exec(s, i, "![[") {
        (ZkToken::EmbedStart, 3)
    } else if at_exec(s, i, "[[") {
        (ZkToken::OpenDoubleBraces, 2)
    } else if at_exec(s, i, "]]") {
        (ZkToken::ClosingDoubleBraces, 2)
    } else if is_space_tab_exec(c) {
        (ZkToken::Space, 1)
    } else if c == '\n' {
        (ZkToken::Newline, 1)
    } else if c == '\r' {
        (ZkToken::CarriageReturn, 1)
    } else if c == '|' {
        (ZkToken::Pipe, 1)
    } else if c == '[' {
        (ZkToken::Bracket, 1)
    } else if c == ']' {
        (ZkToken::ClosingBracket, 1)
    } else if c == '-' && at_exec(s, i, "---") && run_exec(s, i, 2) == 3 {
        (ZkToken::FrontmatterDelim, 3)
    } else if at_exec(s, i, "- ") {
        (ZkToken::ListStart, 2)
    } else {
        let p = prop_start_len_exec(s, i);
        if p > 0 {
            (ZkToken::PropertyStart, p)
        } else if is_name_char_exec(c) {
            (ZkToken::Name, run_exec(s, i, 2))
        } else if is_zk_misc_exec(c) {
            (ZkToken::MiscText, 1)
        } else if c == '\\' {
            (ZkToken::Backslash, 1)
        } else if is_non_ascii_exec(c) {
            (ZkToken::Unicode, run_exec(s, i, 3))
        } else {
            (ZkToken::Error, 1)
        }
    }
}

/// The tokens of `s`, each with its text.
pub fn zk_lex(s: &Vec<char>) -> (r: Vec<(ZkToken, Vec<char>)>)
    ensures
        zk_views(r@) == zk_tokens(s@),
{
    let mut r: Vec<(ZkToken, Vec<char>)> = Vec::new();
    let mut i: usize = 0;
    while i < s.len()
        invariant
            i <= s.len(),
            zk_views(r@) + zk_tokens_from(s@, i as int) == zk_tokens(s@),
        decreases s.len() - i,
    {
        proof {
            lemma_zk_token_at(s@, i as int);
        }
        let (k, n) = zk_token_at_exec(s, i);
        let piece = crate::text::slice_of(s, i, i + n);
        let ghost before = zk_views(r@);
        r.push((k, piece));
        proof {
            assert(zk_views(r@) =~= before.push((k, s@.subrange(i as int, i + n))));
            assert(zk_tokens_from(s@, i as int) == seq![(k, s@.subrange(i as int, i + n))]
                + zk_tokens_from(s@, i + n));
            assert(zk_views(r@) + zk_tokens_from(s@, i + n) =~= before + zk_tokens_from(s@, i as int));
        }
        i = i + n;
    }
    proof {
        assert(zk_tokens_from(s@, i as int) == Seq::<(ZkToken, Seq<char>)>::empty());
        assert(zk_views(r@) + Seq::<(ZkToken, Seq<char>)>::empty() =~= zk_views(r@));
    }
    r
}

} // verus!
