//! The tokens of markdown text: each token is the longest that matches at its position.
use vstd::prelude::*;

verus! {

#[derive(Clone, Copy, Debug, PartialEq, Eq, Structural)]
pub enum MdToken {
    Hashtag,
    Space,
    Newline,
    CarriageReturn,
    ListStart,
    Text,
    Backslash,
    Unicode,
    /// a character that starts no token
    Error,
}

impl MdToken {
    pub open spec fn blank(self) -> bool {
        self == MdToken::Space || self == MdToken::CarriageReturn || self == MdToken::Newline
    }

    /// Spaces, line breaks and carriage returns.
    pub fn is_blank(&self) -> (b: bool)
        ensures
            b == self.blank(),
    {
        match self {
            MdToken::Space | MdToken::CarriageReturn | MdToken::Newline => true,
            _ => false,
        }
    }
}

pub open spec fn is_space_tab(c: char) -> bool {
    c == ' ' || c == '\t'
}

pub open spec fn is_md_text(c: char) -> bool {
    ('a' <= c && c <= 'z') || ('A' <= c && c <= 'Z') || ('0' <= c && c <= '9') || c == '-' || c
        == '`' || c == '_' || c == '.' || c == '{' || c == '}' || c == '^' || c == '$' || c == '>'
        || c == '<' || c == ',' || c == '(' || c == ')' || c == ':' || c == '=' || c == '*' || c
        == '&' || c == '/' || c == ';' || c == '\'' || c == '+' || c == '!' || c == '?' || c == '"'
        || c == '|' || c == '[' || c == ']'
}

pub open spec fn is_non_ascii(c: char) -> bool {
    (c as u32) > 0x7f
}

pub fn is_space_tab_exec(c: char) -> (b: bool)
    ensures
        b == is_space_tab(c),
{
    c == ' ' || c == '\t'
}

pub fn is_md_text_exec(c: char) -> (b: bool)
    ensures
        b == is_md_text(c),
{
    ('a' <= c && c <= 'z') || ('A' <= c && c <= 'Z') || ('0' <= c && c <= '9') || c == '-' || c
        == '`' || c == '_' || c == '.' || c == '{' || c == '}' || c == '^' || c == '$' || c == '>'
        || c == '<' || c == ',' || c == '(' || c == ')' || c == ':' || c == '=' || c == '*' || c
        == '&' || c == '/' || c == ';' || c == '\'' || c == '+' || c == '!' || c == '?' || c == '"'
        || c == '|' || c == '[' || c == ']'
}

pub fn is_non_ascii_exec(c: char) -> (b: bool)
    ensures
        b == is_non_ascii(c),
{
    (c as u32) > 0x7f
}

/// Length of the run of characters from `i` on that satisfy `p`.
pub open spec fn run(s: Seq<char>, i: int, p: spec_fn(char) -> bool) -> int
    decreases s.len() - i,
{
    if 0 <= i < s.len() && p(s[i]) {
        1 + run(s, i + 1, p)
    } else {
        0
    }
}

pub proof fn lemma_run(s: Seq<char>, i: int, p: spec_fn(char) -> bool)
    requires
        0 <= i <= s.len(),
    ensures
        0 <= run(s, i, p) <= s.len() - i,
    decreases s.len() - i,
{
    if i < s.len() && p(s[i]) {
        lemma_run(s, i + 1, p);
    }
}

/// The token at position `i` (within the text) and its length.
pub open spec fn md_token_at(s: Seq<char>, i: int) -> (MdToken, int) {
    let c = s[i];
    if c == '#' {
        (MdToken::Hashtag, 1)
    } else if is_space_tab(c) {
        (MdToken::Space, run(s, i, |x: char| is_space_tab(x)))
    } else if c == '\n' {
        (MdToken::Newline, if i + 1 < s.len() && s[i + 1] == '\r' {
            2
        } else {
            1
        })
    } else if c == '\r' {
        (MdToken::CarriageReturn, 1)
    } else if c == '-' && i + 1 < s.len() && s[i + 1] == ' ' {
        (MdToken::ListStart, 2)
    } else if is_md_text(c) {
        (MdToken::Text, run(s, i, |x: char| is_md_text(x)))
    } else if c == '\\' {
        (MdToken::Backslash, 1)
    } else if is_non_ascii(c) {
        (MdToken::Unicode, run(s, i, |x: char| is_non_ascii(x)))
    } else {
        (MdToken::Error, 1)
    }
}

pub proof fn lemma_md_token_at(s: Seq<char>, i: int)
    requires
        0 <= i < s.len(),
    ensures
        1 <= md_token_at(s, i).1 <= s.len() - i,
{
    lemma_run(s, i, |x: char| is_space_tab(x));
    lemma_run(s, i, |x: char| is_md_text(x));
    lemma_run(s, i, |x: char| is_non_ascii(x));
    lemma_run(s, i + 1, |x: char| is_space_tab(x));
    lemma_run(s, i + 1, |x: char| is_md_text(x));
    lemma_run(s, i + 1, |x: char| is_non_ascii(x));
}

/// The tokens of `s[i..]` with their text.
pub open spec fn md_tokens_from(s: Seq<char>, i: int) -> Seq<(MdToken, Seq<char>)>
    decreases s.len() - i,
{
    if i < 0 || i >= s.len() {
        Seq::empty()
    } else {
        let (k, n) = md_token_at(s, i);
        proof {
            lemma_md_token_at(s, i);
        }
        seq![(k, s.subrange(i, i + n))] + md_tokens_from(s, i + n)
    }
}

pub open spec fn md_tokens(s: Seq<char>) -> Seq<(MdToken, Seq<char>)> {
    md_tokens_from(s, 0)
}

pub open spec fn tok_views(v: Seq<(MdToken, Vec<char>)>) -> Seq<(MdToken, Seq<char>)> {
    v.map_values(|t: (MdToken, Vec<char>)| (t.0, t.1@))
}

fn class_holds(kind: u8, c: char) -> (b: bool)
    ensures
        kind == 0 ==> b == is_space_tab(c),
        kind == 1 ==> b == is_md_text(c),
        kind == 2 ==> b == is_non_ascii(c),
{
    if kind == 0 {
        is_space_tab_exec(c)
    } else if kind == 1 {
        is_md_text_exec(c)
    } else {
        is_non_ascii_exec(c)
    }
}

fn run_exec(s: &Vec<char>, i: usize, kind: u8) -> (n: usize)
    requires
        i <= s.len(),
        kind < 3,
    ensures
        kind == 0 ==> n == run(s@, i as int, |x: char| is_space_tab(x)),
        kind == 1 ==> n == run(s@, i as int, |x: char| is_md_text(x)),
        kind == 2 ==> n == run(s@, i as int, |x: char| is_non_ascii(x)),
        n <= s.len() - i,
{
    let ghost p = if kind == 0 {
        |x: char| is_space_tab(x)
    } else if kind == 1 {
        |x: char| is_md_text(x)
    } else {
        |x: char| is_non_ascii(x)
    };
    let mut j = i;
    while j < s.len() && class_holds(kind, s[j])
        invariant
            i <= j <= s.len(),
            kind < 3,
            kind == 0 ==> p == (|x: char| is_space_tab(x)),
            kind == 1 ==> p == (|x: char| is_md_text(x)),
            kind == 2 ==> p == (|x: char| is_non_ascii(x)),
            run(s@, i as int, p) == (j - i) + run(s@, j as int, p),
        decreases s.len() - j,
    {
        j = j + 1;
    }
    j - i
}

pub fn md_token_at_exec(s: &Vec<char>, i: usize) -> (r: (MdToken, usize))
    requires
        i < s.len(),
    ensures
        r.0 == md_token_at(s@, i as int).0,
        r.1 == md_token_at(s@, i as int).1,
{
    let c = s[i];
    if c == '#' {
        (MdToken::Hashtag, 1)
    } else if is_space_tab_exec(c) {
        (MdToken::Space, run_exec(s, i, 0))
    } else if c == '\n' {
        (MdToken::Newline, if i + 1 < s.len() && s[i + 1] == '\r' {
            2
        } else {
            1
        })
    } else if c == '\r' {
        (MdToken::CarriageReturn, 1)
    } else if c == '-' && i + 1 < s.len() && s[i + 1] == ' ' {
        (MdToken::ListStart, 2)
    } else if is_md_text_exec(c) {
        (MdToken::Text, run_exec(s, i, 1))
    } else if c == '\\' {
        (MdToken::Backslash, 1)
    } else if is_non_ascii_exec(c) {
        (MdToken::Unicode, run_exec(s, i, 2))
    } else {
        (MdToken::Error, 1)
    }
}

/// The tokens of `s`, each with its text.
pub fn md_lex(s: &Vec<char>) -> (r: Vec<(MdToken, Vec<char>)>)
    ensures
        tok_views(r@) == md_tokens(s@),
{
    let mut r: Vec<(MdToken, Vec<char>)> = Vec::new();
    let mut i: usize = 0;
    while i < s.len()
        invariant
            i <= s.len(),
            tok_views(r@) + md_tokens_from(s@, i as int) == md_tokens(s@),
        decreases s.len() - i,
    {
        proof {
            lemma_md_token_at(s@, i as int);
        }
        let (k, n) = md_token_at_exec(s, i);
        let piece = crate::text::slice_of(s, i, i + n);
        let ghost before = tok_views(r@);
        r.push((k, piece));
        proof {
            assert(tok_views(r@) =~= before.push((k, s@.subrange(i as int, i + n))));
            assert(md_tokens_from(s@, i as int) == seq![(k, s@.subrange(i as int, i + n))]
                + md_tokens_from(s@, i + n));
            assert(tok_views(r@) + md_tokens_from(s@, i + n) =~= before + md_tokens_from(s@, i as int));
        }
        i = i + n;
    }
    proof {
        assert(md_tokens_from(s@, i as int) == Seq::<(MdToken, Seq<char>)>::empty());
        assert(tok_views(r@) + Seq::<(MdToken, Seq<char>)>::empty() =~= tok_views(r@));
    }
    r
}

} // verus!
