//! The tokens of a LogSeq block: each token is the longest that matches at its position.
use vstd::prelude::*;
use crate::md_lexer::{is_space_tab, is_space_tab_exec, lemma_run, run};
use crate::obsidian_lexer::{at, at_exec};
use crate::zk_lexer::{is_letter, is_letter_exec};

verus! {

#[derive(Clone, Copy, Debug, PartialEq, Eq, Structural)]
pub enum LsToken {
    SingleHash,
    TripleBackQuote,
    EmbedStart,
    QuoteEnvStart,
    QuoteEnvEnd,
    OpenDoubleBraces,
    ClosingDoubleBraces,
    Space,
    Newline,
    CarriageReturn,
    Bracket,
    ClosingBracket,
    Name,
    Minus,
    PropertyStart,
    MiscText,
    Backslash,
    /// a character that starts no token
    Error,
}

pub open spec fn is_alpha(c: char) -> bool {
    ('a' <= c && c <= 'z') || ('A' <= c && c <= 'Z')
}

pub open spec fn is_ls_misc(c: char) -> bool {
    ('0' <= c && c <= '9') || c == '.' || c == '{' || c == '}' || c == '^' || c == '$' || c == '>'
        || c == '<' || c == ',' || c == '(' || c == ')' || c == ':' || c == '=' || c == '*' || c
        == '&' || c == '/' || c == ';' || c == '\'' || c == '+' || c == '!' || c == '?' || c == '"'
        || c == '|' || c == '\u{c4}' || c == '\u{e4}' || c == '\u{d6}' || c == '\u{f6}' || c
        == '\u{dc}' || c == '\u{fc}' || c == '\u{df}' || c == '\u{b7}'
}

pub fn is_ls_misc_exec(c: char) -> (b: bool)
    ensures
        b == is_ls_misc(c),
{
    ('0' <= c && c <= '9') || c == '.' || c == '{' || c == '}' || c == '^' || c == '$' || c == '>'
        || c == '<' || c == ',' || c == '(' || c == ')' || c == ':' || c == '=' || c == '*' || c
        == '&' || c == '/' || c == ';' || c == '\'' || c == '+' || c == '!' || c == '?' || c == '"'
        || c == '|' || c == '\u{c4}' || c == '\u{e4}' || c == '\u{d6}' || c == '\u{f6}' || c
        == '\u{dc}' || c == '\u{fc}' || c == '\u{df}' || c == '\u{b7}'
}

/// The token at position `i` (within the text) and its length.
pub open spec fn ls_token_at(s: Seq<char>, i: int) -> (LsToken, int) {
    let c = s[i];
    if c == '#' {
        if at(s, i, "#+BEGIN_QUOTE"@) {
            (LsToken::QuoteEnvStart, 13)
        } else if at(s, i, "#+END_QUOTE"@) {
            (LsToken::QuoteEnvEnd, 11)
        } else {
            (LsToken::SingleHash, 1)
        }
    } else if at(s, i, "```"@) {
        (LsToken::TripleBackQuote, 3)
    } else if at(s, i, "![["@) {
        (LsToken::EmbedStart, 3)
    } else if at(s, i, "[["@) {
        (LsToken::OpenDoubleBraces, 2)
    } else if at(s, i, "]]"@) {
        (LsToken::ClosingDoubleBraces, 2)
    } else if is_space_tab(c) {
        (LsToken::Space, run(s, i, |x: char| is_space_tab(x)))
    } else if c == '\n' {
        (LsToken::Newline, if at(s, i, "\n\r"@) {
            2
        } else {
            1
        })
    } else if c == '\r' {
        (LsToken::CarriageReturn, 1)
    } else if c == '[' {
        (LsToken::Bracket, 1)
    } else if c == ']' {
        (LsToken::ClosingBracket, 1)
    } else if is_letter(c) {
        let n = run(s, i, |x: char| is_letter(x));
        if is_alpha(c) && at(s, i + n, "::"@) {
            (LsToken::PropertyStart, n + 2)
        } else {
            (LsToken::Name, n)
        }
    } else if c == '-' {
        (LsToken::Minus, 1)
    } else if is_ls_misc(c) {
        (LsToken::MiscText, run(s, i, |x: char| is_ls_misc(x)))
    } else if c == '\\' {
        (LsToken::Backslash, 1)
    } else {
        (LsToken::Error, 1)
    }
}

pub proof fn lemma_ls_token_at(s: Seq<char>, i: int)
    requires
        0 <= i < s.len(),
    ensures
        1 <= ls_token_at(s, i).1 <= s.len() - i,
{
    reveal_strlit("#+BEGIN_QUOTE");
    reveal_strlit("#+END_QUOTE");
    reveal_strlit("```");
    reveal_strlit("![[");
    reveal_strlit("[[");
    reveal_strlit("]]");
    reveal_strlit("\n\r");
    reveal_strlit("::");
    lemma_run(s, i, |x: char| is_space_tab(x));
    lemma_run(s, i, |x: char| is_letter(x));
    lemma_run(s, i, |x: char| is_ls_misc(x));
    lemma_run(s, i + 1, |x: char| is_space_tab(x));
    lemma_run(s, i + 1, |x: char| is_letter(x));
    lemma_run(s, i + 1, |x: char| is_ls_misc(x));
}

pub open spec fn ls_tokens_from(s: Seq<char>, i: int) -> Seq<(LsToken, Seq<char>)>
    decreases s.len() - i,
{
    if i < 0 || i >= s.len() {
        Seq::empty()
    } else {
        let (k, n) = ls_token_at(s, i);
        proof {
            lemma_ls_token_at(s, i);
        }
        seq![(k, s.subrange(i, i + n))] + ls_tokens_from(s, i + n)
    }
}

/// A property start token ends with its two colons.
pub proof fn lemma_ls_prop_len(s: Seq<char>, i: int)
    requires
        0 <= i,
    ensures
        forall|j: int|
            0 <= j < ls_tokens_from(s, i).len() && (#[trigger] ls_tokens_from(s, i)[j]).0
                == LsToken::PropertyStart ==> ls_tokens_from(s, i)[j].1.len() >= 2,
    decreases s.len() - i,
{
    if i < s.len() {
        lemma_ls_token_at(s, i);
        let (k, n) = ls_token_at(s, i);
        lemma_ls_prop_len(s, i + n);
        lemma_run(s, i, |x: char| is_letter(x));
        let ts = ls_tokens_from(s, i);
        assert(ts == seq![(k, s.subrange(i, i + n))] + ls_tokens_from(s, i + n));
        assert forall|j: int| 0 <= j < ts.len() && (#[trigger] ts[j]).0 == LsToken::PropertyStart implies ts[j].1.len() >= 2 by {
            if j > 0 {
                assert(ts[j] == ls_tokens_from(s, i + n)[j - 1]);
            }
        }
    }
}

pub open spec fn ls_tokens(s: Seq<char>) -> Seq<(LsToken, Seq<char>)> {
    ls_tokens_from(s, 0)
}

pub open spec fn ls_views(v: Seq<(LsToken, Vec<char>)>) -> Seq<(LsToken, Seq<char>)> {
    v.map_values(|t: (LsToken, Vec<char>)| (t.0, t.1@))
}

fn class_holds(kind: u8, c: char) -> (b: bool)
    ensures
        kind == 0 ==> b == is_space_tab(c),
        kind == 1 ==> b == is_letter(c),
        kind == 2 ==> b == is_ls_misc(c),
{
    if kind == 0 {
        is_space_tab_exec(c)
    } else if kind == 1 {
        is_letter_exec(c)
    } else {
        is_ls_misc_exec(c)
    }
}

fn run_exec(s: &Vec<char>, i: usize, kind: u8) -> (n: usize)
    requires
        i <= s.len(),
        kind < 3,
    ensures
        kind == 0 ==> n == run(s@, i as int, |x: char| is_space_tab(x)),
        kind == 1 ==> n == run(s@, i as int, |x: char| is_letter(x)),
        kind == 2 ==> n == run(s@, i as int, |x: char| is_ls_misc(x)),
        n <= s.len() - i,
{
    let ghost p = if kind == 0 {
        |x: char| is_space_tab(x)
    } else if kind == 1 {
        |x: char| is_letter(x)
    } else {
        |x: char| is_ls_misc(x)
    };
    let mut j = i;
    while j < s.len() && class_holds(kind, s[j])
        invariant
            i <= j <= s.len(),
            kind < 3,
            kind == 0 ==> p == (|x: char| is_space_tab(x)),
            kind == 1 ==> p == (|x: char| is_letter(x)),
            kind == 2 ==> p == (|x: char| is_ls_misc(x)),
            run(s@, i as int, p) == (j - i) + run(s@, j as int, p),
        decreases s.len() - j,
    {
        j = j + 1;
    }
    j - i
}

pub fn ls_token_at_exec(s: &Vec<char>, i: usize) -> (r: (LsToken, usize))
    requires
        i < s.len(),
    ensures
        r.0 == ls_token_at(s@, i as int).0,
        r.1 == ls_token_at(s@, i as int).1,
{
    let c = s[i];
    if c == '#' {
        if at_exec(s, i, "#+BEGIN_QUOTE") {
            (LsToken::QuoteEnvStart, 13)
        } else if at_exec(s, i, "#+END_QUOTE") {
            (LsToken::QuoteEnvEnd, 11)
        } else {
            (LsToken::SingleHash, 1)
        }
    } else if at_exec(s, i, "```") {
        (LsToken::TripleBackQuote, 3)
    } else if at_exec(s, i, "![[") {
        (LsToken::EmbedStart, 3)
    } else if at_exec(s, i, "[[") {
        (LsToken::OpenDoubleBraces, 2)
    } else if at_exec(s, i, "]]") {
        (LsToken::ClosingDoubleBraces, 2)
    } else if is_space_tab_exec(c) {
        (LsToken::Space, run_exec(s, i, 0))
    } else if c == '\n' {
        (LsToken::Newline, if at_exec(s, i, "\n\r") {
            2
        } else {
            1
        })
    } else if c == '\r' {
        (LsToken::CarriageReturn, 1)
    } else if c == '[' {
        (LsToken::Bracket, 1)
    } else if c == ']' {
        (LsToken::ClosingBracket, 1)
    } else if is_letter_exec(c) {
        let n = run_exec(s, i, 1);
        if (('a' <= c && c <= 'z') || ('A' <= c && c <= 'Z')) && at_exec(s, i + n, "::") {
            proof {
                reveal_strlit("::");
            }
            (LsToken::PropertyStart, n + 2)
        } else {
            (LsToken::Name, n)
        }
    } else if c == '-' {
        (LsToken::Minus, 1)
    } else if is_ls_misc_exec(c) {
        (LsToken::MiscText, run_exec(s, i, 2))
    } else if c == '\\' {
        (LsToken::Backslash, 1)
    } else {
        (LsToken::Error, 1)
    }
}

/// The tokens of `s`, each with its text.
pub fn ls_lex(s: &Vec<char>) -> (r: Vec<(LsToken, Vec<char>)>)
    ensures
        ls_views(r@) == ls_tokens(s@),
{
    let mut r: Vec<(LsToken, Vec<char>)> = Vec::new();
    let mut i: usize = 0;
    while i < s.len()
        invariant
            i <= s.len(),
            ls_views(r@) + ls_tokens_from(s@, i as int) == ls_tokens(s@),
        decreases s.len() - i,
    {
        proof {
            lemma_ls_token_at(s@, i as int);
        }
        let (k, n) = ls_token_at_exec(s, i);
        let piece = crate::text::slice_of(s, i, i + n);
        let ghost before = ls_views(r@);
        r.push((k, piece));
        proof {
            assert(ls_views(r@) =~= before.push((k, s@.subrange(i as int, i + n))));
            assert(ls_tokens_from(s@, i as int) == seq![(k, s@.subrange(i as int, i + n))]
                + ls_tokens_from(s@, i + n));
            assert(ls_views(r@) + ls_tokens_from(s@, i + n) =~= before + ls_tokens_from(s@, i as int));
        }
        i = i + n;
    }
    proof {
        assert(ls_tokens_from(s@, i as int) == Seq::<(LsToken, Seq<char>)>::empty());
        assert(ls_views(r@) + Seq::<(LsToken, Seq<char>)>::empty() =~= ls_views(r@));
    }
    r
}

} // verus!
