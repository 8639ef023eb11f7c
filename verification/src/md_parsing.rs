//! Markdown structure: headings, lists (with nesting) and the text between them.
use vstd::prelude::*;
use crate::md_lexer::{MdToken, md_lex, md_tokens, tok_views};
use crate::text::{
    chars_of, copy_chars, is_blank, is_blank_vec, lines, lines_vec, push_all, slice_of, string_of, trim,
    trim_vec, views,
};
use crate::util::{substitute_vec, substituted, untab_vec, untabbed};

verus! {

/// The outcome of a parser: what it gives back, a refusal (`Err`), or an input on which the
/// reading cannot go on (an index past the end of what was read); the parsers' `requires`
/// leave those inputs out.
pub enum Parsed<T> {
    Done(T),
    Fails,
    Panics,
}

#[derive(Debug, PartialEq, Eq)]
pub struct ListElement {
    pub text: String,
    pub children: Vec<ListElement>,
}

#[derive(Debug, PartialEq, Eq)]
pub enum MdComponent {
    Heading(usize, String),
    /// list elements, terminated by a blank line
    List(Vec<ListElement>, bool),
    Text(String),
}

impl ListElement {
    /// A list element with no text and no children.
    pub fn new() -> (r: Self)
        ensures
            r@.text.len() == 0,
            r@.children.len() == 0,
    {
        ListElement { text: String::new(), children: Vec::new() }
    }

    /// A list element with the given text and no children.
    pub fn new_text(text: String) -> (r: Self)
        ensures
            r.text == text,
            r@.children.len() == 0,
    {
        ListElement { text, children: Vec::new() }
    }
}

impl MdComponent {
    pub fn new_text(text: &str) -> (r: Self)
        ensures
            r@ == MdCompV::Text(text@),
    {
        MdComponent::Text(text.to_owned())
    }
}

/// Errors of markdown parsing.
#[derive(Clone, Copy, Debug, PartialEq, Eq, Structural)]
pub enum MdError {
    /// A character that starts no token, or a token where the structure allows none.
    Malformed,
}

pub struct MdLeV {
    pub text: Seq<char>,
    pub children: Seq<MdLeV>,
}

pub enum MdCompV {
    Heading(usize, Seq<char>),
    List(Seq<MdLeV>, bool),
    Text(Seq<char>),
}

pub open spec fn md_le_v(l: ListElement) -> MdLeV
    decreases l,
{
    MdLeV { text: l.text@, children: md_les_v(l.children@) }
}

pub open spec fn md_les_v(s: Seq<ListElement>) -> Seq<MdLeV>
    decreases s,
{
    if s.len() == 0 {
        Seq::empty()
    } else {
        md_les_v(s.drop_last()).push(md_le_v(s.last()))
    }
}

pub open spec fn md_comp_v(c: MdComponent) -> MdCompV {
    match c {
        MdComponent::Heading(l, t) => MdCompV::Heading(l, t@),
        MdComponent::List(ls, b) => MdCompV::List(md_les_v(ls@), b),
        MdComponent::Text(t) => MdCompV::Text(t@),
    }
}

pub open spec fn md_comps_v(s: Seq<MdComponent>) -> Seq<MdCompV> {
    s.map_values(|c: MdComponent| md_comp_v(c))
}

impl View for ListElement {
    type V = MdLeV;

    open spec fn view(&self) -> MdLeV {
        md_le_v(*self)
    }
}

impl View for MdComponent {
    type V = MdCompV;

    open spec fn view(&self) -> MdCompV {
        md_comp_v(*self)
    }
}

pub proof fn lemma_md_les_v(s: Seq<ListElement>)
    ensures
        md_les_v(s).len() == s.len(),
        forall|i: int| 0 <= i < s.len() ==> #[trigger] md_les_v(s)[i] == md_le_v(s[i]),
    decreases s.len(),
{
    if s.len() > 0 {
        lemma_md_les_v(s.drop_last());
    }
}

// ---------------------------------------------------------------------------
// Byte lengths (UTF-8), as `str::len` counts them.
pub open spec fn utf8_len(c: char) -> nat {
    if (c as u32) < 0x80 {
        1
    } else if (c as u32) < 0x800 {
        2
    } else if (c as u32) < 0x10000 {
        3
    } else {
        4
    }
}

pub open spec fn byte_len(s: Seq<char>) -> nat
    decreases s.len(),
{
    if s.len() == 0 {
        0
    } else {
        byte_len(s.drop_last()) + utf8_len(s.last())
    }
}

pub proof fn lemma_byte_len(s: Seq<char>)
    ensures
        byte_len(s) <= 4 * s.len(),
    decreases s.len(),
{
    if s.len() > 0 {
        lemma_byte_len(s.drop_last());
    }
}

pub proof fn lemma_byte_len_prefix(s: Seq<char>, i: int)
    requires
        0 <= i <= s.len(),
    ensures
        byte_len(s.take(i)) <= byte_len(s),
    decreases s.len() - i,
{
    if i < s.len() {
        lemma_byte_len_prefix(s, i + 1);
        assert(s.take(i + 1).drop_last() =~= s.take(i));
    } else {
        assert(s.take(i) =~= s);
    }
}

pub fn byte_len_exec(s: &Vec<char>) -> (n: usize)
    requires
        byte_len(s@) <= usize::MAX,
    ensures
        n == byte_len(s@),
{
    let mut n: usize = 0;
    let mut i: usize = 0;
    while i < s.len()
        invariant
            i <= s.len(),
            byte_len(s@) <= usize::MAX,
            n == byte_len(s@.take(i as int)),
        decreases s.len() - i,
    {
        proof {
            assert(s@.take(i + 1).drop_last() =~= s@.take(i as int));
            lemma_byte_len_prefix(s@, i + 1);
        }
        let c = s[i] as u32;
        n = n + if c < 0x80 {
            1
        } else if c < 0x800 {
            2
        } else if c < 0x10000 {
            3
        } else {
            4
        };
        i = i + 1;
    }
    proof {
        assert(s@.take(s.len() as int) =~= s@);
    }
    n
}

pub proof fn lemma_byte_len_add(a: Seq<char>, b: Seq<char>)
    ensures
        byte_len(a + b) == byte_len(a) + byte_len(b),
    decreases b.len(),
{
    if b.len() == 0 {
        assert(a + b =~= a);
    } else {
        lemma_byte_len_add(a, b.drop_last());
        assert((a + b).drop_last() =~= a + b.drop_last());
    }
}

// ---------------------------------------------------------------------------
// The parse, stated over the tokens.
/// The text up to the next line break: (text, whether the break was found, the position after
/// it, the text of the last token read).
pub open spec fn until_newline(toks: Seq<(MdToken, Seq<char>)>, q: int) -> Parsed<(Seq<char>, bool, int, Seq<char>)>
    decreases toks.len() - q,
{
    if q < 0 || q >= toks.len() {
        Parsed::Done((Seq::empty(), false, toks.len() as int, Seq::empty()))
    } else if toks[q].0 == MdToken::Error {
        Parsed::Fails
    } else if toks[q].0 == MdToken::Newline {
        Parsed::Done((Seq::empty(), true, q + 1, toks[q].1))
    } else {
        match until_newline(toks, q + 1) {
            Parsed::Done((t, f, p, l)) => Parsed::Done((toks[q].1 + t, f, p, l)),
            Parsed::Fails => Parsed::Fails,
            Parsed::Panics => Parsed::Panics,
        }
    }
}

pub open spec fn hashes_end(toks: Seq<(MdToken, Seq<char>)>, p: int) -> int
    decreases toks.len() - p,
{
    if 0 <= p < toks.len() && toks[p].0 == MdToken::Hashtag {
        hashes_end(toks, p + 1)
    } else {
        p
    }
}

/// A heading whose first `#` is before `p`: (heading, ended by a line break, position after it,
/// text of the last token read).
pub open spec fn heading_after(toks: Seq<(MdToken, Seq<char>)>, p: int) -> Parsed<(MdCompV, bool, int, Seq<char>)> {
    let q = hashes_end(toks, p);
    let level = 1 + q - p;
    if level > usize::MAX {
        Parsed::Panics
    } else {
        let sl = if q < toks.len() {
            toks[q].1
        } else {
            Seq::empty()
        };
        let q1 = if q < toks.len() {
            q + 1
        } else {
            q
        };
        if sl != seq!['\n'] {
            match until_newline(toks, q1) {
                Parsed::Done((t, found, q2, last)) => Parsed::Done(
                    (MdCompV::Heading(level as usize, trim(trim(sl + t))), found, q2, last),
                ),
                Parsed::Fails => Parsed::Fails,
                Parsed::Panics => Parsed::Panics,
            }
        } else {
            Parsed::Done((MdCompV::Heading(level as usize, Seq::empty()), true, q1, sl))
        }
    }
}

/// The text of a list: up to a blank line (whose break is not part of it) or the end:
/// (text, ended by a blank line, position after it, text of the last token read).
pub open spec fn list_collect(toks: Seq<(MdToken, Seq<char>)>, q: int, blank: bool) -> Parsed<(Seq<char>, bool, int, Seq<char>)>
    decreases toks.len() - q,
{
    if q < 0 || q >= toks.len() {
        Parsed::Done((Seq::empty(), false, toks.len() as int, Seq::empty()))
    } else {
        let (k, sl) = toks[q];
        if k == MdToken::Error {
            Parsed::Panics
        } else {
            let blank1 = if !k.blank() {
                false
            } else {
                blank
            };
            if k == MdToken::Newline && blank1 {
                Parsed::Done((Seq::empty(), true, q + 1, sl))
            } else {
                let blank2 = if k == MdToken::Newline {
                    true
                } else {
                    blank1
                };
                match list_collect(toks, q + 1, blank2) {
                    Parsed::Done((t, term, p, l)) => Parsed::Done((sl + t, term, p, l)),
                    Parsed::Fails => Parsed::Fails,
                    Parsed::Panics => Parsed::Panics,
                }
            }
        }
    }
}

/// Index of the first `- ` in `l` at or after `k`, or -1.
pub open spec fn find_dash_space(l: Seq<char>, k: int) -> int
    decreases l.len() - k,
{
    if k < 0 || k + 1 >= l.len() {
        -1
    } else if l[k] == '-' && l[k + 1] == ' ' {
        k
    } else {
        find_dash_space(l, k + 1)
    }
}

/// Index of the first `-` in `l` at or after `k`, or -1.
pub open spec fn find_dash(l: Seq<char>, k: int) -> int
    decreases l.len() - k,
{
    if k < 0 || k >= l.len() {
        -1
    } else if l[k] == '-' {
        k
    } else {
        find_dash(l, k + 1)
    }
}

/// A line that starts a list item: (what comes before the dash, the item's text).
pub open spec fn split_item(l: Seq<char>) -> Option<(Seq<char>, Seq<char>)> {
    let k = find_dash_space(l, 0);
    if k >= 0 {
        Some((l.take(k), l.skip(k + 2)))
    } else {
        let j = find_dash(l, 0);
        if j >= 0 && (j + 1 == l.len() || l[j + 1] == '\n') {
            Some((l.take(j), l.skip(j + 1)))
        } else {
            None
        }
    }
}

/// The list items of the lines of a list, with their indentation; the first item (at the
/// list's own indentation) gets the text before any item start.
pub open spec fn list_items(ls: Seq<Seq<char>>, indent: nat) -> Seq<(nat, Seq<char>)>
    decreases ls.len(),
{
    if ls.len() == 0 {
        seq![(indent, Seq::<char>::empty())]
    } else {
        let prev = list_items(ls.drop_last(), indent);
        let i = ls.len() - 1;
        let l = ls.last();
        match split_item(l) {
            Some((ind, rest)) if is_blank(ind) => prev.push((byte_len(ind), rest)),
            _ => {
                let last = prev.last();
                prev.update(
                    prev.len() - 1,
                    (last.0, last.1 + (if i > 0 {
                        seq!['\n']
                    } else {
                        Seq::empty()
                    }) + l),
                )
            },
        }
    }
}

/// Closes the open items that are indented at least `lis`, each becoming the last child of
/// the one below it; the bottom item stays.
pub open spec fn close_items(stack: Seq<(nat, MdLeV)>, lis: nat) -> Seq<(nat, MdLeV)>
    decreases stack.len(),
{
    if stack.len() >= 2 && stack.last().0 >= lis {
        let top = stack.last();
        let s2 = stack.drop_last();
        let parent = s2.last();
        close_items(
            s2.update(
                s2.len() - 1,
                (parent.0, MdLeV { text: parent.1.text, children: parent.1.children.push(top.1) }),
            ),
            lis,
        )
    } else {
        stack
    }
}

/// Every item's indentation, counted in bytes, fits a machine word.
pub open spec fn items_fit(ls: Seq<Seq<char>>) -> bool {
    forall|i: int| 0 <= i < ls.len() ==> match split_item(#[trigger] ls[i]) {
        Some((ind, _)) => byte_len(ind) <= usize::MAX,
        None => true,
    }
}

pub struct NestState {
    pub stack: Seq<(nat, MdLeV)>,
    pub res: Seq<MdLeV>,
}

pub open spec fn nest_step(st: NestState, item: (nat, Seq<char>)) -> NestState {
    let (lis, t) = item;
    let le = MdLeV { text: t, children: Seq::empty() };
    if st.stack.len() == 0 || lis > st.stack.last().0 {
        NestState { stack: st.stack.push((lis, le)), res: st.res }
    } else {
        let s2 = close_items(st.stack, lis);
        if s2.len() == 1 && s2[0].0 >= lis {
            NestState { stack: seq![(lis, le)], res: st.res.push(s2[0].1) }
        } else {
            NestState { stack: s2.push((lis, le)), res: st.res }
        }
    }
}

pub open spec fn nest_fold(items: Seq<(nat, Seq<char>)>) -> NestState
    decreases items.len(),
{
    if items.len() == 0 {
        NestState { stack: Seq::empty(), res: Seq::empty() }
    } else {
        nest_step(nest_fold(items.drop_last()), items.last())
    }
}

/// The items nested by their indentation.
pub open spec fn nest(items: Seq<(nat, Seq<char>)>) -> Seq<MdLeV> {
    let st = nest_fold(items);
    let s = close_items(st.stack, 0);
    if s.len() > 0 {
        st.res.push(s[0].1)
    } else {
        st.res
    }
}

/// Neighbouring texts merged.
pub open spec fn md_collapse_fold(cs: Seq<MdCompV>) -> (Seq<char>, Seq<MdCompV>)
    decreases cs.len(),
{
    if cs.len() == 0 {
        (Seq::empty(), Seq::empty())
    } else {
        let (cur, res) = md_collapse_fold(cs.drop_last());
        match cs.last() {
            MdCompV::Text(t) => (cur + t, res),
            other => (Seq::empty(), (if cur.len() > 0 {
                res.push(MdCompV::Text(cur))
            } else {
                res
            }).push(other)),
        }
    }
}

pub open spec fn md_collapse(cs: Seq<MdCompV>) -> Seq<MdCompV> {
    let (cur, res) = md_collapse_fold(cs);
    if cur.len() > 0 {
        res.push(MdCompV::Text(cur))
    } else {
        res
    }
}

pub struct MdState {
    pub res: Seq<MdCompV>,
    pub blank: bool,
    pub indent: nat,
}

/// After a token (or a construct) of kind `k` whose last token read has text `last`.
pub open spec fn md_after(st: MdState, k: MdToken, last: Seq<char>, terminated: bool) -> Parsed<MdState> {
    if !k.blank() && !terminated {
        Parsed::Done(MdState { blank: false, ..st })
    } else if st.blank {
        if st.indent + byte_len(last) > usize::MAX {
            Parsed::Panics
        } else {
            Parsed::Done(MdState { indent: st.indent + byte_len(last), ..st })
        }
    } else {
        Parsed::Done(st)
    }
}

pub proof fn lemma_until_newline(toks: Seq<(MdToken, Seq<char>)>, q: int)
    requires
        0 <= q,
    ensures
        until_newline(toks, q) matches Parsed::Done((_, _, p, _)) ==> p > q || (q >= toks.len() && p
            == toks.len()),
    decreases toks.len() - q,
{
    if q < toks.len() {
        lemma_until_newline(toks, q + 1);
    }
}

pub proof fn lemma_list_collect(toks: Seq<(MdToken, Seq<char>)>, q: int, blank: bool)
    requires
        0 <= q,
    ensures
        list_collect(toks, q, blank) matches Parsed::Done((_, _, p, _)) ==> (p > q || (q >= toks.len()
            && p == toks.len())) && p <= toks.len(),
    decreases toks.len() - q,
{
    if q < toks.len() {
        let (k, sl) = toks[q];
        let blank1 = if !k.blank() {
            false
        } else {
            blank
        };
        let blank2 = if k == MdToken::Newline {
            true
        } else {
            blank1
        };
        lemma_list_collect(toks, q + 1, blank2);
    }
}

pub proof fn lemma_hashes_end(toks: Seq<(MdToken, Seq<char>)>, p: int)
    requires
        0 <= p <= toks.len(),
    ensures
        p <= hashes_end(toks, p) <= toks.len(),
    decreases toks.len() - p,
{
    if p < toks.len() && toks[p].0 == MdToken::Hashtag {
        lemma_hashes_end(toks, p + 1);
    }
}

pub proof fn lemma_heading_after(toks: Seq<(MdToken, Seq<char>)>, p: int)
    requires
        0 <= p <= toks.len(),
    ensures
        heading_after(toks, p) matches Parsed::Done((_, _, q, _)) ==> p <= q <= toks.len(),
{
    lemma_hashes_end(toks, p);
    let q = hashes_end(toks, p);
    let q1 = if q < toks.len() {
        q + 1
    } else {
        q
    };
    lemma_until_newline(toks, q1);
    lemma_until_newline_le(toks, q1);
}

pub proof fn lemma_until_newline_le(toks: Seq<(MdToken, Seq<char>)>, q: int)
    requires
        0 <= q,
    ensures
        until_newline(toks, q) matches Parsed::Done((_, _, p, _)) ==> p <= toks.len(),
    decreases toks.len() - q,
{
    if q < toks.len() {
        lemma_until_newline_le(toks, q + 1);
    }
}

/// The markdown structure of the tokens from `pos` on, in state `st`.
pub open spec fn md_main(toks: Seq<(MdToken, Seq<char>)>, pos: int, st: MdState) -> Parsed<Seq<MdCompV>>
    decreases toks.len() - pos,
{
    if pos < 0 || pos >= toks.len() {
        Parsed::Done(md_collapse(st.res))
    } else {
        let (k, sl) = toks[pos];
        if k == MdToken::Error {
            Parsed::Fails
        } else if k == MdToken::ListStart && st.blank {
            match list_collect(toks, pos + 1, false) {
                Parsed::Done((t, term, p2, last)) => {
                    proof {
                        lemma_list_collect(toks, pos + 1, false);
                    }
                    if !items_fit(lines(t)) {
                        Parsed::Panics
                    } else {
                        let comp = MdCompV::List(nest(list_items(lines(t), st.indent)), term);
                        match md_after(MdState { res: st.res.push(comp), ..st }, k, last, true) {
                            Parsed::Done(st2) => md_main(toks, p2, st2),
                            Parsed::Fails => Parsed::Fails,
                            Parsed::Panics => Parsed::Panics,
                        }
                    }
                },
                Parsed::Fails => Parsed::Fails,
                Parsed::Panics => Parsed::Panics,
            }
        } else if k == MdToken::Hashtag && st.blank {
            match heading_after(toks, pos + 1) {
                Parsed::Done((h, found, p2, last)) => {
                    proof {
                        lemma_heading_after(toks, pos + 1);
                    }
                    let st1 = MdState {
                        res: st.res.push(h),
                        blank: if found {
                            true
                        } else {
                            st.blank
                        },
                        indent: st.indent,
                    };
                    match md_after(st1, k, last, found) {
                        Parsed::Done(st2) => md_main(toks, p2, st2),
                        Parsed::Fails => Parsed::Fails,
                        Parsed::Panics => Parsed::Panics,
                    }
                },
                Parsed::Fails => Parsed::Fails,
                Parsed::Panics => Parsed::Panics,
            }
        } else {
            let st1 = MdState {
                res: st.res.push(MdCompV::Text(sl)),
                blank: if k == MdToken::Newline {
                    true
                } else {
                    st.blank
                },
                indent: st.indent,
            };
            match md_after(st1, k, sl, false) {
                Parsed::Done(st2) => md_main(toks, pos + 1, st2),
                Parsed::Fails => Parsed::Fails,
                Parsed::Panics => Parsed::Panics,
            }
        }
    }
}

/// The text as markdown is read: typographic characters replaced and tabs widened.
pub open spec fn md_normalized(text: Seq<char>) -> Seq<char> {
    untabbed(substituted(text))
}

/// The markdown structure of a text.
pub open spec fn md_parse(text: Seq<char>) -> Parsed<Seq<MdCompV>> {
    md_main(md_tokens(md_normalized(text)), 0, MdState { res: Seq::empty(), blank: true, indent: 0 })
}

// ---------------------------------------------------------------------------
// Executable parse.
/// The vector in reverse order (for handing its items out front to back by `pop`).
pub fn reversed<T>(v: Vec<T>) -> (r: Vec<T>)
    ensures
        r@ == v@.reverse(),
{
    let mut v = v;
    let mut r: Vec<T> = Vec::new();
    let ghost orig = v@;
    while v.len() > 0
        invariant
            v@ == orig.take(v@.len() as int),
            v@.len() <= orig.len(),
            r@ == orig.skip(v@.len() as int).reverse(),
        decreases v.len(),
    {
        let ghost n = v@.len();
        let x = v.pop().unwrap();
        r.push(x);
        proof {
            assert(orig.take(n - 1) =~= orig.take(n as int).drop_last());
            assert(orig.skip(n - 1).reverse() =~= orig.skip(n as int).reverse().push(orig[n - 1]));
        }
    }
    proof {
        assert(orig.skip(0) =~= orig);
    }
    r
}

pub open spec fn tv(toks: Seq<(MdToken, Vec<char>)>) -> Seq<(MdToken, Seq<char>)> {
    tok_views(toks)
}

pub open spec fn prepend<A, B, C>(acc: Seq<char>, r: Parsed<(Seq<char>, A, B, C)>) -> Parsed<(Seq<char>, A, B, C)> {
    match r {
        Parsed::Done((t, a, b, c)) => Parsed::Done((acc + t, a, b, c)),
        Parsed::Fails => Parsed::Fails,
        Parsed::Panics => Parsed::Panics,
    }
}

fn until_newline_exec(toks: &Vec<(MdToken, Vec<char>)>, q: usize) -> (r: Result<(Vec<char>, bool, usize, Vec<char>), MdError>)
    ensures
        match r {
            Ok((t, f, p, l)) => until_newline(tv(toks@), q as int) == Parsed::Done((t@, f, p as int, l@)),
            Err(_) => until_newline(tv(toks@), q as int) is Fails,
        },
{
    let ghost t = tv(toks@);
    let mut acc: Vec<char> = Vec::new();
    let mut i = q;
    proof {
        assert(prepend(acc@, until_newline(t, q as int)) =~= until_newline(t, q as int)) by {
            match until_newline(t, q as int) {
                Parsed::Done((x, a, b, c)) => {
                    assert(acc@ + x =~= x);
                },
                _ => {},
            }
        }
    }
    loop
        invariant
            t == tv(toks@),
            q <= i,
            until_newline(t, q as int) == prepend(acc@, until_newline(t, i as int)),
        decreases toks.len() - i,
    {
        if i >= toks.len() {
            return Ok((acc, false, toks.len(), Vec::new()));
        }
        let (k, sl) = &toks[i];
        proof {
            assert(t[i as int] == (*k, sl@));
        }
        if *k == MdToken::Error {
            return Err(MdError::Malformed);
        }
        if *k == MdToken::Newline {
            return Ok((acc, true, i + 1, copy_chars(sl)));
        }
        let ghost before = acc@;
        push_all(&mut acc, sl);
        proof {
            assert(prepend(before, until_newline(t, i as int)) =~= prepend(acc@, until_newline(t, i + 1))) by {
                match until_newline(t, i + 1) {
                    Parsed::Done((x, a, b, c)) => {
                        assert(before + (sl@ + x) =~= acc@ + x);
                    },
                    _ => {},
                }
            }
        }
        i = i + 1;
    }
}

fn is_newline_text(sl: &Vec<char>) -> (b: bool)
    ensures
        b == (sl@ == seq!['\n']),
{
    let b = sl.len() == 1 && sl[0] == '\n';
    proof {
        if b {
            assert(sl@ =~= seq!['\n']);
        }
        if sl@ == seq!['\n'] {
            assert(sl@[0] == '\n');
        }
    }
    b
}

fn heading_exec(toks: &Vec<(MdToken, Vec<char>)>, p: usize) -> (r: Result<(MdComponent, bool, usize, Vec<char>), MdError>)
    requires
        p <= toks.len(),
        !(heading_after(tv(toks@), p as int) is Panics),
    ensures
        match r {
            Ok((h, f, q, l)) => heading_after(tv(toks@), p as int) == Parsed::Done((h@, f, q as int, l@)),
            Err(_) => heading_after(tv(toks@), p as int) is Fails,
        },
{
    let ghost t = tv(toks@);
    let mut q = p;
    while q < toks.len() && toks[q].0 == MdToken::Hashtag
        invariant
            t == tv(toks@),
            p <= q <= toks.len(),
            hashes_end(t, p as int) == hashes_end(t, q as int),
        decreases toks.len() - q,
    {
        proof {
            assert(t[q as int].0 == toks@[q as int].0);
        }
        q = q + 1;
    }
    proof {
        if q < toks.len() {
            assert(t[q as int].0 == toks@[q as int].0);
        }
        assert(hashes_end(t, q as int) == q);
    }
    let level: usize = 1 + (q - p);
    let (sl, q1) = if q < toks.len() {
        proof {
            assert(t[q as int].1 == toks@[q as int].1@);
        }
        (copy_chars(&toks[q].1), q + 1)
    } else {
        (Vec::new(), q)
    };
    if !is_newline_text(&sl) {
        match until_newline_exec(toks, q1) {
            Ok((rest, found, q2, last)) => {
                let mut start = sl;
                push_all(&mut start, &rest);
                let text = trim_vec(&trim_vec(&start));
                Ok((MdComponent::Heading(level, string_of(&text)), found, q2, last))
            },
            Err(e) => Err(e),
        }
    } else {
        Ok((MdComponent::Heading(level, String::new()), true, q1, sl))
    }
}

fn list_collect_exec(toks: &Vec<(MdToken, Vec<char>)>, q: usize) -> (r: (Vec<char>, bool, usize, Vec<char>))
    requires
        !(list_collect(tv(toks@), q as int, false) is Panics),
    ensures
        list_collect(tv(toks@), q as int, false) == Parsed::Done((r.0@, r.1, r.2 as int, r.3@)),
{
    let ghost t = tv(toks@);
    let mut acc: Vec<char> = Vec::new();
    let mut blank = false;
    let mut i = q;
    proof {
        assert(prepend(acc@, list_collect(t, q as int, false)) =~= list_collect(t, q as int, false)) by {
            match list_collect(t, q as int, false) {
                Parsed::Done((x, a, b, c)) => {
                    assert(acc@ + x =~= x);
                },
                _ => {},
            }
        }
    }
    loop
        invariant
            t == tv(toks@),
            q <= i,
            list_collect(t, q as int, false) == prepend(acc@, list_collect(t, i as int, blank)),
            !(list_collect(t, q as int, false) is Panics),
        decreases toks.len() - i,
    {
        if i >= toks.len() {
            return (acc, false, toks.len(), Vec::new());
        }
        let (k, sl) = &toks[i];
        proof {
            assert(t[i as int] == (*k, sl@));
        }
        if *k == MdToken::Error {
            proof {
                assert(list_collect(t, i as int, blank) is Panics);
            }
            return (acc, false, toks.len(), Vec::new());
        }
        let ghost b0 = blank;
        if !k.is_blank() {
            blank = false;
        }
        if *k == MdToken::Newline {
            if blank {
                return (acc, true, i + 1, copy_chars(sl));
            }
            blank = true;
        }
        let ghost before = acc@;
        push_all(&mut acc, sl);
        proof {
            assert(list_collect(t, i as int, b0) == prepend(sl@, list_collect(t, i + 1, blank)));
            assert(prepend(before, prepend(sl@, list_collect(t, i + 1, blank))) =~= prepend(acc@, list_collect(t, i + 1, blank))) by {
                match list_collect(t, i + 1, blank) {
                    Parsed::Done((x, a, b, c)) => {
                        assert(before + (sl@ + x) =~= acc@ + x);
                    },
                    _ => {},
                }
            }
        }
        i = i + 1;
    }
}

fn find_dash_space_exec(l: &Vec<char>) -> (r: Option<usize>)
    ensures
        match r {
            Some(k) => find_dash_space(l@, 0) == k && k + 1 < l.len(),
            None => find_dash_space(l@, 0) == -1,
        },
{
    let mut k: usize = 0;
    while l.len() >= 1 && k < l.len() - 1
        invariant
            find_dash_space(l@, 0) == find_dash_space(l@, k as int),
        decreases l.len() - k,
    {
        if l[k] == '-' && l[k + 1] == ' ' {
            return Some(k);
        }
        k = k + 1;
    }
    None
}

fn find_dash_exec(l: &Vec<char>) -> (r: Option<usize>)
    ensures
        match r {
            Some(k) => find_dash(l@, 0) == k && k < l.len(),
            None => find_dash(l@, 0) == -1,
        },
{
    let mut k: usize = 0;
    while k < l.len()
        invariant
            find_dash(l@, 0) == find_dash(l@, k as int),
        decreases l.len() - k,
    {
        if l[k] == '-' {
            return Some(k);
        }
        k = k + 1;
    }
    None
}

fn split_item_exec(l: &Vec<char>) -> (r: Option<(Vec<char>, Vec<char>)>)
    ensures
        match r {
            Some((a, b)) => split_item(l@) == Some((a@, b@)),
            None => split_item(l@) is None,
        },
{
    match find_dash_space_exec(l) {
        Some(k) => {
            let a = slice_of(l, 0, k);
            let n = l.len();
            let b = slice_of(l, k + 2, n);
            proof {
                assert(a@ =~= l@.take(k as int));
                assert(b@ =~= l@.skip(k + 2));
            }
            Some((a, b))
        },
        None => match find_dash_exec(l) {
            Some(j) => {
                if j + 1 == l.len() || l[j + 1] == '\n' {
                    let a = slice_of(l, 0, j);
                    let n = l.len();
                    let b = slice_of(l, j + 1, n);
                    proof {
                        assert(a@ =~= l@.take(j as int));
                        assert(b@ =~= l@.skip(j + 1));
                    }
                    Some((a, b))
                } else {
                    None
                }
            },
            None => None,
        },
    }
}

pub open spec fn items_v(v: Seq<(usize, Vec<char>)>) -> Seq<(nat, Seq<char>)> {
    v.map_values(|p: (usize, Vec<char>)| (p.0 as nat, p.1@))
}

fn list_items_exec(ls: &Vec<Vec<char>>, indent: usize) -> (r: Vec<(usize, Vec<char>)>)
    requires
        items_fit(views(ls@)),
    ensures
        items_v(r@) == list_items(views(ls@), indent as nat),
        r@.len() > 0,
{
    let mut r: Vec<(usize, Vec<char>)> = Vec::new();
    r.push((indent, Vec::new()));
    proof {
        assert(items_v(r@) =~= seq![(indent as nat, Seq::<char>::empty())]);
        assert(views(ls@).take(0) =~= Seq::<Seq<char>>::empty());
    }
    let mut i: usize = 0;
    while i < ls.len()
        invariant
            i <= ls.len(),
            items_fit(views(ls@)),
            r@.len() > 0,
            items_v(r@) == list_items(views(ls@).take(i as int), indent as nat),
        decreases ls.len() - i,
    {
        proof {
            assert(views(ls@).take(i + 1).drop_last() =~= views(ls@).take(i as int));
            assert(views(ls@).take(i + 1).last() == ls@[i as int]@);
            assert(views(ls@)[i as int] == ls@[i as int]@);
        }
        let l = &ls[i];
        let ghost before = items_v(r@);
        let mut appended = true;
        match split_item_exec(l) {
            Some((ind, rest)) => {
                if is_blank_vec(&ind) {
                    let b = byte_len_exec(&ind);
                    r.push((b, rest));
                    proof {
                        assert(items_v(r@) =~= before.push((b as nat, rest@)));
                    }
                    appended = false;
                }
            },
            None => {},
        }
        if appended {
            let ghost rp = r@;
            let (lis, mut text) = r.pop().unwrap();
            let ghost t0 = text@;
            proof {
                assert(items_v(r@) =~= before.drop_last());
                assert(before.last() == (lis as nat, t0));
            }
            if i > 0 {
                text.push('\n');
            }
            push_all(&mut text, l);
            proof {
                assert(text@ =~= t0 + (if i > 0 {
                    seq!['\n']
                } else {
                    Seq::<char>::empty()
                }) + l@);
            }
            let ghost r1 = r@;
            r.push((lis, text));
            proof {
                assert(items_v(r@) =~= items_v(r1).push((lis as nat, text@)));
                assert(items_v(r@) =~= before.update(before.len() - 1, (before.last().0, before.last().1 + (if i > 0 {
                    seq!['\n']
                } else {
                    Seq::<char>::empty()
                }) + l@)));
            }
        }
        i = i + 1;
    }
    proof {
        assert(views(ls@).take(ls.len() as int) =~= views(ls@));
    }
    r
}

pub open spec fn stack_v(v: Seq<(usize, ListElement)>) -> Seq<(nat, MdLeV)> {
    v.map_values(|p: (usize, ListElement)| (p.0 as nat, md_le_v(p.1)))
}

fn close_items_exec(stack: &mut Vec<(usize, ListElement)>, lis: usize)
    ensures
        stack_v(final(stack)@) == close_items(stack_v(old(stack)@), lis as nat),
        final(stack)@.len() <= old(stack)@.len(),
        final(stack)@.len() < 2 || final(stack)@.last().0 < lis,
        old(stack)@.len() > 0 ==> final(stack)@.len() > 0,
{
    while stack.len() >= 2 && stack[stack.len() - 1].0 >= lis
        invariant
            close_items(stack_v(stack@), lis as nat) == close_items(stack_v(old(stack)@), lis as nat),
            stack@.len() <= old(stack)@.len(),
            old(stack)@.len() > 0 ==> stack@.len() > 0,
        decreases stack.len(),
    {
        let ghost sv = stack_v(stack@);
        let (_, top) = stack.pop().unwrap();
        let (pi, mut parent) = stack.pop().unwrap();
        let ghost pc = parent.children@;
        parent.children.push(top);
        proof {
            assert(parent.children@.drop_last() =~= pc);
        }
        stack.push((pi, parent));
        proof {
            let s2 = sv.drop_last();
            assert(stack_v(stack@) =~= s2.update(
                s2.len() - 1,
                (s2.last().0, MdLeV { text: s2.last().1.text, children: s2.last().1.children.push(sv.last().1) }),
            ));
        }
    }
}

fn nest_exec(items: Vec<(usize, Vec<char>)>) -> (r: Vec<ListElement>)
    ensures
        md_les_v(r@) == nest(items_v(items@)),
{
    let ghost iv = items_v(items@);
    let mut rest = reversed(items);
    let mut stack: Vec<(usize, ListElement)> = Vec::new();
    let mut res: Vec<ListElement> = Vec::new();
    let ghost n = iv.len();
    proof {
        assert(stack_v(stack@) =~= Seq::<(nat, MdLeV)>::empty());
        assert(md_les_v(res@) =~= Seq::<MdLeV>::empty());
        assert(iv.take(0) =~= Seq::<(nat, Seq<char>)>::empty());
    }
    while rest.len() > 0
        invariant
            rest@.len() <= n,
            n == iv.len(),
            items_v(rest@.reverse()) == iv.skip(n - rest@.len()),
            (NestState { stack: stack_v(stack@), res: md_les_v(res@) }) == nest_fold(iv.take(n - rest@.len())),
        decreases rest.len(),
    {
        let ghost k = n - rest@.len();
        let ghost rr = rest@;
        let (lis, t) = rest.pop().unwrap();
        proof {
            assert(items_v(rr.reverse())[0] == iv.skip(k)[0]);
            assert(rr.reverse()[0] == rr.last());
            assert(iv[k] == (lis as nat, t@));
            assert(iv.take(k + 1).drop_last() =~= iv.take(k));
            assert(rest@.reverse() =~= rr.reverse().drop_first());
            assert(items_v(rr.reverse().drop_first()) =~= items_v(rr.reverse()).drop_first());
            assert(iv.skip(k).drop_first() =~= iv.skip(k + 1));
        }
        let le = ListElement { text: string_of(&t), children: Vec::new() };
        let ghost st0 = NestState { stack: stack_v(stack@), res: md_les_v(res@) };
        proof {
            assert(md_les_v(le.children@) =~= Seq::<MdLeV>::empty());
            assert(md_le_v(le) == MdLeV { text: t@, children: Seq::empty() });
            assert(nest_fold(iv.take(k + 1)) == nest_step(st0, (lis as nat, t@)));
            if stack@.len() > 0 {
                assert(stack_v(stack@).last().0 == stack@.last().0 as nat);
            }
        }
        if stack.len() == 0 || lis > stack[stack.len() - 1].0 {
            let ghost sv0 = stack@;
            stack.push((lis, le));
            proof {
                assert(stack@.drop_last() =~= sv0);
                assert(stack_v(stack@) =~= stack_v(sv0).push((lis as nat, md_le_v(le))));
            }
        } else {
            close_items_exec(&mut stack, lis);
            let ghost s2 = stack_v(stack@);
            proof {
                assert(s2 == close_items(st0.stack, lis as nat));
                if stack@.len() > 0 {
                    assert(s2[0].0 == stack@[0].0 as nat);
                    assert(s2[0].1 == md_le_v(stack@[0].1));
                }
            }
            if stack.len() == 1 && stack[0].0 >= lis {
                let (_, first) = stack.pop().unwrap();
                let ghost rv = res@;
                res.push(first);
                proof {
                    assert(res@.drop_last() =~= rv);
                    assert(md_les_v(res@) == md_les_v(rv).push(md_le_v(first)));
                    assert(md_le_v(first) == s2[0].1);
                }
                stack.push((lis, le));
                proof {
                    assert(stack_v(stack@) =~= seq![(lis as nat, md_le_v(le))]);
                }
            } else {
                let ghost sv = stack@;
                stack.push((lis, le));
                proof {
                    assert(stack_v(stack@) =~= stack_v(sv).push((lis as nat, md_le_v(le))));
                }
            }
        }
    }
    proof {
        assert(iv.take(n as int) =~= iv);
    }
    close_items_exec(&mut stack, 0);
    if stack.len() > 0 {
        let (_, first) = stack.pop().unwrap();
        let ghost rv = res@;
        res.push(first);
        proof {
            assert(res@.drop_last() =~= rv);
        }
    }
    res
}

fn md_collapse_exec(cs: Vec<MdComponent>) -> (r: Vec<MdComponent>)
    ensures
        md_comps_v(r@) == md_collapse(md_comps_v(cs@)),
{
    let ghost cv = md_comps_v(cs@);
    let ghost n = cs@.len();
    let mut rest = reversed(cs);
    let mut cur: Vec<char> = Vec::new();
    let mut res: Vec<MdComponent> = Vec::new();
    proof {
        assert(cv.take(0) =~= Seq::<MdCompV>::empty());
        assert(md_comps_v(res@) =~= Seq::<MdCompV>::empty());
    }
    while rest.len() > 0
        invariant
            rest@.len() <= n,
            n == cv.len(),
            md_comps_v(rest@.reverse()) == cv.skip(n - rest@.len()),
            (cur@, md_comps_v(res@)) == md_collapse_fold(cv.take(n - rest@.len())),
        decreases rest.len(),
    {
        let ghost k = n - rest@.len();
        let ghost rr = rest@;
        let c = rest.pop().unwrap();
        proof {
            assert(md_comps_v(rr.reverse())[0] == cv.skip(k)[0]);
            assert(rr.reverse()[0] == rr.last());
            assert(cv[k] == md_comp_v(c));
            assert(cv.take(k + 1).drop_last() =~= cv.take(k));
            assert(rest@.reverse() =~= rr.reverse().drop_first());
            assert(md_comps_v(rr.reverse().drop_first()) =~= md_comps_v(rr.reverse()).drop_first());
            assert(cv.skip(k).drop_first() =~= cv.skip(k + 1));
        }
        let ghost rv = md_comps_v(res@);
        match c {
            MdComponent::Text(t) => {
                push_all(&mut cur, &chars_of(t.as_str()));
            },
            other => {
                if cur.len() > 0 {
                    res.push(MdComponent::Text(string_of(&cur)));
                    cur = Vec::new();
                }
                let ghost rv2 = md_comps_v(res@);
                res.push(other);
                proof {
                    assert(md_comps_v(res@) =~= rv2.push(md_comp_v(other)));
                    assert(rv2 =~= (if md_collapse_fold(cv.take(k)).0.len() > 0 {
                        rv.push(MdCompV::Text(md_collapse_fold(cv.take(k)).0))
                    } else {
                        rv
                    }));
                }
            },
        }
    }
    proof {
        assert(cv.take(n as int) =~= cv);
    }
    if cur.len() > 0 {
        let ghost rv = md_comps_v(res@);
        res.push(MdComponent::Text(string_of(&cur)));
        proof {
            assert(md_comps_v(res@) =~= rv.push(MdCompV::Text(cur@)));
        }
    }
    res
}

fn md_after_exec(blank: &mut bool, indent: &mut usize, k: MdToken, last: &Vec<char>, terminated: bool, Ghost(res): Ghost<Seq<MdCompV>>)
    requires
        !(md_after(MdState { res, blank: *old(blank), indent: *old(indent) as nat }, k, last@, terminated) is Panics),
    ensures
        md_after(MdState { res, blank: *old(blank), indent: *old(indent) as nat }, k, last@, terminated)
            == Parsed::Done(MdState { res, blank: *final(blank), indent: *final(indent) as nat }),
{
    if !k.is_blank() && !terminated {
        *blank = false;
    } else if *blank {
        let b = byte_len_exec(last);
        *indent = *indent + b;
    }
}

/// The markdown structure of a text: headings, lists (nested by indentation) and the text
/// between them, neighbouring texts merged.
pub fn parse_md_text(text: &str) -> (r: Result<Vec<MdComponent>, MdError>)
    requires
        !(md_parse(text@) is Panics),
    ensures
        match r {
            Ok(cs) => md_parse(text@) == Parsed::Done(md_comps_v(cs@)),
            Err(_) => md_parse(text@) is Fails,
        },
{
    let norm = untab_vec(&substitute_vec(&chars_of(text)));
    let toks = md_lex(&norm);
    let ghost t = tv(toks@);
    let mut res: Vec<MdComponent> = Vec::new();
    let mut blank = true;
    let mut indent: usize = 0;
    let mut pos: usize = 0;
    proof {
        assert(md_comps_v(res@) =~= Seq::<MdCompV>::empty());
    }
    loop
        invariant
            t == tv(toks@),
            t == md_tokens(md_normalized(text@)),
            pos <= toks.len(),
            md_parse(text@) == md_main(t, pos as int, MdState { res: md_comps_v(res@), blank, indent: indent as nat }),
            !(md_parse(text@) is Panics),
        decreases toks.len() - pos,
    {
        if pos >= toks.len() {
            return Ok(md_collapse_exec(res));
        }
        let k = toks[pos].0;
        proof {
            assert(t[pos as int].0 == k);
            assert(t[pos as int].1 == toks@[pos as int].1@);
        }
        if k == MdToken::Error {
            return Err(MdError::Malformed);
        }
        let ghost rv = md_comps_v(res@);
        if k == MdToken::ListStart && blank {
            proof {
                lemma_list_collect(t, pos + 1, false);
            }
            let (ltext, term, p2, last) = list_collect_exec(&toks, pos + 1);
            let ls = lines_vec(&ltext);
            let items = list_items_exec(&ls, indent);
            let nested = nest_exec(items);
            let comp = MdComponent::List(nested, term);
            res.push(comp);
            proof {
                assert(md_comps_v(res@) =~= rv.push(md_comp_v(comp)));
            }
            md_after_exec(&mut blank, &mut indent, k, &last, true, Ghost(md_comps_v(res@)));
            pos = p2;
        } else if k == MdToken::Hashtag && blank {
            proof {
                lemma_heading_after(t, pos + 1);
            }
            match heading_exec(&toks, pos + 1) {
                Ok((h, found, p2, last)) => {
                    res.push(h);
                    proof {
                        assert(md_comps_v(res@) =~= rv.push(md_comp_v(h)));
                    }
                    if found {
                        blank = true;
                    }
                    md_after_exec(&mut blank, &mut indent, k, &last, found, Ghost(md_comps_v(res@)));
                    pos = p2;
                },
                Err(e) => {
                    return Err(e);
                },
            }
        } else {
            let sl = copy_chars(&toks[pos].1);
            let comp = MdComponent::Text(string_of(&sl));
            res.push(comp);
            proof {
                assert(md_comps_v(res@) =~= rv.push(md_comp_v(comp)));
            }
            if k == MdToken::Newline {
                blank = true;
            }
            md_after_exec(&mut blank, &mut indent, k, &sl, false, Ghost(md_comps_v(res@)));
            pos = pos + 1;
        }
    }
}

} // verus!
