//! Reading Obsidian notes into the document model.
use vstd::prelude::*;
use crate::collapse::{collapse, collapse_text};
use crate::document::{
    ComponentV, DocV, DocumentComponent, DocumentElement, ElementV, ListElem, ListElemV,
    MentionedFile, MentionedFileV, ParsedDocument, dcs_v, elem_own_block, lemma_dcs_v_len, les_v,
    pairs_v,
};
use crate::md_parsing::{
    ListElement, MdCompV, MdComponent, MdLeV, Parsed, md_comp_v, md_comps_v, md_le_v, md_les_v,
    md_parse, parse_md_text, reversed, lemma_md_les_v,
};
use crate::obsidian_lexer::{ObsidianToken, obs_lex, obs_tokens, obs_views};
use crate::text::{
    chars_of, copy_chars, lines, lines_vec, push_all, starts_with, starts_with_str, string_of, trim,
    trim_vec, views,
};
use crate::util::{substitute_vec, substituted};
use crate::document::{
    keys_once, keys_once_all, keys_once_dc, keys_once_doc, keys_once_el, keys_once_le, keys_once_les,
    lemma_keys_once_concat, lemma_keys_once_plain, lemma_keys_once_push,
};
use crate::resolve::{Lookup, LookupMode, LookupModes, Lookups, needs_disk_lookup, resolve_mentions, resolved_doc};

verus! {

/// Errors of the note parsers.
#[derive(Clone, Copy, Debug, PartialEq, Eq, Structural)]
pub enum ParseError {
    /// The text does not have the structure the format asks for.
    Malformed,
    /// A mentioned file exists but its canonical path could not be determined.
    Unresolved,
}

// ---------------------------------------------------------------------------
// The parse, stated over the tokens (with no directory to look mentioned files up in).
pub struct LinkState {
    pub name: Seq<char>,
    pub section: Option<Seq<char>>,
    pub rename: Option<Seq<char>>,
    pub aw_sec: bool,
    pub aw_ren: bool,
}

pub open spec fn extend_opt(o: Option<Seq<char>>, ext: Seq<char>) -> Option<Seq<char>> {
    match o {
        Some(s) => Some(s + ext),
        None => Some(ext),
    }
}

/// A file link after its opening brackets: (name, section, rename, position after it).
pub open spec fn link_from(toks: Seq<(ObsidianToken, Seq<char>)>, p: int, st: LinkState) -> Parsed<(Seq<char>, Option<Seq<char>>, Option<Seq<char>>, int)>
    decreases toks.len() - p,
{
    if p < 0 || p >= toks.len() {
        Parsed::Fails
    } else {
        let (k, sl) = toks[p];
        if k == ObsidianToken::ClosingDoubleBraces {
            Parsed::Done((trim(st.name), st.section, st.rename, p + 1))
        } else if k == ObsidianToken::SingleHash {
            link_from(toks, p + 1, LinkState { aw_sec: true, ..st })
        } else if k == ObsidianToken::Pipe {
            link_from(toks, p + 1, LinkState { aw_ren: true, aw_sec: false, ..st })
        } else if k == ObsidianToken::Name || k == ObsidianToken::MiscText || k == ObsidianToken::Space {
            if st.aw_sec {
                link_from(toks, p + 1, LinkState { section: extend_opt(st.section, sl), ..st })
            } else if st.aw_ren {
                link_from(toks, p + 1, LinkState { rename: extend_opt(st.rename, sl), ..st })
            } else {
                link_from(toks, p + 1, LinkState { name: st.name + sl, ..st })
            }
        } else {
            Parsed::Fails
        }
    }
}

pub open spec fn link_init() -> LinkState {
    LinkState { name: Seq::empty(), section: None, rename: None, aw_sec: false, aw_ren: false }
}

/// The text of an admonition up to its closing backquotes, and the position after them.
pub open spec fn adnote_text(toks: Seq<(ObsidianToken, Seq<char>)>, p: int) -> Option<(Seq<char>, int)>
    decreases toks.len() - p,
{
    if p < 0 || p >= toks.len() || toks[p].0 == ObsidianToken::Error {
        None
    } else if toks[p].0 == ObsidianToken::TripleBackQuote {
        Some((Seq::empty(), p + 1))
    } else {
        match adnote_text(toks, p + 1) {
            Some((t, q)) => Some((toks[p].1 + t, q)),
            None => None,
        }
    }
}

/// `s` without line breaks at its start and its end.
pub open spec fn strip_newlines(s: Seq<char>) -> Seq<char>
    decreases s.len(),
{
    if s.len() > 0 && s[0] == '\n' {
        strip_newlines(s.drop_first())
    } else if s.len() > 0 && s.last() == '\n' {
        strip_newlines(s.drop_last())
    } else {
        s
    }
}

/// Index of the first pair with key `k`, or -1.
pub open spec fn key_index(props: Seq<(Seq<char>, Seq<char>)>, k: Seq<char>) -> int
    decreases props.len(),
{
    if props.len() == 0 {
        -1
    } else if key_index(props.drop_last(), k) >= 0 {
        key_index(props.drop_last(), k)
    } else if props.last().0 == k {
        props.len() - 1
    } else {
        -1
    }
}

/// The map with `k` set to `v`: its value replaced where the key is present, else added.
pub open spec fn insert_prop(props: Seq<(Seq<char>, Seq<char>)>, k: Seq<char>, v: Seq<char>) -> Seq<(Seq<char>, Seq<char>)> {
    let i = key_index(props, k);
    if i >= 0 {
        props.update(i, (k, v))
    } else {
        props.push((k, v))
    }
}

/// The lines of an admonition: `title: ` and `color: ` lines give its properties, the others
/// its body.
pub open spec fn adnote_lines(ls: Seq<Seq<char>>) -> (Seq<(Seq<char>, Seq<char>)>, Seq<char>)
    decreases ls.len(),
{
    if ls.len() == 0 {
        (Seq::empty(), Seq::empty())
    } else {
        let (props, body) = adnote_lines(ls.drop_last());
        let line = ls.last();
        if starts_with(line, "title: "@) {
            (insert_prop(props, "title"@, trim(line.skip(7))), body)
        } else if starts_with(line, "color: "@) {
            (insert_prop(props, "color"@, trim(line.skip(7))), body)
        } else {
            (props, (if body.len() > 0 {
                body.push('\n')
            } else {
                body
            }) + line)
        }
    }
}

proof fn lemma_key_index(props: Seq<(Seq<char>, Seq<char>)>, k: Seq<char>)
    ensures
        -1 <= key_index(props, k) < props.len(),
        key_index(props, k) >= 0 ==> props[key_index(props, k)].0 == k,
        key_index(props, k) == -1 ==> forall|i: int| 0 <= i < props.len() ==> (#[trigger] props[i]).0 != k,
    decreases props.len(),
{
    if props.len() > 0 {
        lemma_key_index(props.drop_last(), k);
        if key_index(props.drop_last(), k) >= 0 {
            assert(props[key_index(props, k)] == props.drop_last()[key_index(props, k)]);
        } else if key_index(props, k) == -1 {
            assert forall|i: int| 0 <= i < props.len() implies (#[trigger] props[i]).0 != k by {
                if i < props.len() - 1 {
                    assert(props[i] == props.drop_last()[i]);
                }
            }
        }
    }
}

proof fn lemma_insert_prop_keys_once(props: Seq<(Seq<char>, Seq<char>)>, k: Seq<char>, v: Seq<char>)
    requires
        keys_once(props),
    ensures
        keys_once(insert_prop(props, k, v)),
{
    lemma_key_index(props, k);
    let out = insert_prop(props, k, v);
    let x = key_index(props, k);
    if x >= 0 {
        assert forall|i: int, j: int| 0 <= i < j < out.len() implies #[trigger] out[i].0 != #[trigger] out[j].0 by {
            assert(out[i].0 == props[i].0);
            assert(out[j].0 == props[j].0);
        }
    } else {
        assert forall|i: int, j: int| 0 <= i < j < out.len() implies #[trigger] out[i].0 != #[trigger] out[j].0 by {
            if j < props.len() {
                assert(out[i] == props[i] && out[j] == props[j]);
            } else {
                assert(out[i] == props[i]);
            }
        }
    }
}

/// The properties an admonition is given (from its `title: ` and `color: ` lines) have each
/// key once: a later line replaces the value of an earlier one.
pub proof fn admonition_keys_once(ls: Seq<Seq<char>>)
    ensures
        keys_once(adnote_lines(ls).0),
    decreases ls.len(),
{
    if ls.len() > 0 {
        admonition_keys_once(ls.drop_last());
        let (props, body) = adnote_lines(ls.drop_last());
        lemma_insert_prop_keys_once(props, "title"@, trim(ls.last().skip(7)));
        lemma_insert_prop_keys_once(props, "color"@, trim(ls.last().skip(7)));
    }
}

pub open spec fn new_comp(e: ElementV) -> ComponentV {
    ComponentV { element: e, children: Seq::empty() }
}

pub open spec fn md_size(l: MdLeV) -> nat
    decreases l,
{
    1 + md_sizes(l.children)
}

pub open spec fn md_sizes(ls: Seq<MdLeV>) -> nat
    decreases ls,
{
    if ls.len() == 0 {
        0
    } else {
        md_sizes(ls.drop_last()) + md_size(ls.last())
    }
}

/// An Obsidian text: its markdown structure, the texts between read as Obsidian text.
/// `fuel` bounds how deeply admonitions nest.
pub open spec fn obs_parse(text: Seq<char>, fuel: nat) -> Parsed<Seq<ComponentV>>
    decreases fuel, 5int, 0int, 0int,
{
    match md_parse(text) {
        Parsed::Done(mds) => obs_convert(mds, fuel),
        Parsed::Fails => Parsed::Fails,
        Parsed::Panics => Parsed::Panics,
    }
}

pub open spec fn obs_convert(mds: Seq<MdCompV>, fuel: nat) -> Parsed<Seq<ComponentV>>
    decreases fuel, 4int, mds.len(), 0int,
{
    if mds.len() == 0 {
        Parsed::Done(Seq::empty())
    } else {
        match obs_convert(mds.drop_last(), fuel) {
            Parsed::Done(acc) => match mds.last() {
                MdCompV::Heading(level, t) => Parsed::Done(acc.push(new_comp(ElementV::Heading(level as u16, t)))),
                MdCompV::Text(t) => match obs_inner(t, fuel) {
                    Parsed::Done(cs) => Parsed::Done(acc + cs),
                    Parsed::Fails => Parsed::Fails,
                    Parsed::Panics => Parsed::Panics,
                },
                MdCompV::List(ls, term) => match obs_les(ls, fuel) {
                    Parsed::Done(les) => Parsed::Done(acc.push(new_comp(ElementV::List(les, term)))),
                    Parsed::Fails => Parsed::Fails,
                    Parsed::Panics => Parsed::Panics,
                },
            },
            Parsed::Fails => Parsed::Fails,
            Parsed::Panics => Parsed::Panics,
        }
    }
}

pub open spec fn obs_les(ls: Seq<MdLeV>, fuel: nat) -> Parsed<Seq<ListElemV>>
    decreases fuel, 3int, 2 * md_sizes(ls) + 1, 0int,
{
    if ls.len() == 0 {
        Parsed::Done(Seq::empty())
    } else {
        match obs_les(ls.drop_last(), fuel) {
            Parsed::Done(acc) => match obs_le(ls.last(), fuel) {
                Parsed::Done(l) => Parsed::Done(acc.push(l)),
                Parsed::Fails => Parsed::Fails,
                Parsed::Panics => Parsed::Panics,
            },
            Parsed::Fails => Parsed::Fails,
            Parsed::Panics => Parsed::Panics,
        }
    }
}

pub open spec fn obs_le(l: MdLeV, fuel: nat) -> Parsed<ListElemV>
    decreases fuel, 3int, 2 * md_size(l), 0int,
{
    match obs_inner(l.text, fuel) {
        Parsed::Done(cs) => match obs_les(l.children, fuel) {
            Parsed::Done(children) => Parsed::Done(ListElemV { contents: DocV::Text(cs), children }),
            Parsed::Fails => Parsed::Fails,
            Parsed::Panics => Parsed::Panics,
        },
        Parsed::Fails => Parsed::Fails,
        Parsed::Panics => Parsed::Panics,
    }
}

/// Obsidian text without markdown structure: links, embeds, admonitions and text.
pub open spec fn obs_inner(text: Seq<char>, fuel: nat) -> Parsed<Seq<ComponentV>>
    decreases fuel, 1int, 0int, 0int,
{
    obs_loop(obs_tokens(substituted(text)), 0, Seq::empty(), fuel)
}

pub open spec fn obs_loop(toks: Seq<(ObsidianToken, Seq<char>)>, pos: int, res: Seq<ComponentV>, fuel: nat) -> Parsed<Seq<ComponentV>>
    decreases fuel, 0int, 0int, toks.len() - pos,
{
    if pos < 0 || pos >= toks.len() {
        Parsed::Done(collapse(res))
    } else {
        let (k, sl) = toks[pos];
        if k == ObsidianToken::Error {
            Parsed::Fails
        } else if k == ObsidianToken::EmbedStart || k == ObsidianToken::OpenDoubleBraces {
            match link_from(toks, pos + 1, link_init()) {
                Parsed::Done((name, sec, ren, q)) => {
                    if q <= pos || q > toks.len() {
                        Parsed::Fails
                    } else {
                        let e = if k == ObsidianToken::EmbedStart {
                            ElementV::FileEmbed(MentionedFileV::FileName(name), sec)
                        } else {
                            ElementV::FileLink(MentionedFileV::FileName(name), sec, ren)
                        };
                        obs_loop(toks, q, res.push(new_comp(e)), fuel)
                    }
                },
                _ => if k == ObsidianToken::EmbedStart {
                    Parsed::Panics
                } else {
                    Parsed::Fails
                },
            }
        } else if k == ObsidianToken::AdNoteStart {
            match obs_adnote(toks, pos + 1, fuel) {
                Parsed::Done((e, q)) => if q <= pos || q > toks.len() {
                    Parsed::Fails
                } else {
                    obs_loop(toks, q, res.push(new_comp(e)), fuel)
                },
                Parsed::Fails => Parsed::Fails,
                Parsed::Panics => Parsed::Panics,
            }
        } else if k == ObsidianToken::TripleBackQuote || k == ObsidianToken::ClosingDoubleBraces {
            Parsed::Panics
        } else if k == ObsidianToken::Newline {
            if res.len() > 0 && !elem_own_block(res.last().element) {
                obs_loop(toks, pos + 1, res.push(new_comp(ElementV::Text(seq!['\n']))), fuel)
            } else {
                obs_loop(toks, pos + 1, res, fuel)
            }
        } else {
            obs_loop(toks, pos + 1, res.push(new_comp(ElementV::Text(sl))), fuel)
        }
    }
}

/// An admonition after its opening backquotes: (the admonition, position after it).
pub open spec fn obs_adnote(toks: Seq<(ObsidianToken, Seq<char>)>, p: int, fuel: nat) -> Parsed<(ElementV, int)>
    decreases fuel, 0int, 0int, toks.len() - p,
{
    match adnote_text(toks, p) {
        Some((t, q)) => {
            let (props, body) = adnote_lines(lines(strip_newlines(t)));
            if fuel == 0 {
                Parsed::Fails
            } else {
                match obs_parse(body, (fuel - 1) as nat) {
                    Parsed::Done(cs) => Parsed::Done((ElementV::Admonition(cs, props), q)),
                    Parsed::Fails => Parsed::Fails,
                    Parsed::Panics => Parsed::Panics,
                }
            }
        },
        None => Parsed::Fails,
    }
}

// ---------------------------------------------------------------------------
// Executable parse.
pub open spec fn ov(toks: Seq<(ObsidianToken, Vec<char>)>) -> Seq<(ObsidianToken, Seq<char>)> {
    obs_views(toks)
}

pub open spec fn opt_chars(o: Option<Vec<char>>) -> Option<Seq<char>> {
    match o {
        Some(v) => Some(v@),
        None => None,
    }
}

fn extend_opt_exec(o: Option<Vec<char>>, ext: &Vec<char>) -> (r: Option<Vec<char>>)
    ensures
        opt_chars(r) == extend_opt(opt_chars(o), ext@),
{
    let mut v = match o {
        Some(v) => v,
        None => Vec::new(),
    };
    push_all(&mut v, ext);
    Some(v)
}

fn link_exec(toks: &Vec<(ObsidianToken, Vec<char>)>, p: usize) -> (r: Result<(Vec<char>, Option<Vec<char>>, Option<Vec<char>>, usize), ParseError>)
    ensures
        match r {
            Ok((n, s, rn, q)) => link_from(ov(toks@), p as int, link_init()) == Parsed::Done((n@, opt_chars(s), opt_chars(rn), q as int)),
            Err(_) => link_from(ov(toks@), p as int, link_init()) is Fails,
        },
{
    let ghost t = ov(toks@);
    let mut name: Vec<char> = Vec::new();
    let mut section: Option<Vec<char>> = None;
    let mut rename: Option<Vec<char>> = None;
    let mut aw_sec = false;
    let mut aw_ren = false;
    let mut i = p;
    proof {
        assert(name@ =~= Seq::<char>::empty());
    }
    loop
        invariant
            t == ov(toks@),
            link_from(t, p as int, link_init()) == link_from(t, i as int, LinkState {
                name: name@,
                section: opt_chars(section),
                rename: opt_chars(rename),
                aw_sec,
                aw_ren,
            }),
        decreases toks.len() - i,
    {
        if i >= toks.len() {
            return Err(ParseError::Malformed);
        }
        let k = toks[i].0;
        let sl = &toks[i].1;
        proof {
            assert(t[i as int] == (k, sl@));
        }
        if k == ObsidianToken::ClosingDoubleBraces {
            return Ok((trim_vec(&name), section, rename, i + 1));
        } else if k == ObsidianToken::SingleHash {
            aw_sec = true;
        } else if k == ObsidianToken::Pipe {
            aw_ren = true;
            aw_sec = false;
        } else if k == ObsidianToken::Name || k == ObsidianToken::MiscText || k == ObsidianToken::Space {
            if aw_sec {
                section = extend_opt_exec(section, sl);
            } else if aw_ren {
                rename = extend_opt_exec(rename, sl);
            } else {
                push_all(&mut name, sl);
            }
        } else {
            return Err(ParseError::Malformed);
        }
        i = i + 1;
    }
}

pub open spec fn prepend_opt(acc: Seq<char>, r: Option<(Seq<char>, int)>) -> Option<(Seq<char>, int)> {
    match r {
        Some((t, q)) => Some((acc + t, q)),
        None => None,
    }
}

fn adnote_text_exec(toks: &Vec<(ObsidianToken, Vec<char>)>, p: usize) -> (r: Option<(Vec<char>, usize)>)
    ensures
        match r {
            Some((t, q)) => adnote_text(ov(toks@), p as int) == Some((t@, q as int)) && p < q <= toks.len(),
            None => adnote_text(ov(toks@), p as int) is None,
        },
{
    let ghost t = ov(toks@);
    let mut acc: Vec<char> = Vec::new();
    let mut i = p;
    proof {
        assert(prepend_opt(acc@, adnote_text(t, p as int)) =~= adnote_text(t, p as int)) by {
            match adnote_text(t, p as int) {
                Some((x, q)) => {
                    assert(acc@ + x =~= x);
                },
                None => {},
            }
        }
    }
    loop
        invariant
            t == ov(toks@),
            p <= i,
            adnote_text(t, p as int) == prepend_opt(acc@, adnote_text(t, i as int)),
        decreases toks.len() - i,
    {
        if i >= toks.len() {
            return None;
        }
        let k = toks[i].0;
        proof {
            assert(t[i as int] == (k, toks@[i as int].1@));
        }
        if k == ObsidianToken::Error {
            return None;
        }
        if k == ObsidianToken::TripleBackQuote {
            return Some((acc, i + 1));
        }
        let ghost before = acc@;
        push_all(&mut acc, &toks[i].1);
        proof {
            assert(prepend_opt(before, adnote_text(t, i as int)) =~= prepend_opt(acc@, adnote_text(t, i + 1))) by {
                match adnote_text(t, i + 1) {
                    Some((x, q)) => {
                        assert(before + (toks@[i as int].1@ + x) =~= acc@ + x);
                    },
                    None => {},
                }
            }
        }
        i = i + 1;
    }
}

fn strip_newlines_exec(s: &Vec<char>) -> (r: Vec<char>)
    ensures
        r@ == strip_newlines(s@),
{
    let mut lo: usize = 0;
    let mut hi: usize = s.len();
    proof {
        assert(s@.subrange(0, s@.len() as int) =~= s@);
    }
    while lo < hi && (s[lo] == '\n' || s[hi - 1] == '\n')
        invariant
            lo <= hi <= s.len(),
            strip_newlines(s@) == strip_newlines(s@.subrange(lo as int, hi as int)),
        decreases hi - lo,
    {
        let ghost sub = s@.subrange(lo as int, hi as int);
        if s[lo] == '\n' {
            proof {
                assert(sub.drop_first() =~= s@.subrange(lo + 1, hi as int));
            }
            lo = lo + 1;
        } else {
            proof {
                assert(sub.drop_last() =~= s@.subrange(lo as int, hi - 1));
            }
            hi = hi - 1;
        }
    }
    slice_of_range(s, lo, hi)
}

fn slice_of_range(s: &Vec<char>, lo: usize, hi: usize) -> (r: Vec<char>)
    requires
        lo <= hi <= s.len(),
    ensures
        r@ == s@.subrange(lo as int, hi as int),
{
    crate::text::slice_of(s, lo, hi)
}

fn key_index_exec(props: &Vec<(String, String)>, k: &str) -> (r: Option<usize>)
    ensures
        match r {
            Some(i) => key_index(pairs_v(props@), k@) == i && i < props.len(),
            None => key_index(pairs_v(props@), k@) == -1,
        },
{
    let mut i: usize = 0;
    while i < props.len()
        invariant
            i <= props.len(),
            key_index(pairs_v(props@.take(i as int)), k@) == -1,
        decreases props.len() - i,
    {
        proof {
            assert(pairs_v(props@.take(i + 1)).drop_last() =~= pairs_v(props@.take(i as int)));
        }
        let kv = chars_of(props[i].0.as_str());
        if crate::text::eq_str(&kv, k) {
            proof {
                lemma_key_index_prefix(pairs_v(props@), k@, i + 1);
                assert(pairs_v(props@).take(i + 1) =~= pairs_v(props@.take(i + 1)));
            }
            return Some(i);
        }
        i = i + 1;
    }
    proof {
        assert(props@.take(props.len() as int) =~= props@);
    }
    None
}

pub proof fn lemma_key_index_prefix(ps: Seq<(Seq<char>, Seq<char>)>, k: Seq<char>, n: int)
    requires
        0 <= n <= ps.len(),
        key_index(ps.take(n), k) >= 0,
    ensures
        key_index(ps, k) == key_index(ps.take(n), k),
    decreases ps.len() - n,
{
    if n < ps.len() {
        assert(ps.take(n + 1).drop_last() =~= ps.take(n));
        lemma_key_index_prefix(ps, k, n + 1);
    } else {
        assert(ps.take(n) =~= ps);
    }
}

fn insert_prop_exec(props: &mut Vec<(String, String)>, k: &str, v: Vec<char>)
    ensures
        pairs_v(final(props)@) == insert_prop(pairs_v(old(props)@), k@, v@),
{
    let ghost pv = pairs_v(props@);
    match key_index_exec(props, k) {
        Some(i) => {
            props.set(i, (k.to_owned(), string_of(&v)));
            proof {
                assert(pairs_v(props@) =~= pv.update(i as int, (k@, v@)));
            }
        },
        None => {
            props.push((k.to_owned(), string_of(&v)));
            proof {
                assert(pairs_v(props@) =~= pv.push((k@, v@)));
            }
        },
    }
}

fn adnote_lines_exec(ls: &Vec<Vec<char>>) -> (r: (Vec<(String, String)>, Vec<char>))
    ensures
        (pairs_v(r.0@), r.1@) == adnote_lines(views(ls@)),
{
    let mut props: Vec<(String, String)> = Vec::new();
    let mut body: Vec<char> = Vec::new();
    let mut i: usize = 0;
    proof {
        assert(pairs_v(props@) =~= Seq::<(Seq<char>, Seq<char>)>::empty());
        assert(body@ =~= Seq::<char>::empty());
        assert(views(ls@).take(0) =~= Seq::<Seq<char>>::empty());
    }
    while i < ls.len()
        invariant
            i <= ls.len(),
            (pairs_v(props@), body@) == adnote_lines(views(ls@).take(i as int)),
        decreases ls.len() - i,
    {
        proof {
            assert(views(ls@).take(i + 1).drop_last() =~= views(ls@).take(i as int));
            assert(views(ls@).take(i + 1).last() == ls@[i as int]@);
        }
        let line = &ls[i];
        let n = line.len();
        if starts_with_str(line, "title: ") {
            proof {
                reveal_strlit("title: ");
            }
            let rest = crate::text::slice_of(line, 7, n);
            proof {
                assert(rest@ =~= line@.skip(7));
            }
            insert_prop_exec(&mut props, "title", trim_vec(&rest));
        } else if starts_with_str(line, "color: ") {
            proof {
                reveal_strlit("color: ");
            }
            let rest = crate::text::slice_of(line, 7, n);
            proof {
                assert(rest@ =~= line@.skip(7));
            }
            insert_prop_exec(&mut props, "color", trim_vec(&rest));
        } else {
            if body.len() > 0 {
                body.push('\n');
            }
            push_all(&mut body, line);
        }
        i = i + 1;
    }
    proof {
        assert(views(ls@).take(ls.len() as int) =~= views(ls@));
    }
    (props, body)
}

pub proof fn lemma_convert_stuck(mds: Seq<MdCompV>, fuel: nat, i: int, j: int)
    requires
        0 <= i <= j <= mds.len(),
        !(obs_convert(mds.take(i), fuel) is Done),
    ensures
        obs_convert(mds.take(j), fuel) == obs_convert(mds.take(i), fuel),
    decreases j - i,
{
    if j > i {
        lemma_convert_stuck(mds, fuel, i, j - 1);
        assert(mds.take(j).drop_last() =~= mds.take(j - 1));
    }
}

pub proof fn lemma_les_stuck(ls: Seq<MdLeV>, fuel: nat, i: int, j: int)
    requires
        0 <= i <= j <= ls.len(),
        !(obs_les(ls.take(i), fuel) is Done),
    ensures
        obs_les(ls.take(j), fuel) == obs_les(ls.take(i), fuel),
    decreases j - i,
{
    if j > i {
        lemma_les_stuck(ls, fuel, i, j - 1);
        assert(ls.take(j).drop_last() =~= ls.take(j - 1));
    }
}

pub proof fn lemma_md_pop(rr: Seq<MdComponent>, cv: Seq<MdCompV>, k: int)
    requires
        0 <= k,
        rr.len() > 0,
        k + rr.len() == cv.len(),
        md_comps_v(rr.reverse()) == cv.skip(k),
    ensures
        cv[k] == md_comp_v(rr.last()),
        md_comps_v(rr.drop_last().reverse()) == cv.skip(k + 1),
{
    assert(md_comps_v(rr.reverse())[0] == cv.skip(k)[0]);
    assert(rr.reverse()[0] == rr.last());
    assert(rr.drop_last().reverse() =~= rr.reverse().drop_first());
    assert(md_comps_v(rr.reverse().drop_first()) =~= md_comps_v(rr.reverse()).drop_first());
    assert(cv.skip(k).drop_first() =~= cv.skip(k + 1));
}

pub proof fn lemma_dcs_v_push(s: Seq<DocumentComponent>, c: DocumentComponent)
    ensures
        dcs_v(s.push(c)) == dcs_v(s).push(c@),
{
    assert(s.push(c).drop_last() =~= s);
}

fn new_component(e: DocumentElement) -> (r: DocumentComponent)
    ensures
        r@ == new_comp(e@),
{
    let r = DocumentComponent { element: e, children: Vec::new() };
    proof {
        assert(dcs_v(r.children@) =~= Seq::<ComponentV>::empty());
    }
    r
}

fn obs_parse_exec(text: &Vec<char>, fuel: usize) -> (r: Result<Vec<DocumentComponent>, ParseError>)
    requires
        !(obs_parse(text@, fuel as nat) is Panics),
    ensures
        match r {
            Ok(cs) => obs_parse(text@, fuel as nat) == Parsed::Done(dcs_v(cs@)),
            Err(_) => obs_parse(text@, fuel as nat) is Fails,
        },
    decreases fuel, 6int, 0int, 0int,
{
    let s = string_of(text);
    match parse_md_text(s.as_str()) {
        Ok(mds) => obs_convert_exec(mds, fuel),
        Err(_) => Err(ParseError::Malformed),
    }
}

fn obs_convert_exec(mds: Vec<MdComponent>, fuel: usize) -> (r: Result<Vec<DocumentComponent>, ParseError>)
    requires
        !(obs_convert(md_comps_v(mds@), fuel as nat) is Panics),
    ensures
        match r {
            Ok(cs) => obs_convert(md_comps_v(mds@), fuel as nat) == Parsed::Done(dcs_v(cs@)),
            Err(_) => obs_convert(md_comps_v(mds@), fuel as nat) is Fails,
        },
    decreases fuel, 5int, 0int, 0int,
{
    let ghost cv = md_comps_v(mds@);
    let ghost n = mds@.len();
    let mut rest = reversed(mds);
    let mut acc: Vec<DocumentComponent> = Vec::new();
    proof {
        assert(cv.take(0) =~= Seq::<MdCompV>::empty());
        assert(dcs_v(acc@) =~= Seq::<ComponentV>::empty());
    }
    while rest.len() > 0
        invariant
            rest@.len() <= n,
            n == cv.len(),
            cv == md_comps_v(mds@),
            md_comps_v(rest@.reverse()) == cv.skip(n - rest@.len()),
            obs_convert(cv.take(n - rest@.len()), fuel as nat) == Parsed::Done(dcs_v(acc@)),
            !(obs_convert(cv, fuel as nat) is Panics),
        decreases rest.len(),
    {
        let ghost k = n - rest@.len();
        let ghost rr = rest@;
        let c = rest.pop().unwrap();
        proof {
            lemma_md_pop(rr, cv, k);
            assert(cv.take(k + 1).drop_last() =~= cv.take(k));
            assert(cv.take(n as int) =~= cv);
            if !(obs_convert(cv.take(k + 1), fuel as nat) is Done) {
                lemma_convert_stuck(cv, fuel as nat, k + 1, n as int);
            }
        }
        proof {
            assert(cv.take(k + 1) =~= cv.take(k).push(md_comp_v(c)));
        }
        match convert_one(&mut acc, c, fuel, Ghost(cv.take(k))) {
            Ok(()) => {},
            Err(e) => {
                proof {
                    assert(obs_convert(cv.take(k + 1), fuel as nat) is Fails);
                    lemma_convert_stuck(cv, fuel as nat, k + 1, n as int);
                    assert(cv.take(n as int) =~= cv);
                    assert(obs_convert(cv, fuel as nat) is Fails);
                }
                return Err(e);
            },
        }
    }
    proof {
        assert(cv.take(n as int) =~= cv);
    }
    Ok(acc)
}

fn convert_one(acc: &mut Vec<DocumentComponent>, c: MdComponent, fuel: usize, Ghost(prefix): Ghost<Seq<MdCompV>>) -> (r: Result<(), ParseError>)
    requires
        obs_convert(prefix, fuel as nat) == Parsed::Done(dcs_v(old(acc)@)),
        !(obs_convert(prefix.push(md_comp_v(c)), fuel as nat) is Panics),
    ensures
        r is Ok ==> obs_convert(prefix.push(md_comp_v(c)), fuel as nat) == Parsed::Done(dcs_v(final(acc)@)),
        r is Err ==> obs_convert(prefix.push(md_comp_v(c)), fuel as nat) is Fails,
    decreases fuel, 4int, 0int, 0int,
{
    proof {
        assert(prefix.push(md_comp_v(c)).drop_last() =~= prefix);
    }
    match c {
        MdComponent::Heading(level, t) => {
            let comp = new_component(DocumentElement::Heading(level as u16, t));
            proof {
                lemma_dcs_v_push(acc@, comp);
            }
            acc.push(comp);
            Ok(())
        },
        MdComponent::Text(t) => {
            let tv = chars_of(t.as_str());
            match obs_inner_exec(&tv, fuel) {
                Ok(cs) => {
                    let mut cs = cs;
                    let ghost cs0 = cs@;
                    let ghost acc0 = acc@;
                    acc.append(&mut cs);
                    proof {
                        crate::document::lemma_dcs_v_add(acc0, cs0);
                    }
                    Ok(())
                },
                Err(e) => Err(e),
            }
        },
        MdComponent::List(ls, term) => {
            match obs_les_exec(&ls, fuel) {
                Ok(les) => {
                    let comp = new_component(DocumentElement::List(les, term));
                    proof {
                        lemma_dcs_v_push(acc@, comp);
                    }
                    acc.push(comp);
                    Ok(())
                },
                Err(e) => Err(e),
            }
        },
    }
}

fn obs_les_exec(ls: &Vec<ListElement>, fuel: usize) -> (r: Result<Vec<ListElem>, ParseError>)
    requires
        !(obs_les(md_les_v(ls@), fuel as nat) is Panics),
    ensures
        match r {
            Ok(les) => obs_les(md_les_v(ls@), fuel as nat) == Parsed::Done(les_v(les@)),
            Err(_) => obs_les(md_les_v(ls@), fuel as nat) is Fails,
        },
    decreases fuel, 3int, 2 * md_sizes(md_les_v(ls@)) + 1, 0int,
{
    let ghost mv = md_les_v(ls@);
    proof {
        lemma_md_les_v(ls@);
        lemma_md_sizes(mv);
    }
    let mut acc: Vec<ListElem> = Vec::new();
    let mut i: usize = 0;
    proof {
        assert(mv.take(0) =~= Seq::<MdLeV>::empty());
        assert(les_v(acc@) =~= Seq::<ListElemV>::empty());
    }
    while i < ls.len()
        invariant
            i <= ls@.len(),
            mv == md_les_v(ls@),
            mv.len() == ls@.len(),
            forall|k: int| 0 <= k < ls@.len() ==> #[trigger] mv[k] == md_le_v(ls@[k]),
            forall|k: int| 0 <= k < ls@.len() ==> md_size(#[trigger] mv[k]) <= md_sizes(mv),
            obs_les(mv.take(i as int), fuel as nat) == Parsed::Done(les_v(acc@)),
            !(obs_les(mv, fuel as nat) is Panics),
        decreases ls.len() - i,
    {
        proof {
            assert(mv.take(i + 1).drop_last() =~= mv.take(i as int));
            assert(mv.take(i + 1).last() == mv[i as int]);
            assert(mv.take(ls@.len() as int) =~= mv);
            if !(obs_les(mv.take(i + 1), fuel as nat) is Done) {
                lemma_les_stuck(mv, fuel as nat, i + 1, ls@.len() as int);
            }
            assert(md_size(mv[i as int]) <= md_sizes(mv));
        }
        match obs_le_exec(&ls[i], fuel) {
            Ok(le) => {
                let ghost a0 = acc@;
                acc.push(le);
                proof {
                    assert(acc@.drop_last() =~= a0);
                }
            },
            Err(e) => {
                return Err(e);
            },
        }
        i = i + 1;
    }
    proof {
        assert(mv.take(ls@.len() as int) =~= mv);
    }
    Ok(acc)
}

pub proof fn lemma_md_sizes(ls: Seq<MdLeV>)
    ensures
        forall|k: int| 0 <= k < ls.len() ==> md_size(#[trigger] ls[k]) <= md_sizes(ls),
    decreases ls.len(),
{
    if ls.len() > 0 {
        lemma_md_sizes(ls.drop_last());
        assert forall|k: int| 0 <= k < ls.len() implies md_size(#[trigger] ls[k]) <= md_sizes(ls) by {
            if k < ls.len() - 1 {
                assert(ls.drop_last()[k] == ls[k]);
            }
        }
    }
}

fn obs_le_exec(l: &ListElement, fuel: usize) -> (r: Result<ListElem, ParseError>)
    requires
        !(obs_le(md_le_v(*l), fuel as nat) is Panics),
    ensures
        match r {
            Ok(le) => obs_le(md_le_v(*l), fuel as nat) == Parsed::Done(le@),
            Err(_) => obs_le(md_le_v(*l), fuel as nat) is Fails,
        },
    decreases fuel, 3int, 2 * md_size(md_le_v(*l)), 0int,
{
    let tv = chars_of(l.text.as_str());
    let contents = obs_inner_exec(&tv, fuel);
    match contents {
        Ok(cs) => match obs_les_exec(&l.children, fuel) {
            Ok(children) => Ok(ListElem { contents: ParsedDocument::ParsedText(cs), children }),
            Err(e) => Err(e),
        },
        Err(e) => Err(e),
    }
}

fn obs_inner_exec(text: &Vec<char>, fuel: usize) -> (r: Result<Vec<DocumentComponent>, ParseError>)
    requires
        !(obs_inner(text@, fuel as nat) is Panics),
    ensures
        match r {
            Ok(cs) => obs_inner(text@, fuel as nat) == Parsed::Done(dcs_v(cs@)),
            Err(_) => obs_inner(text@, fuel as nat) is Fails,
        },
    decreases fuel, 1int, 0int, 0int,
{
    let s = substitute_vec(text);
    let toks = obs_lex(&s);
    let ghost t = ov(toks@);
    let mut res: Vec<DocumentComponent> = Vec::new();
    let mut pos: usize = 0;
    proof {
        assert(dcs_v(res@) =~= Seq::<ComponentV>::empty());
    }
    loop
        invariant
            t == ov(toks@),
            t == obs_tokens(substituted(text@)),
            pos <= toks.len(),
            obs_inner(text@, fuel as nat) == obs_loop(t, pos as int, dcs_v(res@), fuel as nat),
            !(obs_inner(text@, fuel as nat) is Panics),
        decreases toks.len() - pos,
    {
        if pos >= toks.len() {
            return Ok(collapse_text(res.as_slice()));
        }
        let k = toks[pos].0;
        proof {
            assert(t[pos as int] == (k, toks@[pos as int].1@));
            lemma_dcs_v_len(res@);
        }
        let ghost r0 = dcs_v(res@);
        if k == ObsidianToken::Error {
            return Err(ParseError::Malformed);
        } else if k == ObsidianToken::EmbedStart || k == ObsidianToken::OpenDoubleBraces {
            match link_exec(&toks, pos + 1) {
                Ok((name, sec, ren, q)) => {
                    if q <= pos || q > toks.len() {
                        return Err(ParseError::Malformed);
                    }
                    let mf = MentionedFile::FileName(string_of(&name));
                    let e = if k == ObsidianToken::EmbedStart {
                        DocumentElement::FileEmbed(mf, opt_string(sec))
                    } else {
                        DocumentElement::FileLink(mf, opt_string(sec), opt_string(ren))
                    };
                    let comp = new_component(e);
                    proof {
                        lemma_dcs_v_push(res@, comp);
                    }
                    res.push(comp);
                    pos = q;
                },
                Err(e) => {
                    return Err(e);
                },
            }
        } else if k == ObsidianToken::AdNoteStart {
            match obs_adnote_exec(&toks, pos + 1, fuel) {
                Ok((e, q)) => {
                    if q <= pos || q > toks.len() {
                        return Err(ParseError::Malformed);
                    }
                    let comp = new_component(e);
                    proof {
                        lemma_dcs_v_push(res@, comp);
                    }
                    res.push(comp);
                    pos = q;
                },
                Err(e) => {
                    return Err(e);
                },
            }
        } else if k == ObsidianToken::TripleBackQuote || k == ObsidianToken::ClosingDoubleBraces {
            return Err(ParseError::Malformed);
        } else if k == ObsidianToken::Newline {
            if res.len() > 0 && !res[res.len() - 1].should_have_own_block() {
                proof {
                    assert(r0.last() == res@.last()@);
                }
                let nl = vec!['\n'];
                let comp = new_component(DocumentElement::Text(string_of(&nl)));
                proof {
                    lemma_dcs_v_push(res@, comp);
                    assert(nl@ == seq!['\n']);
                }
                res.push(comp);
            }
            pos = pos + 1;
        } else {
            let comp = new_component(DocumentElement::Text(string_of(&toks[pos].1)));
            proof {
                lemma_dcs_v_push(res@, comp);
            }
            res.push(comp);
            pos = pos + 1;
        }
    }
}

fn opt_string(o: Option<Vec<char>>) -> (r: Option<String>)
    ensures
        crate::document::opt_v(r) == opt_chars(o),
{
    match o {
        Some(v) => Some(string_of(&v)),
        None => None,
    }
}

fn obs_adnote_exec(toks: &Vec<(ObsidianToken, Vec<char>)>, p: usize, fuel: usize) -> (r: Result<(DocumentElement, usize), ParseError>)
    requires
        !(obs_adnote(ov(toks@), p as int, fuel as nat) is Panics),
    ensures
        match r {
            Ok((e, q)) => obs_adnote(ov(toks@), p as int, fuel as nat) == Parsed::Done((e@, q as int)),
            Err(_) => obs_adnote(ov(toks@), p as int, fuel as nat) is Fails,
        },
    decreases fuel, 0int, 0int, toks@.len() - p,
{
    match adnote_text_exec(toks, p) {
        Some((t, q)) => {
            let (props, body) = adnote_lines_exec(&lines_vec(&strip_newlines_exec(&t)));
            if fuel == 0 {
                return Err(ParseError::Malformed);
            }
            match obs_parse_exec(&body, fuel - 1) {
                Ok(cs) => Ok((DocumentElement::Admonition(cs, props), q)),
                Err(e) => Err(e),
            }
        },
        None => Err(ParseError::Malformed),
    }
}

/// What an Obsidian text reads as (admonitions nest fewer times than the text has characters,
/// so its length is enough fuel).
pub open spec fn obsidian_doc(text: Seq<char>) -> Parsed<Seq<ComponentV>> {
    obs_parse(text, text.len())
}

/// What an Obsidian text without markdown structure reads as.
pub open spec fn obsidian_inner_doc(text: Seq<char>) -> Parsed<Seq<ComponentV>> {
    obs_inner(text, text.len())
}

proof fn lemma_obs_loop_merged(toks: Seq<(ObsidianToken, Seq<char>)>, pos: int, res: Seq<ComponentV>, fuel: nat)
    ensures
        obs_loop(toks, pos, res, fuel) matches Parsed::Done(cs) ==> crate::collapse::texts_merged(cs),
    decreases toks.len() - pos,
{
    if pos < 0 || pos >= toks.len() {
        crate::collapse::collapse_merges_texts(res);
    } else {
        let (k, sl) = toks[pos];
        if k == ObsidianToken::Error {
        } else if k == ObsidianToken::EmbedStart || k == ObsidianToken::OpenDoubleBraces {
            if let Parsed::Done((name, sec, ren, q)) = link_from(toks, pos + 1, link_init()) {
                if pos < q <= toks.len() {
                    let e = if k == ObsidianToken::EmbedStart {
                        ElementV::FileEmbed(MentionedFileV::FileName(name), sec)
                    } else {
                        ElementV::FileLink(MentionedFileV::FileName(name), sec, ren)
                    };
                    lemma_obs_loop_merged(toks, q, res.push(new_comp(e)), fuel);
                }
            }
        } else if k == ObsidianToken::AdNoteStart {
            if let Parsed::Done((e, q)) = obs_adnote(toks, pos + 1, fuel) {
                if pos < q <= toks.len() {
                    lemma_obs_loop_merged(toks, q, res.push(new_comp(e)), fuel);
                }
            }
        } else if k == ObsidianToken::TripleBackQuote || k == ObsidianToken::ClosingDoubleBraces {
        } else if k == ObsidianToken::Newline {
            if res.len() > 0 && !elem_own_block(res.last().element) {
                lemma_obs_loop_merged(toks, pos + 1, res.push(new_comp(ElementV::Text(seq!['\n']))), fuel);
            } else {
                lemma_obs_loop_merged(toks, pos + 1, res, fuel);
            }
        } else {
            lemma_obs_loop_merged(toks, pos + 1, res.push(new_comp(ElementV::Text(sl))), fuel);
        }
    }
}

proof fn lemma_obs_parse_keys(text: Seq<char>, fuel: nat)
    ensures
        obs_parse(text, fuel) matches Parsed::Done(cs) ==> keys_once_all(cs),
    decreases fuel, 5int, 0int, 0int,
{
    if let Parsed::Done(mds) = md_parse(text) {
        lemma_obs_convert_keys(mds, fuel);
    }
}

proof fn lemma_obs_convert_keys(mds: Seq<MdCompV>, fuel: nat)
    ensures
        obs_convert(mds, fuel) matches Parsed::Done(cs) ==> keys_once_all(cs),
    decreases fuel, 4int, mds.len(), 0int,
{
    if mds.len() > 0 {
        lemma_obs_convert_keys(mds.drop_last(), fuel);
        if let Parsed::Done(acc) = obs_convert(mds.drop_last(), fuel) {
            match mds.last() {
                MdCompV::Heading(level, t) => {
                    lemma_keys_once_plain(ElementV::Heading(level as u16, t));
                    lemma_keys_once_push(acc, new_comp(ElementV::Heading(level as u16, t)));
                },
                MdCompV::Text(t) => {
                    lemma_obs_inner_keys(t, fuel);
                    if let Parsed::Done(cs) = obs_inner(t, fuel) {
                        lemma_keys_once_concat(acc, cs);
                    }
                },
                MdCompV::List(ls, term) => {
                    lemma_obs_les_keys(ls, fuel);
                    if let Parsed::Done(les) = obs_les(ls, fuel) {
                        let c = new_comp(ElementV::List(les, term));
                        assert(keys_once_all(c.children));
                        assert(keys_once_dc(c));
                        lemma_keys_once_push(acc, c);
                    }
                },
            }
        }
    }
}

proof fn lemma_obs_les_keys(ls: Seq<MdLeV>, fuel: nat)
    ensures
        obs_les(ls, fuel) matches Parsed::Done(out) ==> keys_once_les(out),
    decreases fuel, 3int, 2 * md_sizes(ls) + 1, 0int,
{
    if ls.len() > 0 {
        lemma_md_sizes(ls);
        lemma_obs_les_keys(ls.drop_last(), fuel);
        lemma_obs_le_keys(ls.last(), fuel);
        if let Parsed::Done(acc) = obs_les(ls.drop_last(), fuel) {
            if let Parsed::Done(l) = obs_le(ls.last(), fuel) {
                assert(acc.push(l).drop_last() =~= acc);
            }
        }
    }
}

proof fn lemma_obs_le_keys(l: MdLeV, fuel: nat)
    ensures
        obs_le(l, fuel) matches Parsed::Done(out) ==> keys_once_le(out),
    decreases fuel, 3int, 2 * md_size(l), 0int,
{
    lemma_obs_inner_keys(l.text, fuel);
    lemma_obs_les_keys(l.children, fuel);
}

proof fn lemma_obs_inner_keys(text: Seq<char>, fuel: nat)
    ensures
        obs_inner(text, fuel) matches Parsed::Done(cs) ==> keys_once_all(cs),
    decreases fuel, 1int, 0int, 0int,
{
    lemma_obs_loop_keys(obs_tokens(substituted(text)), 0, Seq::empty(), fuel);
}

proof fn lemma_obs_loop_keys(toks: Seq<(ObsidianToken, Seq<char>)>, pos: int, res: Seq<ComponentV>, fuel: nat)
    requires
        keys_once_all(res),
    ensures
        obs_loop(toks, pos, res, fuel) matches Parsed::Done(cs) ==> keys_once_all(cs),
    decreases fuel, 0int, 0int, toks.len() - pos,
{
    if pos < 0 || pos >= toks.len() {
        crate::collapse::lemma_collapse_keys_once(res);
    } else {
        let (k, sl) = toks[pos];
        if k == ObsidianToken::Error {
        } else if k == ObsidianToken::EmbedStart || k == ObsidianToken::OpenDoubleBraces {
            if let Parsed::Done((name, sec, ren, q)) = link_from(toks, pos + 1, link_init()) {
                if pos < q <= toks.len() {
                    let e = if k == ObsidianToken::EmbedStart {
                        ElementV::FileEmbed(MentionedFileV::FileName(name), sec)
                    } else {
                        ElementV::FileLink(MentionedFileV::FileName(name), sec, ren)
                    };
                    lemma_keys_once_plain(e);
                    lemma_keys_once_push(res, new_comp(e));
                    lemma_obs_loop_keys(toks, q, res.push(new_comp(e)), fuel);
                }
            }
        } else if k == ObsidianToken::AdNoteStart {
            lemma_obs_adnote_keys(toks, pos + 1, fuel);
            if let Parsed::Done((e, q)) = obs_adnote(toks, pos + 1, fuel) {
                if pos < q <= toks.len() {
                    assert(keys_once_all(new_comp(e).children));
                    lemma_keys_once_push(res, new_comp(e));
                    lemma_obs_loop_keys(toks, q, res.push(new_comp(e)), fuel);
                }
            }
        } else if k == ObsidianToken::TripleBackQuote || k == ObsidianToken::ClosingDoubleBraces {
        } else if k == ObsidianToken::Newline {
            if res.len() > 0 && !elem_own_block(res.last().element) {
                lemma_keys_once_plain(ElementV::Text(seq!['\n']));
                lemma_keys_once_push(res, new_comp(ElementV::Text(seq!['\n'])));
                lemma_obs_loop_keys(toks, pos + 1, res.push(new_comp(ElementV::Text(seq!['\n']))), fuel);
            } else {
                lemma_obs_loop_keys(toks, pos + 1, res, fuel);
            }
        } else {
            lemma_keys_once_plain(ElementV::Text(sl));
            lemma_keys_once_push(res, new_comp(ElementV::Text(sl)));
            lemma_obs_loop_keys(toks, pos + 1, res.push(new_comp(ElementV::Text(sl))), fuel);
        }
    }
}

proof fn lemma_obs_adnote_keys(toks: Seq<(ObsidianToken, Seq<char>)>, p: int, fuel: nat)
    ensures
        obs_adnote(toks, p, fuel) matches Parsed::Done((e, _)) ==> keys_once_el(e),
    decreases fuel, 0int, 0int, toks.len() - p,
{
    if let Some((t, q)) = adnote_text(toks, p) {
        admonition_keys_once(lines(strip_newlines(t)));
        if fuel > 0 {
            let (props, body) = adnote_lines(lines(strip_newlines(t)));
            lemma_obs_parse_keys(body, (fuel - 1) as nat);
        }
    }
}

/// Every admonition an Obsidian note is read with gives each property key once.
pub proof fn obsidian_keys_once(text: Seq<char>)
    ensures
        obsidian_doc(text) matches Parsed::Done(cs) ==> keys_once_all(cs),
        obsidian_inner_doc(text) matches Parsed::Done(cs) ==> keys_once_all(cs),
{
    lemma_obs_parse_keys(text, text.len());
    lemma_obs_inner_keys(text, text.len());
}

/// An Obsidian text without markdown structure, as read, never has two texts next to each
/// other, nor an empty text, nor a text with children.
pub proof fn obsidian_inner_texts_merged(text: Seq<char>)
    ensures
        obsidian_inner_doc(text) matches Parsed::Done(cs) ==> crate::collapse::texts_merged(cs),
{
    lemma_obs_loop_merged(obs_tokens(substituted(text)), 0, Seq::empty(), text.len());
}

/// The result of a parse: with no directory exactly the stated parse; with a directory the
/// same document with mentioned files possibly found on disk, or a failure to look one up,
/// which can come only where the note links or embeds a file by name.
pub open spec fn parse_result(spec: Parsed<Seq<ComponentV>>, file_dir: Option<String>, r: Result<ParsedDocument, ParseError>) -> bool {
    &&& (spec is Fails ==> r is Err)
    &&& match file_dir {
        None => match r {
            Ok(pd) => spec == Parsed::Done(crate::collapse::comps_of(pd@)) && pd is ParsedText,
            Err(_) => spec is Fails,
        },
        Some(_) => match r {
            Ok(pd) => spec matches Parsed::Done(cs) && resolved_doc(DocV::Text(cs), pd@, obsidian_lookups()),
            Err(_) => spec is Fails || (spec matches Parsed::Done(cs) && needs_disk_lookup(
                DocV::Text(cs),
                obsidian_lookups(),
            )),
        },
    }
}

/// Obsidian links and embeds name files in the note's directory; property values are kept.
pub open spec fn obsidian_lookups() -> LookupModes {
    LookupModes { links: LookupMode::InDir, embeds: LookupMode::InDir, values: LookupMode::Keep }
}

fn finish(cs: Vec<DocumentComponent>, file_dir: &Option<String>) -> (r: Result<ParsedDocument, ParseError>)
    ensures
        parse_result(Parsed::Done(dcs_v(cs@)), *file_dir, r),
{
    let pd = ParsedDocument::ParsedText(cs);
    match file_dir {
        Some(d) => {
            let lk = Lookups {
                links: Lookup::InDir(d.clone()),
                embeds: Lookup::InDir(d.clone()),
                values: Lookup::Keep,
            };
            resolve_mentions(pd, &lk)
        },
        None => Ok(pd),
    }
}

/// Reads an Obsidian note: its markdown structure (headings, lists) with the text between read
/// for links, embeds and admonitions. Mentioned files are looked up in `file_dir` if given.
pub fn parse_obsidian_text(text: &str, file_dir: &Option<String>) -> (r: Result<ParsedDocument, ParseError>)
    requires
        !(obsidian_doc(text@) is Panics),
    ensures
        parse_result(obsidian_doc(text@), *file_dir, r),
        r matches Ok(pd) ==> keys_once_doc(pd@),
{
    let t = chars_of(text);
    let r = match obs_parse_exec(&t, t.len()) {
        Ok(cs) => finish(cs, file_dir),
        Err(e) => Err(e),
    };
    proof {
        obsidian_keys_once(text@);
        if r is Ok {
            let pd = r->Ok_0;
            if let Parsed::Done(cs) = obsidian_doc(text@) {
                if file_dir is Some {
                    crate::resolve::lemma_resolved_keys_doc(DocV::Text(cs), pd@, obsidian_lookups());
                }
            }
        }
    }
    r
}

/// Reads Obsidian text for links, embeds and admonitions (no markdown structure).
pub fn parse_obsidian_text_inner(text: &str, file_dir: &Option<String>) -> (r: Result<ParsedDocument, ParseError>)
    requires
        !(obsidian_inner_doc(text@) is Panics),
    ensures
        parse_result(obsidian_inner_doc(text@), *file_dir, r),
        r matches Ok(pd) ==> keys_once_doc(pd@),
{
    let t = chars_of(text);
    let r = match obs_inner_exec(&t, t.len()) {
        Ok(cs) => finish(cs, file_dir),
        Err(e) => Err(e),
    };
    proof {
        obsidian_keys_once(text@);
        if r is Ok {
            let pd = r->Ok_0;
            if let Parsed::Done(cs) = obsidian_inner_doc(text@) {
                if file_dir is Some {
                    crate::resolve::lemma_resolved_keys_doc(DocV::Text(cs), pd@, obsidian_lookups());
                }
            }
        }
    }
    r
}

pub fn adnote_lines_pub(ls: &Vec<Vec<char>>) -> (r: (Vec<(String, String)>, Vec<char>))
    ensures
        (pairs_v(r.0@), r.1@) == adnote_lines(views(ls@)),
{
    adnote_lines_exec(ls)
}

pub fn strip_newlines_pub(s: &Vec<char>) -> (r: Vec<char>)
    ensures
        r@ == strip_newlines(s@),
{
    strip_newlines_exec(s)
}

} // verus!
