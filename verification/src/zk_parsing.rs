//! Reading zk notes into the document model.
use vstd::prelude::*;
use crate::collapse::{collapse, collapse_text};
use crate::document::{
    ComponentV, DocV, DocumentComponent, DocumentElement, ElementV, ListElem, ListElemV,
    MentionedFile, MentionedFileV, ParsedDocument, PropType, PropValue, PropValueV, Property,
    PropertyV, dcs_v, keys_once_all, keys_once_dc, keys_once_doc, keys_once_el, keys_once_le,
    keys_once_les, lemma_dcs_v_len, lemma_keys_once_concat, lemma_keys_once_plain,
    lemma_keys_once_push, les_v, pairs_v, props_v, pvs_v,
};
use crate::md_lexer::{lemma_run, run};
use crate::md_parsing::{
    ListElement, MdCompV, MdComponent, MdLeV, Parsed, md_comp_v, md_comps_v, md_le_v, md_les_v,
    md_parse, parse_md_text, reversed, lemma_md_les_v,
};
use crate::obsidian_parsing::{
    LinkState, ParseError, adnote_lines, extend_opt, insert_prop, link_init, md_size, md_sizes,
    new_comp, strip_newlines,
};
use crate::render_spec::without_brackets;
use crate::resolve::{Lookup, LookupMode, LookupModes, Lookups, needs_disk_lookup, resolve_mentions, resolved_doc};
use crate::text::{
    chars_of, copy_chars, is_blank, is_ws, lines, lines_vec, push_all, starts_with, starts_with_str, string_of, trim,
    trim_end, trim_vec, views,
};
use crate::util::{substitute_vec, substituted};
use crate::zk_lexer::{ZkToken, is_letter, zk_tokens, zk_views};

verus! {

// ---------------------------------------------------------------------------
// Markdown links `[name](target)`.
/// The regular expression for a link's name and target, after its opening bracket.
pub open spec fn link_regex() -> Seq<char> {
    "^([^\\[\\]]*)"@ + "\\]\\("@ + "([^()\\s]+)"@ + "\\)"@
}

pub open spec fn not_bracket(c: char) -> bool {
    c != '[' && c != ']'
}

pub open spec fn target_char(c: char) -> bool {
    c != '(' && c != ')' && !is_ws(c)
}

/// What the link expression matches at the start of `t`: (name, target, whole match).
pub open spec fn link_match(t: Seq<char>) -> Option<(Seq<char>, Seq<char>, Seq<char>)> {
    let n = run(t, 0, |c: char| not_bracket(c));
    if n + 1 < t.len() && t[n] == ']' && t[n + 1] == '(' {
        let m = run(t, n + 2, |c: char| target_char(c));
        if m > 0 && n + 2 + m < t.len() && t[n + 2 + m] == ')' {
            Some((t.take(n), t.subrange(n + 2, n + 2 + m), t.take(n + 3 + m)))
        } else {
            None
        }
    } else {
        None
    }
}

/// Calls `regex::Regex::new` and `regex::Regex::captures` with the link expression: the
/// match is anchored at the start, the name is the longest run without brackets, which must be
/// followed by `](`, the target the longest run without parentheses or whitespace (at least one
/// character), which must be followed by `)`. Claimed: the captures (name, target, whole match)
/// are what `link_match` says.
#[verifier::external_body]
fn regex_link_captures(pattern: &str, text: &str) -> (r: Option<(String, String, String)>)
    requires
        pattern@ == link_regex(),
    ensures
        match link_match(text@) {
            Some((n, t, w)) => r matches Some((a, b, c)) && a@ == n && b@ == t && c@ == w,
            None => r is None,
        },
{
    let re = regex::Regex::new(pattern).ok()?;
    let c = re.captures(text)?;
    let name = c.get(1)?.as_str().to_string();
    let target = c.get(2)?.as_str().to_string();
    let whole = c.get(0)?.as_str().to_string();
    Some((name, target, whole))
}

// ---------------------------------------------------------------------------
// The parse, stated over the tokens (with file lookups left to later passes).
/// An embed after its opening brackets: (name, section, rename, position after it).
pub open spec fn zk_link_from(toks: Seq<(ZkToken, Seq<char>)>, p: int, st: LinkState) -> Parsed<(Seq<char>, Option<Seq<char>>, Option<Seq<char>>, int)>
    decreases toks.len() - p,
{
    if p < 0 || p >= toks.len() {
        Parsed::Fails
    } else {
        let (k, sl) = toks[p];
        if k == ZkToken::ClosingDoubleBraces {
            Parsed::Done((trim(st.name), st.section, st.rename, p + 1))
        } else if k == ZkToken::SingleHash {
            zk_link_from(toks, p + 1, LinkState { aw_sec: true, ..st })
        } else if k == ZkToken::Pipe {
            zk_link_from(toks, p + 1, LinkState { aw_ren: true, aw_sec: false, ..st })
        } else if k == ZkToken::Name || k == ZkToken::MiscText || k == ZkToken::Space {
            if st.aw_sec {
                zk_link_from(toks, p + 1, LinkState { section: extend_opt(st.section, sl), ..st })
            } else if st.aw_ren {
                zk_link_from(toks, p + 1, LinkState { rename: extend_opt(st.rename, sl), ..st })
            } else {
                zk_link_from(toks, p + 1, LinkState { name: st.name + sl, ..st })
            }
        } else {
            Parsed::Fails
        }
    }
}

/// The source text from token `p` on.
pub open spec fn rest_text(toks: Seq<(ZkToken, Seq<char>)>, p: int) -> Seq<char>
    decreases toks.len() - p,
{
    if p < 0 || p >= toks.len() {
        Seq::empty()
    } else {
        toks[p].1 + rest_text(toks, p + 1)
    }
}

/// Skips the tokens that make up `cap` characters; the position after them.
pub open spec fn consume(toks: Seq<(ZkToken, Seq<char>)>, p: int, cap: int, consumed: int) -> Parsed<int>
    decreases toks.len() - p,
{
    if p < 0 || p >= toks.len() {
        Parsed::Done(toks.len() as int)
    } else if toks[p].0 == ZkToken::Error {
        Parsed::Fails
    } else {
        let c2 = consumed + toks[p].1.len();
        if c2 == cap {
            Parsed::Done(p + 1)
        } else if c2 > cap {
            Parsed::Fails
        } else {
            consume(toks, p + 1, cap, c2)
        }
    }
}

pub open spec fn contains_nl(s: Seq<char>) -> bool {
    exists|i: int| 0 <= i < s.len() && s[i] == '\n'
}

/// The text of a property's value: up to the end of its line.
pub open spec fn prop_value_text(toks: Seq<(ZkToken, Seq<char>)>, p: int) -> Parsed<(Seq<char>, int)>
    decreases toks.len() - p,
{
    if p < 0 || p >= toks.len() {
        Parsed::Done((Seq::empty(), toks.len() as int))
    } else {
        let (k, sl) = toks[p];
        if k == ZkToken::Error {
            Parsed::Fails
        } else if k == ZkToken::Newline {
            Parsed::Done((Seq::empty(), p + 1))
        } else if sl.len() > 0 && sl.last() == '\n' {
            Parsed::Done((trim_end(sl), p + 1))
        } else if contains_nl(sl) {
            Parsed::Fails
        } else {
            match prop_value_text(toks, p + 1) {
                Parsed::Done((t, q)) => Parsed::Done((sl + t, q)),
                Parsed::Fails => Parsed::Fails,
                Parsed::Panics => Parsed::Panics,
            }
        }
    }
}

/// The values of a bracketed property: split at every comma, each trimmed (a last empty piece
/// is dropped).
pub open spec fn comma_fold(s: Seq<char>) -> (Seq<Seq<char>>, Seq<char>)
    decreases s.len(),
{
    if s.len() == 0 {
        (Seq::empty(), Seq::empty())
    } else {
        let (vals, cur) = comma_fold(s.drop_last());
        if s.last() == ',' {
            (vals.push(trim(cur)), Seq::empty())
        } else {
            (vals, cur.push(s.last()))
        }
    }
}

pub open spec fn comma_values(s: Seq<char>) -> Seq<Seq<char>> {
    let (vals, cur) = comma_fold(s);
    if cur.len() > 0 {
        vals.push(trim(cur))
    } else {
        vals
    }
}

/// `str::split(",")`: the pieces between commas.
pub open spec fn split_fold(s: Seq<char>) -> (Seq<Seq<char>>, Seq<char>)
    decreases s.len(),
{
    if s.len() == 0 {
        (Seq::empty(), Seq::empty())
    } else {
        let (ps, cur) = split_fold(s.drop_last());
        if s.last() == ',' {
            (ps.push(cur), Seq::empty())
        } else {
            (ps, cur.push(s.last()))
        }
    }
}

pub open spec fn split_commas(s: Seq<char>) -> Seq<Seq<char>> {
    let (ps, cur) = split_fold(s);
    ps.push(cur)
}

/// The values of a frontmatter property and whether they were bracketed.
pub open spec fn fm_values(text: Seq<char>) -> (Seq<Seq<char>>, bool) {
    let t = trim(text);
    let multi = starts_with(t, seq!['[']) && t.len() > 0 && t.last() == ']';
    let pv = without_brackets(trim(t));
    (if pv.len() == 0 {
        Seq::empty()
    } else {
        split_commas(pv).map_values(|x: Seq<char>| trim(x))
    }, multi)
}

/// Index of the first `c` in `s`, or -1.
pub open spec fn index_of(s: Seq<char>, c: char) -> int
    decreases s.len(),
{
    if s.len() == 0 {
        -1
    } else if index_of(s.drop_last(), c) >= 0 {
        index_of(s.drop_last(), c)
    } else if s.last() == c {
        s.len() - 1
    } else {
        -1
    }
}

/// The `- ` items on the lines after `pos`, and the position of the last of them.
pub open spec fn list_vals(ls: Seq<Seq<char>>, pos: int) -> (Seq<Seq<char>>, int)
    decreases ls.len() - pos,
{
    if 0 <= pos && pos + 1 < ls.len() && starts_with(trim(ls[pos + 1]), "- "@) {
        let (vs, p) = list_vals(ls, pos + 1);
        (seq![trim(trim(ls[pos + 1]).skip(2))].add(vs), p)
    } else {
        (Seq::empty(), pos)
    }
}

/// The text of a frontmatter block up to its closing delimiter, and the position after it.
pub open spec fn fm_text(toks: Seq<(ZkToken, Seq<char>)>, p: int) -> Parsed<(Seq<char>, int)>
    decreases toks.len() - p,
{
    if p < 0 || p >= toks.len() || toks[p].0 == ZkToken::Error {
        Parsed::Fails
    } else if toks[p].0 == ZkToken::FrontmatterDelim {
        Parsed::Done((Seq::empty(), p + 1))
    } else {
        match fm_text(toks, p + 1) {
            Parsed::Done((t, q)) => Parsed::Done((toks[p].1 + t, q)),
            Parsed::Fails => Parsed::Fails,
            Parsed::Panics => Parsed::Panics,
        }
    }
}

/// The text of an admonition up to its closing backquotes, and the position after them.
pub open spec fn zk_adnote_text(toks: Seq<(ZkToken, Seq<char>)>, p: int) -> Option<(Seq<char>, int)>
    decreases toks.len() - p,
{
    if p < 0 || p >= toks.len() || toks[p].0 == ZkToken::Error {
        None
    } else if toks[p].0 == ZkToken::TripleBackQuote {
        Some((Seq::empty(), p + 1))
    } else {
        match zk_adnote_text(toks, p + 1) {
            Some((t, q)) => Some((toks[p].1 + t, q)),
            None => None,
        }
    }
}

pub struct FmSplit {
    pub fm: Seq<char>,
    pub rem: Seq<char>,
    pub done: bool,
}

/// The lines of a zk text split into frontmatter (from a first line starting with `---`) and the
/// rest.
pub open spec fn fm_split(ls: Seq<Seq<char>>) -> FmSplit
    decreases ls.len(),
{
    if ls.len() == 0 {
        FmSplit { fm: Seq::empty(), rem: Seq::empty(), done: true }
    } else {
        let st = fm_split(ls.drop_last());
        let i = ls.len() - 1;
        let l = ls.last();
        let delim = starts_with(trim(l), "---"@);
        if i == 0 && delim {
            FmSplit { done: false, ..st }
        } else if delim {
            FmSplit { fm: st.fm.push('\n') + l, done: true, ..st }
        } else if st.done {
            FmSplit {
                rem: (if st.rem.len() > 0 || st.fm.len() > 0 {
                    st.rem.push('\n')
                } else {
                    st.rem
                }) + l,
                ..st
            }
        } else {
            FmSplit { fm: st.fm.push('\n') + l, ..st }
        }
    }
}

/// The name of a property from its start token: its leading letters.
pub open spec fn prop_name(sl: Seq<char>) -> Seq<char> {
    sl.take(run(sl, 0, |c: char| is_letter(c)))
}

pub open spec fn zk_text(t: Seq<char>) -> ComponentV {
    new_comp(ElementV::Text(t))
}

/// A zk text: frontmatter, then its markdown structure with the texts between read as zk text.
/// `fuel` bounds how deeply admonitions and property values nest.
pub open spec fn zk_parse(text: Seq<char>, fuel: nat) -> Parsed<Seq<ComponentV>>
    decreases fuel, 6int, 0int, 0int,
{
    let split = fm_split(lines(text));
    match md_parse(split.rem) {
        Parsed::Done(mds) => {
            let fmr = if split.fm.len() > 0 {
                match zk_frontmatter(zk_tokens(split.fm), 0, fuel) {
                    Parsed::Done((c, _)) => Parsed::Done(seq![c]),
                    Parsed::Fails => Parsed::Fails,
                    Parsed::Panics => Parsed::Panics,
                }
            } else {
                Parsed::Done(Seq::empty())
            };
            match fmr {
                Parsed::Done(f) => match zk_convert(mds, fuel) {
                    Parsed::Done(cs) => Parsed::Done(f + cs),
                    Parsed::Fails => Parsed::Fails,
                    Parsed::Panics => Parsed::Panics,
                },
                Parsed::Fails => Parsed::Fails,
                Parsed::Panics => Parsed::Panics,
            }
        },
        Parsed::Fails => Parsed::Fails,
        Parsed::Panics => Parsed::Panics,
    }
}

pub open spec fn zk_convert(mds: Seq<MdCompV>, fuel: nat) -> Parsed<Seq<ComponentV>>
    decreases fuel, 4int, mds.len(), 0int,
{
    if mds.len() == 0 {
        Parsed::Done(Seq::empty())
    } else {
        match zk_convert(mds.drop_last(), fuel) {
            Parsed::Done(acc) => match mds.last() {
                MdCompV::Heading(level, t) => Parsed::Done(acc.push(new_comp(ElementV::Heading(level as u16, t)))),
                MdCompV::Text(t) => match zk_inner(t, fuel) {
                    Parsed::Done(cs) => Parsed::Done(acc + cs),
                    Parsed::Fails => Parsed::Fails,
                    Parsed::Panics => Parsed::Panics,
                },
                MdCompV::List(ls, term) => match zk_les(ls, fuel) {
                    Parsed::Done(les) => Parsed::Done(acc.push(new_comp(ElementV::List(les, term)))),
                    Parsed::Fails => Parsed::Fails,
                    Parsed::Panics => Parsed::Panics,
                },
            },
            Parsed::Fails => Parsed::Fails,
            Parsed::Panics => Parsed::Panics,
        }
    }
}

pub open spec fn zk_les(ls: Seq<MdLeV>, fuel: nat) -> Parsed<Seq<ListElemV>>
    decreases fuel, 3int, 2 * md_sizes(ls) + 1, 0int,
{
    if ls.len() == 0 {
        Parsed::Done(Seq::empty())
    } else {
        match zk_les(ls.drop_last(), fuel) {
            Parsed::Done(acc) => match zk_le(ls.last(), fuel) {
                Parsed::Done(l) => Parsed::Done(acc.push(l)),
                Parsed::Fails => Parsed::Fails,
                Parsed::Panics => Parsed::Panics,
            },
            Parsed::Fails => Parsed::Fails,
            Parsed::Panics => Parsed::Panics,
        }
    }
}

pub open spec fn zk_le(l: MdLeV, fuel: nat) -> Parsed<ListElemV>
    decreases fuel, 3int, 2 * md_size(l), 0int,
{
    match zk_inner(l.text, fuel) {
        Parsed::Done(cs) => match zk_les(l.children, fuel) {
            Parsed::Done(children) => Parsed::Done(ListElemV { contents: DocV::Text(cs), children }),
            Parsed::Fails => Parsed::Fails,
            Parsed::Panics => Parsed::Panics,
        },
        Parsed::Fails => Parsed::Fails,
        Parsed::Panics => Parsed::Panics,
    }
}

/// Zk text without markdown structure: properties, links, embeds, admonitions and text.
pub open spec fn zk_inner(text: Seq<char>, fuel: nat) -> Parsed<Seq<ComponentV>>
    decreases fuel, 1int, 0int, 0int,
{
    zk_loop(zk_tokens(substituted(text)), 0, Seq::empty(), true, fuel)
}

pub open spec fn zk_loop(toks: Seq<(ZkToken, Seq<char>)>, pos: int, res: Seq<ComponentV>, blank: bool, fuel: nat) -> Parsed<Seq<ComponentV>>
    decreases fuel, 0int, 9int, toks.len() - pos,
{
    if pos < 0 || pos >= toks.len() {
        Parsed::Done(collapse(res))
    } else {
        let (k, sl) = toks[pos];
        if k == ZkToken::Error {
            Parsed::Fails
        } else if k == ZkToken::EmbedStart {
            match zk_link_from(toks, pos + 1, link_init()) {
                Parsed::Done((name, sec, _, q)) => if q <= pos || q > toks.len() {
                    Parsed::Fails
                } else {
                    zk_loop(toks, q, res.push(new_comp(ElementV::FileEmbed(MentionedFileV::FileName(name), sec))), false, fuel)
                },
                _ => Parsed::Panics,
            }
        } else if k == ZkToken::PropertyStart && blank {
            match zk_property(toks, pos + 1, prop_name(sl), fuel) {
                Parsed::Done((prop, q)) => if q <= pos || q > toks.len() {
                    Parsed::Fails
                } else {
                    zk_loop(toks, q, res.push(new_comp(ElementV::Properties(seq![prop]))), blank, fuel)
                },
                Parsed::Fails => Parsed::Fails,
                Parsed::Panics => Parsed::Panics,
            }
        } else if k == ZkToken::AdNoteStart {
            match zk_adnote(toks, pos + 1, fuel) {
                Parsed::Done((e, q)) => if q <= pos || q > toks.len() {
                    Parsed::Fails
                } else {
                    zk_loop(toks, q, res.push(new_comp(e)), false, fuel)
                },
                Parsed::Fails => Parsed::Fails,
                Parsed::Panics => Parsed::Panics,
            }
        } else if k == ZkToken::FrontmatterDelim {
            match zk_frontmatter(toks, pos + 1, fuel) {
                Parsed::Done((c, q)) => if q <= pos || q > toks.len() {
                    Parsed::Fails
                } else {
                    zk_loop(toks, q, res.push(c), blank, fuel)
                },
                Parsed::Fails => Parsed::Fails,
                Parsed::Panics => Parsed::Panics,
            }
        } else if k == ZkToken::Bracket {
            match link_match(rest_text(toks, pos + 1)) {
                Some((n, t, w)) => match consume(toks, pos + 1, w.len() as int, 0) {
                    Parsed::Done(q) => if q <= pos || q > toks.len() {
                        Parsed::Fails
                    } else {
                        zk_loop(toks, q, res.push(new_comp(ElementV::FileLink(MentionedFileV::FileName(t), None, Some(n)))), false, fuel)
                    },
                    _ => Parsed::Fails,
                },
                None => zk_loop(toks, pos + 1, res.push(zk_text(seq!['['])), false, fuel),
            }
        } else if k == ZkToken::Newline {
            zk_loop(toks, pos + 1, res.push(zk_text(sl)), true, fuel)
        } else {
            let keeps_blank = k == ZkToken::SingleHash || k == ZkToken::Space || k == ZkToken::CarriageReturn
                || k == ZkToken::ListStart || k == ZkToken::Unicode || k == ZkToken::PropertyStart
                || k == ZkToken::TripleBackQuote || k == ZkToken::OpenDoubleBraces
                || k == ZkToken::ClosingDoubleBraces;
            zk_loop(toks, pos + 1, res.push(zk_text(sl)), if keeps_blank {
                blank
            } else {
                false
            }, fuel)
        }
    }
}

/// A property after its start token: the property and the position after its value.
pub open spec fn zk_property(toks: Seq<(ZkToken, Seq<char>)>, p: int, name: Seq<char>, fuel: nat) -> Parsed<(PropertyV, int)>
    decreases fuel, 0int, 8int, toks.len() - p,
{
    match prop_value_text(toks, p) {
        Parsed::Done((t, q)) => {
            let v = trim(t);
            if v.len() == 0 {
                Parsed::Done((PropertyV { name, prop_type: PropType::Single, values: Seq::empty() }, q))
            } else if v[0] == '[' && v.last() == ']' {
                match zk_values(comma_values(v.subrange(1, v.len() - 1)), fuel) {
                    Parsed::Done(vals) => Parsed::Done((PropertyV { name, prop_type: PropType::CompactList, values: vals }, q)),
                    Parsed::Fails => Parsed::Fails,
                    Parsed::Panics => Parsed::Panics,
                }
            } else {
                match zk_values(seq![v], fuel) {
                    Parsed::Done(vals) => Parsed::Done((PropertyV { name, prop_type: PropType::Single, values: vals }, q)),
                    Parsed::Fails => Parsed::Fails,
                    Parsed::Panics => Parsed::Panics,
                }
            }
        },
        Parsed::Fails => Parsed::Fails,
        Parsed::Panics => Parsed::Panics,
    }
}

pub open spec fn zk_values(vs: Seq<Seq<char>>, fuel: nat) -> Parsed<Seq<PropValueV>>
    decreases fuel, 0int, 6int, vs.len(),
{
    if vs.len() == 0 {
        Parsed::Done(Seq::empty())
    } else {
        match zk_values(vs.drop_last(), fuel) {
            Parsed::Done(acc) => match zk_value(vs.last(), fuel) {
                Parsed::Done(v) => Parsed::Done(acc.push(v)),
                Parsed::Fails => Parsed::Fails,
                Parsed::Panics => Parsed::Panics,
            },
            Parsed::Fails => Parsed::Fails,
            Parsed::Panics => Parsed::Panics,
        }
    }
}

/// A property value: a file link if the value reads as exactly one, else the text.
pub open spec fn zk_value(v: Seq<char>, fuel: nat) -> Parsed<PropValueV>
    decreases fuel, 0int, 5int, 0int,
{
    if fuel == 0 {
        Parsed::Fails
    } else {
        match zk_parse(v, (fuel - 1) as nat) {
            Parsed::Done(cs) => if cs.len() == 1 && cs[0].element is FileLink {
                match cs[0].element {
                    ElementV::FileLink(mf, sec, ren) => Parsed::Done(PropValueV::FileLink(mf, sec, ren)),
                    _ => Parsed::Done(PropValueV::Str(v)),
                }
            } else {
                Parsed::Done(PropValueV::Str(v))
            },
            Parsed::Fails => Parsed::Done(PropValueV::Str(v)),
            Parsed::Panics => Parsed::Panics,
        }
    }
}

/// A frontmatter block after its opening delimiter: the component and the position after it.
pub open spec fn zk_frontmatter(toks: Seq<(ZkToken, Seq<char>)>, p: int, fuel: nat) -> Parsed<(ComponentV, int)>
    decreases fuel, 0int, 8int, toks.len() - p,
{
    match fm_text(toks, p) {
        Parsed::Done((t, q)) => match zk_fm_props(lines(t), 0, fuel) {
            Parsed::Done(props) => Parsed::Done((new_comp(ElementV::Frontmatter(props)), q)),
            Parsed::Fails => Parsed::Fails,
            Parsed::Panics => Parsed::Panics,
        },
        Parsed::Fails => Parsed::Fails,
        Parsed::Panics => Parsed::Panics,
    }
}

/// The properties of a frontmatter block from line `pos` on. A key with no value and no list
/// items after it is an input on which reading does not finish; it counts as `Panics`, which
/// the readers' `requires` leave out.
pub open spec fn zk_fm_props(ls: Seq<Seq<char>>, pos: int, fuel: nat) -> Parsed<Seq<PropertyV>>
    decreases fuel, 0int, 7int, ls.len() - pos,
{
    if pos < 0 || pos >= ls.len() {
        Parsed::Done(Seq::empty())
    } else {
        let line = ls[pos];
        let k = index_of(line, ':');
        if k < 0 {
            zk_fm_props(ls, pos + 1, fuel)
        } else {
            let key = line.take(k);
            let value = line.skip(k + 1);
            if is_blank(value) {
                let (vals, p2) = list_vals(ls, pos);
                if p2 <= pos || p2 >= ls.len() {
                    Parsed::Panics
                } else {
                    let prop = PropertyV {
                        name: key,
                        prop_type: PropType::List,
                        values: vals.map_values(|x: Seq<char>| PropValueV::Str(x)),
                    };
                    match zk_fm_props(ls, p2, fuel) {
                        Parsed::Done(rest) => Parsed::Done(seq![prop] + rest),
                        Parsed::Fails => Parsed::Fails,
                        Parsed::Panics => Parsed::Panics,
                    }
                }
            } else {
                let (vals, multi) = fm_values(value);
                match zk_values(vals, fuel) {
                    Parsed::Done(pvs) => {
                        let prop = PropertyV {
                            name: trim(key),
                            prop_type: if multi {
                                PropType::CompactList
                            } else {
                                PropType::Single
                            },
                            values: pvs,
                        };
                        match zk_fm_props(ls, pos + 1, fuel) {
                            Parsed::Done(rest) => Parsed::Done(seq![prop] + rest),
                            Parsed::Fails => Parsed::Fails,
                            Parsed::Panics => Parsed::Panics,
                        }
                    },
                    Parsed::Fails => Parsed::Fails,
                    Parsed::Panics => Parsed::Panics,
                }
            }
        }
    }
}

/// An admonition after its opening backquotes: (the admonition, position after it).
pub open spec fn zk_adnote(toks: Seq<(ZkToken, Seq<char>)>, p: int, fuel: nat) -> Parsed<(ElementV, int)>
    decreases fuel, 0int, 8int, toks.len() - p,
{
    match zk_adnote_text(toks, p) {
        Some((t, q)) => {
            let (props, body) = adnote_lines(lines(strip_newlines(t)));
            if fuel == 0 {
                Parsed::Fails
            } else {
                match zk_parse(body, (fuel - 1) as nat) {
                    Parsed::Done(cs) => Parsed::Done((ElementV::Admonition(cs, props), q)),
                    Parsed::Fails => Parsed::Fails,
                    Parsed::Panics => Parsed::Panics,
                }
            }
        },
        None => Parsed::Fails,
    }
}

// ---------------------------------------------------------------------------
// Executable pieces.
pub open spec fn zv(toks: Seq<(ZkToken, Vec<char>)>) -> Seq<(ZkToken, Seq<char>)> {
    zk_views(toks)
}

pub open spec fn opt_chars(o: Option<Vec<char>>) -> Option<Seq<char>> {
    match o {
        Some(v) => Some(v@),
        None => None,
    }
}

fn extend_opt_exec(o: Option<Vec<char>>, ext: &Vec<char>) -> (r: Option<Vec<char>>)
    ensures
        opt_chars(r) == extend_opt(opt_chars(o), ext@),
{
    let mut v = match o {
        Some(v) => v,
        None => Vec::new(),
    };
    push_all(&mut v, ext);
    Some(v)
}

fn zk_link_exec(toks: &Vec<(ZkToken, Vec<char>)>, p: usize) -> (r: Result<(Vec<char>, Option<Vec<char>>, Option<Vec<char>>, usize), ParseError>)
    ensures
        match r {
            Ok((n, s, rn, q)) => zk_link_from(zv(toks@), p as int, link_init()) == Parsed::Done((n@, opt_chars(s), opt_chars(rn), q as int)),
            Err(_) => zk_link_from(zv(toks@), p as int, link_init()) is Fails,
        },
{
    let ghost t = zv(toks@);
    let mut name: Vec<char> = Vec::new();
    let mut section: Option<Vec<char>> = None;
    let mut rename: Option<Vec<char>> = None;
    let mut aw_sec = false;
    let mut aw_ren = false;
    let mut i = p;
    proof {
        assert(name@ =~= Seq::<char>::empty());
    }
    loop
        invariant
            t == zv(toks@),
            zk_link_from(t, p as int, link_init()) == zk_link_from(t, i as int, LinkState {
                name: name@,
                section: opt_chars(section),
                rename: opt_chars(rename),
                aw_sec,
                aw_ren,
            }),
        decreases toks.len() - i,
    {
        if i >= toks.len() {
            return Err(ParseError::Malformed);
        }
        let k = toks[i].0;
        let sl = &toks[i].1;
        proof {
            assert(t[i as int] == (k, sl@));
        }
        if k == ZkToken::ClosingDoubleBraces {
            return Ok((trim_vec(&name), section, rename, i + 1));
        } else if k == ZkToken::SingleHash {
            aw_sec = true;
        } else if k == ZkToken::Pipe {
            aw_ren = true;
            aw_sec = false;
        } else if k == ZkToken::Name || k == ZkToken::MiscText || k == ZkToken::Space {
            if aw_sec {
                section = extend_opt_exec(section, sl);
            } else if aw_ren {
                rename = extend_opt_exec(rename, sl);
            } else {
                push_all(&mut name, sl);
            }
        } else {
            return Err(ParseError::Malformed);
        }
        i = i + 1;
    }
}

fn rest_text_exec(toks: &Vec<(ZkToken, Vec<char>)>, p: usize) -> (r: Vec<char>)
    ensures
        r@ == rest_text(zv(toks@), p as int),
{
    let ghost t = zv(toks@);
    let mut acc: Vec<char> = Vec::new();
    let mut i = p;
    proof {
        assert(acc@ + rest_text(t, p as int) =~= rest_text(t, p as int));
    }
    while i < toks.len()
        invariant
            t == zv(toks@),
            p <= i,
            acc@ + rest_text(t, i as int) == rest_text(t, p as int),
        decreases toks.len() - i,
    {
        proof {
            assert(t[i as int].1 == toks@[i as int].1@);
        }
        let ghost before = acc@;
        push_all(&mut acc, &toks[i].1);
        proof {
            assert(acc@ + rest_text(t, i + 1) =~= before + rest_text(t, i as int));
        }
        i = i + 1;
    }
    proof {
        assert(acc@ + rest_text(t, i as int) =~= acc@);
    }
    acc
}

fn consume_exec(toks: &Vec<(ZkToken, Vec<char>)>, p: usize, cap: usize) -> (r: Result<usize, ParseError>)
    ensures
        match r {
            Ok(q) => consume(zv(toks@), p as int, cap as int, 0) == Parsed::Done(q as int),
            Err(_) => consume(zv(toks@), p as int, cap as int, 0) is Fails,
        },
{
    let ghost t = zv(toks@);
    let mut consumed: usize = 0;
    let mut i = p;
    loop
        invariant
            t == zv(toks@),
            consumed <= cap,
            consume(t, p as int, cap as int, 0) == consume(t, i as int, cap as int, consumed as int),
        decreases toks.len() - i,
    {
        if i >= toks.len() {
            return Ok(toks.len());
        }
        proof {
            assert(t[i as int] == (toks@[i as int].0, toks@[i as int].1@));
        }
        if toks[i].0 == ZkToken::Error {
            return Err(ParseError::Malformed);
        }
        let l = toks[i].1.len();
        if l > cap - consumed {
            return Err(ParseError::Malformed);
        }
        consumed = consumed + l;
        if consumed == cap {
            return Ok(i + 1);
        }
        i = i + 1;
    }
}

pub open spec fn prepend_p(acc: Seq<char>, r: Parsed<(Seq<char>, int)>) -> Parsed<(Seq<char>, int)> {
    match r {
        Parsed::Done((t, q)) => Parsed::Done((acc + t, q)),
        Parsed::Fails => Parsed::Fails,
        Parsed::Panics => Parsed::Panics,
    }
}

fn contains_nl_exec(s: &Vec<char>) -> (b: bool)
    ensures
        b == contains_nl(s@),
{
    let mut i: usize = 0;
    while i < s.len()
        invariant
            i <= s.len(),
            forall|j: int| 0 <= j < i ==> s@[j] != '\n',
        decreases s.len() - i,
    {
        if s[i] == '\n' {
            return true;
        }
        i = i + 1;
    }
    false
}

fn prop_value_text_exec(toks: &Vec<(ZkToken, Vec<char>)>, p: usize) -> (r: Result<(Vec<char>, usize), ParseError>)
    ensures
        match r {
            Ok((t, q)) => prop_value_text(zv(toks@), p as int) == Parsed::Done((t@, q as int)) && (p < q <= toks.len() || (p >= toks.len() && q == toks.len())),
            Err(_) => prop_value_text(zv(toks@), p as int) is Fails,
        },
{
    let ghost t = zv(toks@);
    let mut acc: Vec<char> = Vec::new();
    let mut i = p;
    proof {
        assert(prepend_p(acc@, prop_value_text(t, p as int)) =~= prop_value_text(t, p as int)) by {
            match prop_value_text(t, p as int) {
                Parsed::Done((x, q)) => {
                    assert(acc@ + x =~= x);
                },
                _ => {},
            }
        }
    }
    loop
        invariant
            t == zv(toks@),
            p <= i,
            prop_value_text(t, p as int) == prepend_p(acc@, prop_value_text(t, i as int)),
        decreases toks.len() - i,
    {
        if i >= toks.len() {
            return Ok((acc, toks.len()));
        }
        let k = toks[i].0;
        let sl = &toks[i].1;
        proof {
            assert(t[i as int] == (k, sl@));
        }
        if k == ZkToken::Error {
            return Err(ParseError::Malformed);
        }
        if k == ZkToken::Newline {
            return Ok((acc, i + 1));
        }
        if sl.len() > 0 && sl[sl.len() - 1] == '\n' {
            push_all(&mut acc, &crate::text::trim_end_vec(sl));
            return Ok((acc, i + 1));
        }
        if contains_nl_exec(sl) {
            return Err(ParseError::Malformed);
        }
        let ghost before = acc@;
        push_all(&mut acc, sl);
        proof {
            assert(prepend_p(before, prop_value_text(t, i as int)) =~= prepend_p(acc@, prop_value_text(t, i + 1))) by {
                match prop_value_text(t, i + 1) {
                    Parsed::Done((x, q)) => {
                        assert(before + (sl@ + x) =~= acc@ + x);
                    },
                    _ => {},
                }
            }
        }
        i = i + 1;
    }
}

fn comma_values_exec(s: &Vec<char>) -> (r: Vec<Vec<char>>)
    ensures
        views(r@) == comma_values(s@),
{
    let mut vals: Vec<Vec<char>> = Vec::new();
    let mut cur: Vec<char> = Vec::new();
    let mut i: usize = 0;
    proof {
        assert(s@.take(0) =~= Seq::<char>::empty());
        assert(views(vals@) =~= Seq::<Seq<char>>::empty());
    }
    while i < s.len()
        invariant
            i <= s.len(),
            (views(vals@), cur@) == comma_fold(s@.take(i as int)),
        decreases s.len() - i,
    {
        proof {
            assert(s@.take(i + 1).drop_last() =~= s@.take(i as int));
        }
        if s[i] == ',' {
            let ghost v0 = views(vals@);
            let tc = trim_vec(&cur);
            vals.push(tc);
            proof {
                assert(views(vals@) =~= v0.push(tc@));
            }
            cur = Vec::new();
            proof {
                assert(cur@ =~= Seq::<char>::empty());
            }
        } else {
            cur.push(s[i]);
        }
        i = i + 1;
    }
    proof {
        assert(s@.take(s.len() as int) =~= s@);
    }
    if cur.len() > 0 {
        let ghost v0 = views(vals@);
        let tc = trim_vec(&cur);
        vals.push(tc);
        proof {
            assert(views(vals@) =~= v0.push(tc@));
        }
    }
    vals
}

fn split_commas_exec(s: &Vec<char>) -> (r: Vec<Vec<char>>)
    ensures
        views(r@) == split_commas(s@),
{
    let mut ps: Vec<Vec<char>> = Vec::new();
    let mut cur: Vec<char> = Vec::new();
    let mut i: usize = 0;
    proof {
        assert(s@.take(0) =~= Seq::<char>::empty());
        assert(views(ps@) =~= Seq::<Seq<char>>::empty());
    }
    while i < s.len()
        invariant
            i <= s.len(),
            (views(ps@), cur@) == split_fold(s@.take(i as int)),
        decreases s.len() - i,
    {
        proof {
            assert(s@.take(i + 1).drop_last() =~= s@.take(i as int));
        }
        if s[i] == ',' {
            let ghost v0 = views(ps@);
            let c = cur;
            ps.push(c);
            proof {
                assert(views(ps@) =~= v0.push(c@));
            }
            cur = Vec::new();
            proof {
                assert(cur@ =~= Seq::<char>::empty());
            }
        } else {
            cur.push(s[i]);
        }
        i = i + 1;
    }
    proof {
        assert(s@.take(s.len() as int) =~= s@);
    }
    let ghost v0 = views(ps@);
    let c = cur;
    ps.push(c);
    proof {
        assert(views(ps@) =~= v0.push(c@));
    }
    ps
}

fn fm_values_exec(text: &Vec<char>) -> (r: (Vec<Vec<char>>, bool))
    ensures
        (views(r.0@), r.1) == fm_values(text@),
{
    let t = trim_vec(text);
    let multi = t.len() > 0 && t[0] == '[' && t[t.len() - 1] == ']';
    proof {
        if t@.len() > 0 && t@[0] == '[' {
            assert(t@.take(1) =~= seq!['[']);
        }
        if starts_with(t@, seq!['[']) {
            assert(t@.take(1)[0] == t@[0]);
        }
    }
    let pv = crate::render::without_brackets_vec(&trim_vec(&t));
    if pv.len() == 0 {
        let r: Vec<Vec<char>> = Vec::new();
        proof {
            assert(views(r@) =~= Seq::<Seq<char>>::empty());
        }
        return (r, multi);
    }
    let pieces = split_commas_exec(&pv);
    let mut r: Vec<Vec<char>> = Vec::new();
    let mut i: usize = 0;
    while i < pieces.len()
        invariant
            i <= pieces.len(),
            views(r@) == views(pieces@).take(i as int).map_values(|x: Seq<char>| trim(x)),
        decreases pieces.len() - i,
    {
        let ghost r0 = views(r@);
        let tp = trim_vec(&pieces[i]);
        r.push(tp);
        proof {
            assert(views(r@) =~= r0.push(tp@));
            assert(views(pieces@).take(i + 1).map_values(|x: Seq<char>| trim(x)) =~= views(pieces@).take(i as int).map_values(|x: Seq<char>| trim(x)).push(trim(pieces@[i as int]@)));
        }
        i = i + 1;
    }
    proof {
        assert(views(pieces@).take(pieces.len() as int) =~= views(pieces@));
    }
    (r, multi)
}

pub(crate) fn index_of_exec(s: &Vec<char>, c: char) -> (r: Option<usize>)
    ensures
        match r {
            Some(k) => index_of(s@, c) == k && k < s.len(),
            None => index_of(s@, c) == -1,
        },
{
    let mut i: usize = 0;
    while i < s.len()
        invariant
            i <= s.len(),
            index_of(s@.take(i as int), c) == -1,
        decreases s.len() - i,
    {
        proof {
            assert(s@.take(i + 1).drop_last() =~= s@.take(i as int));
        }
        if s[i] == c {
            proof {
                lemma_index_of_prefix(s@, c, i + 1);
            }
            return Some(i);
        }
        i = i + 1;
    }
    proof {
        assert(s@.take(s.len() as int) =~= s@);
    }
    None
}

pub proof fn lemma_index_of_prefix(s: Seq<char>, c: char, n: int)
    requires
        0 <= n <= s.len(),
        index_of(s.take(n), c) >= 0,
    ensures
        index_of(s, c) == index_of(s.take(n), c),
    decreases s.len() - n,
{
    if n < s.len() {
        assert(s.take(n + 1).drop_last() =~= s.take(n));
        lemma_index_of_prefix(s, c, n + 1);
    } else {
        assert(s.take(n) =~= s);
    }
}

fn list_vals_exec(ls: &Vec<Vec<char>>, pos: usize) -> (r: (Vec<Vec<char>>, usize))
    requires
        pos < ls.len(),
    ensures
        (views(r.0@), r.1 as int) == list_vals(views(ls@), pos as int),
        pos <= r.1 < ls.len(),
{
    let ghost lv = views(ls@);
    let mut vals: Vec<Vec<char>> = Vec::new();
    let mut p = pos;
    proof {
        assert(views(vals@) + list_vals(lv, pos as int).0 =~= list_vals(lv, pos as int).0);
    }
    while p + 1 < ls.len() && starts_with_str(&trim_vec(&ls[p + 1]), "- ")
        invariant
            lv == views(ls@),
            pos <= p < ls.len(),
            views(vals@) + list_vals(lv, p as int).0 == list_vals(lv, pos as int).0,
            list_vals(lv, p as int).1 == list_vals(lv, pos as int).1,
        decreases ls.len() - p,
    {
        proof {
            assert(lv[p + 1] == ls@[p + 1]@);
        }
        let t = trim_vec(&ls[p + 1]);
        let n = t.len();
        proof {
            reveal_strlit("- ");
        }
        let item = trim_vec(&crate::text::slice_of(&t, 2, n));
        proof {
            assert(t@.subrange(2, n as int) =~= t@.skip(2));
        }
        let ghost v0 = views(vals@);
        vals.push(item);
        proof {
            assert(views(vals@) =~= v0.push(item@));
            let (vs, _) = list_vals(lv, p + 1);
            assert(list_vals(lv, p as int).0 == seq![item@].add(vs));
            assert(views(vals@) + vs =~= v0 + (seq![item@].add(vs)));
        }
        p = p + 1;
    }
    proof {
        assert(views(vals@) + Seq::<Seq<char>>::empty() =~= views(vals@));
        assert(p + 1 < ls.len() ==> lv[p + 1] == ls@[p + 1]@);
    }
    (vals, p)
}

fn fm_text_exec(toks: &Vec<(ZkToken, Vec<char>)>, p: usize) -> (r: Result<(Vec<char>, usize), ParseError>)
    ensures
        match r {
            Ok((t, q)) => fm_text(zv(toks@), p as int) == Parsed::Done((t@, q as int)) && p < q <= toks.len(),
            Err(_) => fm_text(zv(toks@), p as int) is Fails,
        },
{
    let ghost t = zv(toks@);
    let mut acc: Vec<char> = Vec::new();
    let mut i = p;
    proof {
        assert(prepend_p(acc@, fm_text(t, p as int)) =~= fm_text(t, p as int)) by {
            match fm_text(t, p as int) {
                Parsed::Done((x, q)) => {
                    assert(acc@ + x =~= x);
                },
                _ => {},
            }
        }
    }
    loop
        invariant
            t == zv(toks@),
            p <= i,
            fm_text(t, p as int) == prepend_p(acc@, fm_text(t, i as int)),
        decreases toks.len() - i,
    {
        if i >= toks.len() {
            return Err(ParseError::Malformed);
        }
        let k = toks[i].0;
        proof {
            assert(t[i as int] == (k, toks@[i as int].1@));
        }
        if k == ZkToken::Error {
            return Err(ParseError::Malformed);
        }
        if k == ZkToken::FrontmatterDelim {
            return Ok((acc, i + 1));
        }
        let ghost before = acc@;
        push_all(&mut acc, &toks[i].1);
        proof {
            assert(prepend_p(before, fm_text(t, i as int)) =~= prepend_p(acc@, fm_text(t, i + 1))) by {
                match fm_text(t, i + 1) {
                    Parsed::Done((x, q)) => {
                        assert(before + (toks@[i as int].1@ + x) =~= acc@ + x);
                    },
                    _ => {},
                }
            }
        }
        i = i + 1;
    }
}

pub open spec fn prepend_o(acc: Seq<char>, r: Option<(Seq<char>, int)>) -> Option<(Seq<char>, int)> {
    match r {
        Some((t, q)) => Some((acc + t, q)),
        None => None,
    }
}

fn zk_adnote_text_exec(toks: &Vec<(ZkToken, Vec<char>)>, p: usize) -> (r: Option<(Vec<char>, usize)>)
    ensures
        match r {
            Some((t, q)) => zk_adnote_text(zv(toks@), p as int) == Some((t@, q as int)) && p < q <= toks.len(),
            None => zk_adnote_text(zv(toks@), p as int) is None,
        },
{
    let ghost t = zv(toks@);
    let mut acc: Vec<char> = Vec::new();
    let mut i = p;
    proof {
        assert(prepend_o(acc@, zk_adnote_text(t, p as int)) =~= zk_adnote_text(t, p as int)) by {
            match zk_adnote_text(t, p as int) {
                Some((x, q)) => {
                    assert(acc@ + x =~= x);
                },
                None => {},
            }
        }
    }
    loop
        invariant
            t == zv(toks@),
            p <= i,
            zk_adnote_text(t, p as int) == prepend_o(acc@, zk_adnote_text(t, i as int)),
        decreases toks.len() - i,
    {
        if i >= toks.len() {
            return None;
        }
        let k = toks[i].0;
        proof {
            assert(t[i as int] == (k, toks@[i as int].1@));
        }
        if k == ZkToken::Error {
            return None;
        }
        if k == ZkToken::TripleBackQuote {
            return Some((acc, i + 1));
        }
        let ghost before = acc@;
        push_all(&mut acc, &toks[i].1);
        proof {
            assert(prepend_o(before, zk_adnote_text(t, i as int)) =~= prepend_o(acc@, zk_adnote_text(t, i + 1))) by {
                match zk_adnote_text(t, i + 1) {
                    Some((x, q)) => {
                        assert(before + (toks@[i as int].1@ + x) =~= acc@ + x);
                    },
                    None => {},
                }
            }
        }
        i = i + 1;
    }
}

fn fm_split_exec(ls: &Vec<Vec<char>>) -> (r: (Vec<char>, Vec<char>))
    ensures
        r.0@ == fm_split(views(ls@)).fm,
        r.1@ == fm_split(views(ls@)).rem,
{
    let mut fm: Vec<char> = Vec::new();
    let mut rem: Vec<char> = Vec::new();
    let mut done = true;
    let mut i: usize = 0;
    proof {
        assert(views(ls@).take(0) =~= Seq::<Seq<char>>::empty());
    }
    while i < ls.len()
        invariant
            i <= ls.len(),
            fm_split(views(ls@).take(i as int)) == (FmSplit { fm: fm@, rem: rem@, done }),
        decreases ls.len() - i,
    {
        proof {
            assert(views(ls@).take(i + 1).drop_last() =~= views(ls@).take(i as int));
            assert(views(ls@).take(i + 1).last() == ls@[i as int]@);
        }
        let l = &ls[i];
        let delim = starts_with_str(&trim_vec(l), "---");
        if i == 0 && delim {
            done = false;
        } else if delim {
            fm.push('\n');
            push_all(&mut fm, l);
            done = true;
        } else if done {
            if rem.len() > 0 || fm.len() > 0 {
                rem.push('\n');
            }
            push_all(&mut rem, l);
        } else {
            fm.push('\n');
            push_all(&mut fm, l);
        }
        i = i + 1;
    }
    proof {
        assert(views(ls@).take(ls.len() as int) =~= views(ls@));
    }
    (fm, rem)
}

fn prop_name_exec(sl: &Vec<char>) -> (r: Vec<char>)
    ensures
        r@ == prop_name(sl@),
{
    let mut j: usize = 0;
    while j < sl.len() && crate::zk_lexer::is_letter_exec(sl[j])
        invariant
            j <= sl.len(),
            run(sl@, 0, |c: char| is_letter(c)) == j + run(sl@, j as int, |c: char| is_letter(c)),
        decreases sl.len() - j,
    {
        j = j + 1;
    }
    crate::text::slice_of(sl, 0, j)
}

// ---------------------------------------------------------------------------
// The executable parse.
pub proof fn lemma_zk_convert_stuck(mds: Seq<MdCompV>, fuel: nat, i: int, j: int)
    requires
        0 <= i <= j <= mds.len(),
        !(zk_convert(mds.take(i), fuel) is Done),
    ensures
        zk_convert(mds.take(j), fuel) == zk_convert(mds.take(i), fuel),
    decreases j - i,
{
    if j > i {
        lemma_zk_convert_stuck(mds, fuel, i, j - 1);
        assert(mds.take(j).drop_last() =~= mds.take(j - 1));
    }
}

pub proof fn lemma_zk_les_stuck(ls: Seq<MdLeV>, fuel: nat, i: int, j: int)
    requires
        0 <= i <= j <= ls.len(),
        !(zk_les(ls.take(i), fuel) is Done),
    ensures
        zk_les(ls.take(j), fuel) == zk_les(ls.take(i), fuel),
    decreases j - i,
{
    if j > i {
        lemma_zk_les_stuck(ls, fuel, i, j - 1);
        assert(ls.take(j).drop_last() =~= ls.take(j - 1));
    }
}

pub proof fn lemma_zk_values_stuck(vs: Seq<Seq<char>>, fuel: nat, i: int, j: int)
    requires
        0 <= i <= j <= vs.len(),
        !(zk_values(vs.take(i), fuel) is Done),
    ensures
        zk_values(vs.take(j), fuel) == zk_values(vs.take(i), fuel),
    decreases j - i,
{
    if j > i {
        lemma_zk_values_stuck(vs, fuel, i, j - 1);
        assert(vs.take(j).drop_last() =~= vs.take(j - 1));
    }
}

fn new_component(e: DocumentElement) -> (r: DocumentComponent)
    ensures
        r@ == new_comp(e@),
{
    let r = DocumentComponent { element: e, children: Vec::new() };
    proof {
        assert(dcs_v(r.children@) =~= Seq::<ComponentV>::empty());
    }
    r
}

fn opt_string(o: Option<Vec<char>>) -> (r: Option<String>)
    ensures
        crate::document::opt_v(r) == opt_chars(o),
{
    match o {
        Some(v) => Some(string_of(&v)),
        None => None,
    }
}

fn zk_parse_exec(text: &Vec<char>, fuel: usize) -> (r: Result<Vec<DocumentComponent>, ParseError>)
    requires
        !(zk_parse(text@, fuel as nat) is Panics),
    ensures
        match r {
            Ok(cs) => zk_parse(text@, fuel as nat) == Parsed::Done(dcs_v(cs@)),
            Err(_) => zk_parse(text@, fuel as nat) is Fails,
        },
    decreases fuel, 7int, 0int, 0int,
{
    let (fm, rem) = fm_split_exec(&lines_vec(text));
    let mds = match parse_md_text(string_of(&rem).as_str()) {
        Ok(m) => m,
        Err(_) => {
            return Err(ParseError::Malformed);
        },
    };
    let mut comps: Vec<DocumentComponent> = Vec::new();
    if fm.len() > 0 {
        let toks = crate::zk_lexer::zk_lex(&fm);
        match zk_frontmatter_exec(&toks, 0, fuel) {
            Ok((c, _)) => {
                comps.push(c);
            },
            Err(e) => {
                return Err(e);
            },
        }
    }
    proof {
        lemma_dcs_v_len(comps@);
        if fm@.len() > 0 {
            assert(dcs_v(comps@) =~= seq![comps@[0]@]);
        } else {
            assert(dcs_v(comps@) =~= Seq::<ComponentV>::empty());
        }
    }
    match zk_convert_exec(mds, fuel) {
        Ok(cs) => {
            let mut cs = cs;
            let ghost c0 = comps@;
            let ghost cs0 = cs@;
            comps.append(&mut cs);
            proof {
                crate::document::lemma_dcs_v_add(c0, cs0);
            }
            Ok(comps)
        },
        Err(e) => Err(e),
    }
}

pub proof fn lemma_md_pop(rr: Seq<MdComponent>, cv: Seq<MdCompV>, k: int)
    requires
        0 <= k,
        rr.len() > 0,
        k + rr.len() == cv.len(),
        md_comps_v(rr.reverse()) == cv.skip(k),
    ensures
        cv[k] == md_comp_v(rr.last()),
        md_comps_v(rr.drop_last().reverse()) == cv.skip(k + 1),
{
    crate::obsidian_parsing::lemma_md_pop(rr, cv, k);
}

fn zk_convert_exec(mds: Vec<MdComponent>, fuel: usize) -> (r: Result<Vec<DocumentComponent>, ParseError>)
    requires
        !(zk_convert(md_comps_v(mds@), fuel as nat) is Panics),
    ensures
        match r {
            Ok(cs) => zk_convert(md_comps_v(mds@), fuel as nat) == Parsed::Done(dcs_v(cs@)),
            Err(_) => zk_convert(md_comps_v(mds@), fuel as nat) is Fails,
        },
    decreases fuel, 6int, 0int, 0int,
{
    let ghost cv = md_comps_v(mds@);
    let ghost n = mds@.len();
    let mut rest = reversed(mds);
    let mut acc: Vec<DocumentComponent> = Vec::new();
    proof {
        assert(cv.take(0) =~= Seq::<MdCompV>::empty());
        assert(dcs_v(acc@) =~= Seq::<ComponentV>::empty());
    }
    while rest.len() > 0
        invariant
            rest@.len() <= n,
            n == cv.len(),
            cv == md_comps_v(mds@),
            md_comps_v(rest@.reverse()) == cv.skip(n - rest@.len()),
            zk_convert(cv.take(n - rest@.len()), fuel as nat) == Parsed::Done(dcs_v(acc@)),
            !(zk_convert(cv, fuel as nat) is Panics),
        decreases rest.len(),
    {
        let ghost k = n - rest@.len();
        let ghost rr = rest@;
        let c = rest.pop().unwrap();
        proof {
            lemma_md_pop(rr, cv, k);
            assert(cv.take(k + 1).drop_last() =~= cv.take(k));
            assert(cv.take(n as int) =~= cv);
            if !(zk_convert(cv.take(k + 1), fuel as nat) is Done) {
                lemma_zk_convert_stuck(cv, fuel as nat, k + 1, n as int);
            }
            assert(cv.take(k + 1) =~= cv.take(k).push(md_comp_v(c)));
        }
        match zk_convert_one(&mut acc, c, fuel, Ghost(cv.take(k))) {
            Ok(()) => {},
            Err(e) => {
                proof {
                    assert(zk_convert(cv.take(k + 1), fuel as nat) is Fails);
                    lemma_zk_convert_stuck(cv, fuel as nat, k + 1, n as int);
                }
                return Err(e);
            },
        }
    }
    proof {
        assert(cv.take(n as int) =~= cv);
    }
    Ok(acc)
}

fn zk_convert_one(acc: &mut Vec<DocumentComponent>, c: MdComponent, fuel: usize, Ghost(prefix): Ghost<Seq<MdCompV>>) -> (r: Result<(), ParseError>)
    requires
        zk_convert(prefix, fuel as nat) == Parsed::Done(dcs_v(old(acc)@)),
        !(zk_convert(prefix.push(md_comp_v(c)), fuel as nat) is Panics),
    ensures
        r is Ok ==> zk_convert(prefix.push(md_comp_v(c)), fuel as nat) == Parsed::Done(dcs_v(final(acc)@)),
        r is Err ==> zk_convert(prefix.push(md_comp_v(c)), fuel as nat) is Fails,
    decreases fuel, 5int, 0int, 0int,
{
    proof {
        assert(prefix.push(md_comp_v(c)).drop_last() =~= prefix);
    }
    match c {
        MdComponent::Heading(level, t) => {
            let comp = new_component(DocumentElement::Heading(level as u16, t));
            proof {
                crate::obsidian_parsing::lemma_dcs_v_push(acc@, comp);
            }
            acc.push(comp);
            Ok(())
        },
        MdComponent::Text(t) => {
            let tv = chars_of(t.as_str());
            match zk_inner_exec(&tv, fuel) {
                Ok(cs) => {
                    let mut cs = cs;
                    let ghost cs0 = cs@;
                    let ghost acc0 = acc@;
                    acc.append(&mut cs);
                    proof {
                        crate::document::lemma_dcs_v_add(acc0, cs0);
                    }
                    Ok(())
                },
                Err(e) => Err(e),
            }
        },
        MdComponent::List(ls, term) => {
            match zk_les_exec(&ls, fuel) {
                Ok(les) => {
                    let comp = new_component(DocumentElement::List(les, term));
                    proof {
                        crate::obsidian_parsing::lemma_dcs_v_push(acc@, comp);
                    }
                    acc.push(comp);
                    Ok(())
                },
                Err(e) => Err(e),
            }
        },
    }
}

fn zk_les_exec(ls: &Vec<ListElement>, fuel: usize) -> (r: Result<Vec<ListElem>, ParseError>)
    requires
        !(zk_les(md_les_v(ls@), fuel as nat) is Panics),
    ensures
        match r {
            Ok(les) => zk_les(md_les_v(ls@), fuel as nat) == Parsed::Done(les_v(les@)),
            Err(_) => zk_les(md_les_v(ls@), fuel as nat) is Fails,
        },
    decreases fuel, 3int, 2 * md_sizes(md_les_v(ls@)) + 1, 0int,
{
    let ghost mv = md_les_v(ls@);
    proof {
        lemma_md_les_v(ls@);
        crate::obsidian_parsing::lemma_md_sizes(mv);
    }
    let mut acc: Vec<ListElem> = Vec::new();
    let mut i: usize = 0;
    proof {
        assert(mv.take(0) =~= Seq::<MdLeV>::empty());
        assert(les_v(acc@) =~= Seq::<ListElemV>::empty());
    }
    while i < ls.len()
        invariant
            i <= ls@.len(),
            mv == md_les_v(ls@),
            mv.len() == ls@.len(),
            forall|k: int| 0 <= k < ls@.len() ==> #[trigger] mv[k] == md_le_v(ls@[k]),
            forall|k: int| 0 <= k < ls@.len() ==> md_size(#[trigger] mv[k]) <= md_sizes(mv),
            zk_les(mv.take(i as int), fuel as nat) == Parsed::Done(les_v(acc@)),
            !(zk_les(mv, fuel as nat) is Panics),
        decreases ls.len() - i,
    {
        proof {
            assert(mv.take(i + 1).drop_last() =~= mv.take(i as int));
            assert(mv.take(i + 1).last() == mv[i as int]);
            assert(mv.take(ls@.len() as int) =~= mv);
            if !(zk_les(mv.take(i + 1), fuel as nat) is Done) {
                lemma_zk_les_stuck(mv, fuel as nat, i + 1, ls@.len() as int);
            }
            assert(md_size(mv[i as int]) <= md_sizes(mv));
        }
        match zk_le_exec(&ls[i], fuel) {
            Ok(le) => {
                let ghost a0 = acc@;
                acc.push(le);
                proof {
                    assert(acc@.drop_last() =~= a0);
                }
            },
            Err(e) => {
                return Err(e);
            },
        }
        i = i + 1;
    }
    proof {
        assert(mv.take(ls@.len() as int) =~= mv);
    }
    Ok(acc)
}

fn zk_le_exec(l: &ListElement, fuel: usize) -> (r: Result<ListElem, ParseError>)
    requires
        !(zk_le(md_le_v(*l), fuel as nat) is Panics),
    ensures
        match r {
            Ok(le) => zk_le(md_le_v(*l), fuel as nat) == Parsed::Done(le@),
            Err(_) => zk_le(md_le_v(*l), fuel as nat) is Fails,
        },
    decreases fuel, 3int, 2 * md_size(md_le_v(*l)), 0int,
{
    let tv = chars_of(l.text.as_str());
    match zk_inner_exec(&tv, fuel) {
        Ok(cs) => match zk_les_exec(&l.children, fuel) {
            Ok(children) => Ok(ListElem { contents: ParsedDocument::ParsedText(cs), children }),
            Err(e) => Err(e),
        },
        Err(e) => Err(e),
    }
}

fn link_regex_exec() -> (r: String)
    ensures
        r@ == link_regex(),
{
    let mut v: Vec<char> = Vec::new();
    crate::text::push_str(&mut v, "^([^\\[\\]]*)");
    crate::text::push_str(&mut v, "\\]\\(");
    crate::text::push_str(&mut v, "([^()\\s]+)");
    crate::text::push_str(&mut v, "\\)");
    string_of(&v)
}

pub open spec fn loop_step(t: Seq<(ZkToken, Seq<char>)>, pos: int, r0: Seq<ComponentV>, b0: bool, fuel: nat, r: Result<usize, ParseError>, r1: Seq<ComponentV>, b1: bool) -> bool {
    match r {
        Ok(q) => pos < q <= t.len() && zk_loop(t, pos, r0, b0, fuel) == zk_loop(t, q as int, r1, b1, fuel),
        Err(_) => zk_loop(t, pos, r0, b0, fuel) is Fails,
    }
}

fn step_embed(toks: &Vec<(ZkToken, Vec<char>)>, pos: usize, res: &mut Vec<DocumentComponent>, blank: &mut bool, fuel: usize) -> (r: Result<usize, ParseError>)
    requires
        pos < toks.len(),
        toks@[pos as int].0 == ZkToken::EmbedStart,
        !(zk_loop(zv(toks@), pos as int, dcs_v(old(res)@), *old(blank), fuel as nat) is Panics),
    ensures
        loop_step(zv(toks@), pos as int, dcs_v(old(res)@), *old(blank), fuel as nat, r, dcs_v(final(res)@), *final(blank)),
{
    proof {
        assert(zv(toks@)[pos as int].0 == toks@[pos as int].0);
    }
    match zk_link_exec(toks, pos + 1) {
        Ok((name, sec, _, q)) => {
            if q <= pos || q > toks.len() {
                return Err(ParseError::Malformed);
            }
            let comp = new_component(DocumentElement::FileEmbed(MentionedFile::FileName(string_of(&name)), opt_string(sec)));
            proof {
                crate::obsidian_parsing::lemma_dcs_v_push(res@, comp);
            }
            res.push(comp);
            *blank = false;
            Ok(q)
        },
        Err(e) => Err(e),
    }
}

fn step_property(toks: &Vec<(ZkToken, Vec<char>)>, pos: usize, res: &mut Vec<DocumentComponent>, blank: &mut bool, fuel: usize) -> (r: Result<usize, ParseError>)
    requires
        pos < toks.len(),
        toks@[pos as int].0 == ZkToken::PropertyStart,
        *old(blank),
        !(zk_loop(zv(toks@), pos as int, dcs_v(old(res)@), *old(blank), fuel as nat) is Panics),
    ensures
        loop_step(zv(toks@), pos as int, dcs_v(old(res)@), *old(blank), fuel as nat, r, dcs_v(final(res)@), *final(blank)),
    decreases fuel, 1int, 9int, 0int,
{
    proof {
        assert(zv(toks@)[pos as int] == (toks@[pos as int].0, toks@[pos as int].1@));
    }
    let ghost t = zv(toks@);
    let ghost r0 = dcs_v(res@);
    let name = prop_name_exec(&toks[pos].1);
    let ghost nm = name@;
    let ghost spec_p = zk_property(t, pos + 1, nm, fuel as nat);
    proof {
        assert(zk_loop(t, pos as int, r0, true, fuel as nat) == match spec_p {
            Parsed::Done((prop, q)) => if q <= pos || q > t.len() {
                Parsed::Fails
            } else {
                zk_loop(t, q, r0.push(new_comp(ElementV::Properties(seq![prop]))), true, fuel as nat)
            },
            Parsed::Fails => Parsed::Fails,
            Parsed::Panics => Parsed::Panics,
        });
    }
    match zk_property_exec(toks, pos + 1, name, fuel) {
        Ok((prop, q)) => {
            if q <= pos || q > toks.len() {
                return Err(ParseError::Malformed);
            }
            let ghost pv = prop@;
            let mut v: Vec<Property> = Vec::new();
            v.push(prop);
            let comp = new_component(DocumentElement::Properties(v));
            proof {
                assert(props_v(v@) =~= seq![pv]);
                crate::obsidian_parsing::lemma_dcs_v_push(res@, comp);
                assert(comp@ == new_comp(ElementV::Properties(seq![pv])));
            }
            res.push(comp);
            Ok(q)
        },
        Err(e) => Err(e),
    }
}

fn step_adnote(toks: &Vec<(ZkToken, Vec<char>)>, pos: usize, res: &mut Vec<DocumentComponent>, blank: &mut bool, fuel: usize) -> (r: Result<usize, ParseError>)
    requires
        pos < toks.len(),
        toks@[pos as int].0 == ZkToken::AdNoteStart,
        !(zk_loop(zv(toks@), pos as int, dcs_v(old(res)@), *old(blank), fuel as nat) is Panics),
    ensures
        loop_step(zv(toks@), pos as int, dcs_v(old(res)@), *old(blank), fuel as nat, r, dcs_v(final(res)@), *final(blank)),
    decreases fuel, 1int, 9int, 0int,
{
    proof {
        assert(zv(toks@)[pos as int].0 == toks@[pos as int].0);
    }
    match zk_adnote_exec(toks, pos + 1, fuel) {
        Ok((e, q)) => {
            if q <= pos || q > toks.len() {
                return Err(ParseError::Malformed);
            }
            let comp = new_component(e);
            proof {
                crate::obsidian_parsing::lemma_dcs_v_push(res@, comp);
            }
            res.push(comp);
            *blank = false;
            Ok(q)
        },
        Err(e) => Err(e),
    }
}

fn step_frontmatter(toks: &Vec<(ZkToken, Vec<char>)>, pos: usize, res: &mut Vec<DocumentComponent>, blank: &mut bool, fuel: usize) -> (r: Result<usize, ParseError>)
    requires
        pos < toks.len(),
        toks@[pos as int].0 == ZkToken::FrontmatterDelim,
        !(zk_loop(zv(toks@), pos as int, dcs_v(old(res)@), *old(blank), fuel as nat) is Panics),
    ensures
        loop_step(zv(toks@), pos as int, dcs_v(old(res)@), *old(blank), fuel as nat, r, dcs_v(final(res)@), *final(blank)),
    decreases fuel, 1int, 9int, 0int,
{
    proof {
        assert(zv(toks@)[pos as int].0 == toks@[pos as int].0);
    }
    match zk_frontmatter_exec(toks, pos + 1, fuel) {
        Ok((c, q)) => {
            if q <= pos || q > toks.len() {
                return Err(ParseError::Malformed);
            }
            proof {
                crate::obsidian_parsing::lemma_dcs_v_push(res@, c);
            }
            res.push(c);
            Ok(q)
        },
        Err(e) => Err(e),
    }
}

fn step_bracket(toks: &Vec<(ZkToken, Vec<char>)>, pos: usize, res: &mut Vec<DocumentComponent>, blank: &mut bool, fuel: usize, pattern: &String) -> (r: Result<usize, ParseError>)
    requires
        pos < toks.len(),
        toks@[pos as int].0 == ZkToken::Bracket,
        pattern@ == link_regex(),
        !(zk_loop(zv(toks@), pos as int, dcs_v(old(res)@), *old(blank), fuel as nat) is Panics),
    ensures
        loop_step(zv(toks@), pos as int, dcs_v(old(res)@), *old(blank), fuel as nat, r, dcs_v(final(res)@), *final(blank)),
{
    proof {
        assert(zv(toks@)[pos as int].0 == toks@[pos as int].0);
    }
    let rest = rest_text_exec(toks, pos + 1);
    let rs = string_of(&rest);
    match regex_link_captures(pattern.as_str(), rs.as_str()) {
        Some((n, tg, w)) => {
            let wl = chars_of(w.as_str()).len();
            match consume_exec(toks, pos + 1, wl) {
                Ok(q) => {
                    if q <= pos || q > toks.len() {
                        return Err(ParseError::Malformed);
                    }
                    let comp = new_component(DocumentElement::FileLink(MentionedFile::FileName(tg), None, Some(n)));
                    proof {
                        crate::obsidian_parsing::lemma_dcs_v_push(res@, comp);
                    }
                    res.push(comp);
                    *blank = false;
                    Ok(q)
                },
                Err(e) => Err(e),
            }
        },
        None => {
            let br = vec!['['];
            let comp = new_component(DocumentElement::Text(string_of(&br)));
            proof {
                assert(br@ == seq!['[']);
                crate::obsidian_parsing::lemma_dcs_v_push(res@, comp);
            }
            res.push(comp);
            *blank = false;
            Ok(pos + 1)
        },
    }
}

fn step_plain(toks: &Vec<(ZkToken, Vec<char>)>, pos: usize, res: &mut Vec<DocumentComponent>, blank: &mut bool, fuel: usize) -> (r: Result<usize, ParseError>)
    requires
        pos < toks.len(),
        toks@[pos as int].0 != ZkToken::Error,
        toks@[pos as int].0 != ZkToken::EmbedStart,
        toks@[pos as int].0 != ZkToken::AdNoteStart,
        toks@[pos as int].0 != ZkToken::FrontmatterDelim,
        toks@[pos as int].0 != ZkToken::Bracket,
        !(toks@[pos as int].0 == ZkToken::PropertyStart && *old(blank)),
    ensures
        loop_step(zv(toks@), pos as int, dcs_v(old(res)@), *old(blank), fuel as nat, r, dcs_v(final(res)@), *final(blank)),
{
    let k = toks[pos].0;
    proof {
        assert(zv(toks@)[pos as int] == (k, toks@[pos as int].1@));
    }
    let comp = new_component(DocumentElement::Text(string_of(&toks[pos].1)));
    proof {
        crate::obsidian_parsing::lemma_dcs_v_push(res@, comp);
    }
    res.push(comp);
    if k == ZkToken::Newline {
        *blank = true;
    } else if !(k == ZkToken::SingleHash || k == ZkToken::Space || k == ZkToken::CarriageReturn
        || k == ZkToken::ListStart || k == ZkToken::Unicode || k == ZkToken::PropertyStart
        || k == ZkToken::TripleBackQuote || k == ZkToken::OpenDoubleBraces
        || k == ZkToken::ClosingDoubleBraces) {
        *blank = false;
    }
    Ok(pos + 1)
}

fn zk_inner_exec(text: &Vec<char>, fuel: usize) -> (r: Result<Vec<DocumentComponent>, ParseError>)
    requires
        !(zk_inner(text@, fuel as nat) is Panics),
    ensures
        match r {
            Ok(cs) => zk_inner(text@, fuel as nat) == Parsed::Done(dcs_v(cs@)),
            Err(_) => zk_inner(text@, fuel as nat) is Fails,
        },
    decreases fuel, 2int, 0int, 0int,
{
    let s = substitute_vec(text);
    let toks = crate::zk_lexer::zk_lex(&s);
    let ghost t = zv(toks@);
    let pattern = link_regex_exec();
    let mut res: Vec<DocumentComponent> = Vec::new();
    let mut blank = true;
    let mut pos: usize = 0;
    proof {
        assert(dcs_v(res@) =~= Seq::<ComponentV>::empty());
    }
    loop
        invariant
            t == zv(toks@),
            t == zk_tokens(substituted(text@)),
            pattern@ == link_regex(),
            pos <= toks.len(),
            zk_inner(text@, fuel as nat) == zk_loop(t, pos as int, dcs_v(res@), blank, fuel as nat),
            !(zk_inner(text@, fuel as nat) is Panics),
        decreases toks.len() - pos,
    {
        if pos >= toks.len() {
            return Ok(collapse_text(res.as_slice()));
        }
        let k = toks[pos].0;
        if k == ZkToken::Error {
            proof {
                assert(t[pos as int].0 == k);
            }
            return Err(ParseError::Malformed);
        }
        let step = if k == ZkToken::EmbedStart {
            step_embed(&toks, pos, &mut res, &mut blank, fuel)
        } else if k == ZkToken::PropertyStart && blank {
            step_property(&toks, pos, &mut res, &mut blank, fuel)
        } else if k == ZkToken::AdNoteStart {
            step_adnote(&toks, pos, &mut res, &mut blank, fuel)
        } else if k == ZkToken::FrontmatterDelim {
            step_frontmatter(&toks, pos, &mut res, &mut blank, fuel)
        } else if k == ZkToken::Bracket {
            step_bracket(&toks, pos, &mut res, &mut blank, fuel, &pattern)
        } else {
            step_plain(&toks, pos, &mut res, &mut blank, fuel)
        };
        match step {
            Ok(q) => {
                pos = q;
            },
            Err(e) => {
                return Err(e);
            },
        }
    }
}

fn zk_property_exec(toks: &Vec<(ZkToken, Vec<char>)>, p: usize, name: Vec<char>, fuel: usize) -> (r: Result<(Property, usize), ParseError>)
    requires
        !(zk_property(zv(toks@), p as int, name@, fuel as nat) is Panics),
    ensures
        match r {
            Ok((prop, q)) => zk_property(zv(toks@), p as int, name@, fuel as nat) == Parsed::Done((prop@, q as int)),
            Err(_) => zk_property(zv(toks@), p as int, name@, fuel as nat) is Fails,
        },
    decreases fuel, 1int, 8int, 0int,
{
    let (t, q) = prop_value_text_exec(toks, p)?;
    let v = trim_vec(&t);
    let nm = string_of(&name);
    if v.len() == 0 {
        let prop = Property { name: nm, prop_type: PropType::Single, values: Vec::new() };
        proof {
            assert(pvs_v(prop.values@) =~= Seq::<PropValueV>::empty());
        }
        Ok((prop, q))
    } else if v[0] == '[' && v[v.len() - 1] == ']' {
        let inner = crate::text::slice_of(&v, 1, v.len() - 1);
        let vals = comma_values_exec(&inner);
        let pvs = zk_values_exec(&vals, fuel)?;
        Ok((Property { name: nm, prop_type: PropType::CompactList, values: pvs }, q))
    } else {
        let vals = vec![v];
        proof {
            assert(views(vals@) =~= seq![vals@[0]@]);
        }
        let pvs = zk_values_exec(&vals, fuel)?;
        Ok((Property { name: nm, prop_type: PropType::Single, values: pvs }, q))
    }
}

fn zk_values_exec(vs: &Vec<Vec<char>>, fuel: usize) -> (r: Result<Vec<PropValue>, ParseError>)
    requires
        !(zk_values(views(vs@), fuel as nat) is Panics),
    ensures
        match r {
            Ok(pvs) => zk_values(views(vs@), fuel as nat) == Parsed::Done(pvs_v(pvs@)),
            Err(_) => zk_values(views(vs@), fuel as nat) is Fails,
        },
    decreases fuel, 1int, 6int, 0int,
{
    let ghost vv = views(vs@);
    let mut acc: Vec<PropValue> = Vec::new();
    let mut i: usize = 0;
    proof {
        assert(vv.take(0) =~= Seq::<Seq<char>>::empty());
        assert(pvs_v(acc@) =~= Seq::<PropValueV>::empty());
    }
    while i < vs.len()
        invariant
            i <= vs@.len(),
            vv == views(vs@),
            zk_values(vv.take(i as int), fuel as nat) == Parsed::Done(pvs_v(acc@)),
            !(zk_values(vv, fuel as nat) is Panics),
        decreases vs.len() - i,
    {
        proof {
            assert(vv.take(i + 1).drop_last() =~= vv.take(i as int));
            assert(vv.take(i + 1).last() == vs@[i as int]@);
            assert(vv.take(vs@.len() as int) =~= vv);
            if !(zk_values(vv.take(i + 1), fuel as nat) is Done) {
                lemma_zk_values_stuck(vv, fuel as nat, i + 1, vs@.len() as int);
            }
        }
        match zk_value_exec(&vs[i], fuel) {
            Ok(v) => {
                let ghost a0 = acc@;
                acc.push(v);
                proof {
                    assert(pvs_v(acc@) =~= pvs_v(a0).push(v@));
                }
            },
            Err(e) => {
                proof {
                    lemma_zk_values_stuck(vv, fuel as nat, i + 1, vs@.len() as int);
                }
                return Err(e);
            },
        }
        i = i + 1;
    }
    proof {
        assert(vv.take(vs@.len() as int) =~= vv);
    }
    Ok(acc)
}

fn zk_value_exec(v: &Vec<char>, fuel: usize) -> (r: Result<PropValue, ParseError>)
    requires
        !(zk_value(v@, fuel as nat) is Panics),
    ensures
        match r {
            Ok(pv) => zk_value(v@, fuel as nat) == Parsed::Done(pv@),
            Err(_) => zk_value(v@, fuel as nat) is Fails,
        },
    decreases fuel, 1int, 5int, 0int,
{
    if fuel == 0 {
        return Err(ParseError::Malformed);
    }
    match zk_parse_exec(v, fuel - 1) {
        Ok(cs) => {
            proof {
                lemma_dcs_v_len(cs@);
            }
            if cs.len() == 1 {
                match &cs[0].element {
                    DocumentElement::FileLink(mf, sec, ren) => {
                        return Ok(PropValue::FileLink(mf.copy(), crate::document::copy_opt_string(sec), crate::document::copy_opt_string(ren)));
                    },
                    _ => {},
                }
            }
            Ok(PropValue::String(string_of(v)))
        },
        Err(_) => Ok(PropValue::String(string_of(v))),
    }
}

fn zk_frontmatter_exec(toks: &Vec<(ZkToken, Vec<char>)>, p: usize, fuel: usize) -> (r: Result<(DocumentComponent, usize), ParseError>)
    requires
        !(zk_frontmatter(zv(toks@), p as int, fuel as nat) is Panics),
    ensures
        match r {
            Ok((c, q)) => zk_frontmatter(zv(toks@), p as int, fuel as nat) == Parsed::Done((c@, q as int)),
            Err(_) => zk_frontmatter(zv(toks@), p as int, fuel as nat) is Fails,
        },
    decreases fuel, 1int, 8int, 0int,
{
    let (t, q) = fm_text_exec(toks, p)?;
    let props = zk_fm_props_exec(&lines_vec(&t), fuel)?;
    Ok((new_component(DocumentElement::Frontmatter(props)), q))
}

pub open spec fn prepend_props(acc: Seq<PropertyV>, r: Parsed<Seq<PropertyV>>) -> Parsed<Seq<PropertyV>> {
    match r {
        Parsed::Done(rest) => Parsed::Done(acc + rest),
        Parsed::Fails => Parsed::Fails,
        Parsed::Panics => Parsed::Panics,
    }
}

fn zk_fm_props_exec(ls: &Vec<Vec<char>>, fuel: usize) -> (r: Result<Vec<Property>, ParseError>)
    requires
        !(zk_fm_props(views(ls@), 0, fuel as nat) is Panics),
    ensures
        match r {
            Ok(props) => zk_fm_props(views(ls@), 0, fuel as nat) == Parsed::Done(props_v(props@)),
            Err(_) => zk_fm_props(views(ls@), 0, fuel as nat) is Fails,
        },
    decreases fuel, 1int, 7int, 0int,
{
    let ghost lv = views(ls@);
    let mut acc: Vec<Property> = Vec::new();
    let mut pos: usize = 0;
    proof {
        assert(props_v(acc@) =~= Seq::<PropertyV>::empty());
        assert(prepend_props(props_v(acc@), zk_fm_props(lv, 0, fuel as nat)) =~= zk_fm_props(lv, 0, fuel as nat)) by {
            match zk_fm_props(lv, 0, fuel as nat) {
                Parsed::Done(x) => {
                    assert(Seq::<PropertyV>::empty() + x =~= x);
                },
                _ => {},
            }
        }
    }
    while pos < ls.len()
        invariant
            lv == views(ls@),
            pos <= ls.len(),
            zk_fm_props(lv, 0, fuel as nat) == prepend_props(props_v(acc@), zk_fm_props(lv, pos as int, fuel as nat)),
            !(zk_fm_props(lv, 0, fuel as nat) is Panics),
        decreases ls.len() - pos,
    {
        let line = &ls[pos];
        proof {
            assert(lv[pos as int] == line@);
        }
        match index_of_exec(line, ':') {
            None => {
                pos = pos + 1;
            },
            Some(k) => {
                let n = line.len();
                let key = crate::text::slice_of(line, 0, k);
                let value = crate::text::slice_of(line, k + 1, n);
                proof {
                    assert(key@ =~= line@.take(k as int));
                    assert(value@ =~= line@.skip(k + 1));
                }
                let ghost a0 = props_v(acc@);
                if crate::text::is_blank_vec(&value) {
                    let (vals, p2) = list_vals_exec(ls, pos);
                    if p2 <= pos {
                        return Err(ParseError::Malformed);
                    }
                    let mut pvs: Vec<PropValue> = Vec::new();
                    let mut j: usize = 0;
                    while j < vals.len()
                        invariant
                            j <= vals.len(),
                            pvs_v(pvs@) == views(vals@).take(j as int).map_values(|x: Seq<char>| PropValueV::Str(x)),
                        decreases vals.len() - j,
                    {
                        let ghost pv0 = pvs_v(pvs@);
                        let item = PropValue::String(string_of(&vals[j]));
                        pvs.push(item);
                        proof {
                            assert(pvs_v(pvs@) =~= pv0.push(item@));
                            assert(views(vals@).take(j + 1).map_values(|x: Seq<char>| PropValueV::Str(x)) =~= views(vals@).take(j as int).map_values(|x: Seq<char>| PropValueV::Str(x)).push(PropValueV::Str(vals@[j as int]@)));
                        }
                        j = j + 1;
                    }
                    proof {
                        assert(views(vals@).take(vals.len() as int) =~= views(vals@));
                    }
                    let prop = Property { name: string_of(&key), prop_type: PropType::List, values: pvs };
                    acc.push(prop);
                    proof {
                        assert(props_v(acc@) =~= a0.push(prop@));
                        assert(prepend_props(a0, zk_fm_props(lv, pos as int, fuel as nat)) =~= prepend_props(props_v(acc@), zk_fm_props(lv, p2 as int, fuel as nat))) by {
                            match zk_fm_props(lv, p2 as int, fuel as nat) {
                                Parsed::Done(x) => {
                                    assert(a0 + (seq![prop@] + x) =~= props_v(acc@) + x);
                                },
                                _ => {},
                            }
                        }
                    }
                    pos = p2;
                } else {
                    let (vals, multi) = fm_values_exec(&value);
                    proof {
                        let cur = zk_values(views(vals@), fuel as nat);
                        if cur is Fails {
                            assert(zk_fm_props(lv, pos as int, fuel as nat) is Fails);
                        }
                        if cur is Panics {
                            assert(zk_fm_props(lv, pos as int, fuel as nat) is Panics);
                        }
                    }
                    let pvs = zk_values_exec(&vals, fuel)?;
                    let prop = Property {
                        name: string_of(&trim_vec(&key)),
                        prop_type: if multi {
                            PropType::CompactList
                        } else {
                            PropType::Single
                        },
                        values: pvs,
                    };
                    acc.push(prop);
                    proof {
                        assert(props_v(acc@) =~= a0.push(prop@));
                        assert(prepend_props(a0, zk_fm_props(lv, pos as int, fuel as nat)) =~= prepend_props(props_v(acc@), zk_fm_props(lv, pos + 1, fuel as nat))) by {
                            match zk_fm_props(lv, pos + 1, fuel as nat) {
                                Parsed::Done(x) => {
                                    assert(a0 + (seq![prop@] + x) =~= props_v(acc@) + x);
                                },
                                _ => {},
                            }
                        }
                    }
                    pos = pos + 1;
                }
            },
        }
    }
    proof {
        assert(props_v(acc@) + Seq::<PropertyV>::empty() =~= props_v(acc@));
    }
    Ok(acc)
}

fn zk_adnote_exec(toks: &Vec<(ZkToken, Vec<char>)>, p: usize, fuel: usize) -> (r: Result<(DocumentElement, usize), ParseError>)
    requires
        !(zk_adnote(zv(toks@), p as int, fuel as nat) is Panics),
    ensures
        match r {
            Ok((e, q)) => zk_adnote(zv(toks@), p as int, fuel as nat) == Parsed::Done((e@, q as int)),
            Err(_) => zk_adnote(zv(toks@), p as int, fuel as nat) is Fails,
        },
    decreases fuel, 1int, 8int, 0int,
{
    match zk_adnote_text_exec(toks, p) {
        Some((t, q)) => {
            let (props, body) = crate::obsidian_parsing::adnote_lines_pub(&lines_vec(&crate::obsidian_parsing::strip_newlines_pub(&t)));
            if fuel == 0 {
                return Err(ParseError::Malformed);
            }
            match zk_parse_exec(&body, fuel - 1) {
                Ok(cs) => Ok((DocumentElement::Admonition(cs, props), q)),
                Err(e) => Err(e),
            }
        },
        None => Err(ParseError::Malformed),
    }
}

// ---------------------------------------------------------------------------
// Reading a zk note.
/// What a zk text reads as (admonitions and property values nest fewer times than the text
/// has characters, so its length is enough fuel).
pub open spec fn zk_doc(text: Seq<char>) -> Parsed<Seq<ComponentV>> {
    zk_parse(text, text.len())
}

/// What a zk text without markdown structure reads as.
pub open spec fn zk_inner_doc(text: Seq<char>) -> Parsed<Seq<ComponentV>> {
    zk_inner(text, text.len())
}

proof fn lemma_zk_loop_merged(toks: Seq<(ZkToken, Seq<char>)>, pos: int, res: Seq<ComponentV>, blank: bool, fuel: nat)
    ensures
        zk_loop(toks, pos, res, blank, fuel) matches Parsed::Done(cs) ==> crate::collapse::texts_merged(cs),
    decreases toks.len() - pos,
{
    if pos < 0 || pos >= toks.len() {
        crate::collapse::collapse_merges_texts(res);
    } else {
        let (k, sl) = toks[pos];
        if k == ZkToken::Error {
        } else if k == ZkToken::EmbedStart {
            if let Parsed::Done((name, sec, _, q)) = zk_link_from(toks, pos + 1, link_init()) {
                if pos < q <= toks.len() {
                    lemma_zk_loop_merged(toks, q, res.push(new_comp(ElementV::FileEmbed(MentionedFileV::FileName(name), sec))), false, fuel);
                }
            }
        } else if k == ZkToken::PropertyStart && blank {
            if let Parsed::Done((prop, q)) = zk_property(toks, pos + 1, prop_name(sl), fuel) {
                if pos < q <= toks.len() {
                    lemma_zk_loop_merged(toks, q, res.push(new_comp(ElementV::Properties(seq![prop]))), blank, fuel);
                }
            }
        } else if k == ZkToken::AdNoteStart {
            if let Parsed::Done((e, q)) = zk_adnote(toks, pos + 1, fuel) {
                if pos < q <= toks.len() {
                    lemma_zk_loop_merged(toks, q, res.push(new_comp(e)), false, fuel);
                }
            }
        } else if k == ZkToken::FrontmatterDelim {
            if let Parsed::Done((c, q)) = zk_frontmatter(toks, pos + 1, fuel) {
                if pos < q <= toks.len() {
                    lemma_zk_loop_merged(toks, q, res.push(c), blank, fuel);
                }
            }
        } else if k == ZkToken::Bracket {
            match link_match(rest_text(toks, pos + 1)) {
                Some((n, t, w)) => {
                    if let Parsed::Done(q) = consume(toks, pos + 1, w.len() as int, 0) {
                        if pos < q <= toks.len() {
                            lemma_zk_loop_merged(toks, q, res.push(new_comp(ElementV::FileLink(MentionedFileV::FileName(t), None, Some(n)))), false, fuel);
                        }
                    }
                },
                None => {
                    lemma_zk_loop_merged(toks, pos + 1, res.push(zk_text(seq!['['])), false, fuel);
                },
            }
        } else if k == ZkToken::Newline {
            lemma_zk_loop_merged(toks, pos + 1, res.push(zk_text(sl)), true, fuel);
        } else {
            let keeps_blank = k == ZkToken::SingleHash || k == ZkToken::Space || k == ZkToken::CarriageReturn
                || k == ZkToken::ListStart || k == ZkToken::Unicode || k == ZkToken::PropertyStart
                || k == ZkToken::TripleBackQuote || k == ZkToken::OpenDoubleBraces
                || k == ZkToken::ClosingDoubleBraces;
            lemma_zk_loop_merged(toks, pos + 1, res.push(zk_text(sl)), if keeps_blank {
                blank
            } else {
                false
            }, fuel);
        }
    }
}

proof fn lemma_zk_parse_keys(text: Seq<char>, fuel: nat)
    ensures
        zk_parse(text, fuel) matches Parsed::Done(cs) ==> keys_once_all(cs),
    decreases fuel, 6int, 0int, 0int,
{
    let split = fm_split(lines(text));
    if let Parsed::Done(mds) = md_parse(split.rem) {
        lemma_zk_convert_keys(mds, fuel);
        assert(keys_once_all(Seq::<ComponentV>::empty()));
        if split.fm.len() > 0 {
            if let Parsed::Done((c, _)) = zk_frontmatter(zk_tokens(split.fm), 0, fuel) {
                lemma_zk_frontmatter_keys(zk_tokens(split.fm), 0, fuel);
                lemma_keys_once_push(Seq::empty(), c);
                assert(seq![c] =~= Seq::<ComponentV>::empty().push(c));
                if let Parsed::Done(cs) = zk_convert(mds, fuel) {
                    lemma_keys_once_concat(seq![c], cs);
                }
            }
        } else {
            if let Parsed::Done(cs) = zk_convert(mds, fuel) {
                lemma_keys_once_concat(Seq::empty(), cs);
            }
        }
    }
}

proof fn lemma_zk_frontmatter_keys(toks: Seq<(ZkToken, Seq<char>)>, p: int, fuel: nat)
    ensures
        zk_frontmatter(toks, p, fuel) matches Parsed::Done((c, _)) ==> keys_once_dc(c),
{
    if let Parsed::Done((t, q)) = fm_text(toks, p) {
        if let Parsed::Done(props) = zk_fm_props(lines(t), 0, fuel) {
            lemma_keys_once_plain(ElementV::Frontmatter(props));
        }
    }
}

proof fn lemma_zk_convert_keys(mds: Seq<MdCompV>, fuel: nat)
    ensures
        zk_convert(mds, fuel) matches Parsed::Done(cs) ==> keys_once_all(cs),
    decreases fuel, 4int, mds.len(), 0int,
{
    if mds.len() > 0 {
        lemma_zk_convert_keys(mds.drop_last(), fuel);
        if let Parsed::Done(acc) = zk_convert(mds.drop_last(), fuel) {
            match mds.last() {
                MdCompV::Heading(level, t) => {
                    lemma_keys_once_plain(ElementV::Heading(level as u16, t));
                    lemma_keys_once_push(acc, new_comp(ElementV::Heading(level as u16, t)));
                },
                MdCompV::Text(t) => {
                    lemma_zk_inner_keys(t, fuel);
                    if let Parsed::Done(cs) = zk_inner(t, fuel) {
                        lemma_keys_once_concat(acc, cs);
                    }
                },
                MdCompV::List(ls, term) => {
                    lemma_zk_les_keys(ls, fuel);
                    if let Parsed::Done(les) = zk_les(ls, fuel) {
                        let c = new_comp(ElementV::List(les, term));
                        assert(keys_once_all(c.children));
                        assert(keys_once_dc(c));
                        lemma_keys_once_push(acc, c);
                    }
                },
            }
        }
    }
}

proof fn lemma_zk_les_keys(ls: Seq<MdLeV>, fuel: nat)
    ensures
        zk_les(ls, fuel) matches Parsed::Done(out) ==> keys_once_les(out),
    decreases fuel, 3int, 2 * md_sizes(ls) + 1, 0int,
{
    if ls.len() > 0 {
        crate::obsidian_parsing::lemma_md_sizes(ls);
        lemma_zk_les_keys(ls.drop_last(), fuel);
        lemma_zk_le_keys(ls.last(), fuel);
        if let Parsed::Done(acc) = zk_les(ls.drop_last(), fuel) {
            if let Parsed::Done(l) = zk_le(ls.last(), fuel) {
                assert(acc.push(l).drop_last() =~= acc);
            }
        }
    }
}

proof fn lemma_zk_le_keys(l: MdLeV, fuel: nat)
    ensures
        zk_le(l, fuel) matches Parsed::Done(out) ==> keys_once_le(out),
    decreases fuel, 3int, 2 * md_size(l), 0int,
{
    lemma_zk_inner_keys(l.text, fuel);
    lemma_zk_les_keys(l.children, fuel);
}

proof fn lemma_zk_inner_keys(text: Seq<char>, fuel: nat)
    ensures
        zk_inner(text, fuel) matches Parsed::Done(cs) ==> keys_once_all(cs),
    decreases fuel, 1int, 0int, 0int,
{
    assert(keys_once_all(Seq::<ComponentV>::empty()));
    lemma_zk_loop_keys(zk_tokens(substituted(text)), 0, Seq::empty(), true, fuel);
}

proof fn lemma_zk_loop_keys(toks: Seq<(ZkToken, Seq<char>)>, pos: int, res: Seq<ComponentV>, blank: bool, fuel: nat)
    requires
        keys_once_all(res),
    ensures
        zk_loop(toks, pos, res, blank, fuel) matches Parsed::Done(cs) ==> keys_once_all(cs),
    decreases fuel, 0int, 9int, toks.len() - pos,
{
    if pos < 0 || pos >= toks.len() {
        crate::collapse::lemma_collapse_keys_once(res);
    } else {
        let (k, sl) = toks[pos];
        if k == ZkToken::Error {
        } else if k == ZkToken::EmbedStart {
            if let Parsed::Done((name, sec, _, q)) = zk_link_from(toks, pos + 1, link_init()) {
                if pos < q <= toks.len() {
                    let e = ElementV::FileEmbed(MentionedFileV::FileName(name), sec);
                    lemma_keys_once_plain(e);
                    lemma_keys_once_push(res, new_comp(e));
                    lemma_zk_loop_keys(toks, q, res.push(new_comp(e)), false, fuel);
                }
            }
        } else if k == ZkToken::PropertyStart && blank {
            if let Parsed::Done((prop, q)) = zk_property(toks, pos + 1, prop_name(sl), fuel) {
                if pos < q <= toks.len() {
                    let e = ElementV::Properties(seq![prop]);
                    lemma_keys_once_plain(e);
                    lemma_keys_once_push(res, new_comp(e));
                    lemma_zk_loop_keys(toks, q, res.push(new_comp(e)), blank, fuel);
                }
            }
        } else if k == ZkToken::AdNoteStart {
            lemma_zk_adnote_keys(toks, pos + 1, fuel);
            if let Parsed::Done((e, q)) = zk_adnote(toks, pos + 1, fuel) {
                if pos < q <= toks.len() {
                    assert(keys_once_all(new_comp(e).children));
                    lemma_keys_once_push(res, new_comp(e));
                    lemma_zk_loop_keys(toks, q, res.push(new_comp(e)), false, fuel);
                }
            }
        } else if k == ZkToken::FrontmatterDelim {
            lemma_zk_frontmatter_keys(toks, pos + 1, fuel);
            if let Parsed::Done((c, q)) = zk_frontmatter(toks, pos + 1, fuel) {
                if pos < q <= toks.len() {
                    lemma_keys_once_push(res, c);
                    lemma_zk_loop_keys(toks, q, res.push(c), blank, fuel);
                }
            }
        } else if k == ZkToken::Bracket {
            match link_match(rest_text(toks, pos + 1)) {
                Some((n, t, w)) => {
                    if let Parsed::Done(q) = consume(toks, pos + 1, w.len() as int, 0) {
                        if pos < q <= toks.len() {
                            let e = ElementV::FileLink(MentionedFileV::FileName(t), None, Some(n));
                            lemma_keys_once_plain(e);
                            lemma_keys_once_push(res, new_comp(e));
                            lemma_zk_loop_keys(toks, q, res.push(new_comp(e)), false, fuel);
                        }
                    }
                },
                None => {
                    lemma_keys_once_plain(ElementV::Text(seq!['[']));
                    lemma_keys_once_push(res, zk_text(seq!['[']));
                    lemma_zk_loop_keys(toks, pos + 1, res.push(zk_text(seq!['['])), false, fuel);
                },
            }
        } else if k == ZkToken::Newline {
            lemma_keys_once_plain(ElementV::Text(sl));
            lemma_keys_once_push(res, zk_text(sl));
            lemma_zk_loop_keys(toks, pos + 1, res.push(zk_text(sl)), true, fuel);
        } else {
            let keeps_blank = k == ZkToken::SingleHash || k == ZkToken::Space || k == ZkToken::CarriageReturn
                || k == ZkToken::ListStart || k == ZkToken::Unicode || k == ZkToken::PropertyStart
                || k == ZkToken::TripleBackQuote || k == ZkToken::OpenDoubleBraces
                || k == ZkToken::ClosingDoubleBraces;
            lemma_keys_once_plain(ElementV::Text(sl));
            lemma_keys_once_push(res, zk_text(sl));
            lemma_zk_loop_keys(toks, pos + 1, res.push(zk_text(sl)), if keeps_blank {
                blank
            } else {
                false
            }, fuel);
        }
    }
}

proof fn lemma_zk_adnote_keys(toks: Seq<(ZkToken, Seq<char>)>, p: int, fuel: nat)
    ensures
        zk_adnote(toks, p, fuel) matches Parsed::Done((e, _)) ==> keys_once_el(e),
    decreases fuel, 0int, 8int, toks.len() - p,
{
    if let Some((t, q)) = zk_adnote_text(toks, p) {
        crate::obsidian_parsing::admonition_keys_once(lines(strip_newlines(t)));
        if fuel > 0 {
            let (props, body) = adnote_lines(lines(strip_newlines(t)));
            lemma_zk_parse_keys(body, (fuel - 1) as nat);
        }
    }
}

/// Every admonition a zk note is read with gives each property key once.
pub proof fn zk_keys_once(text: Seq<char>)
    ensures
        zk_doc(text) matches Parsed::Done(cs) ==> keys_once_all(cs),
        zk_inner_doc(text) matches Parsed::Done(cs) ==> keys_once_all(cs),
{
    lemma_zk_parse_keys(text, text.len());
    lemma_zk_inner_keys(text, text.len());
}

/// A zk text without markdown structure, as read, never has two texts next to each other, nor
/// an empty text, nor a text with children.
pub proof fn zk_inner_texts_merged(text: Seq<char>)
    ensures
        zk_inner_doc(text) matches Parsed::Done(cs) ==> crate::collapse::texts_merged(cs),
{
    lemma_zk_loop_merged(zk_tokens(substituted(text)), 0, Seq::empty(), true, text.len());
}

/// Markdown links and file links among property values name a path as given; embeds name a
/// file in the note's directory, when there is one.
pub open spec fn zk_lookups(has_dir: bool) -> LookupModes {
    LookupModes {
        links: LookupMode::AsGiven,
        embeds: if has_dir {
            LookupMode::InDir
        } else {
            LookupMode::Keep
        },
        values: LookupMode::AsGiven,
    }
}

/// The result of a zk parse: the stated parse, with each mentioned file possibly found on
/// disk. It fails when the text does not read; with a directory it may also fail when the
/// note embeds a file by name (that file is looked up on disk, and one that exists but cannot
/// be given its canonical path fails the parse). On no other input does it fail.
pub open spec fn zk_result(spec: Parsed<Seq<ComponentV>>, file_dir: Option<String>, r: Result<ParsedDocument, ParseError>) -> bool {
    &&& (spec is Fails ==> r is Err)
    &&& match r {
        Ok(pd) => {
            &&& pd is ParsedText
            &&& spec matches Parsed::Done(cs) && resolved_doc(DocV::Text(cs), pd@, zk_lookups(file_dir is Some))
        },
        Err(_) => spec is Fails || (spec matches Parsed::Done(cs) && needs_disk_lookup(
            DocV::Text(cs),
            zk_lookups(file_dir is Some),
        )),
    }
}

fn zk_finish(cs: Vec<DocumentComponent>, file_dir: &Option<String>) -> (r: Result<ParsedDocument, ParseError>)
    ensures
        zk_result(Parsed::Done(dcs_v(cs@)), *file_dir, r),
{
    let embeds = match file_dir {
        Some(d) => Lookup::InDir(d.clone()),
        None => Lookup::Keep,
    };
    let lk = Lookups { links: Lookup::AsGiven, embeds, values: Lookup::AsGiven };
    resolve_mentions(ParsedDocument::ParsedText(cs), &lk)
}

/// Reads a zk note: its frontmatter, its markdown structure (headings, lists), and the text
/// between read for properties, links, embeds and admonitions.
pub fn parse_zk_text(text: &str, file_dir: &Option<String>) -> (r: Result<ParsedDocument, ParseError>)
    requires
        !(zk_doc(text@) is Panics),
    ensures
        zk_result(zk_doc(text@), *file_dir, r),
        r matches Ok(pd) ==> keys_once_doc(pd@),
{
    let t = chars_of(text);
    let r = match zk_parse_exec(&t, t.len()) {
        Ok(cs) => zk_finish(cs, file_dir),
        Err(e) => Err(e),
    };
    proof {
        zk_keys_once(text@);
        if r is Ok {
            if let Parsed::Done(cs) = zk_doc(text@) {
                crate::resolve::lemma_resolved_keys_doc(DocV::Text(cs), r->Ok_0@, zk_lookups(file_dir is Some));
            }
        }
    }
    r
}

/// Reads zk text for properties, links, embeds and admonitions (no markdown structure).
pub fn parse_zk_text_inner(text: &str, file_dir: &Option<String>) -> (r: Result<ParsedDocument, ParseError>)
    requires
        !(zk_inner_doc(text@) is Panics),
    ensures
        zk_result(zk_inner_doc(text@), *file_dir, r),
        r matches Ok(pd) ==> keys_once_doc(pd@),
{
    let t = chars_of(text);
    let r = match zk_inner_exec(&t, t.len()) {
        Ok(cs) => zk_finish(cs, file_dir),
        Err(e) => Err(e),
    };
    proof {
        zk_keys_once(text@);
        if r is Ok {
            if let Parsed::Done(cs) = zk_inner_doc(text@) {
                crate::resolve::lemma_resolved_keys_doc(DocV::Text(cs), r->Ok_0@, zk_lookups(file_dir is Some));
            }
        }
    }
    r
}

} // verus!
