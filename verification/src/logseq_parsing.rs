//! Reading LogSeq pages into the document model.
use vstd::prelude::*;
use crate::collapse::{collapse, collapse_text, comps_of};
use crate::document::{
    ComponentV, DocV, DocumentComponent, DocumentElement, ElementV, ListElem, ListElemV,
    MentionedFile, MentionedFileV, ParsedDocument, PropType, PropValue, PropValueV, Property,
    PropertyV, dcs_v, keys_once_all, keys_once_dc, keys_once_doc, keys_once_el, keys_once_le,
    keys_once_les, lemma_dcs_v_len, lemma_keys_once_concat, lemma_keys_once_plain,
    lemma_keys_once_push, les_v, props_v, pvs_v,
};
use crate::logseq_lexer::{LsToken, lemma_ls_prop_len, ls_lex, ls_tokens, ls_views};
use crate::md_parsing::{
    ListElement, MdCompV, MdComponent, MdLeV, Parsed, lemma_md_les_v, md_comp_v, md_comps_v, md_le_v,
    md_les_v, md_parse, parse_md_text, reversed,
};
use crate::obsidian_parsing::{
    ParseError, lemma_dcs_v_push, lemma_md_pop, lemma_md_sizes, md_size, md_sizes, new_comp,
};
use crate::text::{chars_of, push_all, slice_of, string_of, trim, trim_vec};
use crate::zk_parsing::{index_of, index_of_exec, prepend_p};

verus! {

// ---------------------------------------------------------------------------
// The parse, stated over the tokens.
/// A property of a block: its name and its one value.
pub open spec fn ls_prop(name: Seq<char>, v: Seq<char>) -> PropertyV {
    PropertyV { name, prop_type: PropType::Single, values: seq![PropValueV::Str(v)] }
}

/// A property value: the rest of its line, trimmed (blanks alone read as one space).
pub open spec fn ls_value(v: Seq<char>) -> Seq<char> {
    if v.len() > 0 && trim(v).len() == 0 {
        seq![' ']
    } else {
        trim(v)
    }
}

/// The text from token `p` up to the first `target` token, and the position after that token.
/// Without a `target` the text runs to the end, which is a failure when the token is required.
pub open spec fn ls_until(toks: Seq<(LsToken, Seq<char>)>, p: int, target: LsToken, required: bool) -> Parsed<(Seq<char>, int)>
    decreases toks.len() - p,
{
    if p < 0 {
        Parsed::Fails
    } else if p >= toks.len() {
        if required {
            Parsed::Fails
        } else {
            Parsed::Done((Seq::empty(), p))
        }
    } else if toks[p].0 == LsToken::Error {
        Parsed::Fails
    } else if toks[p].0 == target {
        Parsed::Done((Seq::empty(), p + 1))
    } else {
        prepend_p(toks[p].1, ls_until(toks, p + 1, target, required))
    }
}

/// A heading after its first `#`: (level, title, the line break after it, position after it).
/// The leading `#`s count the level; a level past `u16::MAX` overflows.
pub open spec fn ls_heading(toks: Seq<(LsToken, Seq<char>)>, p: int, start: bool, level: int, text: Seq<char>) -> Parsed<(int, Seq<char>, Seq<char>, int)>
    decreases toks.len() - p,
{
    if p < 0 || p >= toks.len() {
        Parsed::Done((level, text, Seq::empty(), p))
    } else {
        let (k, sl) = toks[p];
        if k == LsToken::Error {
            Parsed::Panics
        } else if k == LsToken::Newline {
            Parsed::Done((level, text, sl, p + 1))
        } else if k == LsToken::SingleHash && start {
            if level >= 0xffff {
                Parsed::Panics
            } else {
                ls_heading(toks, p + 1, true, level + 1, text)
            }
        } else {
            ls_heading(toks, p + 1, false, level, text + sl)
        }
    }
}

/// A code block from the text between its backquotes: the first line names the language.
pub open spec fn code_block(inner: Seq<char>) -> ElementV {
    let k = index_of(inner, '\n');
    if k >= 0 {
        ElementV::CodeBlock(trim(inner.skip(k + 1)), Some(inner.take(k)))
    } else {
        ElementV::CodeBlock(trim(inner), None)
    }
}

/// The contents of a quote: a quote that reads as a list of one element is that element.
pub open spec fn quote_comps(cs: Seq<ComponentV>) -> Seq<ComponentV> {
    if cs.len() == 1 {
        match cs[0].element {
            ElementV::List(les, _) => if les.len() == 1 {
                comps_of(les[0].contents)
            } else {
                cs
            },
            _ => cs,
        }
    } else {
        cs
    }
}

/// A LogSeq page: its markdown structure, each text read as a block, with neighbouring texts
/// merged. `fuel` bounds how deeply quotes nest.
pub open spec fn ls_parse(text: Seq<char>, fuel: nat) -> Parsed<Seq<ComponentV>>
    decreases fuel, 5int, 0int,
{
    match md_parse(text) {
        Parsed::Done(mds) => match ls_convert(mds, fuel) {
            Parsed::Done(cs) => Parsed::Done(collapse(cs)),
            Parsed::Fails => Parsed::Fails,
            Parsed::Panics => Parsed::Panics,
        },
        Parsed::Fails => Parsed::Fails,
        Parsed::Panics => Parsed::Panics,
    }
}

pub open spec fn ls_convert(mds: Seq<MdCompV>, fuel: nat) -> Parsed<Seq<ComponentV>>
    decreases fuel, 4int, mds.len(),
{
    if mds.len() == 0 {
        Parsed::Done(Seq::empty())
    } else {
        match ls_convert(mds.drop_last(), fuel) {
            Parsed::Done(acc) => match mds.last() {
                MdCompV::Heading(level, t) => Parsed::Done(acc.push(new_comp(ElementV::Heading(level as u16, t)))),
                MdCompV::Text(t) => match ls_block(t, fuel) {
                    Parsed::Done(cs) => Parsed::Done(acc + cs),
                    Parsed::Fails => Parsed::Fails,
                    Parsed::Panics => Parsed::Panics,
                },
                MdCompV::List(ls, term) => match ls_les(ls, fuel) {
                    Parsed::Done(les) => Parsed::Done(acc.push(new_comp(ElementV::List(les, term)))),
                    Parsed::Fails => Parsed::Fails,
                    Parsed::Panics => Parsed::Panics,
                },
            },
            Parsed::Fails => Parsed::Fails,
            Parsed::Panics => Parsed::Panics,
        }
    }
}

pub open spec fn ls_les(ls: Seq<MdLeV>, fuel: nat) -> Parsed<Seq<ListElemV>>
    decreases fuel, 3int, 2 * md_sizes(ls) + 1,
{
    if ls.len() == 0 {
        Parsed::Done(Seq::empty())
    } else {
        match ls_les(ls.drop_last(), fuel) {
            Parsed::Done(acc) => match ls_le(ls.last(), fuel) {
                Parsed::Done(l) => Parsed::Done(acc.push(l)),
                Parsed::Fails => Parsed::Fails,
                Parsed::Panics => Parsed::Panics,
            },
            Parsed::Fails => Parsed::Fails,
            Parsed::Panics => Parsed::Panics,
        }
    }
}

pub open spec fn ls_le(l: MdLeV, fuel: nat) -> Parsed<ListElemV>
    decreases fuel, 3int, 2 * md_size(l),
{
    match ls_block(l.text, fuel) {
        Parsed::Done(cs) => match ls_les(l.children, fuel) {
            Parsed::Done(children) => Parsed::Done(ListElemV { contents: DocV::Text(cs), children }),
            Parsed::Fails => Parsed::Fails,
            Parsed::Panics => Parsed::Panics,
        },
        Parsed::Fails => Parsed::Fails,
        Parsed::Panics => Parsed::Panics,
    }
}

/// A block: headings, properties, mentions, code blocks, quotes and text; its properties
/// come first, in one component.
pub open spec fn ls_block(text: Seq<char>, fuel: nat) -> Parsed<Seq<ComponentV>>
    decreases fuel, 1int, 0int,
{
    match ls_loop(ls_tokens(trim(text)), 0, Seq::empty(), Seq::empty(), true, fuel) {
        Parsed::Done((props, cs)) => Parsed::Done(
            if props.len() > 0 {
                seq![new_comp(ElementV::Properties(props))] + cs
            } else {
                cs
            },
        ),
        Parsed::Fails => Parsed::Fails,
        Parsed::Panics => Parsed::Panics,
    }
}

/// The block loop from token `pos` on; `nl` says whether a `#` starts a heading here.
pub open spec fn ls_loop(toks: Seq<(LsToken, Seq<char>)>, pos: int, props: Seq<PropertyV>, res: Seq<ComponentV>, nl: bool, fuel: nat) -> Parsed<(Seq<PropertyV>, Seq<ComponentV>)>
    decreases fuel, 0int, toks.len() - pos,
{
    if pos < 0 || pos >= toks.len() {
        Parsed::Done((props, res))
    } else {
        let (k, sl) = toks[pos];
        if k == LsToken::Error {
            Parsed::Fails
        } else if k == LsToken::SingleHash {
            if nl {
                match ls_heading(toks, pos + 1, true, 1, Seq::empty()) {
                    Parsed::Done((level, t, rem, q)) => if q <= pos || q > toks.len() {
                        Parsed::Fails
                    } else {
                        ls_loop(
                            toks,
                            q,
                            props,
                            res.push(new_comp(ElementV::Heading(level as u16, trim(t)))).push(new_comp(ElementV::Text(rem))),
                            nl,
                            fuel,
                        )
                    },
                    Parsed::Fails => Parsed::Fails,
                    Parsed::Panics => Parsed::Panics,
                }
            } else {
                ls_loop(toks, pos + 1, props, res.push(new_comp(ElementV::Text(seq!['#']))), nl, fuel)
            }
        } else if k == LsToken::Newline {
            ls_loop(toks, pos + 1, props, res.push(new_comp(ElementV::Text(sl))), true, fuel)
        } else if k == LsToken::PropertyStart {
            match ls_until(toks, pos + 1, LsToken::Newline, false) {
                Parsed::Done((v, q)) => if q <= pos || q > toks.len() {
                    Parsed::Fails
                } else {
                    ls_loop(toks, q, props.push(ls_prop(sl.take(sl.len() - 2), ls_value(v))), res, false, fuel)
                },
                Parsed::Fails => Parsed::Fails,
                Parsed::Panics => Parsed::Panics,
            }
        } else if k == LsToken::EmbedStart || k == LsToken::OpenDoubleBraces {
            match ls_until(toks, pos + 1, LsToken::ClosingDoubleBraces, true) {
                Parsed::Done((name, q)) => if q <= pos || q > toks.len() {
                    Parsed::Fails
                } else {
                    let e = if k == LsToken::EmbedStart {
                        ElementV::FileEmbed(MentionedFileV::FileName(name), None)
                    } else {
                        ElementV::FileLink(MentionedFileV::FileName(name), None, None)
                    };
                    ls_loop(toks, q, props, res.push(new_comp(e)), false, fuel)
                },
                Parsed::Fails => Parsed::Fails,
                Parsed::Panics => Parsed::Panics,
            }
        } else if k == LsToken::TripleBackQuote {
            match ls_until(toks, pos + 1, LsToken::TripleBackQuote, true) {
                Parsed::Done((inner, q)) => if q <= pos || q > toks.len() {
                    Parsed::Fails
                } else {
                    ls_loop(toks, q, props, res.push(new_comp(code_block(inner))), false, fuel)
                },
                Parsed::Fails => Parsed::Fails,
                Parsed::Panics => Parsed::Panics,
            }
        } else if k == LsToken::QuoteEnvStart {
            match ls_until(toks, pos + 1, LsToken::QuoteEnvEnd, true) {
                Parsed::Done((inner, q)) => if q <= pos || q > toks.len() || fuel == 0 {
                    Parsed::Fails
                } else {
                    match ls_parse(inner, (fuel - 1) as nat) {
                        Parsed::Done(cs) => ls_loop(
                            toks,
                            q,
                            props,
                            res.push(new_comp(ElementV::Admonition(quote_comps(cs), Seq::empty()))),
                            false,
                            fuel,
                        ),
                        Parsed::Fails => Parsed::Fails,
                        Parsed::Panics => Parsed::Panics,
                    }
                },
                Parsed::Fails => Parsed::Fails,
                Parsed::Panics => Parsed::Panics,
            }
        } else {
            ls_loop(toks, pos + 1, props, res.push(new_comp(ElementV::Text(sl))), nl, fuel)
        }
    }
}

/// What a LogSeq page reads as (quotes nest fewer times than the text has characters, so
/// its length is enough fuel).
pub open spec fn logseq_doc(text: Seq<char>) -> Parsed<Seq<ComponentV>> {
    ls_parse(text, text.len())
}

proof fn lemma_ls_parse_keys(text: Seq<char>, fuel: nat)
    ensures
        ls_parse(text, fuel) matches Parsed::Done(cs) ==> keys_once_all(cs),
    decreases fuel, 5int, 0int,
{
    if let Parsed::Done(mds) = md_parse(text) {
        lemma_ls_convert_keys(mds, fuel);
        if let Parsed::Done(cs) = ls_convert(mds, fuel) {
            crate::collapse::lemma_collapse_keys_once(cs);
        }
    }
}

proof fn lemma_ls_convert_keys(mds: Seq<MdCompV>, fuel: nat)
    ensures
        ls_convert(mds, fuel) matches Parsed::Done(cs) ==> keys_once_all(cs),
    decreases fuel, 4int, mds.len(),
{
    if mds.len() > 0 {
        lemma_ls_convert_keys(mds.drop_last(), fuel);
        if let Parsed::Done(acc) = ls_convert(mds.drop_last(), fuel) {
            match mds.last() {
                MdCompV::Heading(level, t) => {
                    lemma_keys_once_plain(ElementV::Heading(level as u16, t));
                    lemma_keys_once_push(acc, new_comp(ElementV::Heading(level as u16, t)));
                },
                MdCompV::Text(t) => {
                    lemma_ls_block_keys(t, fuel);
                    if let Parsed::Done(cs) = ls_block(t, fuel) {
                        lemma_keys_once_concat(acc, cs);
                    }
                },
                MdCompV::List(ls, term) => {
                    lemma_ls_les_keys(ls, fuel);
                    if let Parsed::Done(les) = ls_les(ls, fuel) {
                        let c = new_comp(ElementV::List(les, term));
                        assert(keys_once_all(c.children));
                        assert(keys_once_dc(c));
                        lemma_keys_once_push(acc, c);
                    }
                },
            }
        }
    }
}

proof fn lemma_ls_les_keys(ls: Seq<MdLeV>, fuel: nat)
    ensures
        ls_les(ls, fuel) matches Parsed::Done(out) ==> keys_once_les(out),
    decreases fuel, 3int, 2 * md_sizes(ls) + 1,
{
    if ls.len() > 0 {
        crate::obsidian_parsing::lemma_md_sizes(ls);
        lemma_ls_les_keys(ls.drop_last(), fuel);
        lemma_ls_le_keys(ls.last(), fuel);
        if let Parsed::Done(acc) = ls_les(ls.drop_last(), fuel) {
            if let Parsed::Done(l) = ls_le(ls.last(), fuel) {
                assert(acc.push(l).drop_last() =~= acc);
            }
        }
    }
}

proof fn lemma_ls_le_keys(l: MdLeV, fuel: nat)
    ensures
        ls_le(l, fuel) matches Parsed::Done(out) ==> keys_once_le(out),
    decreases fuel, 3int, 2 * md_size(l),
{
    lemma_ls_block_keys(l.text, fuel);
    lemma_ls_les_keys(l.children, fuel);
}

proof fn lemma_ls_block_keys(text: Seq<char>, fuel: nat)
    ensures
        ls_block(text, fuel) matches Parsed::Done(cs) ==> keys_once_all(cs),
    decreases fuel, 1int, 0int,
{
    assert(keys_once_all(Seq::<ComponentV>::empty()));
    lemma_ls_loop_keys(ls_tokens(trim(text)), 0, Seq::empty(), Seq::empty(), true, fuel);
    if let Parsed::Done((props, cs)) = ls_loop(ls_tokens(trim(text)), 0, Seq::empty(), Seq::empty(), true, fuel) {
        if props.len() > 0 {
            let c = new_comp(ElementV::Properties(props));
            lemma_keys_once_plain(ElementV::Properties(props));
            lemma_keys_once_push(Seq::empty(), c);
            assert(seq![c] =~= Seq::<ComponentV>::empty().push(c));
            lemma_keys_once_concat(seq![c], cs);
        }
    }
}

proof fn lemma_quote_keys(cs: Seq<ComponentV>)
    requires
        keys_once_all(cs),
    ensures
        keys_once_all(quote_comps(cs)),
{
    if cs.len() == 1 {
        if let ElementV::List(les, _) = cs[0].element {
            if les.len() == 1 {
                assert(cs.drop_last().len() == 0);
                assert(cs.last() == cs[0]);
                assert(keys_once_dc(cs[0]));
                assert(keys_once_el(cs[0].element));
                assert(keys_once_les(les));
                assert(les.drop_last().len() == 0);
                assert(les.last() == les[0]);
                assert(keys_once_le(les[0]));
                assert(keys_once_doc(les[0].contents));
            }
        }
    }
}

proof fn lemma_ls_loop_keys(toks: Seq<(LsToken, Seq<char>)>, pos: int, props: Seq<PropertyV>, res: Seq<ComponentV>, nl: bool, fuel: nat)
    requires
        keys_once_all(res),
    ensures
        ls_loop(toks, pos, props, res, nl, fuel) matches Parsed::Done((_, cs)) ==> keys_once_all(cs),
    decreases fuel, 0int, toks.len() - pos,
{
    if 0 <= pos < toks.len() {
        let (k, sl) = toks[pos];
        if k == LsToken::Error {
        } else if k == LsToken::SingleHash {
            if nl {
                if let Parsed::Done((level, t, rem, q)) = ls_heading(toks, pos + 1, true, 1, Seq::empty()) {
                    if pos < q <= toks.len() {
                        let c1 = new_comp(ElementV::Heading(level as u16, trim(t)));
                        let c2 = new_comp(ElementV::Text(rem));
                        lemma_keys_once_plain(c1.element);
                        lemma_keys_once_plain(c2.element);
                        lemma_keys_once_push(res, c1);
                        lemma_keys_once_push(res.push(c1), c2);
                        lemma_ls_loop_keys(toks, q, props, res.push(c1).push(c2), nl, fuel);
                    }
                }
            } else {
                lemma_keys_once_plain(ElementV::Text(seq!['#']));
                lemma_keys_once_push(res, new_comp(ElementV::Text(seq!['#'])));
                lemma_ls_loop_keys(toks, pos + 1, props, res.push(new_comp(ElementV::Text(seq!['#']))), nl, fuel);
            }
        } else if k == LsToken::Newline {
            lemma_keys_once_plain(ElementV::Text(sl));
            lemma_keys_once_push(res, new_comp(ElementV::Text(sl)));
            lemma_ls_loop_keys(toks, pos + 1, props, res.push(new_comp(ElementV::Text(sl))), true, fuel);
        } else if k == LsToken::PropertyStart {
            if let Parsed::Done((v, q)) = ls_until(toks, pos + 1, LsToken::Newline, false) {
                if pos < q <= toks.len() {
                    lemma_ls_loop_keys(toks, q, props.push(ls_prop(sl.take(sl.len() - 2), ls_value(v))), res, false, fuel);
                }
            }
        } else if k == LsToken::EmbedStart || k == LsToken::OpenDoubleBraces {
            if let Parsed::Done((name, q)) = ls_until(toks, pos + 1, LsToken::ClosingDoubleBraces, true) {
                if pos < q <= toks.len() {
                    let e = if k == LsToken::EmbedStart {
                        ElementV::FileEmbed(MentionedFileV::FileName(name), None)
                    } else {
                        ElementV::FileLink(MentionedFileV::FileName(name), None, None)
                    };
                    lemma_keys_once_plain(e);
                    lemma_keys_once_push(res, new_comp(e));
                    lemma_ls_loop_keys(toks, q, props, res.push(new_comp(e)), false, fuel);
                }
            }
        } else if k == LsToken::TripleBackQuote {
            if let Parsed::Done((inner, q)) = ls_until(toks, pos + 1, LsToken::TripleBackQuote, true) {
                if pos < q <= toks.len() {
                    lemma_keys_once_plain(code_block(inner));
                    lemma_keys_once_push(res, new_comp(code_block(inner)));
                    lemma_ls_loop_keys(toks, q, props, res.push(new_comp(code_block(inner))), false, fuel);
                }
            }
        } else if k == LsToken::QuoteEnvStart {
            if let Parsed::Done((inner, q)) = ls_until(toks, pos + 1, LsToken::QuoteEnvEnd, true) {
                if pos < q <= toks.len() && fuel > 0 {
                    lemma_ls_parse_keys(inner, (fuel - 1) as nat);
                    if let Parsed::Done(cs) = ls_parse(inner, (fuel - 1) as nat) {
                        lemma_quote_keys(cs);
                        let e = ElementV::Admonition(quote_comps(cs), Seq::empty());
                        assert(crate::document::keys_once(Seq::<(Seq<char>, Seq<char>)>::empty()));
                        assert(keys_once_el(e));
                        assert(keys_once_all(new_comp(e).children));
                        lemma_keys_once_push(res, new_comp(e));
                        lemma_ls_loop_keys(toks, q, props, res.push(new_comp(e)), false, fuel);
                    }
                }
            }
        } else {
            lemma_keys_once_plain(ElementV::Text(sl));
            lemma_keys_once_push(res, new_comp(ElementV::Text(sl)));
            lemma_ls_loop_keys(toks, pos + 1, props, res.push(new_comp(ElementV::Text(sl))), nl, fuel);
        }
    }
}

/// Every admonition a LogSeq page is read with (a quote) gives each property key once: it
/// has none.
pub proof fn logseq_keys_once(text: Seq<char>)
    ensures
        logseq_doc(text) matches Parsed::Done(cs) ==> keys_once_all(cs),
{
    lemma_ls_parse_keys(text, text.len());
}

/// A LogSeq page, as read, never has two texts next to each other, nor an empty text, nor a
/// text with children.
pub proof fn logseq_texts_merged(text: Seq<char>)
    ensures
        logseq_doc(text) matches Parsed::Done(cs) ==> crate::collapse::texts_merged(cs),
{
    if let Parsed::Done(mds) = md_parse(text) {
        if let Parsed::Done(cs) = ls_convert(mds, text.len()) {
            crate::collapse::collapse_merges_texts(cs);
        }
    }
}

// ---------------------------------------------------------------------------
// Executable parse.
pub open spec fn lv(toks: Seq<(LsToken, Vec<char>)>) -> Seq<(LsToken, Seq<char>)> {
    ls_views(toks)
}

fn ls_until_exec(toks: &Vec<(LsToken, Vec<char>)>, p: usize, target: LsToken, required: bool) -> (r: Result<(Vec<char>, usize), ParseError>)
    requires
        p <= toks.len(),
    ensures
        match r {
            Ok((t, q)) => ls_until(lv(toks@), p as int, target, required) == Parsed::Done((t@, q as int))
                && p <= q <= toks.len() && (required ==> p < q),
            Err(_) => ls_until(lv(toks@), p as int, target, required) is Fails,
        },
{
    let ghost t = lv(toks@);
    let mut acc: Vec<char> = Vec::new();
    let mut i = p;
    proof {
        assert(prepend_p(acc@, ls_until(t, p as int, target, required)) =~= ls_until(t, p as int, target, required)) by {
            match ls_until(t, p as int, target, required) {
                Parsed::Done((x, q)) => {
                    assert(acc@ + x =~= x);
                },
                _ => {},
            }
        }
    }
    loop
        invariant
            t == lv(toks@),
            p <= i <= toks.len(),
            ls_until(t, p as int, target, required) == prepend_p(acc@, ls_until(t, i as int, target, required)),
        decreases toks.len() - i,
    {
        if i >= toks.len() {
            if required {
                return Err(ParseError::Malformed);
            }
            proof {
                assert(acc@ + Seq::<char>::empty() =~= acc@);
            }
            return Ok((acc, i));
        }
        let k = toks[i].0;
        proof {
            assert(t[i as int] == (k, toks@[i as int].1@));
        }
        if k == LsToken::Error {
            return Err(ParseError::Malformed);
        }
        if k == target {
            proof {
                assert(acc@ + Seq::<char>::empty() =~= acc@);
            }
            return Ok((acc, i + 1));
        }
        let ghost before = acc@;
        push_all(&mut acc, &toks[i].1);
        proof {
            assert(prepend_p(before, ls_until(t, i as int, target, required)) =~= prepend_p(acc@, ls_until(t, i + 1, target, required))) by {
                match ls_until(t, i + 1, target, required) {
                    Parsed::Done((x, q)) => {
                        assert(before + (toks@[i as int].1@ + x) =~= acc@ + x);
                    },
                    _ => {},
                }
            }
        }
        i = i + 1;
    }
}

fn ls_heading_exec(toks: &Vec<(LsToken, Vec<char>)>, p: usize) -> (r: (u16, Vec<char>, Vec<char>, usize))
    requires
        p <= toks.len(),
        !(ls_heading(lv(toks@), p as int, true, 1, Seq::empty()) is Panics),
    ensures
        ls_heading(lv(toks@), p as int, true, 1, Seq::empty()) == Parsed::Done((r.0 as int, r.1@, r.2@, r.3 as int)),
        p <= r.3 <= toks.len(),
{
    let ghost t = lv(toks@);
    let mut i = p;
    let mut start = true;
    let mut level: u16 = 1;
    let mut text: Vec<char> = Vec::new();
    loop
        invariant
            t == lv(toks@),
            p <= i <= toks.len(),
            ls_heading(t, p as int, true, 1, Seq::empty()) == ls_heading(t, i as int, start, level as int, text@),
            !(ls_heading(t, p as int, true, 1, Seq::empty()) is Panics),
        decreases toks.len() - i,
    {
        if i >= toks.len() {
            return (level, text, Vec::new(), i);
        }
        let k = toks[i].0;
        proof {
            assert(t[i as int] == (k, toks@[i as int].1@));
        }
        if k == LsToken::Error {
            return (level, text, Vec::new(), i);
        }
        if k == LsToken::Newline {
            return (level, text, crate::text::copy_chars(&toks[i].1), i + 1);
        }
        if k == LsToken::SingleHash && start {
            if level >= 0xffff {
                return (level, text, Vec::new(), i);
            }
            level = level + 1;
        } else {
            start = false;
            push_all(&mut text, &toks[i].1);
        }
        i = i + 1;
    }
}

fn code_block_exec(inner: &Vec<char>) -> (r: DocumentElement)
    ensures
        r@ == code_block(inner@),
{
    match index_of_exec(inner, '\n') {
        Some(k) => {
            let lang = slice_of(inner, 0, k);
            let body = trim_vec(&slice_of(inner, k + 1, inner.len()));
            proof {
                assert(inner@.subrange(0, k as int) =~= inner@.take(k as int));
                assert(inner@.subrange(k + 1, inner.len() as int) =~= inner@.skip(k + 1));
            }
            DocumentElement::CodeBlock(string_of(&body), Some(string_of(&lang)))
        },
        None => DocumentElement::CodeBlock(string_of(&trim_vec(inner)), None),
    }
}

fn quote_comps_exec(cs: Vec<DocumentComponent>) -> (r: Vec<DocumentComponent>)
    ensures
        dcs_v(r@) == quote_comps(dcs_v(cs@)),
{
    proof {
        lemma_dcs_v_len(cs@);
    }
    if cs.len() == 1 {
        proof {
            assert(dcs_v(cs@)[0] == cs@[0]@) by {
                assert(cs@.drop_last() =~= Seq::<DocumentComponent>::empty());
            }
        }
        match &cs[0].element {
            DocumentElement::List(les, _) => {
                proof {
                    crate::document::lemma_les_v_len(les@);
                }
                if les.len() == 1 {
                    proof {
                        assert(les_v(les@)[0] == les@[0]@) by {
                            assert(les@.drop_last() =~= Seq::<ListElem>::empty());
                        }
                        crate::document::lemma_pd_v_comps(les@[0].contents);
                    }
                    return crate::document::copy_dcs(les[0].contents.components());
                }
            },
            _ => {},
        }
    }
    cs
}

pub open spec fn ls_step(t: Seq<(LsToken, Seq<char>)>, pos: int, p0: Seq<PropertyV>, r0: Seq<ComponentV>, n0: bool, fuel: nat, r: Result<usize, ParseError>, p1: Seq<PropertyV>, r1: Seq<ComponentV>, n1: bool) -> bool {
    match r {
        Ok(q) => pos < q <= t.len() && ls_loop(t, pos, p0, r0, n0, fuel) == ls_loop(t, q as int, p1, r1, n1, fuel),
        Err(_) => ls_loop(t, pos, p0, r0, n0, fuel) is Fails,
    }
}

fn step_hash(toks: &Vec<(LsToken, Vec<char>)>, pos: usize, props: &mut Vec<Property>, res: &mut Vec<DocumentComponent>, nl: &mut bool, fuel: usize) -> (r: Result<usize, ParseError>)
    requires
        pos < toks.len(),
        toks@[pos as int].0 == LsToken::SingleHash,
        !(ls_loop(lv(toks@), pos as int, props_v(old(props)@), dcs_v(old(res)@), *old(nl), fuel as nat) is Panics),
    ensures
        ls_step(lv(toks@), pos as int, props_v(old(props)@), dcs_v(old(res)@), *old(nl), fuel as nat, r, props_v(final(props)@), dcs_v(final(res)@), *final(nl)),
{
    proof {
        assert(lv(toks@)[pos as int].0 == toks@[pos as int].0);
    }
    if *nl {
        let (level, t, rem, q) = ls_heading_exec(toks, pos + 1);
        if q <= pos || q > toks.len() {
            return Err(ParseError::Malformed);
        }
        let h = new_component(DocumentElement::Heading(level, string_of(&trim_vec(&t))));
        proof {
            lemma_dcs_v_push(res@, h);
        }
        res.push(h);
        let c = new_component(DocumentElement::Text(string_of(&rem)));
        proof {
            lemma_dcs_v_push(res@, c);
        }
        res.push(c);
        Ok(q)
    } else {
        let hash = vec!['#'];
        let c = new_component(DocumentElement::Text(string_of(&hash)));
        proof {
            lemma_dcs_v_push(res@, c);
            assert(hash@ == seq!['#']);
        }
        res.push(c);
        Ok(pos + 1)
    }
}

fn step_prop(toks: &Vec<(LsToken, Vec<char>)>, pos: usize, props: &mut Vec<Property>, res: &mut Vec<DocumentComponent>, nl: &mut bool, fuel: usize) -> (r: Result<usize, ParseError>)
    requires
        pos < toks.len(),
        toks@[pos as int].0 == LsToken::PropertyStart,
        toks@[pos as int].1@.len() >= 2,
        !(ls_loop(lv(toks@), pos as int, props_v(old(props)@), dcs_v(old(res)@), *old(nl), fuel as nat) is Panics),
    ensures
        ls_step(lv(toks@), pos as int, props_v(old(props)@), dcs_v(old(res)@), *old(nl), fuel as nat, r, props_v(final(props)@), dcs_v(final(res)@), *final(nl)),
{
    proof {
        assert(lv(toks@)[pos as int] == (toks@[pos as int].0, toks@[pos as int].1@));
    }
    match ls_until_exec(toks, pos + 1, LsToken::Newline, false) {
        Ok((v, q)) => {
            if q <= pos || q > toks.len() {
                return Err(ParseError::Malformed);
            }
            let sl = &toks[pos].1;
            let name = slice_of(sl, 0, sl.len() - 2);
            let tv = trim_vec(&v);
            let value = if v.len() > 0 && tv.len() == 0 {
                vec![' ']
            } else {
                tv
            };
            proof {
                assert(sl@.subrange(0, sl@.len() - 2) =~= sl@.take(sl@.len() - 2));
                assert(value@ == ls_value(v@));
            }
            let mut vals: Vec<PropValue> = Vec::new();
            vals.push(PropValue::String(string_of(&value)));
            let prop = Property { name: string_of(&name), prop_type: PropType::Single, values: vals };
            let ghost p0 = props@;
            props.push(prop);
            proof {
                assert(pvs_v(vals@) =~= seq![PropValueV::Str(value@)]);
                assert(prop@ == ls_prop(name@, value@));
                assert(props_v(props@) =~= props_v(p0).push(prop@));
            }
            *nl = false;
            Ok(q)
        },
        Err(e) => Err(e),
    }
}

fn step_mention(toks: &Vec<(LsToken, Vec<char>)>, pos: usize, props: &mut Vec<Property>, res: &mut Vec<DocumentComponent>, nl: &mut bool, fuel: usize) -> (r: Result<usize, ParseError>)
    requires
        pos < toks.len(),
        toks@[pos as int].0 == LsToken::EmbedStart || toks@[pos as int].0 == LsToken::OpenDoubleBraces,
        !(ls_loop(lv(toks@), pos as int, props_v(old(props)@), dcs_v(old(res)@), *old(nl), fuel as nat) is Panics),
    ensures
        ls_step(lv(toks@), pos as int, props_v(old(props)@), dcs_v(old(res)@), *old(nl), fuel as nat, r, props_v(final(props)@), dcs_v(final(res)@), *final(nl)),
{
    proof {
        assert(lv(toks@)[pos as int].0 == toks@[pos as int].0);
    }
    match ls_until_exec(toks, pos + 1, LsToken::ClosingDoubleBraces, true) {
        Ok((name, q)) => {
            if q <= pos || q > toks.len() {
                return Err(ParseError::Malformed);
            }
            let mf = MentionedFile::FileName(string_of(&name));
            let e = if toks[pos].0 == LsToken::EmbedStart {
                DocumentElement::FileEmbed(mf, None)
            } else {
                DocumentElement::FileLink(mf, None, None)
            };
            let c = new_component(e);
            proof {
                lemma_dcs_v_push(res@, c);
            }
            res.push(c);
            *nl = false;
            Ok(q)
        },
        Err(e) => Err(e),
    }
}

fn step_code(toks: &Vec<(LsToken, Vec<char>)>, pos: usize, props: &mut Vec<Property>, res: &mut Vec<DocumentComponent>, nl: &mut bool, fuel: usize) -> (r: Result<usize, ParseError>)
    requires
        pos < toks.len(),
        toks@[pos as int].0 == LsToken::TripleBackQuote,
        !(ls_loop(lv(toks@), pos as int, props_v(old(props)@), dcs_v(old(res)@), *old(nl), fuel as nat) is Panics),
    ensures
        ls_step(lv(toks@), pos as int, props_v(old(props)@), dcs_v(old(res)@), *old(nl), fuel as nat, r, props_v(final(props)@), dcs_v(final(res)@), *final(nl)),
{
    proof {
        assert(lv(toks@)[pos as int].0 == toks@[pos as int].0);
    }
    match ls_until_exec(toks, pos + 1, LsToken::TripleBackQuote, true) {
        Ok((inner, q)) => {
            if q <= pos || q > toks.len() {
                return Err(ParseError::Malformed);
            }
            let c = new_component(code_block_exec(&inner));
            proof {
                lemma_dcs_v_push(res@, c);
            }
            res.push(c);
            *nl = false;
            Ok(q)
        },
        Err(e) => Err(e),
    }
}

fn step_quote(toks: &Vec<(LsToken, Vec<char>)>, pos: usize, props: &mut Vec<Property>, res: &mut Vec<DocumentComponent>, nl: &mut bool, fuel: usize) -> (r: Result<usize, ParseError>)
    requires
        pos < toks.len(),
        toks@[pos as int].0 == LsToken::QuoteEnvStart,
        !(ls_loop(lv(toks@), pos as int, props_v(old(props)@), dcs_v(old(res)@), *old(nl), fuel as nat) is Panics),
    ensures
        ls_step(lv(toks@), pos as int, props_v(old(props)@), dcs_v(old(res)@), *old(nl), fuel as nat, r, props_v(final(props)@), dcs_v(final(res)@), *final(nl)),
    decreases fuel, 0int, 0int,
{
    proof {
        assert(lv(toks@)[pos as int].0 == toks@[pos as int].0);
    }
    match ls_until_exec(toks, pos + 1, LsToken::QuoteEnvEnd, true) {
        Ok((inner, q)) => {
            if q <= pos || q > toks.len() || fuel == 0 {
                return Err(ParseError::Malformed);
            }
            match ls_parse_exec(&inner, fuel - 1) {
                Ok(cs) => {
                    let c = new_component(DocumentElement::Admonition(quote_comps_exec(cs), Vec::new()));
                    proof {
                        lemma_dcs_v_push(res@, c);
                        assert(crate::document::pairs_v(Seq::<(String, String)>::empty()) =~= Seq::empty());
                    }
                    res.push(c);
                    *nl = false;
                    Ok(q)
                },
                Err(e) => Err(e),
            }
        },
        Err(e) => Err(e),
    }
}

fn step_plain(toks: &Vec<(LsToken, Vec<char>)>, pos: usize, props: &mut Vec<Property>, res: &mut Vec<DocumentComponent>, nl: &mut bool, fuel: usize) -> (r: Result<usize, ParseError>)
    requires
        pos < toks.len(),
        toks@[pos as int].0 != LsToken::Error,
        toks@[pos as int].0 != LsToken::SingleHash,
        toks@[pos as int].0 != LsToken::PropertyStart,
        toks@[pos as int].0 != LsToken::EmbedStart,
        toks@[pos as int].0 != LsToken::OpenDoubleBraces,
        toks@[pos as int].0 != LsToken::TripleBackQuote,
        toks@[pos as int].0 != LsToken::QuoteEnvStart,
    ensures
        ls_step(lv(toks@), pos as int, props_v(old(props)@), dcs_v(old(res)@), *old(nl), fuel as nat, r, props_v(final(props)@), dcs_v(final(res)@), *final(nl)),
{
    proof {
        assert(lv(toks@)[pos as int] == (toks@[pos as int].0, toks@[pos as int].1@));
    }
    let c = new_component(DocumentElement::Text(string_of(&toks[pos].1)));
    proof {
        lemma_dcs_v_push(res@, c);
    }
    res.push(c);
    if toks[pos].0 == LsToken::Newline {
        *nl = true;
    }
    Ok(pos + 1)
}

fn new_component(e: DocumentElement) -> (r: DocumentComponent)
    ensures
        r@ == new_comp(e@),
{
    let r = DocumentComponent { element: e, children: Vec::new() };
    proof {
        assert(dcs_v(r.children@) =~= Seq::<ComponentV>::empty());
    }
    r
}

fn ls_block_exec(text: &Vec<char>, fuel: usize) -> (r: Result<Vec<DocumentComponent>, ParseError>)
    requires
        !(ls_block(text@, fuel as nat) is Panics),
    ensures
        match r {
            Ok(cs) => ls_block(text@, fuel as nat) == Parsed::Done(dcs_v(cs@)),
            Err(_) => ls_block(text@, fuel as nat) is Fails,
        },
    decreases fuel, 1int, 0int,
{
    let s = trim_vec(text);
    let toks = ls_lex(&s);
    let ghost t = lv(toks@);
    proof {
        lemma_ls_prop_len(s@, 0);
    }
    let mut props: Vec<Property> = Vec::new();
    let mut res: Vec<DocumentComponent> = Vec::new();
    let mut nl = true;
    let mut pos: usize = 0;
    proof {
        assert(dcs_v(res@) =~= Seq::<ComponentV>::empty());
        assert(props_v(props@) =~= Seq::<PropertyV>::empty());
    }
    loop
        invariant
            t == lv(toks@),
            t == ls_tokens(trim(text@)),
            forall|j: int| 0 <= j < t.len() && (#[trigger] t[j]).0 == LsToken::PropertyStart ==> t[j].1.len() >= 2,
            pos <= toks.len(),
            ls_loop(t, 0, Seq::empty(), Seq::empty(), true, fuel as nat) == ls_loop(t, pos as int, props_v(props@), dcs_v(res@), nl, fuel as nat),
            !(ls_block(text@, fuel as nat) is Panics),
        decreases toks.len() - pos,
    {
        if pos >= toks.len() {
            if props.len() > 0 {
                let ghost pv = props_v(props@);
                let pc = new_component(DocumentElement::Properties(props));
                let mut out: Vec<DocumentComponent> = Vec::new();
                out.push(pc);
                let ghost o0 = out@;
                let ghost rr = res@;
                out.append(&mut res);
                proof {
                    assert(o0 =~= seq![pc]);
                    lemma_dcs_v_push(Seq::empty(), pc);
                    assert(Seq::<DocumentComponent>::empty().push(pc) =~= o0);
                    assert(dcs_v(Seq::<DocumentComponent>::empty()) =~= Seq::<ComponentV>::empty());
                    crate::document::lemma_dcs_v_add(o0, rr);
                    assert(dcs_v(o0) =~= seq![new_comp(ElementV::Properties(pv))]);
                }
                return Ok(out);
            }
            return Ok(res);
        }
        let k = toks[pos].0;
        proof {
            assert(t[pos as int].0 == k);
            assert(t[pos as int].1 == toks@[pos as int].1@);
        }
        if k == LsToken::Error {
            return Err(ParseError::Malformed);
        }
        let step = if k == LsToken::SingleHash {
            step_hash(&toks, pos, &mut props, &mut res, &mut nl, fuel)
        } else if k == LsToken::PropertyStart {
            step_prop(&toks, pos, &mut props, &mut res, &mut nl, fuel)
        } else if k == LsToken::EmbedStart || k == LsToken::OpenDoubleBraces {
            step_mention(&toks, pos, &mut props, &mut res, &mut nl, fuel)
        } else if k == LsToken::TripleBackQuote {
            step_code(&toks, pos, &mut props, &mut res, &mut nl, fuel)
        } else if k == LsToken::QuoteEnvStart {
            step_quote(&toks, pos, &mut props, &mut res, &mut nl, fuel)
        } else {
            step_plain(&toks, pos, &mut props, &mut res, &mut nl, fuel)
        };
        match step {
            Ok(q) => {
                pos = q;
            },
            Err(e) => {
                return Err(e);
            },
        }
    }
}

fn ls_parse_exec(text: &Vec<char>, fuel: usize) -> (r: Result<Vec<DocumentComponent>, ParseError>)
    requires
        !(ls_parse(text@, fuel as nat) is Panics),
    ensures
        match r {
            Ok(cs) => ls_parse(text@, fuel as nat) == Parsed::Done(dcs_v(cs@)),
            Err(_) => ls_parse(text@, fuel as nat) is Fails,
        },
    decreases fuel, 6int, 0int,
{
    let s = string_of(text);
    match parse_md_text(s.as_str()) {
        Ok(mds) => match ls_convert_exec(mds, fuel) {
            Ok(cs) => Ok(collapse_text(cs.as_slice())),
            Err(e) => Err(e),
        },
        Err(_) => Err(ParseError::Malformed),
    }
}

pub proof fn lemma_convert_stuck(mds: Seq<MdCompV>, fuel: nat, i: int, j: int)
    requires
        0 <= i <= j <= mds.len(),
        !(ls_convert(mds.take(i), fuel) is Done),
    ensures
        ls_convert(mds.take(j), fuel) == ls_convert(mds.take(i), fuel),
    decreases j - i,
{
    if j > i {
        lemma_convert_stuck(mds, fuel, i, j - 1);
        assert(mds.take(j).drop_last() =~= mds.take(j - 1));
    }
}

pub proof fn lemma_les_stuck(ls: Seq<MdLeV>, fuel: nat, i: int, j: int)
    requires
        0 <= i <= j <= ls.len(),
        !(ls_les(ls.take(i), fuel) is Done),
    ensures
        ls_les(ls.take(j), fuel) == ls_les(ls.take(i), fuel),
    decreases j - i,
{
    if j > i {
        lemma_les_stuck(ls, fuel, i, j - 1);
        assert(ls.take(j).drop_last() =~= ls.take(j - 1));
    }
}

fn ls_convert_exec(mds: Vec<MdComponent>, fuel: usize) -> (r: Result<Vec<DocumentComponent>, ParseError>)
    requires
        !(ls_convert(md_comps_v(mds@), fuel as nat) is Panics),
    ensures
        match r {
            Ok(cs) => ls_convert(md_comps_v(mds@), fuel as nat) == Parsed::Done(dcs_v(cs@)),
            Err(_) => ls_convert(md_comps_v(mds@), fuel as nat) is Fails,
        },
    decreases fuel, 5int, 0int,
{
    let ghost cv = md_comps_v(mds@);
    let ghost n = mds@.len();
    let mut rest = reversed(mds);
    let mut acc: Vec<DocumentComponent> = Vec::new();
    proof {
        assert(cv.take(0) =~= Seq::<MdCompV>::empty());
        assert(dcs_v(acc@) =~= Seq::<ComponentV>::empty());
    }
    while rest.len() > 0
        invariant
            rest@.len() <= n,
            n == cv.len(),
            cv == md_comps_v(mds@),
            md_comps_v(rest@.reverse()) == cv.skip(n - rest@.len()),
            ls_convert(cv.take(n - rest@.len()), fuel as nat) == Parsed::Done(dcs_v(acc@)),
            !(ls_convert(cv, fuel as nat) is Panics),
        decreases rest.len(),
    {
        let ghost k = n - rest@.len();
        let ghost rr = rest@;
        let c = rest.pop().unwrap();
        proof {
            lemma_md_pop(rr, cv, k);
            assert(cv.take(k + 1).drop_last() =~= cv.take(k));
            assert(cv.take(n as int) =~= cv);
            if !(ls_convert(cv.take(k + 1), fuel as nat) is Done) {
                lemma_convert_stuck(cv, fuel as nat, k + 1, n as int);
            }
            assert(cv.take(k + 1) =~= cv.take(k).push(md_comp_v(c)));
        }
        match convert_one(&mut acc, c, fuel, Ghost(cv.take(k))) {
            Ok(()) => {},
            Err(e) => {
                proof {
                    lemma_convert_stuck(cv, fuel as nat, k + 1, n as int);
                    assert(cv.take(n as int) =~= cv);
                }
                return Err(e);
            },
        }
    }
    proof {
        assert(cv.take(n as int) =~= cv);
    }
    Ok(acc)
}

fn convert_one(acc: &mut Vec<DocumentComponent>, c: MdComponent, fuel: usize, Ghost(prefix): Ghost<Seq<MdCompV>>) -> (r: Result<(), ParseError>)
    requires
        ls_convert(prefix, fuel as nat) == Parsed::Done(dcs_v(old(acc)@)),
        !(ls_convert(prefix.push(md_comp_v(c)), fuel as nat) is Panics),
    ensures
        r is Ok ==> ls_convert(prefix.push(md_comp_v(c)), fuel as nat) == Parsed::Done(dcs_v(final(acc)@)),
        r is Err ==> ls_convert(prefix.push(md_comp_v(c)), fuel as nat) is Fails,
    decreases fuel, 4int, 0int,
{
    proof {
        assert(prefix.push(md_comp_v(c)).drop_last() =~= prefix);
    }
    match c {
        MdComponent::Heading(level, t) => {
            let comp = new_component(DocumentElement::Heading(level as u16, t));
            proof {
                lemma_dcs_v_push(acc@, comp);
            }
            acc.push(comp);
            Ok(())
        },
        MdComponent::Text(t) => {
            let tv = chars_of(t.as_str());
            match ls_block_exec(&tv, fuel) {
                Ok(cs) => {
                    let mut cs = cs;
                    let ghost cs0 = cs@;
                    let ghost acc0 = acc@;
                    acc.append(&mut cs);
                    proof {
                        crate::document::lemma_dcs_v_add(acc0, cs0);
                    }
                    Ok(())
                },
                Err(e) => Err(e),
            }
        },
        MdComponent::List(ls, term) => {
            match ls_les_exec(&ls, fuel) {
                Ok(les) => {
                    let comp = new_component(DocumentElement::List(les, term));
                    proof {
                        lemma_dcs_v_push(acc@, comp);
                    }
                    acc.push(comp);
                    Ok(())
                },
                Err(e) => Err(e),
            }
        },
    }
}

fn ls_les_exec(ls: &Vec<ListElement>, fuel: usize) -> (r: Result<Vec<ListElem>, ParseError>)
    requires
        !(ls_les(md_les_v(ls@), fuel as nat) is Panics),
    ensures
        match r {
            Ok(les) => ls_les(md_les_v(ls@), fuel as nat) == Parsed::Done(les_v(les@)),
            Err(_) => ls_les(md_les_v(ls@), fuel as nat) is Fails,
        },
    decreases fuel, 3int, 2 * md_sizes(md_les_v(ls@)) + 1,
{
    let ghost mv = md_les_v(ls@);
    proof {
        lemma_md_les_v(ls@);
        lemma_md_sizes(mv);
    }
    let mut acc: Vec<ListElem> = Vec::new();
    let mut i: usize = 0;
    proof {
        assert(mv.take(0) =~= Seq::<MdLeV>::empty());
        assert(les_v(acc@) =~= Seq::<ListElemV>::empty());
    }
    while i < ls.len()
        invariant
            i <= ls@.len(),
            mv == md_les_v(ls@),
            mv.len() == ls@.len(),
            forall|k: int| 0 <= k < ls@.len() ==> #[trigger] mv[k] == md_le_v(ls@[k]),
            forall|k: int| 0 <= k < ls@.len() ==> md_size(#[trigger] mv[k]) <= md_sizes(mv),
            ls_les(mv.take(i as int), fuel as nat) == Parsed::Done(les_v(acc@)),
            !(ls_les(mv, fuel as nat) is Panics),
        decreases ls.len() - i,
    {
        proof {
            assert(mv.take(i + 1).drop_last() =~= mv.take(i as int));
            assert(mv.take(i + 1).last() == mv[i as int]);
            assert(mv.take(ls@.len() as int) =~= mv);
            if !(ls_les(mv.take(i + 1), fuel as nat) is Done) {
                lemma_les_stuck(mv, fuel as nat, i + 1, ls@.len() as int);
            }
            assert(md_size(mv[i as int]) <= md_sizes(mv));
        }
        match ls_le_exec(&ls[i], fuel) {
            Ok(le) => {
                let ghost a0 = acc@;
                acc.push(le);
                proof {
                    assert(acc@.drop_last() =~= a0);
                }
            },
            Err(e) => {
                return Err(e);
            },
        }
        i = i + 1;
    }
    proof {
        assert(mv.take(ls@.len() as int) =~= mv);
    }
    Ok(acc)
}

fn ls_le_exec(l: &ListElement, fuel: usize) -> (r: Result<ListElem, ParseError>)
    requires
        !(ls_le(md_le_v(*l), fuel as nat) is Panics),
    ensures
        match r {
            Ok(le) => ls_le(md_le_v(*l), fuel as nat) == Parsed::Done(le@),
            Err(_) => ls_le(md_le_v(*l), fuel as nat) is Fails,
        },
    decreases fuel, 3int, 2 * md_size(md_le_v(*l)),
{
    let tv = chars_of(l.text.as_str());
    match ls_block_exec(&tv, fuel) {
        Ok(cs) => match ls_les_exec(&l.children, fuel) {
            Ok(children) => Ok(ListElem { contents: ParsedDocument::ParsedText(cs), children }),
            Err(e) => Err(e),
        },
        Err(e) => Err(e),
    }
}

/// Reads a LogSeq page: its markdown structure, each text read as a block (headings,
/// properties, page mentions and embeds, code blocks, quotes). Mentions stay by name: the
/// directory is not consulted.
pub fn parse_logseq_text(text: &str, file_dir: &Option<String>) -> (r: Result<ParsedDocument, ParseError>)
    requires
        !(logseq_doc(text@) is Panics),
    ensures
        match r {
            Ok(pd) => pd is ParsedText && logseq_doc(text@) == Parsed::Done(comps_of(pd@)),
            Err(_) => logseq_doc(text@) is Fails,
        },
        r matches Ok(pd) ==> keys_once_doc(pd@),
{
    let t = chars_of(text);
    proof {
        logseq_keys_once(text@);
    }
    match ls_parse_exec(&t, t.len()) {
        Ok(cs) => Ok(ParsedDocument::ParsedText(cs)),
        Err(e) => Err(e),
    }
}

/// The text is a non-empty run of letters (`a`-`z`, `A`-`Z`, `_`).
pub open spec fn letter_name(n: Seq<char>) -> bool {
    n.len() > 0 && forall|i: int| 0 <= i < n.len() ==> crate::zk_lexer::is_letter(#[trigger] n[i])
}

proof fn lemma_run_letters(s: Seq<char>, i: int, end: int)
    requires
        0 <= i <= end < s.len(),
        forall|k: int| i <= k < end ==> crate::zk_lexer::is_letter(#[trigger] s[k]),
        !crate::zk_lexer::is_letter(s[end]),
    ensures
        crate::md_lexer::run(s, i, |x: char| crate::zk_lexer::is_letter(x)) == end - i,
    decreases end - i,
{
    if i < end {
        lemma_run_letters(s, i + 1, end);
    }
}

/// The tokens of a mention `open` + `n` + `]]` of a name of letters, where `open` is `![[` or
/// `[[`.
proof fn lemma_mention_tokens(open: Seq<char>, n: Seq<char>)
    requires
        letter_name(n),
        open == "![["@ || open == "[["@,
    ensures
        ({
            let s = open + n + "]]"@;
            crate::logseq_lexer::ls_tokens(s) == seq![
                (if open == "![["@ { LsToken::EmbedStart } else { LsToken::OpenDoubleBraces }, open),
                (LsToken::Name, n),
                (LsToken::ClosingDoubleBraces, "]]"@),
            ]
        }),
{
    reveal_strlit("![[");
    reveal_strlit("[[");
    reveal_strlit("]]");
    reveal_strlit("```");
    reveal_strlit("#+BEGIN_QUOTE");
    reveal_strlit("#+END_QUOTE");
    reveal_strlit("\n\r");
    reveal_strlit("::");
    let s = open + n + "]]"@;
    let o = open.len() as int;
    let m = n.len() as int;
    assert(s.len() == o + m + 2);
    assert forall|k: int| 0 <= k < o implies s[k] == open[k] by {}
    assert forall|k: int| o <= k < o + m implies s[k] == n[k - o] by {}
    assert(s[o + m] == ']' && s[o + m + 1] == ']');
    // the opening token
    let t0 = crate::logseq_lexer::ls_token_at(s, 0);
    assert(s.subrange(0, o) =~= open);
    if open == "![["@ {
        assert(s[0] == '!');
        assert(!crate::obsidian_lexer::at(s, 0, "```"@)) by {
            assert(s.subrange(0, 3)[0] != "```"@[0]);
        }
        assert(t0 == (LsToken::EmbedStart, 3int));
    } else {
        assert(s[0] == '[' && s[1] == '[');
        assert(!crate::obsidian_lexer::at(s, 0, "```"@)) by {
            assert(s.subrange(0, 3)[0] != "```"@[0]);
        }
        assert(!crate::obsidian_lexer::at(s, 0, "![["@)) by {
            assert(s.subrange(0, 3)[0] != "![["@[0]);
        }
        assert(t0 == (LsToken::OpenDoubleBraces, 2int));
    }
    // the name
    let c = s[o];
    assert(c == n[0]);
    assert(crate::zk_lexer::is_letter(c));
    lemma_run_letters(s, o, o + m);
    assert(!crate::obsidian_lexer::at(s, o, "```"@)) by {
        if o + 3 <= s.len() {
            assert(s.subrange(o, o + 3)[0] != "```"@[0]);
        }
    }
    assert(!crate::obsidian_lexer::at(s, o, "![["@)) by {
        if o + 3 <= s.len() {
            assert(s.subrange(o, o + 3)[0] != "![["@[0]);
        }
    }
    assert(!crate::obsidian_lexer::at(s, o, "[["@)) by {
        assert(s.subrange(o, o + 2)[0] != "[["@[0]);
    }
    assert(!crate::obsidian_lexer::at(s, o, "]]"@)) by {
        assert(s.subrange(o, o + 2)[0] != "]]"@[0]);
    }
    assert(!crate::obsidian_lexer::at(s, o + m, "::"@)) by {
        assert(s.subrange(o + m, o + m + 2)[0] != "::"@[0]);
    }
    assert(crate::logseq_lexer::ls_token_at(s, o) == (LsToken::Name, m));
    // the closing token
    assert(!crate::obsidian_lexer::at(s, o + m, "```"@));
    assert(!crate::obsidian_lexer::at(s, o + m, "![["@));
    assert(!crate::obsidian_lexer::at(s, o + m, "[["@)) by {
        assert(s.subrange(o + m, o + m + 2)[0] != "[["@[0]);
    }
    assert(s.subrange(o + m, o + m + 2) =~= "]]"@);
    assert(crate::logseq_lexer::ls_token_at(s, o + m) == (LsToken::ClosingDoubleBraces, 2int));
    assert(s.subrange(o, o + m) =~= n);
    let k0 = if open == "![["@ { LsToken::EmbedStart } else { LsToken::OpenDoubleBraces };
    let t3 = crate::logseq_lexer::ls_tokens_from(s, o + m + 2);
    assert(t3 == Seq::<(LsToken, Seq<char>)>::empty());
    let t2 = crate::logseq_lexer::ls_tokens_from(s, o + m);
    assert(t2 == seq![(LsToken::ClosingDoubleBraces, s.subrange(o + m, o + m + 2))] + t3);
    assert(t2 =~= seq![(LsToken::ClosingDoubleBraces, "]]"@)]);
    let t1 = crate::logseq_lexer::ls_tokens_from(s, o);
    assert(t1 == seq![(LsToken::Name, s.subrange(o, o + m))] + t2);
    let t0s = crate::logseq_lexer::ls_tokens_from(s, 0);
    assert(t0s == seq![(k0, s.subrange(0, o))] + t1);
    assert(crate::logseq_lexer::ls_tokens(s) =~= seq![
        (if open == "![["@ { LsToken::EmbedStart } else { LsToken::OpenDoubleBraces }, open),
        (LsToken::Name, n),
        (LsToken::ClosingDoubleBraces, "]]"@),
    ]);
}

/// A LogSeq block that is just an embed `![[N]]` of a name N (of letters) reads as one
/// component, the embed of the file N; a block that is just `[[N]]` reads as one link to the
/// file N. Only `![[` makes an embed.
pub proof fn logseq_embed_reads_as_embed(n: Seq<char>, fuel: nat)
    requires
        letter_name(n),
    ensures
        ls_block("![["@ + n + "]]"@, fuel) == Parsed::Done(seq![new_comp(ElementV::FileEmbed(MentionedFileV::FileName(n), None))]),
        ls_block("[["@ + n + "]]"@, fuel) == Parsed::Done(seq![new_comp(ElementV::FileLink(MentionedFileV::FileName(n), None, None))]),
{
    reveal_strlit("![[");
    reveal_strlit("[[");
    assert("[["@.len() != "![["@.len());
    lemma_mention_block("![["@, n, fuel);
    lemma_mention_block("[["@, n, fuel);
}

#[verifier::rlimit(40)]
proof fn lemma_mention_block(open: Seq<char>, n: Seq<char>, fuel: nat)
    requires
        letter_name(n),
        open == "![["@ || open == "[["@,
    ensures
        ls_block(open + n + "]]"@, fuel) == Parsed::Done(seq![new_comp(
            if open == "![["@ {
                ElementV::FileEmbed(MentionedFileV::FileName(n), None)
            } else {
                ElementV::FileLink(MentionedFileV::FileName(n), None, None)
            },
        )]),
{
    reveal_strlit("![[");
    reveal_strlit("[[");
    reveal_strlit("]]");
    let s = open + n + "]]"@;
    let o = open.len() as int;
    assert(s[0] == open[0]);
    assert(s[s.len() - 1] == ']');
    assert(!crate::text::is_ws(s[0]));
    assert(crate::text::ws_end(s, 0) == 0);
    assert(crate::text::trim_start(s) =~= s);
    assert(crate::text::ws_trail(s, s.len() as int) == s.len());
    assert(trim(s) =~= s);
    lemma_mention_tokens(open, n);
    let toks = crate::logseq_lexer::ls_tokens(s);
    let e = if open == "![["@ {
        ElementV::FileEmbed(MentionedFileV::FileName(n), None)
    } else {
        ElementV::FileLink(MentionedFileV::FileName(n), None, None)
    };
    assert(toks.len() == 3);
    assert(ls_until(toks, 2, LsToken::ClosingDoubleBraces, true) == Parsed::Done((Seq::<char>::empty(), 3int)));
    assert(ls_until(toks, 1, LsToken::ClosingDoubleBraces, true) == Parsed::Done((n, 3int))) by {
        assert(n + Seq::<char>::empty() =~= n);
    }
    assert(ls_loop(toks, 3, Seq::empty(), Seq::<ComponentV>::empty().push(new_comp(e)), false, fuel)
        == Parsed::Done((Seq::<PropertyV>::empty(), Seq::<ComponentV>::empty().push(new_comp(e)))));
    assert(Seq::<ComponentV>::empty().push(new_comp(e)) =~= seq![new_comp(e)]);
}

} // verus!
