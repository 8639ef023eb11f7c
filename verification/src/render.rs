//! Rendering documents as LogSeq and zk text.
use vstd::prelude::*;
use crate::document::{
    ComponentV, DocumentComponent, DocumentElement, FileInfo, ListElem, MentionedFile, ParsedDocument,
    PropType, PropValue, Property, TextMode, dcs_v, elem_is_empty_lines, elem_own_block,
    lemma_dcs_v_len, lemma_les_v_len, pairs_v, pd_comps, pvs_v,
};
use crate::paths::{diff_paths, file_name_of, join_path, opt_view, parent_of};
use crate::render_spec::{
    LqState, admonition_text, block_lines, body_text, code_text, dc_text, display, doc_text,
    drop_blank_tail, el_text, embed_file_name, embed_text, ends_with_blank_line,
    fm_list_values, fm_prop_text, fm_props, heading_text, image_target, indent_lines, last_index_of,
    le_children, le_head, le_lines, le_props_text, le_text, lemma_last_index_of, lemma_renders_all,
    lemma_renders_les, list_element_text, list_text, lookup, lq_children, lq_fold, lq_init,
    lq_step, marked, mention_text, pop_levels, prop_text, prop_value_text, prop_value_texts,
    props_text, push_line, renders_all, renders_dc, renders_doc, renders_el, renders_le,
    renders_les, starts_with_blank_line, strip_blank_lines, tab_lines, without_brackets,
    zk_children, zk_fold, zk_link, zk_target, image_panics, images_ok_all, images_ok_dc,
    images_ok_doc, images_ok_el, images_ok_le, images_ok_les, lemma_images_ok_all,
    lemma_images_ok_les,
};
use crate::text::{
    chars_of, copy_chars, eq_str, eq_vec, is_blank, is_blank_vec, join, lines, lines_vec,
    next_nl_exec, push_all, push_repeat, push_str, repeat, replace_char, replace_char_vec, slice_of,
    starts_with, starts_with_str, string_of, trim, trim_end_vec, trim_start_vec, trim_vec, views,
    lemma_next_nl_bounds,
};

verus! {

pub fn display_vec(m: &MentionedFile) -> (r: Vec<char>)
    ensures
        r@ == display(m@),
{
    match m {
        MentionedFile::FileName(n) => chars_of(n.as_str()),
        MentionedFile::FilePath(p) => chars_of(p.as_str()),
    }
}

/// The value stored under `key`.
pub fn lookup_exec(props: &Vec<(String, String)>, key: &str) -> (r: Option<Vec<char>>)
    ensures
        match r {
            Some(v) => lookup(pairs_v(props@), key@) == Some(v@),
            None => lookup(pairs_v(props@), key@) is None,
        },
{
    let ghost pv = pairs_v(props@);
    let mut i: usize = 0;
    proof {
        assert(pv.skip(0) =~= pv);
    }
    while i < props.len()
        invariant
            i <= props.len(),
            pv == pairs_v(props@),
            lookup(pv, key@) == lookup(pv.skip(i as int), key@),
        decreases props.len() - i,
    {
        let (k, v) = &props[i];
        proof {
            assert(pv.skip(i as int)[0] == (k@, v@));
            assert(pv.skip(i as int).drop_first() =~= pv.skip(i + 1));
        }
        if eq_str(&chars_of(k.as_str()), key) {
            return Some(chars_of(v.as_str()));
        }
        i = i + 1;
    }
    proof {
        assert(pv.skip(i as int).len() == 0);
    }
    None
}

pub fn last_index_exec(s: &Vec<char>, c: char) -> (r: Option<usize>)
    ensures
        match r {
            Some(k) => last_index_of(s@, c) == k,
            None => last_index_of(s@, c) == -1,
        },
{
    let mut j: usize = s.len();
    proof {
        assert(s@.take(s@.len() as int) =~= s@);
    }
    while j > 0
        invariant
            j <= s.len(),
            last_index_of(s@, c) == last_index_of(s@.take(j as int), c),
        decreases j,
    {
        proof {
            assert(s@.take(j as int).drop_last() =~= s@.take(j - 1));
        }
        if s[j - 1] == c {
            return Some(j - 1);
        }
        j = j - 1;
    }
    None
}

pub fn without_brackets_vec(s: &Vec<char>) -> (r: Vec<char>)
    ensures
        r@ == without_brackets(s@),
{
    let mut r: Vec<char> = Vec::new();
    let mut i: usize = 0;
    while i < s.len()
        invariant
            i <= s.len(),
            r@ == without_brackets(s@.take(i as int)),
        decreases s.len() - i,
    {
        proof {
            assert(s@.take(i + 1).drop_last() =~= s@.take(i as int));
        }
        if s[i] != '[' && s[i] != ']' {
            r.push(s[i]);
        }
        proof {
            assert(r@ =~= without_brackets(s@.take(i + 1)));
        }
        i = i + 1;
    }
    proof {
        assert(s@.take(s.len() as int) =~= s@);
    }
    r
}

pub fn embed_file_name_vec(file: &MentionedFile) -> (r: Vec<char>)
    ensures
        r@ == embed_file_name(file@),
{
    match file {
        MentionedFile::FileName(n) => chars_of(n.as_str()),
        MentionedFile::FilePath(p) => match file_name_of(p.as_str()) {
            Some(n) => chars_of(n.as_str()),
            None => chars_of("___nothing.txt"),
        },
    }
}

pub fn image_target_vec(name: &Vec<char>, fi: &Option<FileInfo>) -> (r: Option<(Vec<char>, Vec<char>)>)
    ensures
        match r {
            Some((ext, rel)) => image_target(name@, *fi) == Some((ext@, rel@)),
            None => image_target(name@, *fi) is None,
        },
{
    match fi {
        Some(f) => match (&f.destination_file, &f.image_dirs) {
            (Some(dest), Some((_, out))) => {
                let k = match last_index_exec(name, '.') {
                    Some(k) => k,
                    None => {
                        return None;
                    },
                };
                proof {
                    lemma_last_index_of(name@, '.');
                    assert(k < name@.len());
                }
                let n = name.len();
                let ext = slice_of(name, k + 1, n);
                proof {
                    assert(ext@ == name@.skip(k + 1));
                }
                if !(eq_str(&ext, "png") || eq_str(&ext, "jpeg")) {
                    return None;
                }
                match parent_of(dest.as_str()) {
                    Some(dir) => {
                        let joined = join_path(out.as_str(), string_of(name).as_str());
                        match diff_paths(joined.as_str(), dir.as_str()) {
                            Some(rel) => Some((ext, chars_of(rel.as_str()))),
                            None => None,
                        }
                    },
                    None => None,
                }
            },
            _ => None,
        },
        None => None,
    }
}

pub fn embed_text_vec(file: &MentionedFile, fi: &Option<FileInfo>) -> (r: Vec<char>)
    ensures
        r@ == embed_text(file@, *fi),
{
    let name = embed_file_name_vec(file);
    let mut r: Vec<char> = Vec::new();
    match image_target_vec(&name, fi) {
        Some((ext, rel)) => {
            push_str(&mut r, "![image.");
            push_all(&mut r, &ext);
            push_str(&mut r, "](");
            let slash = chars_of("/");
            push_all(&mut r, &replace_char_vec(&rel, '\\', &slash));
            push_str(&mut r, ")");
        },
        None => {
            push_str(&mut r, "{{embed [[");
            push_all(&mut r, &display_vec(file));
            push_str(&mut r, "]]}}");
        },
    }
    r
}

pub fn zk_target_vec(p: &str, fi: &Option<FileInfo>) -> (r: Vec<char>)
    ensures
        r@ == zk_target(p@, *fi),
{
    match fi {
        Some(f) => match &f.destination_file {
            Some(d) => match parent_of(d.as_str()) {
                Some(dir) => match diff_paths(p, dir.as_str()) {
                    Some(rel) => chars_of(rel.as_str()),
                    None => chars_of(p),
                },
                None => chars_of(p),
            },
            None => chars_of(p),
        },
        None => chars_of(p),
    }
}

pub fn zk_link_vec(file: &MentionedFile, name: &Option<String>, fi: &Option<FileInfo>, sanitize: bool) -> (r: Vec<char>)
    ensures
        r@ == zk_link(file@, crate::document::opt_v(*name), *fi, sanitize),
{
    let target = match file {
        MentionedFile::FileName(m) => chars_of(m.as_str()),
        MentionedFile::FilePath(p) => zk_target_vec(p.as_str(), fi),
    };
    let mut r: Vec<char> = Vec::new();
    r.push('[');
    match name {
        Some(n) => {
            let nv = chars_of(n.as_str());
            match file {
                MentionedFile::FilePath(_) => {
                    if sanitize {
                        push_all(&mut r, &without_brackets_vec(&nv));
                    } else {
                        push_all(&mut r, &nv);
                    }
                },
                MentionedFile::FileName(_) => push_all(&mut r, &nv),
            }
        },
        None => push_all(&mut r, &target),
    }
    push_str(&mut r, "](");
    push_all(&mut r, &target);
    r.push(')');
    r
}

pub fn join_vec(parts: &Vec<Vec<char>>, sep: &str) -> (r: Vec<char>)
    ensures
        r@ == join(views(parts@), sep@),
{
    let mut r: Vec<char> = Vec::new();
    let mut i: usize = 0;
    while i < parts.len()
        invariant
            i <= parts.len(),
            r@ == join(views(parts@).take(i as int), sep@),
        decreases parts.len() - i,
    {
        proof {
            assert(views(parts@).take(i + 1).drop_last() =~= views(parts@).take(i as int));
        }
        if i > 0 {
            push_str(&mut r, sep);
        } else {
            proof {
                assert(views(parts@).take(0) =~= Seq::<Seq<char>>::empty());
            }
        }
        push_all(&mut r, &parts[i]);
        i = i + 1;
    }
    proof {
        assert(views(parts@).take(parts.len() as int) =~= views(parts@));
    }
    r
}

impl PropValue {
    /// The value as it is written in a property of the given format.
    pub fn to_mode_text(&self, mode: &TextMode, file_info: &Option<FileInfo>) -> (r: String)
        requires
            *mode != TextMode::Obsidian || self is String,
        ensures
            r@ == prop_value_text(self@, *mode, *file_info),
    {
        string_of(&self.text_vec(mode, file_info))
    }

    pub fn text_vec(&self, mode: &TextMode, file_info: &Option<FileInfo>) -> (r: Vec<char>)
        requires
            *mode != TextMode::Obsidian || self is String,
        ensures
            r@ == prop_value_text(self@, *mode, *file_info),
    {
        match self {
            PropValue::String(s) => chars_of(s.as_str()),
            PropValue::FileLink(mf, _, rename) => match mode {
                TextMode::LogSeq => {
                    let mut r: Vec<char> = Vec::new();
                    push_str(&mut r, "[[");
                    push_all(&mut r, &display_vec(mf));
                    push_str(&mut r, "]]");
                    r
                },
                _ => zk_link_vec(mf, rename, file_info, false),
            },
        }
    }
}

fn prop_values_vec(vs: &Vec<PropValue>, mode: &TextMode, fi: &Option<FileInfo>) -> (r: Vec<Vec<char>>)
    requires
        *mode != TextMode::Obsidian,
    ensures
        views(r@) == prop_value_texts(pvs_v(vs@), *mode, *fi),
{
    let mut r: Vec<Vec<char>> = Vec::new();
    let mut i: usize = 0;
    while i < vs.len()
        invariant
            i <= vs.len(),
            *mode != TextMode::Obsidian,
            views(r@) == prop_value_texts(pvs_v(vs@.take(i as int)), *mode, *fi),
        decreases vs.len() - i,
    {
        let t = vs[i].text_vec(mode, fi);
        let ghost before = r@;
        r.push(t);
        proof {
            assert(views(r@) =~= views(before).push(t@));
            assert(prop_value_texts(pvs_v(vs@.take(i + 1)), *mode, *fi) =~= prop_value_texts(
                pvs_v(vs@.take(i as int)), *mode, *fi).push(prop_value_text(vs@[i as int]@, *mode, *fi)));
        }
        i = i + 1;
    }
    proof {
        assert(vs@.take(vs.len() as int) =~= vs@);
    }
    r
}

impl Property {
    /// The property as a line of a property block.
    pub fn to_mode_text(&self, mode: &TextMode, file_info: &Option<FileInfo>) -> (r: String)
        requires
            *mode != TextMode::Obsidian,
        ensures
            r@ == prop_text(self@, *mode, *file_info),
    {
        string_of(&self.text_vec(mode, file_info))
    }

    pub fn text_vec(&self, mode: &TextMode, file_info: &Option<FileInfo>) -> (r: Vec<char>)
        requires
            *mode != TextMode::Obsidian,
        ensures
            r@ == prop_text(self@, *mode, *file_info),
    {
        let vals = prop_values_vec(&self.values, mode, file_info);
        let value = join_vec(&vals, ", ");
        let mut r = chars_of(self.name.as_str());
        match mode {
            TextMode::LogSeq => {
                if is_blank_vec(&value) {
                    push_str(&mut r, "::");
                } else {
                    push_str(&mut r, ":: ");
                }
                push_all(&mut r, &value);
            },
            _ => match self.prop_type {
                PropType::Single => {
                    push_str(&mut r, " ::= ");
                    push_all(&mut r, &value);
                },
                _ => {
                    push_str(&mut r, " ::= [");
                    push_all(&mut r, &value);
                    r.push(']');
                },
            },
        }
        r
    }

    /// The property as a line (or lines) of a frontmatter block.
    pub fn to_zk_frontmatter_prop(&self, file_info: &Option<FileInfo>) -> (r: String)
        ensures
            r@ == fm_prop_text(self@, *file_info),
    {
        string_of(&self.fm_text_vec(file_info))
    }

    pub fn fm_text_vec(&self, file_info: &Option<FileInfo>) -> (r: Vec<char>)
        ensures
            r@ == fm_prop_text(self@, *file_info),
    {
        let vals = prop_values_vec(&self.values, &TextMode::Zk, file_info);
        let mut r = chars_of(self.name.as_str());
        match self.prop_type {
            PropType::Single => {
                push_str(&mut r, ": ");
                push_all(&mut r, &join_vec(&vals, ", "));
            },
            PropType::CompactList => {
                push_str(&mut r, ": [");
                push_all(&mut r, &join_vec(&vals, ", "));
                r.push(']');
            },
            PropType::List => {
                r.push(':');
                let ghost start = r@;
                let mut i: usize = 0;
                while i < vals.len()
                    invariant
                        i <= vals.len(),
                        r@ == start + fm_list_values(views(vals@).take(i as int)),
                    decreases vals.len() - i,
                {
                    proof {
                        assert(views(vals@).take(i + 1).drop_last() =~= views(vals@).take(i as int));
                    }
                    push_str(&mut r, "\n    - ");
                    push_all(&mut r, &vals[i]);
                    i = i + 1;
                }
                proof {
                    assert(views(vals@).take(vals.len() as int) =~= views(vals@));
                }
            },
        }
        r
    }
}

fn fm_props_vec(ps: &Vec<Property>, fi: &Option<FileInfo>) -> (r: Vec<char>)
    ensures
        r@ == fm_props(crate::document::props_v(ps@), *fi),
{
    let mut r: Vec<char> = Vec::new();
    let mut i: usize = 0;
    while i < ps.len()
        invariant
            i <= ps.len(),
            r@ == fm_props(crate::document::props_v(ps@.take(i as int)), *fi),
        decreases ps.len() - i,
    {
        proof {
            assert(crate::document::props_v(ps@.take(i + 1)).drop_last() =~= crate::document::props_v(ps@.take(i as int)));
        }
        r.push('\n');
        push_all(&mut r, &ps[i].fm_text_vec(fi));
        i = i + 1;
    }
    proof {
        assert(ps@.take(ps.len() as int) =~= ps@);
    }
    r
}

fn props_text_vec(ps: &Vec<Property>, mode: &TextMode, fi: &Option<FileInfo>) -> (r: Vec<char>)
    requires
        *mode != TextMode::Obsidian,
    ensures
        r@ == props_text(crate::document::props_v(ps@), *mode, *fi),
{
    let mut r: Vec<char> = Vec::new();
    let mut i: usize = 0;
    while i < ps.len()
        invariant
            i <= ps.len(),
            *mode != TextMode::Obsidian,
            r@ == props_text(crate::document::props_v(ps@.take(i as int)), *mode, *fi),
        decreases ps.len() - i,
    {
        proof {
            assert(crate::document::props_v(ps@.take(i + 1)).drop_last() =~= crate::document::props_v(ps@.take(i as int)));
        }
        if r.len() > 0 {
            r.push('\n');
        }
        push_all(&mut r, &ps[i].text_vec(mode, fi));
        i = i + 1;
    }
    proof {
        assert(ps@.take(ps.len() as int) =~= ps@);
    }
    r
}

fn heading_vec(level: u16, title: &String) -> (r: Vec<char>)
    ensures
        r@ == heading_text(level, title@),
{
    let mut r: Vec<char> = Vec::new();
    let hash = vec!['#'];
    push_repeat(&mut r, &hash, level as usize);
    proof {
        assert(hash@ == seq!['#']);
    }
    r.push(' ');
    push_all(&mut r, &trim_vec(&chars_of(title.as_str())));
    r
}

fn le_props_vec(props: &Vec<(String, String)>, mode: &TextMode) -> (r: Vec<char>)
    ensures
        r@ == le_props_text(pairs_v(props@), *mode),
{
    let mut r: Vec<char> = Vec::new();
    let mut i: usize = 0;
    while i < props.len()
        invariant
            i <= props.len(),
            r@ == le_props_text(pairs_v(props@.take(i as int)), *mode),
        decreases props.len() - i,
    {
        proof {
            assert(pairs_v(props@.take(i + 1)).drop_last() =~= pairs_v(props@.take(i as int)));
        }
        let (k, v) = &props[i];
        if i > 0 {
            push_str(&mut r, "\n  ");
        } else {
            push_str(&mut r, "- ");
        }
        push_str(&mut r, k.as_str());
        match mode {
            TextMode::LogSeq => {
                if v.as_str().is_empty() {
                    push_str(&mut r, "::");
                } else {
                    push_str(&mut r, ":: ");
                    push_str(&mut r, v.as_str());
                }
            },
            _ => {
                if v.as_str().is_empty() {
                    push_str(&mut r, " ::=");
                } else {
                    push_str(&mut r, " ::= ");
                    push_str(&mut r, v.as_str());
                }
            },
        }
        i = i + 1;
    }
    proof {
        assert(props@.take(props.len() as int) =~= props@);
    }
    r
}

fn le_lines_vec(res0: Vec<char>, ls: &Vec<Vec<char>>) -> (r: Vec<char>)
    ensures
        r@ == le_lines(res0@, views(ls@)),
{
    let mut r = res0;
    let mut i: usize = 0;
    while i < ls.len()
        invariant
            i <= ls.len(),
            r@ == le_lines(res0@, views(ls@).take(i as int)),
        decreases ls.len() - i,
    {
        proof {
            assert(views(ls@).take(i + 1).drop_last() =~= views(ls@).take(i as int));
        }
        if r.len() == 0 && i == 0 && !starts_with_str(&trim_vec(&ls[i]), "- ") {
            push_str(&mut r, "- ");
        } else if i > 0 {
            push_str(&mut r, "\n  ");
        }
        push_all(&mut r, &ls[i]);
        i = i + 1;
    }
    proof {
        assert(views(ls@).take(ls.len() as int) =~= views(ls@));
    }
    r
}

fn list_element_vec(text: &Vec<char>, props: &Vec<(String, String)>, mode: &TextMode) -> (r: Vec<char>)
    ensures
        r@ == list_element_text(text@, pairs_v(props@), *mode),
{
    let t = match mode {
        TextMode::LogSeq => copy_chars(text),
        _ => trim_start_vec(text),
    };
    let mut r = le_lines_vec(le_props_vec(props, mode), &lines_vec(&t));
    if r.len() == 0 {
        r.push('-');
    }
    r
}

fn admonition_vec(body: &Vec<char>, props: &Vec<(String, String)>, mode: &TextMode) -> (r: Vec<char>)
    ensures
        r@ == admonition_text(body@, pairs_v(props@), *mode),
{
    let body = trim_vec(body);
    let title = lookup_exec(props, "title");
    let mut r: Vec<char> = Vec::new();
    match mode {
        TextMode::LogSeq => {
            push_str(&mut r, "#+BEGIN_QUOTE");
            match title {
                Some(t) => {
                    push_str(&mut r, "\n  **");
                    push_all(&mut r, &t);
                    push_str(&mut r, "**");
                },
                None => {},
            }
            push_str(&mut r, "\n  ");
            let sep = chars_of("\n  ");
            push_all(&mut r, &replace_char_vec(&body, '\n', &sep));
            push_str(&mut r, "\n  #+END_QUOTE");
        },
        _ => {
            push_str(&mut r, "- #+BEGIN_QUOTE");
            match title {
                Some(t) => {
                    push_str(&mut r, "\n**");
                    push_all(&mut r, &t);
                    push_str(&mut r, "**");
                },
                None => {},
            }
            r.push('\n');
            push_all(&mut r, &body);
            push_str(&mut r, "\n#+END_QUOTE");
        },
    }
    r
}

fn code_vec(text: &String, code_type: &Option<String>, mode: &TextMode) -> (r: Vec<char>)
    ensures
        r@ == code_text(text@, crate::document::opt_v(*code_type), *mode),
{
    let mut r: Vec<char> = Vec::new();
    push_str(&mut r, "```");
    match code_type {
        Some(ct) => push_str(&mut r, ct.as_str()),
        None => {},
    }
    let t = chars_of(text.as_str());
    match mode {
        TextMode::LogSeq => {
            push_str(&mut r, "\n  ");
            let sep = chars_of("\n  ");
            push_all(&mut r, &replace_char_vec(&t, '\n', &sep));
            push_str(&mut r, "\n  ```");
        },
        _ => {
            r.push('\n');
            push_all(&mut r, &t);
            push_str(&mut r, "\n```");
        },
    }
    r
}

fn indent_lines_vec(out: &mut Vec<char>, ls: &Vec<Vec<char>>)
    ensures
        final(out)@ == old(out)@ + indent_lines(views(ls@)),
{
    let mut i: usize = 0;
    while i < ls.len()
        invariant
            i <= ls.len(),
            out@ == old(out)@ + indent_lines(views(ls@).take(i as int)),
        decreases ls.len() - i,
    {
        proof {
            assert(views(ls@).take(i + 1).drop_last() =~= views(ls@).take(i as int));
        }
        push_str(out, "\n    ");
        push_all(out, &ls[i]);
        i = i + 1;
    }
    proof {
        assert(views(ls@).take(ls.len() as int) =~= views(ls@));
    }
}

fn tab_lines_vec(out: &mut Vec<char>, ls: &Vec<Vec<char>>)
    ensures
        final(out)@ == old(out)@ + tab_lines(views(ls@)),
{
    let mut i: usize = 0;
    while i < ls.len()
        invariant
            i <= ls.len(),
            out@ == old(out)@ + tab_lines(views(ls@).take(i as int)),
        decreases ls.len() - i,
    {
        proof {
            assert(views(ls@).take(i + 1).drop_last() =~= views(ls@).take(i as int));
        }
        if i > 1 {
            out.push('\n');
        }
        if ls[i].len() > 0 {
            out.push('\t');
            push_all(out, &ls[i]);
        }
        i = i + 1;
    }
    proof {
        assert(views(ls@).take(ls.len() as int) =~= views(ls@));
    }
}

fn le_head_vec(out: &mut Vec<char>, ls: &Vec<Vec<char>>, prefix: &Vec<char>, Ghost(indent): Ghost<nat>)
    requires
        prefix@ == repeat("    "@, indent),
    ensures
        final(out)@ == old(out)@ + le_head(views(ls@), indent),
{
    let mut i: usize = 0;
    while i < ls.len()
        invariant
            i <= ls.len(),
            prefix@ == repeat("    "@, indent),
            out@ == old(out)@ + le_head(views(ls@).take(i as int), indent),
        decreases ls.len() - i,
    {
        proof {
            assert(views(ls@).take(i + 1).drop_last() =~= views(ls@).take(i as int));
        }
        if i > 0 {
            out.push('\n');
        }
        push_all(out, prefix);
        if i == 0 {
            if !starts_with_str(&ls[i], "- ") {
                push_str(out, "- ");
            }
        } else {
            push_str(out, "  ");
        }
        push_all(out, &ls[i]);
        i = i + 1;
    }
    proof {
        assert(views(ls@).take(ls.len() as int) =~= views(ls@));
    }
}

fn marked_exec(t: &Vec<char>, line: &Vec<char>) -> (b: bool)
    ensures
        b == marked(t@, line@),
{
    let dash = t.len() == 1 && t[0] == '-';
    proof {
        if dash {
            assert(t@ =~= seq!['-']);
        }
        if t@ == seq!['-'] {
            assert(t@[0] == '-');
        }
    }
    starts_with_str(t, "- ") || starts_with_str(t, "-\n") || starts_with_str(t, "-\n\r") || dash
        || starts_with_str(line, "- ")
}

fn strip_blank_lines_vec(s: &Vec<char>) -> (r: Vec<char>)
    ensures
        r@ == strip_blank_lines(s@),
{
    let mut cur = copy_chars(s);
    loop
        invariant
            strip_blank_lines(cur@) == strip_blank_lines(s@),
        decreases cur.len(),
    {
        proof {
            lemma_last_index_of(cur@, '\n');
        }
        match last_index_exec(&cur, '\n') {
            Some(k) => {
                let n = cur.len();
                let tail = slice_of(&cur, k + 1, n);
                proof {
                    assert(tail@ == cur@.skip(k + 1));
                }
                if is_blank_vec(&tail) {
                    cur = slice_of(&cur, 0, k);
                } else {
                    return cur;
                }
            },
            None => {
                return cur;
            },
        }
    }
}

fn drop_blank_tail_vec(res: &Vec<char>) -> (r: Vec<char>)
    ensures
        r@ == drop_blank_tail(res@),
{
    proof {
        lemma_last_index_of(res@, '\n');
    }
    match last_index_exec(res, '\n') {
        Some(k) => {
            let n = res.len();
            let tail = slice_of(res, k + 1, n);
            proof {
                assert(tail@ == res@.skip(k + 1));
            }
            if is_blank_vec(&tail) {
                let mut r = strip_blank_lines_vec(&slice_of(res, 0, k));
                proof {
                    assert(res@.subrange(0, k as int) =~= res@.take(k as int));
                }
                r.push('\n');
                push_all(&mut r, &tail);
                r
            } else {
                copy_chars(res)
            }
        },
        None => copy_chars(res),
    }
}

fn block_lines_vec(res0: Vec<char>, ls: &Vec<Vec<char>>, indent: &Vec<char>, t: &Vec<char>) -> (r: Vec<char>)
    ensures
        r@ == block_lines(res0@, views(ls@), indent@, t@),
{
    let mut r = res0;
    let mut i: usize = 0;
    while i < ls.len()
        invariant
            i <= ls.len(),
            r@ == block_lines(res0@, views(ls@).take(i as int), indent@, t@),
        decreases ls.len() - i,
    {
        proof {
            assert(views(ls@).take(i + 1).drop_last() =~= views(ls@).take(i as int));
        }
        let l = &ls[i];
        if i == 0 {
            if l.len() > 0 {
                push_all(&mut r, indent);
            }
        } else {
            r.push('\n');
            push_all(&mut r, indent);
        }
        let line = if i == 0 && !marked_exec(t, l) {
            let mut x: Vec<char> = Vec::new();
            push_str(&mut x, "- ");
            push_all(&mut x, l);
            x
        } else {
            copy_chars(l)
        };
        if starts_with_str(&trim_vec(&line), "- ") {
            r = drop_blank_tail_vec(&r);
        }
        push_all(&mut r, &line);
        i = i + 1;
    }
    proof {
        assert(views(ls@).take(ls.len() as int) =~= views(ls@));
    }
    r
}

pub open spec fn levels(v: Seq<u16>) -> Seq<int> {
    v.map_values(|x: u16| x as int)
}

fn pop_levels_vec(stack: &mut Vec<u16>, level: u16)
    ensures
        levels(final(stack)@) == pop_levels(levels(old(stack)@), level as int),
{
    loop
        invariant
            pop_levels(levels(stack@), level as int) == pop_levels(levels(old(stack)@), level as int),
        decreases stack.len(),
    {
        if stack.len() == 0 {
            return;
        }
        let top = stack[stack.len() - 1];
        proof {
            assert(levels(stack@).last() == top as int);
            assert(levels(stack@).drop_last() =~= levels(stack@.drop_last()));
        }
        if top < level {
            return;
        }
        stack.pop();
        if top == level {
            return;
        }
    }
}

/// `4 * n` spaces.
fn indent_spaces(n: usize) -> (r: Vec<char>)
    ensures
        r@ == repeat(seq![' '], (n * 4) as nat),
{
    let sp = vec![' '];
    let mut r: Vec<char> = Vec::new();
    let mut j: usize = 0;
    while j < n
        invariant
            j <= n,
            sp@ == seq![' '],
            r@ == repeat(seq![' '], (j * 4) as nat),
        decreases n - j,
    {
        push_repeat(&mut r, &sp, 4);
        proof {
            crate::text::lemma_repeat_add(seq![' '], (j * 4) as nat, 4);
            assert((j * 4) as nat + 4 == ((j + 1) * 4) as nat);
        }
        j = j + 1;
    }
    r
}

fn lq_step_vec(res: &mut Vec<char>, new_block: &mut bool, stack: &mut Vec<u16>, e: &DocumentElement, text: &Vec<char>)
    ensures
        (LqState { res: final(res)@, new_block: *final(new_block), stack: levels(final(stack)@) }) == lq_step(
            LqState { res: old(res)@, new_block: *old(new_block), stack: levels(old(stack)@) },
            e@,
            text@,
        ),
{
    let is_heading = match e {
        DocumentElement::Heading(level, _) => {
            pop_levels_vec(stack, *level);
            let ghost before = stack@;
            stack.push(*level);
            proof {
                assert(levels(stack@) =~= levels(before).push(*level as int));
            }
            true
        },
        _ => false,
    };
    let own = e.should_have_own_block();
    if is_blank_vec(text) || e.is_empty_lines() {
    } else if *new_block || own {
        let hl: usize = if is_heading {
            if stack.len() > 0 {
                stack.len() - 1
            } else {
                0
            }
        } else {
            stack.len()
        };
        let indent = indent_spaces(hl);
        if res.len() > 0 && !(text.len() > 0 && text[0] == '\n') {
            res.push('\n');
        }
        proof {
            if text@.len() > 0 && text@[0] == '\n' {
                assert(text@.take(1) =~= seq!['\n']);
            }
            if starts_with(text@, seq!['\n']) {
                assert(text@.take(1)[0] == text@[0]);
            }
        }
        let tt = trim_vec(text);
        let r0 = copy_chars(res);
        *res = block_lines_vec(r0, &lines_vec(text), &indent, &tt);
    } else {
        push_all(res, text);
    }
    *new_block = own;
}

fn ends_with_blank_line_exec(s: &Vec<char>) -> (b: bool)
    ensures
        b == ends_with_blank_line(s@),
{
    if s.len() == 0 || s[s.len() - 1] != '\n' {
        return false;
    }
    let d = slice_of(s, 0, s.len() - 1);
    proof {
        assert(d@ =~= s@.drop_last());
        lemma_last_index_of(d@, '\n');
    }
    let start = match last_index_exec(&d, '\n') {
        Some(k) => k + 1,
        None => 0,
    };
    let n = d.len();
    let tail = slice_of(&d, start, n);
    proof {
        assert(tail@ =~= d@.skip(last_index_of(d@, '\n') + 1));
    }
    is_blank_vec(&tail)
}

fn starts_with_blank_line_exec(s: &Vec<char>) -> (b: bool)
    ensures
        b == starts_with_blank_line(s@),
{
    let k = next_nl_exec(s, 0);
    proof {
        lemma_next_nl_bounds(s@, 0);
    }
    if k < s.len() {
        let head = slice_of(s, 0, k);
        proof {
            assert(head@ =~= s@.take(k as int));
        }
        is_blank_vec(&head)
    } else {
        false
    }
}

impl MentionedFile {
    /// The mentioned file as LogSeq text: an image copied to the image output directory is
    /// linked by its relative path, anything else embedded.
    pub fn _to_mode_text(&self, file_info: &Option<FileInfo>, mode: TextMode) -> (r: String)
        requires
            mode == TextMode::LogSeq,
            !image_panics(embed_file_name(self@), *file_info),
        ensures
            r@ == mention_text(self@, *file_info),
    {
        let name = embed_file_name_vec(self);
        let mut r: Vec<char> = Vec::new();
        match image_target_vec(&name, file_info) {
            Some((ext, rel)) => {
                proof {
                    lemma_last_index_of(name@, '.');
                }
                let k = match last_index_exec(&name, '.') {
                    Some(k) => k,
                    None => 0,
                };
                push_str(&mut r, "![");
                push_all(&mut r, &slice_of(&name, 0, k));
                proof {
                    assert(name@.subrange(0, k as int) =~= name@.take(k as int));
                }
                r.push('.');
                push_all(&mut r, &ext);
                push_str(&mut r, "](");
                let slash = chars_of("/");
                push_all(&mut r, &replace_char_vec(&rel, '\\', &slash));
                push_str(&mut r, ")");
            },
            None => {
                push_str(&mut r, "{{embed [[");
                push_all(&mut r, &name);
                push_str(&mut r, "]]}}");
            },
        }
        string_of(&r)
    }
}

// ---------------------------------------------------------------------------
// The renderings, by the structure of the document.
fn el_vec(e: &DocumentElement, mode: TextMode, fi: &Option<FileInfo>) -> (r: Vec<char>)
    requires
        mode != TextMode::Obsidian,
        renders_el(e@, mode),
    ensures
        r@ == el_text(e@, mode, *fi),
    decreases e, 0int,
{
    match e {
        DocumentElement::Frontmatter(ps) => {
            let mut r: Vec<char> = Vec::new();
            push_str(&mut r, "---");
            push_all(&mut r, &fm_props_vec(ps, fi));
            push_str(&mut r, "\n---");
            r
        },
        DocumentElement::Properties(ps) => props_text_vec(ps, &mode, fi),
        DocumentElement::Heading(level, title) => heading_vec(*level, title),
        DocumentElement::FileLink(file, _, name) => match mode {
            TextMode::LogSeq => {
                let mut r: Vec<char> = Vec::new();
                push_str(&mut r, "[[");
                push_all(&mut r, &display_vec(file));
                push_str(&mut r, "]]");
                r
            },
            _ => zk_link_vec(file, name, fi, true),
        },
        DocumentElement::FileEmbed(file, _) => embed_text_vec(file, fi),
        DocumentElement::Text(t) => chars_of(t.as_str()),
        DocumentElement::Admonition(cs, props) => {
            let body = body_vec(cs, fi);
            admonition_vec(&body, props, &mode)
        },
        DocumentElement::CodeBlock(t, ct) => code_vec(t, ct, &mode),
        DocumentElement::ListElement(pd, props) => {
            let text = doc_vec(pd, mode, fi);
            list_element_vec(&text, props, &mode)
        },
        DocumentElement::List(ls, term) => {
            let mut r = list_vec(ls, mode, fi);
            match mode {
                TextMode::LogSeq => {},
                _ => {
                    if *term {
                        push_str(&mut r, "\n\n");
                    }
                },
            }
            r
        },
    }
}

fn body_vec(cs: &Vec<DocumentComponent>, fi: &Option<FileInfo>) -> (r: Vec<char>)
    requires
        renders_all(dcs_v(cs@), TextMode::LogSeq),
    ensures
        r@ == body_text(dcs_v(cs@), *fi),
    decreases cs@, 0int,
{
    proof {
        lemma_dcs_v_len(cs@);
        lemma_renders_all(dcs_v(cs@), TextMode::LogSeq);
    }
    let mut r: Vec<char> = Vec::new();
    let mut i: usize = 0;
    while i < cs.len()
        invariant
            i <= cs.len(),
            dcs_v(cs@).len() == cs@.len(),
            forall|k: int| 0 <= k < cs@.len() ==> #[trigger] dcs_v(cs@)[k] == cs@[k]@,
            forall|k: int| 0 <= k < cs@.len() ==> renders_dc(#[trigger] dcs_v(cs@)[k], TextMode::LogSeq),
            r@ == body_text(dcs_v(cs@).take(i as int), *fi),
        decreases cs.len() - i,
    {
        proof {
            assert(dcs_v(cs@).take(i + 1).drop_last() =~= dcs_v(cs@).take(i as int));
            assert(dcs_v(cs@)[i as int] == cs@[i as int]@);
        }
        let t = dc_vec(&cs[i], TextMode::LogSeq, fi);
        push_all(&mut r, &t);
        i = i + 1;
    }
    proof {
        assert(dcs_v(cs@).take(cs.len() as int) =~= dcs_v(cs@));
    }
    r
}

fn list_vec(ls: &Vec<ListElem>, mode: TextMode, fi: &Option<FileInfo>) -> (r: Vec<char>)
    requires
        mode != TextMode::Obsidian,
        renders_les(crate::document::les_v(ls@), mode),
    ensures
        r@ == list_text(crate::document::les_v(ls@), mode, *fi),
    decreases ls@, 0int,
{
    let ghost lv = crate::document::les_v(ls@);
    proof {
        lemma_les_v_len(ls@);
        lemma_renders_les(lv, mode);
    }
    let mut r: Vec<char> = Vec::new();
    let empty: Vec<char> = Vec::new();
    proof {
        assert(empty@ =~= repeat("    "@, 0));
    }
    let mut i: usize = 0;
    while i < ls.len()
        invariant
            i <= ls.len(),
            mode != TextMode::Obsidian,
            lv == crate::document::les_v(ls@),
            empty@ == repeat("    "@, 0),
            lv.len() == ls@.len(),
            forall|k: int| 0 <= k < ls@.len() ==> #[trigger] lv[k] == ls@[k]@,
            forall|k: int| 0 <= k < ls@.len() ==> renders_le(#[trigger] lv[k], mode),
            r@ == list_text(lv.take(i as int), mode, *fi),
        decreases ls.len() - i,
    {
        proof {
            assert(lv.take(i + 1).drop_last() =~= lv.take(i as int));
            assert(lv[i as int] == ls@[i as int]@);
        }
        let t = le_vec(&ls[i], mode, fi, &empty, Ghost(0));
        if r.len() > 0 {
            r.push('\n');
        }
        push_all(&mut r, &t);
        i = i + 1;
    }
    proof {
        assert(lv.take(ls.len() as int) =~= lv);
    }
    r
}

fn le_vec(l: &ListElem, mode: TextMode, fi: &Option<FileInfo>, prefix: &Vec<char>, Ghost(indent): Ghost<nat>) -> (r: Vec<char>)
    requires
        mode != TextMode::Obsidian,
        renders_le(l@, mode),
        prefix@ == repeat("    "@, indent),
    ensures
        r@ == le_text(l@, mode, *fi, indent),
    decreases l, 0int,
{
    let contents = doc_vec(&l.contents, mode, fi);
    let mut r: Vec<char> = Vec::new();
    if contents.len() == 0 {
        push_all(&mut r, prefix);
        r.push('-');
    } else {
        le_head_vec(&mut r, &lines_vec(&contents), prefix, Ghost(indent));
    }
    let mut child_prefix = copy_chars(prefix);
    push_str(&mut child_prefix, "    ");
    let children = le_children_vec(&l.children, mode, fi, &child_prefix, Ghost(indent + 1));
    push_all(&mut r, &children);
    r
}

fn le_children_vec(ls: &Vec<ListElem>, mode: TextMode, fi: &Option<FileInfo>, prefix: &Vec<char>, Ghost(indent): Ghost<nat>) -> (r: Vec<char>)
    requires
        mode != TextMode::Obsidian,
        renders_les(crate::document::les_v(ls@), mode),
        prefix@ == repeat("    "@, indent),
    ensures
        r@ == le_children(crate::document::les_v(ls@), mode, *fi, indent),
    decreases ls@, 0int,
{
    let ghost lv = crate::document::les_v(ls@);
    proof {
        lemma_les_v_len(ls@);
        lemma_renders_les(lv, mode);
    }
    let mut r: Vec<char> = Vec::new();
    let mut i: usize = 0;
    while i < ls.len()
        invariant
            i <= ls.len(),
            mode != TextMode::Obsidian,
            prefix@ == repeat("    "@, indent),
            lv == crate::document::les_v(ls@),
            lv.len() == ls@.len(),
            forall|k: int| 0 <= k < ls@.len() ==> #[trigger] lv[k] == ls@[k]@,
            forall|k: int| 0 <= k < ls@.len() ==> renders_le(#[trigger] lv[k], mode),
            r@ == le_children(lv.take(i as int), mode, *fi, indent),
        decreases ls.len() - i,
    {
        proof {
            assert(lv.take(i + 1).drop_last() =~= lv.take(i as int));
            assert(lv[i as int] == ls@[i as int]@);
        }
        let t = le_vec(&ls[i], mode, fi, prefix, Ghost(indent));
        r.push('\n');
        push_all(&mut r, &t);
        i = i + 1;
    }
    proof {
        assert(lv.take(ls.len() as int) =~= lv);
    }
    r
}

fn dc_vec(c: &DocumentComponent, mode: TextMode, fi: &Option<FileInfo>) -> (r: Vec<char>)
    requires
        mode != TextMode::Obsidian,
        renders_dc(c@, mode),
    ensures
        r@ == dc_text(c@, mode, *fi),
    decreases c, 0int,
{
    let el = el_vec(&c.element, mode, fi);
    match mode {
        TextMode::LogSeq => {
            let mut r = el;
            let ch = lq_children_vec(&c.children, fi);
            push_all(&mut r, &ch);
            r
        },
        _ => zk_children_vec(el, &c.children, fi),
    }
}

fn lq_children_vec(cs: &Vec<DocumentComponent>, fi: &Option<FileInfo>) -> (r: Vec<char>)
    requires
        renders_all(dcs_v(cs@), TextMode::LogSeq),
    ensures
        r@ == lq_children(dcs_v(cs@), *fi),
    decreases cs@, 0int,
{
    proof {
        lemma_dcs_v_len(cs@);
        lemma_renders_all(dcs_v(cs@), TextMode::LogSeq);
    }
    let mut r: Vec<char> = Vec::new();
    let mut i: usize = 0;
    while i < cs.len()
        invariant
            i <= cs.len(),
            dcs_v(cs@).len() == cs@.len(),
            forall|k: int| 0 <= k < cs@.len() ==> #[trigger] dcs_v(cs@)[k] == cs@[k]@,
            forall|k: int| 0 <= k < cs@.len() ==> renders_dc(#[trigger] dcs_v(cs@)[k], TextMode::LogSeq),
            r@ == lq_children(dcs_v(cs@).take(i as int), *fi),
        decreases cs.len() - i,
    {
        proof {
            assert(dcs_v(cs@).take(i + 1).drop_last() =~= dcs_v(cs@).take(i as int));
            assert(dcs_v(cs@)[i as int] == cs@[i as int]@);
        }
        let t = dc_vec(&cs[i], TextMode::LogSeq, fi);
        indent_lines_vec(&mut r, &lines_vec(&t));
        i = i + 1;
    }
    proof {
        assert(dcs_v(cs@).take(cs.len() as int) =~= dcs_v(cs@));
    }
    r
}

fn zk_children_vec(res0: Vec<char>, cs: &Vec<DocumentComponent>, fi: &Option<FileInfo>) -> (r: Vec<char>)
    requires
        renders_all(dcs_v(cs@), TextMode::Zk),
    ensures
        r@ == zk_children(res0@, dcs_v(cs@), *fi),
    decreases cs@, 0int,
{
    proof {
        lemma_dcs_v_len(cs@);
        lemma_renders_all(dcs_v(cs@), TextMode::Zk);
    }
    let mut r = res0;
    let mut i: usize = 0;
    while i < cs.len()
        invariant
            i <= cs.len(),
            dcs_v(cs@).len() == cs@.len(),
            forall|k: int| 0 <= k < cs@.len() ==> #[trigger] dcs_v(cs@)[k] == cs@[k]@,
            forall|k: int| 0 <= k < cs@.len() ==> renders_dc(#[trigger] dcs_v(cs@)[k], TextMode::Zk),
            r@ == zk_children(res0@, dcs_v(cs@).take(i as int), *fi),
        decreases cs.len() - i,
    {
        proof {
            assert(dcs_v(cs@).take(i + 1).drop_last() =~= dcs_v(cs@).take(i as int));
            assert(dcs_v(cs@)[i as int] == cs@[i as int]@);
            if i > 0 {
                assert(dcs_v(cs@).take(i + 1)[i - 1] == dcs_v(cs@)[i - 1]);
                assert(dcs_v(cs@)[i - 1] == cs@[i - 1]@);
            }
        }
        let t = dc_vec(&cs[i], TextMode::Zk, fi);
        let prev_own = i > 0 && cs[i - 1].should_have_own_block();
        if (!starts_with_blank_line_exec(&t) && prev_own) || cs[i].should_have_own_block() {
            r.push('\n');
        }
        tab_lines_vec(&mut r, &lines_vec(&t));
        i = i + 1;
    }
    proof {
        assert(dcs_v(cs@).take(cs.len() as int) =~= dcs_v(cs@));
    }
    r
}

fn doc_vec(d: &ParsedDocument, mode: TextMode, fi: &Option<FileInfo>) -> (r: Vec<char>)
    requires
        mode != TextMode::Obsidian,
        renders_doc(d@, mode),
    ensures
        r@ == doc_text(d@, mode, *fi),
    decreases d, 0int,
{
    match d {
        ParsedDocument::ParsedFile(cs, _) => comps_vec(cs, mode, fi),
        ParsedDocument::ParsedText(cs) => comps_vec(cs, mode, fi),
    }
}

fn comps_vec(cs: &Vec<DocumentComponent>, mode: TextMode, fi: &Option<FileInfo>) -> (r: Vec<char>)
    requires
        mode != TextMode::Obsidian,
        renders_all(dcs_v(cs@), mode),
    ensures
        mode == TextMode::LogSeq ==> r@ == crate::text::trim_end(lq_fold(dcs_v(cs@), *fi).res),
        mode != TextMode::LogSeq ==> r@ == zk_fold(dcs_v(cs@), *fi),
    decreases cs@, 1int,
{
    proof {
        lemma_dcs_v_len(cs@);
        lemma_renders_all(dcs_v(cs@), mode);
    }
    match mode {
        TextMode::LogSeq => {
            let mut res: Vec<char> = Vec::new();
            let mut new_block = true;
            let mut stack: Vec<u16> = Vec::new();
            let mut i: usize = 0;
            proof {
                assert(levels(stack@) =~= Seq::<int>::empty());
            }
            while i < cs.len()
                invariant
                    i <= cs.len(),
                    mode == TextMode::LogSeq,
                    dcs_v(cs@).len() == cs@.len(),
                    forall|k: int| 0 <= k < cs@.len() ==> #[trigger] dcs_v(cs@)[k] == cs@[k]@,
                    forall|k: int| 0 <= k < cs@.len() ==> renders_dc(#[trigger] dcs_v(cs@)[k], mode),
                    (LqState { res: res@, new_block, stack: levels(stack@) }) == lq_fold(dcs_v(cs@).take(i as int), *fi),
                decreases cs.len() - i,
            {
                proof {
                    assert(dcs_v(cs@).take(i + 1).drop_last() =~= dcs_v(cs@).take(i as int));
                    assert(dcs_v(cs@)[i as int] == cs@[i as int]@);
                }
                let t = dc_vec(&cs[i], TextMode::LogSeq, fi);
                lq_step_vec(&mut res, &mut new_block, &mut stack, &cs[i].element, &t);
                i = i + 1;
            }
            proof {
                assert(dcs_v(cs@).take(cs.len() as int) =~= dcs_v(cs@));
            }
            trim_end_vec(&res)
        },
        _ => {
            let mut res: Vec<char> = Vec::new();
            let mut i: usize = 0;
            while i < cs.len()
                invariant
                    i <= cs.len(),
                    mode != TextMode::LogSeq,
                    mode != TextMode::Obsidian,
                    dcs_v(cs@).len() == cs@.len(),
                    forall|k: int| 0 <= k < cs@.len() ==> #[trigger] dcs_v(cs@)[k] == cs@[k]@,
                    forall|k: int| 0 <= k < cs@.len() ==> renders_dc(#[trigger] dcs_v(cs@)[k], mode),
                    res@ == zk_fold(dcs_v(cs@).take(i as int), *fi),
                decreases cs.len() - i,
            {
                proof {
                    assert(dcs_v(cs@).take(i + 1).drop_last() =~= dcs_v(cs@).take(i as int));
                    assert(dcs_v(cs@)[i as int] == cs@[i as int]@);
                    assert(mode == TextMode::Zk);
                }
                let t = dc_vec(&cs[i], TextMode::Zk, fi);
                if res.len() > 0 && cs[i].should_have_own_block() && !ends_with_blank_line_exec(&res)
                    && !starts_with_blank_line_exec(&t) {
                    res.push('\n');
                }
                push_all(&mut res, &t);
                i = i + 1;
            }
            proof {
                assert(dcs_v(cs@).take(cs.len() as int) =~= dcs_v(cs@));
            }
            res
        },
    }
}

// ---------------------------------------------------------------------------
// Checking that a document can be rendered.
fn renders_el_exec(e: &DocumentElement, mode: TextMode) -> (b: bool)
    ensures
        b == renders_el(e@, mode),
    decreases e, 0int,
{
    match e {
        DocumentElement::Frontmatter(_) => mode != TextMode::LogSeq,
        DocumentElement::Admonition(cs, _) => renders_all_exec(cs, TextMode::LogSeq),
        DocumentElement::ListElement(pd, _) => renders_doc_exec(pd, mode),
        DocumentElement::List(ls, _) => renders_les_exec(ls, mode),
        _ => true,
    }
}

fn renders_all_exec(cs: &Vec<DocumentComponent>, mode: TextMode) -> (b: bool)
    ensures
        b == renders_all(dcs_v(cs@), mode),
    decreases cs@, 0int,
{
    proof {
        lemma_dcs_v_len(cs@);
    }
    let mut i: usize = 0;
    while i < cs.len()
        invariant
            i <= cs.len(),
            dcs_v(cs@).len() == cs@.len(),
            forall|k: int| 0 <= k < cs@.len() ==> #[trigger] dcs_v(cs@)[k] == cs@[k]@,
            renders_all(dcs_v(cs@).take(i as int), mode),
        decreases cs.len() - i,
    {
        proof {
            assert(dcs_v(cs@).take(i + 1).drop_last() =~= dcs_v(cs@).take(i as int));
            assert(dcs_v(cs@)[i as int] == cs@[i as int]@);
        }
        if !renders_dc_exec(&cs[i], mode) {
            proof {
                if renders_all(dcs_v(cs@), mode) {
                    lemma_renders_all(dcs_v(cs@), mode);
                }
            }
            return false;
        }
        i = i + 1;
    }
    proof {
        assert(dcs_v(cs@).take(cs.len() as int) =~= dcs_v(cs@));
    }
    true
}

fn renders_dc_exec(c: &DocumentComponent, mode: TextMode) -> (b: bool)
    ensures
        b == renders_dc(c@, mode),
    decreases c, 0int,
{
    renders_el_exec(&c.element, mode) && renders_all_exec(&c.children, mode)
}

fn renders_doc_exec(d: &ParsedDocument, mode: TextMode) -> (b: bool)
    ensures
        b == renders_doc(d@, mode),
    decreases d, 0int,
{
    match d {
        ParsedDocument::ParsedFile(cs, _) => renders_all_exec(cs, mode),
        ParsedDocument::ParsedText(cs) => renders_all_exec(cs, mode),
    }
}

fn renders_le_exec(l: &ListElem, mode: TextMode) -> (b: bool)
    ensures
        b == renders_le(l@, mode),
    decreases l, 0int,
{
    renders_doc_exec(&l.contents, mode) && renders_les_exec(&l.children, mode)
}

fn renders_les_exec(ls: &Vec<ListElem>, mode: TextMode) -> (b: bool)
    ensures
        b == renders_les(crate::document::les_v(ls@), mode),
    decreases ls@, 0int,
{
    let ghost lv = crate::document::les_v(ls@);
    proof {
        lemma_les_v_len(ls@);
    }
    let mut i: usize = 0;
    while i < ls.len()
        invariant
            i <= ls.len(),
            lv == crate::document::les_v(ls@),
            lv.len() == ls@.len(),
            forall|k: int| 0 <= k < ls@.len() ==> #[trigger] lv[k] == ls@[k]@,
            renders_les(lv.take(i as int), mode),
        decreases ls.len() - i,
    {
        proof {
            assert(lv.take(i + 1).drop_last() =~= lv.take(i as int));
            assert(lv[i as int] == ls@[i as int]@);
        }
        if !renders_le_exec(&ls[i], mode) {
            proof {
                if renders_les(lv, mode) {
                    lemma_renders_les(lv, mode);
                }
            }
            return false;
        }
        i = i + 1;
    }
    proof {
        assert(lv.take(ls.len() as int) =~= lv);
    }
    true
}

/// Whether an embed of a file of this name cannot be rendered (see `image_panics`).
pub fn image_panics_exec(name: &Vec<char>, fi: &Option<FileInfo>) -> (b: bool)
    ensures
        b == image_panics(name@, *fi),
{
    match fi {
        Some(f) => match (&f.destination_file, &f.image_dirs) {
            (Some(dest), Some(_)) => {
                let k = match last_index_exec(name, '.') {
                    Some(k) => k,
                    None => {
                        return false;
                    },
                };
                proof {
                    lemma_last_index_of(name@, '.');
                }
                let n = name.len();
                let ext = slice_of(name, k + 1, n);
                proof {
                    assert(ext@ == name@.skip(k + 1));
                }
                (eq_str(&ext, "png") || eq_str(&ext, "jpeg")) && parent_of(dest.as_str()).is_none()
            },
            _ => false,
        },
        None => false,
    }
}

fn images_ok_el_exec(e: &DocumentElement, fi: &Option<FileInfo>) -> (b: bool)
    ensures
        b == images_ok_el(e@, *fi),
    decreases e, 0int,
{
    match e {
        DocumentElement::FileEmbed(m, _) => !image_panics_exec(&embed_file_name_vec(m), fi),
        DocumentElement::Admonition(cs, _) => images_ok_all_exec(cs, fi),
        DocumentElement::ListElement(pd, _) => images_ok_doc_exec(pd, fi),
        DocumentElement::List(ls, _) => images_ok_les_exec(ls, fi),
        _ => true,
    }
}

fn images_ok_all_exec(cs: &Vec<DocumentComponent>, fi: &Option<FileInfo>) -> (b: bool)
    ensures
        b == images_ok_all(dcs_v(cs@), *fi),
    decreases cs@, 0int,
{
    proof {
        lemma_dcs_v_len(cs@);
    }
    let mut i: usize = 0;
    while i < cs.len()
        invariant
            i <= cs.len(),
            dcs_v(cs@).len() == cs@.len(),
            forall|k: int| 0 <= k < cs@.len() ==> #[trigger] dcs_v(cs@)[k] == cs@[k]@,
            images_ok_all(dcs_v(cs@).take(i as int), *fi),
        decreases cs.len() - i,
    {
        proof {
            assert(dcs_v(cs@).take(i + 1).drop_last() =~= dcs_v(cs@).take(i as int));
            assert(dcs_v(cs@)[i as int] == cs@[i as int]@);
        }
        if !images_ok_dc_exec(&cs[i], fi) {
            proof {
                if images_ok_all(dcs_v(cs@), *fi) {
                    lemma_images_ok_all(dcs_v(cs@), *fi);
                }
            }
            return false;
        }
        i = i + 1;
    }
    proof {
        assert(dcs_v(cs@).take(cs.len() as int) =~= dcs_v(cs@));
    }
    true
}

fn images_ok_dc_exec(c: &DocumentComponent, fi: &Option<FileInfo>) -> (b: bool)
    ensures
        b == images_ok_dc(c@, *fi),
    decreases c, 0int,
{
    images_ok_el_exec(&c.element, fi) && images_ok_all_exec(&c.children, fi)
}

/// Whether no embed in the document is an image that cannot be placed (see `image_panics`).
pub fn images_ok_doc_exec(d: &ParsedDocument, fi: &Option<FileInfo>) -> (b: bool)
    ensures
        b == images_ok_doc(d@, *fi),
    decreases d, 0int,
{
    match d {
        ParsedDocument::ParsedFile(cs, _) => images_ok_all_exec(cs, fi),
        ParsedDocument::ParsedText(cs) => images_ok_all_exec(cs, fi),
    }
}

fn images_ok_le_exec(l: &ListElem, fi: &Option<FileInfo>) -> (b: bool)
    ensures
        b == images_ok_le(l@, *fi),
    decreases l, 0int,
{
    images_ok_doc_exec(&l.contents, fi) && images_ok_les_exec(&l.children, fi)
}

fn images_ok_les_exec(ls: &Vec<ListElem>, fi: &Option<FileInfo>) -> (b: bool)
    ensures
        b == images_ok_les(crate::document::les_v(ls@), *fi),
    decreases ls@, 0int,
{
    let ghost lv = crate::document::les_v(ls@);
    proof {
        lemma_les_v_len(ls@);
    }
    let mut i: usize = 0;
    while i < ls.len()
        invariant
            i <= ls.len(),
            lv == crate::document::les_v(ls@),
            lv.len() == ls@.len(),
            forall|k: int| 0 <= k < ls@.len() ==> #[trigger] lv[k] == ls@[k]@,
            images_ok_les(lv.take(i as int), *fi),
        decreases ls.len() - i,
    {
        proof {
            assert(lv.take(i + 1).drop_last() =~= lv.take(i as int));
            assert(lv[i as int] == ls@[i as int]@);
        }
        if !images_ok_le_exec(&ls[i], fi) {
            proof {
                if images_ok_les(lv, *fi) {
                    lemma_images_ok_les(lv, *fi);
                }
            }
            return false;
        }
        i = i + 1;
    }
    proof {
        assert(lv.take(ls.len() as int) =~= lv);
    }
    true
}

// ---------------------------------------------------------------------------
// The public rendering functions.
impl DocumentElement {
    /// The element as LogSeq text.
    pub fn to_logseq_text(&self, file_info: &Option<FileInfo>) -> (r: String)
        requires
            renders_el(self@, TextMode::LogSeq),
            images_ok_el(self@, *file_info),
        ensures
            r@ == el_text(self@, TextMode::LogSeq, *file_info),
    {
        string_of(&el_vec(self, TextMode::LogSeq, file_info))
    }

    /// The element as zk text.
    pub fn to_zk_text(&self, file_info: &Option<FileInfo>) -> (r: String)
        requires
            renders_el(self@, TextMode::Zk),
            images_ok_el(self@, *file_info),
        ensures
            r@ == el_text(self@, TextMode::Zk, *file_info),
    {
        string_of(&el_vec(self, TextMode::Zk, file_info))
    }
}

impl DocumentComponent {
    /// The component as LogSeq text: its element, then its children's lines indented.
    pub fn to_logseq_text(&self, file_info: &Option<FileInfo>) -> (r: String)
        requires
            renders_dc(self@, TextMode::LogSeq),
            images_ok_dc(self@, *file_info),
        ensures
            r@ == dc_text(self@, TextMode::LogSeq, *file_info),
    {
        string_of(&dc_vec(self, TextMode::LogSeq, file_info))
    }

    /// The component as zk text: its element, then its children's lines after a tab.
    pub fn to_zk_text(&self, file_info: &Option<FileInfo>) -> (r: String)
        requires
            renders_dc(self@, TextMode::Zk),
            images_ok_dc(self@, *file_info),
        ensures
            r@ == dc_text(self@, TextMode::Zk, *file_info),
    {
        string_of(&dc_vec(self, TextMode::Zk, file_info))
    }
}

impl ListElem {
    /// The list element and its children, indented by `indent_level` steps of four spaces.
    pub fn to_mode_text(&self, mode: &TextMode, file_info: &Option<FileInfo>, indent_level: usize) -> (r: String)
        requires
            *mode != TextMode::Obsidian,
            renders_le(self@, *mode),
            images_ok_le(self@, *file_info),
        ensures
            r@ == le_text(self@, *mode, *file_info, indent_level as nat),
    {
        let mut prefix: Vec<char> = Vec::new();
        let four = chars_of("    ");
        push_repeat(&mut prefix, &four, indent_level);
        string_of(&le_vec(self, *mode, file_info, &prefix, Ghost(indent_level as nat)))
    }
}

impl ParsedDocument {
    /// The document as zk text.
    pub fn to_zk_text(&self, file_info: &Option<FileInfo>) -> (r: String)
        requires
            renders_doc(self@, TextMode::Zk),
            images_ok_doc(self@, *file_info),
        ensures
            r@ == doc_text(self@, TextMode::Zk, *file_info),
    {
        string_of(&doc_vec(self, TextMode::Zk, file_info))
    }

    /// The document as LogSeq blocks.
    pub fn to_logseq_text(&self, file_info: &Option<FileInfo>) -> (r: String)
        requires
            renders_doc(self@, TextMode::LogSeq),
            images_ok_doc(self@, *file_info),
        ensures
            r@ == doc_text(self@, TextMode::LogSeq, *file_info),
    {
        string_of(&doc_vec(self, TextMode::LogSeq, file_info))
    }

    /// The document in the given format (there is no conversion to Obsidian).
    pub fn to_string(&self, outmode: TextMode, file_info: &Option<FileInfo>) -> (r: String)
        requires
            outmode != TextMode::Obsidian,
            renders_doc(self@, outmode),
            images_ok_doc(self@, *file_info),
        ensures
            r@ == doc_text(self@, outmode, *file_info),
    {
        string_of(&doc_vec(self, outmode, file_info))
    }

    /// The document in the given format, or `None` where it has no such form: a conversion to
    /// Obsidian, a frontmatter in LogSeq, or an embedded image to be copied while the
    /// destination file has no parent directory.
    pub fn try_to_string(&self, outmode: TextMode, file_info: &Option<FileInfo>) -> (r: Option<String>)
        ensures
            crate::paths::opt_view(r) == rendered(self@, outmode, *file_info),
    {
        if outmode == TextMode::Obsidian || !renders_doc_exec(self, outmode) || !images_ok_doc_exec(self, file_info) {
            None
        } else {
            Some(self.to_string(outmode, file_info))
        }
    }
}

/// The text a document has in a format, where it has one: not in Obsidian; in LogSeq or zk
/// where it renders in that format and its embedded images can be placed.
pub open spec fn rendered(d: crate::document::DocV, mode: TextMode, fi: Option<FileInfo>) -> Option<Seq<char>> {
    if mode != TextMode::Obsidian && renders_doc(d, mode) && images_ok_doc(d, fi) {
        Some(doc_text(d, mode, fi))
    } else {
        None
    }
}

/// `to_string` in LogSeq or zk renders what `to_logseq_text` or `to_zk_text` renders: a
/// document has a text in the format exactly where those accept it, and it is the text they
/// give; in Obsidian there is none.
pub proof fn to_string_agrees_with_format_renderers(d: crate::document::DocV, fi: Option<FileInfo>)
    ensures
        rendered(d, TextMode::LogSeq, fi) is Some <==> renders_doc(d, TextMode::LogSeq) && images_ok_doc(d, fi),
        rendered(d, TextMode::LogSeq, fi) matches Some(t) ==> t == doc_text(d, TextMode::LogSeq, fi),
        rendered(d, TextMode::Zk, fi) is Some <==> renders_doc(d, TextMode::Zk) && images_ok_doc(d, fi),
        rendered(d, TextMode::Zk, fi) matches Some(t) ==> t == doc_text(d, TextMode::Zk, fi),
        rendered(d, TextMode::Obsidian, fi) is None,
{
}

} // verus!
