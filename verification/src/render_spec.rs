//! What the LogSeq and zk renderings of a document are, stated over the document model.
use vstd::prelude::*;
use crate::document::{
    ComponentV, DocV, ElementV, FileInfo, ListElemV, MentionedFileV, PropType, PropValueV,
    PropertyV, TextMode, elem_is_empty_lines, elem_own_block,
};
use crate::paths::{path_file_name, path_join, path_parent, relative_path};
use crate::text::{is_blank, join, lines, next_nl, repeat, replace_char, starts_with, trim, trim_end,
    trim_start};

verus! {

/// The name or the path of a mentioned file, as it is displayed.
pub open spec fn display(m: MentionedFileV) -> Seq<char> {
    match m {
        MentionedFileV::FileName(n) => n,
        MentionedFileV::FilePath(p) => p,
    }
}

/// The value of the first pair whose key is `key`.
pub open spec fn lookup(props: Seq<(Seq<char>, Seq<char>)>, key: Seq<char>) -> Option<Seq<char>>
    decreases props.len(),
{
    if props.len() == 0 {
        None
    } else if props[0].0 == key {
        Some(props[0].1)
    } else {
        lookup(props.drop_first(), key)
    }
}

/// Index of the last occurrence of `c` in `s`, or -1.
pub open spec fn last_index_of(s: Seq<char>, c: char) -> int
    decreases s.len(),
{
    if s.len() == 0 {
        -1
    } else if s.last() == c {
        s.len() - 1
    } else {
        last_index_of(s.drop_last(), c)
    }
}

pub proof fn lemma_last_index_of(s: Seq<char>, c: char)
    ensures
        -1 <= last_index_of(s, c) < s.len(),
        last_index_of(s, c) >= 0 ==> s[last_index_of(s, c)] == c,
        forall|k: int| last_index_of(s, c) < k < s.len() ==> s[k] != c,
    decreases s.len(),
{
    if s.len() > 0 && s.last() != c {
        lemma_last_index_of(s.drop_last(), c);
        assert forall|k: int| last_index_of(s, c) < k < s.len() implies s[k] != c by {
            if k < s.len() - 1 {
                assert(s.drop_last()[k] == s[k]);
            }
        }
    }
}

/// `s` without the characters `[` and `]`.
pub open spec fn without_brackets(s: Seq<char>) -> Seq<char>
    decreases s.len(),
{
    if s.len() == 0 {
        s
    } else {
        without_brackets(s.drop_last()) + (if s.last() == '[' || s.last() == ']' {
            Seq::empty()
        } else {
            seq![s.last()]
        })
    }
}

/// The text with a line break before it unless it is the first.
pub open spec fn push_line(acc: Seq<char>, t: Seq<char>) -> Seq<char> {
    if acc.len() > 0 {
        acc.push('\n') + t
    } else {
        acc + t
    }
}

/// The file name that an embed refers to.
pub open spec fn embed_file_name(file: MentionedFileV) -> Seq<char> {
    match file {
        MentionedFileV::FileName(n) => n,
        MentionedFileV::FilePath(p) => match path_file_name(p) {
            Some(n) => n,
            None => "___nothing.txt"@,
        },
    }
}

/// For an image that is copied to the image output directory: its extension and its path
/// relative to the directory of the destination file.
pub open spec fn image_target(file_name: Seq<char>, fi: Option<FileInfo>) -> Option<
    (Seq<char>, Seq<char>),
> {
    match fi {
        Some(f) => match (f.destination_file, f.image_dirs) {
            (Some(dest), Some((_, out))) => {
                let k = last_index_of(file_name, '.');
                let ext = file_name.skip(k + 1);
                if k >= 0 && (ext == "png"@ || ext == "jpeg"@) {
                    match path_parent(dest@) {
                        Some(dir) => match relative_path(path_join(out@, file_name), dir) {
                            Some(rel) => Some((ext, rel)),
                            None => None,
                        },
                        None => None,
                    }
                } else {
                    None
                }
            },
            _ => None,
        },
        None => None,
    }
}

/// An embedded file: a copied image by its relative path, anything else as an embed macro.
pub open spec fn embed_text(file: MentionedFileV, fi: Option<FileInfo>) -> Seq<char> {
    match image_target(embed_file_name(file), fi) {
        Some((ext, rel)) => "![image."@ + ext + "]("@ + replace_char(rel, '\\', "/"@) + ")"@,
        None => "{{embed [["@ + display(file) + "]]}}"@,
    }
}

/// A mentioned image (LogSeq): like an embed, but the image keeps its own name.
pub open spec fn mention_text(file: MentionedFileV, fi: Option<FileInfo>) -> Seq<char> {
    let name = embed_file_name(file);
    match image_target(name, fi) {
        Some((ext, rel)) => "!["@ + name.take(last_index_of(name, '.')) + seq!['.'] + ext + "]("@
            + replace_char(rel, '\\', "/"@) + ")"@,
        None => "{{embed [["@ + name + "]]}}"@,
    }
}

/// The target of a zk link to a path: relative to the destination file's directory if that
/// can be computed.
pub open spec fn zk_target(p: Seq<char>, fi: Option<FileInfo>) -> Seq<char> {
    match fi {
        Some(f) => match f.destination_file {
            Some(d) => match path_parent(d@) {
                Some(dir) => match relative_path(p, dir) {
                    Some(rel) => rel,
                    None => p,
                },
                None => p,
            },
            None => p,
        },
        None => p,
    }
}

/// A markdown link `[name](target)` to a mentioned file.
pub open spec fn zk_link(file: MentionedFileV, name: Option<Seq<char>>, fi: Option<FileInfo>, sanitize: bool) -> Seq<char> {
    match file {
        MentionedFileV::FileName(m) => match name {
            Some(n) => seq!['['] + n + "]("@ + m + seq![')'],
            None => seq!['['] + m + "]("@ + m + seq![')'],
        },
        MentionedFileV::FilePath(p) => {
            let t = zk_target(p, fi);
            match name {
                Some(n) => seq!['['] + (if sanitize {
                    without_brackets(n)
                } else {
                    n
                }) + "]("@ + t + seq![')'],
                None => seq!['['] + t + "]("@ + t + seq![')'],
            }
        },
    }
}

pub open spec fn prop_value_text(v: PropValueV, mode: TextMode, fi: Option<FileInfo>) -> Seq<char> {
    match v {
        PropValueV::Str(s) => s,
        PropValueV::FileLink(mf, _, rename) => if mode == TextMode::LogSeq {
            "[["@ + display(mf) + "]]"@
        } else {
            zk_link(mf, rename, fi, false)
        },
    }
}

pub open spec fn prop_value_texts(vs: Seq<PropValueV>, mode: TextMode, fi: Option<FileInfo>) -> Seq<
    Seq<char>,
> {
    vs.map_values(|v: PropValueV| prop_value_text(v, mode, fi))
}

/// A property line: `name:: values` (LogSeq) or `name ::= values` (zk).
pub open spec fn prop_text(p: PropertyV, mode: TextMode, fi: Option<FileInfo>) -> Seq<char> {
    let value = join(prop_value_texts(p.values, mode, fi), ", "@);
    if mode == TextMode::LogSeq {
        if is_blank(value) {
            p.name + "::"@ + value
        } else {
            p.name + ":: "@ + value
        }
    } else {
        match p.prop_type {
            PropType::Single => p.name + " ::= "@ + value,
            _ => p.name + " ::= ["@ + value + seq![']'],
        }
    }
}

/// The values of a list property, one per line.
pub open spec fn fm_list_values(vs: Seq<Seq<char>>) -> Seq<char>
    decreases vs.len(),
{
    if vs.len() == 0 {
        Seq::empty()
    } else {
        fm_list_values(vs.drop_last()) + "\n    - "@ + vs.last()
    }
}

/// A property in a frontmatter block.
pub open spec fn fm_prop_text(p: PropertyV, fi: Option<FileInfo>) -> Seq<char> {
    let vals = prop_value_texts(p.values, TextMode::Zk, fi);
    match p.prop_type {
        PropType::Single => p.name + ": "@ + join(vals, ", "@),
        PropType::CompactList => p.name + ": ["@ + join(vals, ", "@) + seq![']'],
        PropType::List => p.name + seq![':'] + fm_list_values(vals),
    }
}

pub open spec fn fm_props(ps: Seq<PropertyV>, fi: Option<FileInfo>) -> Seq<char>
    decreases ps.len(),
{
    if ps.len() == 0 {
        Seq::empty()
    } else {
        fm_props(ps.drop_last(), fi).push('\n') + fm_prop_text(ps.last(), fi)
    }
}

/// The properties, one per line.
pub open spec fn props_text(ps: Seq<PropertyV>, mode: TextMode, fi: Option<FileInfo>) -> Seq<char>
    decreases ps.len(),
{
    if ps.len() == 0 {
        Seq::empty()
    } else {
        push_line(props_text(ps.drop_last(), mode, fi), prop_text(ps.last(), mode, fi))
    }
}

pub open spec fn heading_text(level: u16, title: Seq<char>) -> Seq<char> {
    repeat(seq!['#'], level as nat) + seq![' '] + trim(title)
}

/// The properties of a list element: the first after `- `, the others on lines of their own.
pub open spec fn le_props_text(props: Seq<(Seq<char>, Seq<char>)>, mode: TextMode) -> Seq<char>
    decreases props.len(),
{
    if props.len() == 0 {
        Seq::empty()
    } else {
        let (k, v) = props.last();
        let line = if mode == TextMode::LogSeq {
            if v.len() == 0 {
                k + "::"@
            } else {
                k + ":: "@ + v
            }
        } else {
            if v.len() == 0 {
                k + " ::="@
            } else {
                k + " ::= "@ + v
            }
        };
        le_props_text(props.drop_last(), mode) + (if props.len() > 1 {
            "\n  "@
        } else {
            "- "@
        }) + line
    }
}

/// The lines of a list element's text after its properties.
pub open spec fn le_lines(res0: Seq<char>, ls: Seq<Seq<char>>) -> Seq<char>
    decreases ls.len(),
{
    if ls.len() == 0 {
        res0
    } else {
        let prev = le_lines(res0, ls.drop_last());
        let i = ls.len() - 1;
        let l = ls.last();
        if prev.len() == 0 && i == 0 && !starts_with(trim(l), "- "@) {
            prev + "- "@ + l
        } else if i > 0 {
            prev + "\n  "@ + l
        } else {
            prev + l
        }
    }
}

pub open spec fn list_element_text(
    text: Seq<char>,
    props: Seq<(Seq<char>, Seq<char>)>,
    mode: TextMode,
) -> Seq<char> {
    let t = if mode == TextMode::LogSeq {
        text
    } else {
        trim_start(text)
    };
    let r = le_lines(le_props_text(props, mode), lines(t));
    if r.len() == 0 {
        seq!['-']
    } else {
        r
    }
}

pub open spec fn admonition_text(body: Seq<char>, props: Seq<(Seq<char>, Seq<char>)>, mode: TextMode) -> Seq<char> {
    let body = trim(body);
    let title = lookup(props, "title"@);
    if mode == TextMode::LogSeq {
        "#+BEGIN_QUOTE"@ + (match title {
            Some(t) => "\n  **"@ + t + "**"@,
            None => Seq::empty(),
        }) + "\n  "@ + replace_char(body, '\n', "\n  "@) + "\n  #+END_QUOTE"@
    } else {
        "- #+BEGIN_QUOTE"@ + (match title {
            Some(t) => "\n**"@ + t + "**"@,
            None => Seq::empty(),
        }) + seq!['\n'] + body + "\n#+END_QUOTE"@
    }
}

pub open spec fn code_text(text: Seq<char>, code_type: Option<Seq<char>>, mode: TextMode) -> Seq<char> {
    let head = "```"@ + match code_type {
        Some(ct) => ct,
        None => Seq::empty(),
    };
    if mode == TextMode::LogSeq {
        head + "\n  "@ + replace_char(text, '\n', "\n  "@) + "\n  ```"@
    } else {
        head + seq!['\n'] + text + "\n```"@
    }
}

/// The lines of a child component, each on a line of its own and indented.
pub open spec fn indent_lines(ls: Seq<Seq<char>>) -> Seq<char>
    decreases ls.len(),
{
    if ls.len() == 0 {
        Seq::empty()
    } else {
        indent_lines(ls.drop_last()) + "\n    "@ + ls.last()
    }
}

/// The lines of a child component in zk: non-empty lines get a tab; the first two lines are
/// not separated.
pub open spec fn tab_lines(ls: Seq<Seq<char>>) -> Seq<char>
    decreases ls.len(),
{
    if ls.len() == 0 {
        Seq::empty()
    } else {
        let l = ls.last();
        tab_lines(ls.drop_last()) + (if ls.len() - 1 > 1 {
            seq!['\n']
        } else {
            Seq::empty()
        }) + (if l.len() > 0 {
            seq!['\t'] + l
        } else {
            Seq::empty()
        })
    }
}

/// The first lines of a list element: the first marked as a list item, the others aligned.
pub open spec fn le_head(ls: Seq<Seq<char>>, indent: nat) -> Seq<char>
    decreases ls.len(),
{
    if ls.len() == 0 {
        Seq::empty()
    } else {
        let i = ls.len() - 1;
        let l = ls.last();
        le_head(ls.drop_last(), indent) + (if i > 0 {
            seq!['\n']
        } else {
            Seq::empty()
        }) + repeat("    "@, indent) + (if i == 0 {
            if starts_with(l, "- "@) {
                Seq::empty()
            } else {
                "- "@
            }
        } else {
            "  "@
        }) + l
    }
}

/// The first line of the block's text already starts a list item.
pub open spec fn marked(t: Seq<char>, line: Seq<char>) -> bool {
    starts_with(t, "- "@) || starts_with(t, "-\n"@) || starts_with(t, "-\n\r"@) || t == seq!['-']
        || starts_with(line, "- "@)
}

/// `s` without its trailing whitespace-only lines (only those after a line break).
pub open spec fn strip_blank_lines(s: Seq<char>) -> Seq<char>
    decreases s.len(),
{
    let k = last_index_of(s, '\n');
    if k >= 0 && is_blank(s.skip(k + 1)) {
        proof {
            lemma_last_index_of(s, '\n');
        }
        strip_blank_lines(s.take(k))
    } else {
        s
    }
}

/// Before a new list item: trailing blank lines go, but the last of them stays as it was.
pub open spec fn drop_blank_tail(res: Seq<char>) -> Seq<char> {
    let k = last_index_of(res, '\n');
    if k >= 0 && is_blank(res.skip(k + 1)) {
        strip_blank_lines(res.take(k)).push('\n') + res.skip(k + 1)
    } else {
        res
    }
}

/// The lines of a block that starts a LogSeq block of its own.
pub open spec fn block_lines(res0: Seq<char>, ls: Seq<Seq<char>>, indent: Seq<char>, t: Seq<char>) -> Seq<char>
    decreases ls.len(),
{
    if ls.len() == 0 {
        res0
    } else {
        let prev = block_lines(res0, ls.drop_last(), indent, t);
        let l = ls.last();
        let first = ls.len() == 1;
        let prev2 = if first {
            if l.len() > 0 {
                prev + indent
            } else {
                prev
            }
        } else {
            prev.push('\n') + indent
        };
        let line = if first && !marked(t, l) {
            "- "@ + l
        } else {
            l
        };
        let prev3 = if starts_with(trim(line), "- "@) {
            drop_blank_tail(prev2)
        } else {
            prev2
        };
        prev3 + line
    }
}

/// The heading levels above the current position: pops those at or below `level`, at most one
/// of them equal.
pub open spec fn pop_levels(stack: Seq<int>, level: int) -> Seq<int>
    decreases stack.len(),
{
    if stack.len() == 0 {
        stack
    } else if stack.last() < level {
        stack
    } else if stack.last() == level {
        stack.drop_last()
    } else {
        pop_levels(stack.drop_last(), level)
    }
}

/// The state of rendering a document as LogSeq blocks.
pub struct LqState {
    pub res: Seq<char>,
    pub new_block: bool,
    pub stack: Seq<int>,
}

pub open spec fn lq_init() -> LqState {
    LqState { res: Seq::empty(), new_block: true, stack: Seq::empty() }
}

/// One component (rendered as `text`) added to the LogSeq rendering.
pub open spec fn lq_step(st: LqState, e: ElementV, text: Seq<char>) -> LqState {
    let is_heading = e is Heading;
    let stack = match e {
        ElementV::Heading(level, _) => pop_levels(st.stack, level as int).push(level as int),
        _ => st.stack,
    };
    let own = elem_own_block(e);
    let res = if is_blank(text) || elem_is_empty_lines(e) {
        st.res
    } else if st.new_block || own {
        let hl: int = if is_heading {
            if stack.len() > 0 {
                stack.len() - 1
            } else {
                0
            }
        } else {
            stack.len() as int
        };
        let indent = repeat(seq![' '], (hl * 4) as nat);
        let res1 = if st.res.len() > 0 && !starts_with(text, seq!['\n']) {
            st.res.push('\n')
        } else {
            st.res
        };
        block_lines(res1, lines(text), indent, trim(text))
    } else {
        st.res + text
    };
    LqState { res, new_block: own, stack }
}

/// The text ends with a line that holds only whitespace.
pub open spec fn ends_with_blank_line(s: Seq<char>) -> bool {
    s.len() > 0 && s.last() == '\n' && is_blank(
        s.drop_last().skip(last_index_of(s.drop_last(), '\n') + 1),
    )
}

/// The text starts with a line that holds only whitespace.
pub open spec fn starts_with_blank_line(s: Seq<char>) -> bool {
    let k = next_nl(s, 0);
    k < s.len() && is_blank(s.take(k))
}

// ---------------------------------------------------------------------------
// The renderings, by the structure of the document.
pub open spec fn el_text(e: ElementV, mode: TextMode, fi: Option<FileInfo>) -> Seq<char>
    decreases e,
{
    match e {
        ElementV::Frontmatter(ps) => if mode == TextMode::LogSeq {
            Seq::empty()
        } else {
            "---"@ + fm_props(ps, fi) + "\n---"@
        },
        ElementV::Properties(ps) => props_text(ps, mode, fi),
        ElementV::Heading(level, title) => heading_text(level, title),
        ElementV::FileLink(file, _, name) => if mode == TextMode::LogSeq {
            "[["@ + display(file) + "]]"@
        } else {
            zk_link(file, name, fi, true)
        },
        ElementV::FileEmbed(file, _) => embed_text(file, fi),
        ElementV::Text(t) => t,
        ElementV::Admonition(cs, props) => admonition_text(body_text(cs, fi), props, mode),
        ElementV::CodeBlock(t, ct) => code_text(t, ct, mode),
        ElementV::ListElement(pd, props) => list_element_text(doc_text(pd, mode, fi), props, mode),
        ElementV::List(ls, term) => if mode == TextMode::LogSeq {
            list_text(ls, mode, fi)
        } else {
            list_text(ls, mode, fi) + (if term {
                "\n\n"@
            } else {
                Seq::empty()
            })
        },
    }
}

/// The components of an admonition, one after the other, as LogSeq text.
pub open spec fn body_text(cs: Seq<ComponentV>, fi: Option<FileInfo>) -> Seq<char>
    decreases cs,
{
    if cs.len() == 0 {
        Seq::empty()
    } else {
        body_text(cs.drop_last(), fi) + dc_text(cs.last(), TextMode::LogSeq, fi)
    }
}

pub open spec fn list_text(ls: Seq<ListElemV>, mode: TextMode, fi: Option<FileInfo>) -> Seq<char>
    decreases ls,
{
    if ls.len() == 0 {
        Seq::empty()
    } else {
        push_line(list_text(ls.drop_last(), mode, fi), le_text(ls.last(), mode, fi, 0))
    }
}

pub open spec fn le_text(l: ListElemV, mode: TextMode, fi: Option<FileInfo>, indent: nat) -> Seq<char>
    decreases l,
{
    let contents = doc_text(l.contents, mode, fi);
    let head = if contents.len() == 0 {
        repeat("    "@, indent) + seq!['-']
    } else {
        le_head(lines(contents), indent)
    };
    head + le_children(l.children, mode, fi, indent + 1)
}

pub open spec fn le_children(ls: Seq<ListElemV>, mode: TextMode, fi: Option<FileInfo>, indent: nat) -> Seq<char>
    decreases ls,
{
    if ls.len() == 0 {
        Seq::empty()
    } else {
        le_children(ls.drop_last(), mode, fi, indent).push('\n') + le_text(ls.last(), mode, fi, indent)
    }
}

pub open spec fn dc_text(c: ComponentV, mode: TextMode, fi: Option<FileInfo>) -> Seq<char>
    decreases c,
{
    if mode == TextMode::LogSeq {
        el_text(c.element, mode, fi) + lq_children(c.children, fi)
    } else {
        zk_children(el_text(c.element, mode, fi), c.children, fi)
    }
}

pub open spec fn lq_children(cs: Seq<ComponentV>, fi: Option<FileInfo>) -> Seq<char>
    decreases cs,
{
    if cs.len() == 0 {
        Seq::empty()
    } else {
        lq_children(cs.drop_last(), fi) + indent_lines(lines(dc_text(cs.last(), TextMode::LogSeq, fi)))
    }
}

pub open spec fn zk_children(res0: Seq<char>, cs: Seq<ComponentV>, fi: Option<FileInfo>) -> Seq<char>
    decreases cs,
{
    if cs.len() == 0 {
        res0
    } else {
        let prev = zk_children(res0, cs.drop_last(), fi);
        let i = cs.len() - 1;
        let c = cs.last();
        let text = dc_text(c, TextMode::Zk, fi);
        let nl = (!starts_with_blank_line(text) && (i > 0 && elem_own_block(cs[i - 1].element)))
            || elem_own_block(c.element);
        (if nl {
            prev.push('\n')
        } else {
            prev
        }) + tab_lines(lines(text))
    }
}

pub open spec fn doc_text(d: DocV, mode: TextMode, fi: Option<FileInfo>) -> Seq<char>
    decreases d,
{
    let cs = match d {
        DocV::File(cs, _) => cs,
        DocV::Text(cs) => cs,
    };
    if mode == TextMode::LogSeq {
        trim_end(lq_fold(cs, fi).res)
    } else {
        zk_fold(cs, fi)
    }
}

pub open spec fn lq_fold(cs: Seq<ComponentV>, fi: Option<FileInfo>) -> LqState
    decreases cs,
{
    if cs.len() == 0 {
        lq_init()
    } else {
        lq_step(lq_fold(cs.drop_last(), fi), cs.last().element, dc_text(cs.last(), TextMode::LogSeq, fi))
    }
}

pub open spec fn zk_fold(cs: Seq<ComponentV>, fi: Option<FileInfo>) -> Seq<char>
    decreases cs,
{
    if cs.len() == 0 {
        Seq::empty()
    } else {
        let res = zk_fold(cs.drop_last(), fi);
        let c = cs.last();
        let text = dc_text(c, TextMode::Zk, fi);
        (if res.len() > 0 && elem_own_block(c.element) && !ends_with_blank_line(res)
            && !starts_with_blank_line(text) {
            res.push('\n')
        } else {
            res
        }) + text
    }
}

// ---------------------------------------------------------------------------
// Documents that can be rendered: a frontmatter has no LogSeq form, and admonitions are always
// rendered as LogSeq text.
pub open spec fn renders_el(e: ElementV, mode: TextMode) -> bool
    decreases e,
{
    match e {
        ElementV::Frontmatter(_) => mode != TextMode::LogSeq,
        ElementV::Admonition(cs, _) => renders_all(cs, TextMode::LogSeq),
        ElementV::ListElement(pd, _) => renders_doc(pd, mode),
        ElementV::List(ls, _) => renders_les(ls, mode),
        _ => true,
    }
}

pub open spec fn renders_all(cs: Seq<ComponentV>, mode: TextMode) -> bool
    decreases cs,
{
    if cs.len() == 0 {
        true
    } else {
        renders_all(cs.drop_last(), mode) && renders_dc(cs.last(), mode)
    }
}

pub open spec fn renders_dc(c: ComponentV, mode: TextMode) -> bool
    decreases c,
{
    renders_el(c.element, mode) && renders_all(c.children, mode)
}

pub open spec fn renders_doc(d: DocV, mode: TextMode) -> bool
    decreases d,
{
    match d {
        DocV::File(cs, _) => renders_all(cs, mode),
        DocV::Text(cs) => renders_all(cs, mode),
    }
}

pub open spec fn renders_le(l: ListElemV, mode: TextMode) -> bool
    decreases l,
{
    renders_doc(l.contents, mode) && renders_les(l.children, mode)
}

pub open spec fn renders_les(ls: Seq<ListElemV>, mode: TextMode) -> bool
    decreases ls,
{
    if ls.len() == 0 {
        true
    } else {
        renders_les(ls.drop_last(), mode) && renders_le(ls.last(), mode)
    }
}

pub proof fn lemma_renders_all(cs: Seq<ComponentV>, mode: TextMode)
    requires
        renders_all(cs, mode),
    ensures
        forall|i: int| 0 <= i < cs.len() ==> #[trigger] renders_dc(cs[i], mode),
        forall|i: int| 0 <= i <= cs.len() ==> #[trigger] renders_all(cs.take(i), mode),
    decreases cs.len(),
{
    if cs.len() > 0 {
        lemma_renders_all(cs.drop_last(), mode);
        assert forall|i: int| 0 <= i < cs.len() implies #[trigger] renders_dc(cs[i], mode) by {
            if i < cs.len() - 1 {
                assert(cs.drop_last()[i] == cs[i]);
            }
        }
        assert forall|i: int| 0 <= i <= cs.len() implies #[trigger] renders_all(cs.take(i), mode) by {
            if i < cs.len() {
                assert(cs.take(i) =~= cs.drop_last().take(i));
            } else {
                assert(cs.take(i) =~= cs);
            }
        }
    }
}

pub proof fn lemma_renders_les(ls: Seq<ListElemV>, mode: TextMode)
    requires
        renders_les(ls, mode),
    ensures
        forall|i: int| 0 <= i < ls.len() ==> #[trigger] renders_le(ls[i], mode),
    decreases ls.len(),
{
    if ls.len() > 0 {
        lemma_renders_les(ls.drop_last(), mode);
        assert forall|i: int| 0 <= i < ls.len() implies #[trigger] renders_le(ls[i], mode) by {
            if i < ls.len() - 1 {
                assert(ls.drop_last()[i] == ls[i]);
            }
        }
    }
}

/// Rendering an embed of a file of this name copies it as an image, and needs the directory
/// of the destination file, which it does not have: image directories and a destination file
/// are set, the name ends in `.png` or `.jpeg`, and the destination file has no parent.
pub open spec fn image_panics(name: Seq<char>, fi: Option<FileInfo>) -> bool {
    match fi {
        Some(f) => match (f.destination_file, f.image_dirs) {
            (Some(dest), Some(_)) => {
                let k = last_index_of(name, '.');
                let ext = name.skip(k + 1);
                k >= 0 && (ext == "png"@ || ext == "jpeg"@) && path_parent(dest@) is None
            },
            _ => false,
        },
        None => false,
    }
}

/// No embed in the element is an image that cannot be placed (see `image_panics`).
pub open spec fn images_ok_el(e: ElementV, fi: Option<FileInfo>) -> bool
    decreases e,
{
    match e {
        ElementV::FileEmbed(m, _) => !image_panics(embed_file_name(m), fi),
        ElementV::Admonition(cs, _) => images_ok_all(cs, fi),
        ElementV::ListElement(pd, _) => images_ok_doc(pd, fi),
        ElementV::List(ls, _) => images_ok_les(ls, fi),
        _ => true,
    }
}

pub open spec fn images_ok_all(cs: Seq<ComponentV>, fi: Option<FileInfo>) -> bool
    decreases cs,
{
    if cs.len() == 0 {
        true
    } else {
        images_ok_all(cs.drop_last(), fi) && images_ok_dc(cs.last(), fi)
    }
}

pub open spec fn images_ok_dc(c: ComponentV, fi: Option<FileInfo>) -> bool
    decreases c,
{
    images_ok_el(c.element, fi) && images_ok_all(c.children, fi)
}

pub open spec fn images_ok_doc(d: DocV, fi: Option<FileInfo>) -> bool
    decreases d,
{
    match d {
        DocV::File(cs, _) => images_ok_all(cs, fi),
        DocV::Text(cs) => images_ok_all(cs, fi),
    }
}

pub open spec fn images_ok_le(l: ListElemV, fi: Option<FileInfo>) -> bool
    decreases l,
{
    images_ok_doc(l.contents, fi) && images_ok_les(l.children, fi)
}

pub open spec fn images_ok_les(ls: Seq<ListElemV>, fi: Option<FileInfo>) -> bool
    decreases ls,
{
    if ls.len() == 0 {
        true
    } else {
        images_ok_les(ls.drop_last(), fi) && images_ok_le(ls.last(), fi)
    }
}

pub proof fn lemma_images_ok_all(cs: Seq<ComponentV>, fi: Option<FileInfo>)
    requires
        images_ok_all(cs, fi),
    ensures
        forall|i: int| 0 <= i < cs.len() ==> #[trigger] images_ok_dc(cs[i], fi),
    decreases cs.len(),
{
    if cs.len() > 0 {
        lemma_images_ok_all(cs.drop_last(), fi);
        assert forall|i: int| 0 <= i < cs.len() implies #[trigger] images_ok_dc(cs[i], fi) by {
            if i < cs.len() - 1 {
                assert(cs.drop_last()[i] == cs[i]);
            }
        }
    }
}

pub proof fn lemma_images_ok_les(ls: Seq<ListElemV>, fi: Option<FileInfo>)
    requires
        images_ok_les(ls, fi),
    ensures
        forall|i: int| 0 <= i < ls.len() ==> #[trigger] images_ok_le(ls[i], fi),
    decreases ls.len(),
{
    if ls.len() > 0 {
        lemma_images_ok_les(ls.drop_last(), fi);
        assert forall|i: int| 0 <= i < ls.len() implies #[trigger] images_ok_le(ls[i], fi) by {
            if i < ls.len() - 1 {
                assert(ls.drop_last()[i] == ls[i]);
            }
        }
    }
}

/// The levels rise strictly from the bottom of the stack to its top.
pub open spec fn rising(s: Seq<int>) -> bool {
    forall|i: int, j: int| 0 <= i < j < s.len() ==> s[i] < s[j]
}

proof fn lemma_pop_levels(s: Seq<int>, level: int)
    requires
        rising(s),
    ensures
        pop_levels(s, level).len() <= s.len(),
        pop_levels(s, level) == s.take(pop_levels(s, level).len() as int),
        forall|i: int| 0 <= i < pop_levels(s, level).len() ==> #[trigger] pop_levels(s, level)[i] < level,
        forall|i: int| pop_levels(s, level).len() <= i < s.len() ==> #[trigger] s[i] >= level,
    decreases s.len(),
{
    if s.len() == 0 {
        assert(s.take(0) =~= s);
    } else if s.last() < level {
        assert(s.take(s.len() as int) =~= s);
        assert forall|i: int| 0 <= i < s.len() implies #[trigger] s[i] < level by {
            if i < s.len() - 1 {
                assert(s[i] < s[s.len() - 1]);
            }
        }
    } else if s.last() == level {
        assert(s.take(s.len() - 1) =~= s.drop_last());
        assert forall|i: int| 0 <= i < s.len() - 1 implies #[trigger] s.drop_last()[i] < level by {
            assert(s[i] < s[s.len() - 1]);
        }
    } else {
        let d = s.drop_last();
        assert(rising(d)) by {
            assert forall|i: int, j: int| 0 <= i < j < d.len() implies d[i] < d[j] by {
                assert(d[i] == s[i] && d[j] == s[j]);
            }
        }
        lemma_pop_levels(d, level);
        let p = pop_levels(d, level);
        assert(p == pop_levels(s, level));
        assert(p =~= s.take(p.len() as int)) by {
            assert forall|i: int| 0 <= i < p.len() implies p[i] == s.take(p.len() as int)[i] by {
                assert(p[i] == d.take(p.len() as int)[i]);
            }
        }
        assert forall|i: int| p.len() <= i < s.len() implies #[trigger] s[i] >= level by {
            if i < s.len() - 1 {
                assert(s[i] == d[i]);
            }
        }
    }
}

proof fn lemma_lq_step_rising(st: LqState, e: ElementV, text: Seq<char>)
    requires
        rising(st.stack),
    ensures
        rising(lq_step(st, e, text).stack),
{
    if let ElementV::Heading(level, _) = e {
        lemma_pop_levels(st.stack, level as int);
        let p = pop_levels(st.stack, level as int);
        let s2 = p.push(level as int);
        assert forall|i: int, j: int| 0 <= i < j < s2.len() implies s2[i] < s2[j] by {
            if j < p.len() {
                assert(p[i] == st.stack[i] && p[j] == st.stack[j]);
            } else {
                assert(p[i] < level as int);
            }
        }
    }
}

proof fn lemma_lq_fold_rising(cs: Seq<ComponentV>, fi: Option<FileInfo>)
    ensures
        rising(lq_fold(cs, fi).stack),
    decreases cs.len(),
{
    if cs.len() > 0 {
        lemma_lq_fold_rising(cs.drop_last(), fi);
        lemma_lq_step_rising(lq_fold(cs.drop_last(), fi), cs.last().element, dc_text(cs.last(), TextMode::LogSeq, fi));
    }
}

/// In the LogSeq rendering the open headings (whose depth sets a heading block's indentation)
/// rise strictly in level. A heading of level `level` closes every open heading of its own or
/// a deeper level and keeps the lower ones open: after it the open headings are the lower
/// ones that were open, then itself. So a heading right after one of the same level (no other
/// heading between) stands at the same depth as that one, never below it; and only the other
/// components leave the open headings as they were.
pub proof fn logseq_heading_closes_same_and_deeper(cs: Seq<ComponentV>, fi: Option<FileInfo>, e: ElementV, text: Seq<char>)
    ensures
        rising(lq_fold(cs, fi).stack),
        ({
            let before = lq_fold(cs, fi).stack;
            let after = lq_step(lq_fold(cs, fi), e, text).stack;
            &&& rising(after)
            &&& (e matches ElementV::Heading(level, _) ==> {
                &&& after.len() > 0 && after.last() == level as int
                &&& after.drop_last() == before.take(after.len() - 1)
                &&& forall|i: int| 0 <= i < after.len() - 1 ==> #[trigger] after[i] < level as int
                &&& forall|i: int| after.len() - 1 <= i < before.len() ==> #[trigger] before[i] >= level as int
                &&& (before.len() > 0 && before.last() == level as int ==> after == before)
            })
            &&& (!(e is Heading) ==> after == before)
        }),
{
    lemma_lq_fold_rising(cs, fi);
    let st = lq_fold(cs, fi);
    lemma_lq_step_rising(st, e, text);
    if let ElementV::Heading(level, _) = e {
        lemma_pop_levels(st.stack, level as int);
        let p = pop_levels(st.stack, level as int);
        let after = p.push(level as int);
        assert(after.drop_last() =~= p);
        if st.stack.len() > 0 && st.stack.last() == level as int {
            let n = st.stack.len();
            assert(p.len() == n - 1) by {
                if p.len() == n {
                    assert(p[n - 1] == st.stack[n - 1]);
                }
                if p.len() < n - 1 {
                    assert(st.stack[n - 2] >= level as int);
                    assert(st.stack[n - 2] < st.stack[n - 1]);
                }
            }
            assert(after =~= st.stack) by {
                assert forall|i: int| 0 <= i < n - 1 implies after[i] == st.stack[i] by {
                    assert(p[i] == st.stack.take(p.len() as int)[i]);
                }
            }
        }
    }
}

/// The language of a code block: its name, or nothing.
pub open spec fn fence_language(code_type: Option<Seq<char>>) -> Seq<char> {
    match code_type {
        Some(l) => l,
        None => Seq::empty(),
    }
}

/// In zk text a code block with language `l` (or none) and text `t` is the fence line
/// "```" followed by `l`, a line break, `t`, a line break and the closing "```"; in LogSeq the
/// fence line is the same and the text follows it indented by two spaces. A document made of
/// that one block reads in zk as exactly the block.
pub proof fn code_block_fences_carry_the_language(t: Seq<char>, code_type: Option<Seq<char>>, fi: Option<FileInfo>)
    ensures
        el_text(ElementV::CodeBlock(t, code_type), TextMode::Zk, fi) == "```"@ + fence_language(code_type) + seq!['\n'] + t + "\n```"@,
        el_text(ElementV::CodeBlock(t, code_type), TextMode::LogSeq, fi).take(3 + fence_language(code_type).len() + 1 as int)
            == "```"@ + fence_language(code_type) + seq!['\n'],
        el_text(ElementV::CodeBlock(t, code_type), TextMode::LogSeq, fi) == "```"@ + fence_language(code_type) + "\n  "@
            + replace_char(t, '\n', "\n  "@) + "\n  ```"@,
        doc_text(DocV::Text(seq![ComponentV { element: ElementV::CodeBlock(t, code_type), children: Seq::empty() }]), TextMode::Zk, fi)
            == "```"@ + fence_language(code_type) + seq!['\n'] + t + "\n```"@,
{
    reveal_strlit("```");
    reveal_strlit("\n```");
    reveal_strlit("\n  ");
    let head = "```"@ + fence_language(code_type);
    let lq = el_text(ElementV::CodeBlock(t, code_type), TextMode::LogSeq, fi);
    assert(lq == head + "\n  "@ + replace_char(t, '\n', "\n  "@) + "\n  ```"@);
    assert(lq.take(head.len() + 1 as int) =~= head + seq!['\n']);
    let c = ComponentV { element: ElementV::CodeBlock(t, code_type), children: Seq::empty() };
    let cs = seq![c];
    assert(cs.drop_last() =~= Seq::<ComponentV>::empty());
    assert(zk_fold(cs.drop_last(), fi) == Seq::<char>::empty());
    assert(dc_text(c, TextMode::Zk, fi) == zk_children(el_text(c.element, TextMode::Zk, fi), c.children, fi));
    assert(Seq::<char>::empty() + dc_text(c, TextMode::Zk, fi) =~= dc_text(c, TextMode::Zk, fi));
}

} // verus!
