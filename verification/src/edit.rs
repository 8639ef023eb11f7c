//! Adding values to the properties of the first component that holds them, found in the order
//! in which `get_document_component_mut` searches.
use vstd::prelude::*;
use crate::document::{
    PropType, ComponentV, DocV, DocumentComponent, DocumentElement, ElementV, ParsedDocument, PropValue,
    PropValueV, Property, PropertyV, add_missing, dcs_v, lemma_dcs_v_len, props_v, pvs_v,
};

verus! {

/// An addition of values to the properties named `name`: in a frontmatter block, or in a
/// properties block that has such a property.
pub struct AddSpec {
    pub name: Seq<char>,
    pub values: Seq<PropValueV>,
    pub in_frontmatter: bool,
}

/// An edit of the first component it applies to.
pub enum EditSpec {
    /// values added to properties
    Add(AddSpec),
    /// the compact `tags` lists of a frontmatter block written as lists
    ExpandTags,
    /// a heading's title taken out of its quotation marks
    Unquote,
}

/// The edits, as the library performs them.
pub enum EditOp {
    /// name, values, in a frontmatter block
    AddValues(String, Vec<PropValue>, bool),
    ExpandTags,
    Unquote,
}

impl EditOp {
    pub open spec fn spec(self) -> EditSpec {
        match self {
            EditOp::AddValues(n, v, f) => EditSpec::Add(
                AddSpec { name: n@, values: pvs_v(v@), in_frontmatter: f },
            ),
            EditOp::ExpandTags => EditSpec::ExpandTags,
            EditOp::Unquote => EditSpec::Unquote,
        }
    }
}

pub open spec fn add_spec(name: &str, values: &[PropValue], in_frontmatter: bool) -> EditSpec {
    EditSpec::Add(AddSpec { name: name@, values: pvs_v(values@), in_frontmatter })
}

/// A frontmatter property `tags` written as a compact list.
pub open spec fn compact_tags(p: PropertyV) -> bool {
    p.prop_type == PropType::CompactList && p.name == "tags"@
}

pub open spec fn has_compact_tags(ps: Seq<PropertyV>) -> bool {
    exists|i: int| 0 <= i < ps.len() && compact_tags(#[trigger] ps[i])
}

/// The properties with each compact `tags` list written as a list.
pub open spec fn expand_tags(ps: Seq<PropertyV>) -> Seq<PropertyV> {
    ps.map_values(
        |p: PropertyV|
            if compact_tags(p) {
                PropertyV { prop_type: PropType::List, ..p }
            } else {
                p
            },
    )
}

/// The title starts and ends with a quotation mark.
pub open spec fn quoted(t: Seq<char>) -> bool {
    t.len() > 0 && t[0] == '"' && t.last() == '"'
}

/// The number of quotation marks at the start of `t`.
pub open spec fn lead_quotes(t: Seq<char>) -> nat
    decreases t.len(),
{
    if t.len() > 0 && t[0] == '"' {
        1 + lead_quotes(t.drop_first())
    } else {
        0
    }
}

/// `t` without its leading and trailing quotation marks (`str::trim_matches('"')`).
pub open spec fn trim_quotes(t: Seq<char>) -> Seq<char>
    decreases t.len(),
{
    if t.len() > 0 && t[0] == '"' {
        trim_quotes(t.drop_first())
    } else if t.len() > 0 && t.last() == '"' {
        trim_quotes(t.drop_last())
    } else {
        t
    }
}

pub open spec fn has_named(ps: Seq<PropertyV>, n: Seq<char>) -> bool {
    exists|i: int| 0 <= i < ps.len() && (#[trigger] ps[i]).name == n
}

/// The component is where the edit goes.
pub open spec fn hits(e: EditSpec, c: ComponentV) -> bool {
    match e {
        EditSpec::Add(a) => if a.in_frontmatter {
            c.element is Frontmatter
        } else {
            match c.element {
                ElementV::Properties(ps) => has_named(ps, a.name),
                _ => false,
            }
        },
        EditSpec::ExpandTags => match c.element {
            ElementV::Frontmatter(ps) => has_compact_tags(ps),
            _ => false,
        },
        EditSpec::Unquote => c.element is Heading,
    }
}

/// The properties with the values added to each one named `n`.
pub open spec fn add_named(ps: Seq<PropertyV>, n: Seq<char>, vals: Seq<PropValueV>) -> Seq<PropertyV> {
    ps.map_values(
        |p: PropertyV|
            if p.name == n {
                PropertyV { values: add_missing(p.values, vals), ..p }
            } else {
                p
            },
    )
}

pub open spec fn apply(e: EditSpec, c: ComponentV) -> ComponentV {
    match e {
        EditSpec::Add(a) => match c.element {
            ElementV::Properties(ps) => ComponentV {
                element: ElementV::Properties(add_named(ps, a.name, a.values)),
                children: c.children,
            },
            ElementV::Frontmatter(ps) => ComponentV {
                element: ElementV::Frontmatter(add_named(ps, a.name, a.values)),
                children: c.children,
            },
            _ => c,
        },
        EditSpec::ExpandTags => match c.element {
            ElementV::Frontmatter(ps) => ComponentV {
                element: ElementV::Frontmatter(expand_tags(ps)),
                children: c.children,
            },
            _ => c,
        },
        EditSpec::Unquote => match c.element {
            ElementV::Heading(l, t) => ComponentV {
                element: ElementV::Heading(l, if quoted(t) { trim_quotes(t) } else { t }),
                children: c.children,
            },
            _ => c,
        },
    }
}

/// The component with the values added where `get_document_component_mut` would find a
/// component that `hits`: itself, else inside its element, else among its direct children.
pub open spec fn edit_dc(c: ComponentV, a: EditSpec) -> Option<ComponentV>
    decreases c, 1int,
{
    if hits(a, c) {
        Some(apply(a, c))
    } else {
        match edit_el(c.element, a) {
            Some(e) => Some(ComponentV { element: e, children: c.children }),
            None => match edit_direct(c.children, 0, a) {
                Some(ch) => Some(ComponentV { element: c.element, children: ch }),
                None => None,
            },
        }
    }
}

pub open spec fn edit_el(e: ElementV, a: EditSpec) -> Option<ElementV>
    decreases e, 1int,
{
    match e {
        ElementV::Admonition(cs, p) => match edit_direct(cs, 0, a) {
            Some(x) => Some(ElementV::Admonition(x, p)),
            None => None,
        },
        ElementV::ListElement(d, p) => match edit_doc(d, a) {
            Some(x) => Some(ElementV::ListElement(x, p)),
            None => None,
        },
        _ => None,
    }
}

pub open spec fn edit_doc(d: DocV, a: EditSpec) -> Option<DocV>
    decreases d, 1int,
{
    match d {
        DocV::File(cs, p) => match edit_seq(cs, 0, a) {
            Some(x) => Some(DocV::File(x, p)),
            None => None,
        },
        DocV::Text(cs) => match edit_seq(cs, 0, a) {
            Some(x) => Some(DocV::Text(x)),
            None => None,
        },
    }
}

pub open spec fn edit_seq(s: Seq<ComponentV>, i: int, a: EditSpec) -> Option<Seq<ComponentV>>
    decreases s, s.len() - i,
{
    if i < 0 || i >= s.len() {
        None
    } else {
        match edit_dc(s[i], a) {
            Some(x) => Some(s.update(i, x)),
            None => edit_seq(s, i + 1, a),
        }
    }
}

pub open spec fn edit_direct(s: Seq<ComponentV>, i: int, a: EditSpec) -> Option<Seq<ComponentV>>
    decreases s.len() - i,
{
    if i < 0 || i >= s.len() {
        None
    } else if hits(a, s[i]) {
        Some(s.update(i, apply(a, s[i])))
    } else {
        edit_direct(s, i + 1, a)
    }
}

/// The document after the addition (unchanged where nothing is hit).
pub open spec fn edited(d: DocV, a: EditSpec) -> DocV {
    match edit_doc(d, a) {
        Some(x) => x,
        None => d,
    }
}

/// A property named `n` among `ps` holds the value `v`.
pub open spec fn props_hold(ps: Seq<PropertyV>, n: Seq<char>, v: PropValueV) -> bool {
    exists|i: int| 0 <= i < ps.len() && (#[trigger] ps[i]).name == n && ps[i].values.contains(v)
}

/// Some properties block or frontmatter in the element (at any depth the edits reach) has a
/// property named `n` that holds `v`.
pub open spec fn holds_el(e: ElementV, n: Seq<char>, v: PropValueV) -> bool
    decreases e,
{
    match e {
        ElementV::Properties(ps) => props_hold(ps, n, v),
        ElementV::Frontmatter(ps) => props_hold(ps, n, v),
        ElementV::Admonition(cs, _) => holds_all(cs, n, v),
        ElementV::ListElement(d, _) => holds_doc(d, n, v),
        _ => false,
    }
}

pub open spec fn holds_all(cs: Seq<ComponentV>, n: Seq<char>, v: PropValueV) -> bool
    decreases cs,
{
    cs.len() > 0 && (holds_all(cs.drop_last(), n, v) || holds_dc(cs.last(), n, v))
}

pub open spec fn holds_dc(c: ComponentV, n: Seq<char>, v: PropValueV) -> bool
    decreases c,
{
    holds_el(c.element, n, v) || holds_all(c.children, n, v)
}

/// Some property named `n` of the document holds `v`.
pub open spec fn holds_doc(d: DocV, n: Seq<char>, v: PropValueV) -> bool
    decreases d,
{
    match d {
        DocV::File(cs, _) => holds_all(cs, n, v),
        DocV::Text(cs) => holds_all(cs, n, v),
    }
}

proof fn lemma_holds_all_index(cs: Seq<ComponentV>, k: int, n: Seq<char>, v: PropValueV)
    requires
        0 <= k < cs.len(),
        holds_dc(cs[k], n, v),
    ensures
        holds_all(cs, n, v),
    decreases cs.len(),
{
    if k < cs.len() - 1 {
        lemma_holds_all_index(cs.drop_last(), k, n, v);
    }
}

proof fn lemma_add_missing_has(old: Seq<PropValueV>, add: Seq<PropValueV>, k: int)
    requires
        0 <= k < add.len(),
    ensures
        add_missing(old, add).contains(add[k]),
    decreases add.len(),
{
    if k < add.len() - 1 {
        lemma_add_missing_has(old, add.drop_last(), k);
        let prev = add_missing(old, add.drop_last());
        assert(prev.contains(add.drop_last()[k]));
        if !prev.contains(add.last()) {
            let j = choose|j: int| 0 <= j < prev.len() && prev[j] == add[k];
            assert(prev.push(add.last())[j] == add[k]);
        }
    } else {
        let prev = add_missing(old, add.drop_last());
        if !prev.contains(add.last()) {
            assert(prev.push(add.last())[prev.len() as int] == add.last());
        }
    }
}

proof fn lemma_apply_holds(a: AddSpec, c: ComponentV, k: int)
    requires
        hits(EditSpec::Add(a), c),
        !a.in_frontmatter,
        0 <= k < a.values.len(),
    ensures
        holds_dc(apply(EditSpec::Add(a), c), a.name, a.values[k]),
{
    if let ElementV::Properties(ps) = c.element {
        let i = choose|i: int| 0 <= i < ps.len() && (#[trigger] ps[i]).name == a.name;
        let out = add_named(ps, a.name, a.values);
        lemma_add_missing_has(ps[i].values, a.values, k);
        assert(out[i].name == a.name && out[i].values == add_missing(ps[i].values, a.values));
        assert(props_hold(out, a.name, a.values[k]));
        assert(holds_el(ElementV::Properties(out), a.name, a.values[k]));
    }
}

proof fn lemma_direct_holds(s: Seq<ComponentV>, i: int, a: AddSpec, k: int)
    requires
        edit_direct(s, i, EditSpec::Add(a)) is Some,
        !a.in_frontmatter,
        0 <= k < a.values.len(),
    ensures
        holds_all(edit_direct(s, i, EditSpec::Add(a))->Some_0, a.name, a.values[k]),
    decreases s.len() - i,
{
    if 0 <= i < s.len() {
        if hits(EditSpec::Add(a), s[i]) {
            let x = s.update(i, apply(EditSpec::Add(a), s[i]));
            lemma_apply_holds(a, s[i], k);
            lemma_holds_all_index(x, i, a.name, a.values[k]);
        } else {
            lemma_direct_holds(s, i + 1, a, k);
        }
    }
}

proof fn lemma_edit_dc_holds(c: ComponentV, a: AddSpec, k: int)
    requires
        edit_dc(c, EditSpec::Add(a)) is Some,
        !a.in_frontmatter,
        0 <= k < a.values.len(),
    ensures
        holds_dc(edit_dc(c, EditSpec::Add(a))->Some_0, a.name, a.values[k]),
    decreases c, 1int,
{
    let e = EditSpec::Add(a);
    if hits(e, c) {
        lemma_apply_holds(a, c, k);
    } else if edit_el(c.element, e) is Some {
        lemma_edit_el_holds(c.element, a, k);
    } else {
        lemma_direct_holds(c.children, 0, a, k);
    }
}

proof fn lemma_edit_el_holds(el: ElementV, a: AddSpec, k: int)
    requires
        edit_el(el, EditSpec::Add(a)) is Some,
        !a.in_frontmatter,
        0 <= k < a.values.len(),
    ensures
        holds_el(edit_el(el, EditSpec::Add(a))->Some_0, a.name, a.values[k]),
    decreases el, 1int,
{
    match el {
        ElementV::Admonition(cs, p) => {
            lemma_direct_holds(cs, 0, a, k);
        },
        ElementV::ListElement(d, p) => {
            lemma_edit_doc_holds(d, a, k);
        },
        _ => {},
    }
}

/// An addition of values to the properties named `n` (outside a frontmatter) that finds a
/// place leaves each added value held by a property named `n` of the document.
pub proof fn lemma_edit_doc_holds(d: DocV, a: AddSpec, k: int)
    requires
        edit_doc(d, EditSpec::Add(a)) is Some,
        !a.in_frontmatter,
        0 <= k < a.values.len(),
    ensures
        holds_doc(edit_doc(d, EditSpec::Add(a))->Some_0, a.name, a.values[k]),
    decreases d, 1int,
{
    match d {
        DocV::File(cs, p) => lemma_edit_seq_holds(cs, 0, a, k),
        DocV::Text(cs) => lemma_edit_seq_holds(cs, 0, a, k),
    }
}

proof fn lemma_edit_seq_holds(s: Seq<ComponentV>, i: int, a: AddSpec, k: int)
    requires
        edit_seq(s, i, EditSpec::Add(a)) is Some,
        !a.in_frontmatter,
        0 <= k < a.values.len(),
    ensures
        holds_all(edit_seq(s, i, EditSpec::Add(a))->Some_0, a.name, a.values[k]),
    decreases s, s.len() - i,
{
    if 0 <= i < s.len() {
        if edit_dc(s[i], EditSpec::Add(a)) is Some {
            lemma_edit_dc_holds(s[i], a, k);
            let x = s.update(i, edit_dc(s[i], EditSpec::Add(a))->Some_0);
            lemma_holds_all_index(x, i, a.name, a.values[k]);
        } else {
            lemma_edit_seq_holds(s, i + 1, a, k);
        }
    }
}

fn add_hits_exec(c: &DocumentComponent, name: &str, in_frontmatter: bool) -> (b: bool)
    ensures
        b == hits(EditSpec::Add(AddSpec { name: name@, values: Seq::empty(), in_frontmatter }), c@),
{
    match &c.element {
        DocumentElement::Frontmatter(_) => in_frontmatter,
        DocumentElement::Properties(ps) => {
            if in_frontmatter {
                return false;
            }
            let mut i: usize = 0;
            while i < ps.len()
                invariant
                    i <= ps@.len(),
                    !in_frontmatter,
                    c@.element == ElementV::Properties(props_v(ps@)),
                    forall|k: int| 0 <= k < i ==> ps@[k].name@ != name@,
                decreases ps.len() - i,
            {
                if ps[i].has_name(name) {
                    proof {
                        assert(props_v(ps@)[i as int].name == name@);
                        assert(has_named(props_v(ps@), name@));
                    }
                    return true;
                }
                i = i + 1;
            }
            proof {
                if has_named(props_v(ps@), name@) {
                    let k = choose|k: int| 0 <= k < props_v(ps@).len() && (#[trigger] props_v(ps@)[k]).name == name@;
                    assert(ps@[k].name@ == name@);
                }
            }
            false
        },
        _ => false,
    }
}

fn is_compact_tags(p: &Property) -> (b: bool)
    ensures
        b == compact_tags(p@),
{
    p.prop_type == PropType::CompactList && p.has_name("tags")
}

fn hits_exec(c: &DocumentComponent, op: &EditOp) -> (b: bool)
    ensures
        b == hits(op.spec(), c@),
{
    match op {
        EditOp::AddValues(name, _, in_frontmatter) => add_hits_exec(c, name.as_str(), *in_frontmatter),
        EditOp::ExpandTags => match &c.element {
            DocumentElement::Frontmatter(ps) => {
                let mut i: usize = 0;
                while i < ps.len()
                    invariant
                        i <= ps@.len(),
                        c@.element == ElementV::Frontmatter(props_v(ps@)),
                        op.spec() == EditSpec::ExpandTags,
                        forall|k: int| 0 <= k < i ==> !compact_tags(#[trigger] props_v(ps@)[k]),
                    decreases ps.len() - i,
                {
                    if is_compact_tags(&ps[i]) {
                        proof {
                            assert(compact_tags(props_v(ps@)[i as int]));
                        }
                        return true;
                    }
                    i = i + 1;
                }
                false
            },
            _ => false,
        },
        EditOp::Unquote => match &c.element {
            DocumentElement::Heading(_, _) => true,
            _ => false,
        },
    }
}

fn expand_tags_exec(ps: &mut Vec<Property>)
    ensures
        props_v(final(ps)@) == expand_tags(props_v(old(ps)@)),
{
    let ghost orig = props_v(ps@);
    let mut i: usize = 0;
    while i < ps.len()
        invariant
            i <= ps@.len(),
            ps@.len() == orig.len(),
            orig == props_v(old(ps)@),
            forall|k: int| 0 <= k < i ==> (#[trigger] props_v(ps@)[k]) == expand_tags(orig)[k],
            forall|k: int| i <= k < ps@.len() ==> (#[trigger] props_v(ps@)[k]) == orig[k],
        decreases ps.len() - i,
    {
        let ghost before = ps@;
        proof {
            assert(props_v(before)[i as int] == before[i as int]@);
        }
        if is_compact_tags(&ps[i]) {
            let mut p = ps[i].copy();
            p.prop_type = PropType::List;
            ps.set(i, p);
        }
        proof {
            assert forall|k: int| 0 <= k < i + 1 implies (#[trigger] props_v(ps@)[k]) == expand_tags(orig)[k] by {
                if k < i {
                    assert(ps@[k] == before[k]);
                    assert(props_v(before)[k] == before[k]@);
                }
            }
            assert forall|k: int| i + 1 <= k < ps@.len() implies (#[trigger] props_v(ps@)[k]) == orig[k] by {
                assert(ps@[k] == before[k]);
                assert(props_v(before)[k] == before[k]@);
            }
        }
        i = i + 1;
    }
    proof {
        assert(props_v(ps@) =~= expand_tags(orig));
    }
}

/// `t` without its leading and trailing quotation marks.
pub fn trim_quotes_exec(t: &Vec<char>) -> (r: Vec<char>)
    ensures
        r@ == trim_quotes(t@),
{
    let mut lo: usize = 0;
    proof {
        assert(t@.skip(0) =~= t@);
    }
    while lo < t.len() && t[lo] == '"'
        invariant
            lo <= t@.len(),
            trim_quotes(t@) == trim_quotes(t@.skip(lo as int)),
        decreases t.len() - lo,
    {
        proof {
            assert(t@.skip(lo as int).drop_first() =~= t@.skip(lo + 1));
        }
        lo = lo + 1;
    }
    let mut hi: usize = t.len();
    while hi > lo && t[hi - 1] == '"'
        invariant
            lo <= hi <= t@.len(),
            lo == t@.len() || t@[lo as int] != '"',
            trim_quotes(t@) == trim_quotes(t@.subrange(lo as int, hi as int)),
        decreases hi,
    {
        proof {
            let u = t@.subrange(lo as int, hi as int);
            assert(u[0] != '"');
            assert(u.drop_last() =~= t@.subrange(lo as int, hi - 1));
        }
        hi = hi - 1;
    }
    proof {
        assert(t@.skip(lo as int) =~= t@.subrange(lo as int, t@.len() as int));
        let u = t@.subrange(lo as int, hi as int);
        if u.len() > 0 {
            assert(u[0] != '"');
        }
    }
    crate::text::slice_of(t, lo, hi)
}

fn add_named_exec(ps: &mut Vec<Property>, name: &str, values: &[PropValue])
    ensures
        props_v(final(ps)@) == add_named(props_v(old(ps)@), name@, pvs_v(values@)),
{
    let ghost orig = props_v(ps@);
    let mut i: usize = 0;
    while i < ps.len()
        invariant
            i <= ps@.len(),
            ps@.len() == orig.len(),
            orig == props_v(old(ps)@),
            forall|k: int| 0 <= k < i ==> (#[trigger] props_v(ps@)[k]) == add_named(orig, name@, pvs_v(values@))[k],
            forall|k: int| i <= k < ps@.len() ==> (#[trigger] props_v(ps@)[k]) == orig[k],
        decreases ps.len() - i,
    {
        let ghost before = ps@;
        if ps[i].has_name(name) {
            let mut p = ps[i].copy();
            p.add_values(values);
            ps.set(i, p);
            proof {
                assert(props_v(before)[i as int] == orig[i as int]);
                assert(props_v(before)[i as int] == before[i as int]@);
                assert(ps@[i as int]@ == add_named(orig, name@, pvs_v(values@))[i as int]);
            }
        } else {
            proof {
                assert(props_v(before)[i as int] == orig[i as int]);
                assert(props_v(before)[i as int] == before[i as int]@);
                assert(add_named(orig, name@, pvs_v(values@))[i as int] == orig[i as int]);
            }
        }
        proof {
            assert forall|k: int| 0 <= k < i + 1 implies (#[trigger] props_v(ps@)[k]) == add_named(orig, name@, pvs_v(values@))[k] by {
                if k < i {
                    assert(ps@[k] == before[k]);
                    assert(props_v(before)[k] == before[k]@);
                }
            }
            assert forall|k: int| i + 1 <= k < ps@.len() implies (#[trigger] props_v(ps@)[k]) == orig[k] by {
                assert(ps@[k] == before[k]);
                assert(props_v(before)[k] == before[k]@);
            }
        }
        i = i + 1;
    }
    proof {
        assert(props_v(ps@) =~= add_named(orig, name@, pvs_v(values@)));
    }
}

fn apply_exec(c: &mut DocumentComponent, op: &EditOp)
    ensures
        final(c)@ == apply(op.spec(), old(c)@),
{
    match op {
        EditOp::AddValues(name, values, _) => match &mut c.element {
            DocumentElement::Properties(ps) => add_named_exec(ps, name.as_str(), values.as_slice()),
            DocumentElement::Frontmatter(ps) => add_named_exec(ps, name.as_str(), values.as_slice()),
            _ => {},
        },
        EditOp::ExpandTags => match &mut c.element {
            DocumentElement::Frontmatter(ps) => expand_tags_exec(ps),
            _ => {},
        },
        EditOp::Unquote => match &mut c.element {
            DocumentElement::Heading(_, t) => {
                let v = crate::text::chars_of(t.as_str());
                if v.len() > 0 && v[0] == '"' && v[v.len() - 1] == '"' {
                    *t = crate::text::string_of(&trim_quotes_exec(&v));
                }
            },
            _ => {},
        },
    }
}

fn edit_direct_exec(cs: &mut Vec<DocumentComponent>, op: &EditOp) -> (found: bool)
    ensures
        match edit_direct(dcs_v(old(cs)@), 0, op.spec()) {
            Some(x) => found && dcs_v(final(cs)@) == x,
            None => !found && dcs_v(final(cs)@) == dcs_v(old(cs)@),
        },
{
    let ghost a = op.spec();
    let ghost orig = dcs_v(cs@);
    proof {
        lemma_dcs_v_len(cs@);
    }
    let mut i: usize = 0;
    while i < cs.len()
        invariant
            i <= cs@.len(),
            orig == dcs_v(old(cs)@),
            *cs == *old(cs),
            orig.len() == cs@.len(),
            a == op.spec(),
            edit_direct(orig, 0, a) == edit_direct(orig, i as int, a),
        decreases cs.len() - i,
    {
        proof {
            crate::document::lemma_dcs_v_index(cs@, i as int);
        }
        if hits_exec(&cs[i], op) {
            let mut c = crate::document::copy_dc(&cs[i]);
            apply_exec(&mut c, op);
            cs.set(i, c);
            proof {
                crate::document::lemma_dcs_v_update(old(cs)@, i as int, cs@[i as int]);
            }
            return true;
        }
        i = i + 1;
    }
    false
}

fn edit_dc_exec(c: &mut DocumentComponent, op: &EditOp) -> (found: bool)
    ensures
        match edit_dc(old(c)@, op.spec()) {
            Some(x) => found && final(c)@ == x,
            None => !found && final(c)@ == old(c)@,
        },
    decreases old(c)@, 0int,
{
    if hits_exec(c, op) {
        apply_exec(c, op);
        return true;
    }
    if edit_el_exec(&mut c.element, op) {
        return true;
    }
    edit_direct_exec(&mut c.children, op)
}

fn edit_el_exec(e: &mut DocumentElement, op: &EditOp) -> (found: bool)
    ensures
        match edit_el(old(e)@, op.spec()) {
            Some(x) => found && final(e)@ == x,
            None => !found && final(e)@ == old(e)@,
        },
    decreases old(e)@, 0int,
{
    match e {
        DocumentElement::Admonition(cs, _) => edit_direct_exec(cs, op),
        DocumentElement::ListElement(pd, _) => edit_doc_exec(pd, op),
        _ => false,
    }
}

fn edit_seq_exec(cs: &mut Vec<DocumentComponent>, op: &EditOp) -> (found: bool)
    ensures
        match edit_seq(dcs_v(old(cs)@), 0, op.spec()) {
            Some(x) => found && dcs_v(final(cs)@) == x,
            None => !found && dcs_v(final(cs)@) == dcs_v(old(cs)@),
        },
    decreases dcs_v(old(cs)@), 1int,
{
    let ghost a = op.spec();
    let ghost orig = dcs_v(cs@);
    proof {
        lemma_dcs_v_len(cs@);
    }
    let mut i: usize = 0;
    while i < cs.len()
        invariant
            i <= cs@.len(),
            orig == dcs_v(old(cs)@),
            dcs_v(cs@) == orig,
            orig.len() == cs@.len(),
            a == op.spec(),
            edit_seq(orig, 0, a) == edit_seq(orig, i as int, a),
        decreases cs.len() - i,
    {
        proof {
            crate::document::lemma_dcs_v_index(cs@, i as int);
        }
        let ghost before = cs@;
        let found = edit_dc_exec(&mut cs[i], op);
        proof {
            assert(cs@ == before.update(i as int, cs@[i as int]));
            crate::document::lemma_dcs_v_update(before, i as int, cs@[i as int]);
        }
        if found {
            return true;
        }
        proof {
            assert(dcs_v(before).update(i as int, cs@[i as int]@) =~= dcs_v(before));
        }
        i = i + 1;
    }
    false
}

fn edit_doc_exec(pd: &mut ParsedDocument, op: &EditOp) -> (found: bool)
    ensures
        match edit_doc(old(pd)@, op.spec()) {
            Some(x) => found && final(pd)@ == x,
            None => !found && final(pd)@ == old(pd)@,
        },
    decreases old(pd)@, 0int,
{
    match pd {
        ParsedDocument::ParsedFile(cs, _) => edit_seq_exec(cs, op),
        ParsedDocument::ParsedText(cs) => edit_seq_exec(cs, op),
    }
}

/// Adds `values` to the properties named `name` of the first component that has such a
/// property (or, with `in_frontmatter`, of the first frontmatter block); tells whether it found
/// one.
pub fn add_to_first(pd: &mut ParsedDocument, name: &str, values: &[PropValue], in_frontmatter: bool) -> (found: bool)
    ensures
        found == edit_doc(old(pd)@, add_spec(name, values, in_frontmatter)) is Some,
        final(pd)@ == edited(old(pd)@, add_spec(name, values, in_frontmatter)),
{
    let vals = crate::document::copy_prop_values(values);
    let op = EditOp::AddValues(name.to_string(), vals, in_frontmatter);
    proof {
        assert(op.spec() == add_spec(name, values, in_frontmatter));
    }
    edit_doc_exec(pd, &op)
}

/// Writes the compact `tags` lists of the first frontmatter block that has one as lists;
/// tells whether it found one.
pub fn expand_tag_lists(pd: &mut ParsedDocument) -> (found: bool)
    ensures
        found == edit_doc(old(pd)@, EditSpec::ExpandTags) is Some,
        final(pd)@ == edited(old(pd)@, EditSpec::ExpandTags),
{
    edit_doc_exec(pd, &EditOp::ExpandTags)
}

/// Accepts headings.
pub struct HeadingSelector;

impl crate::search::Selector for HeadingSelector {
    open spec fn accepts(&self, c: DocumentComponent) -> bool {
        c.element is Heading
    }

    open spec fn usable(&self) -> bool {
        true
    }

    fn select(&self, c: &DocumentComponent) -> (b: bool) {
        match &c.element {
            DocumentElement::Heading(_, _) => true,
            _ => false,
        }
    }
}

/// The title of the first heading, in the order in which documents are searched.
pub open spec fn first_heading(pd: ParsedDocument) -> Option<Seq<char>> {
    match crate::search::find_pd(pd, HeadingSelector) {
        Some(c) => match c.element {
            DocumentElement::Heading(_, t) => Some(t@),
            _ => None,
        },
        None => None,
    }
}

fn first_heading_title(pd: &ParsedDocument) -> (r: Option<String>)
    ensures
        crate::paths::opt_view(r) == first_heading(*pd),
{
    match pd.get_document_component(&HeadingSelector) {
        Some(c) => match c.element {
            DocumentElement::Heading(_, t) => Some(t),
            _ => None,
        },
        None => None,
    }
}

/// Takes the title of the first heading out of its quotation marks, if it starts and ends with
/// one; gives back the quoted title it found there.
pub fn unquote_first_heading(pd: &mut ParsedDocument) -> (r: Option<String>)
    ensures
        final(pd)@ == edited(old(pd)@, EditSpec::Unquote),
        match r {
            Some(t) => quoted(t@) && first_heading(*old(pd)) == Some(t@),
            None => !(first_heading(*old(pd)) matches Some(t) && quoted(t)),
        },
{
    let found = first_heading_title(pd);
    edit_doc_exec(pd, &EditOp::Unquote);
    match found {
        Some(t) => {
            let v = crate::text::chars_of(t.as_str());
            if v.len() > 0 && v[0] == '"' && v[v.len() - 1] == '"' {
                Some(t)
            } else {
                None
            }
        },
        None => None,
    }
}

} // verus!
