//! Turning the data read from a task into notes: LogSeq blocks built from templates, and zk
//! notes filled in from their templates.
use vstd::prelude::*;
use crate::collapse::comps_of;
use crate::document::{
    ComponentV, DocV, DocumentComponent, DocumentElement, ElementV, ListElem, ListElemV,
    MentionedFileV, ParsedDocument, PropValue, PropValueV, Property, PropertyV, copy_le, dcs_v,
    lemma_dcs_v_len, pd_comps, pvs_v,
};
use crate::edit::{AddSpec, EditSpec, add_to_first, edited};
use crate::search::Selector;

verus! {

// ---------------------------------------------------------------------------
// Templates.
/// The property marks a template (named `name`, if given).
pub open spec fn is_template_prop(p: Property, name: Option<Seq<char>>) -> bool {
    &&& p.name@ == "template"@
    &&& match name {
        Some(n) => p@.values.contains(PropValueV::Str(n)),
        None => true,
    }
}

pub open spec fn has_template_prop(ps: Seq<Property>, name: Option<Seq<char>>) -> bool {
    exists|i: int| 0 <= i < ps.len() && is_template_prop(#[trigger] ps[i], name)
}

/// The component is a properties block that marks a template (named `name`, if given).
pub open spec fn is_template_comp(c: DocumentComponent, name: Option<Seq<char>>) -> bool {
    match c.element {
        DocumentElement::Properties(ps) => has_template_prop(ps@, name),
        _ => false,
    }
}

/// Accepts the properties blocks that mark a template (named `name`, if given).
pub struct TemplateSelector {
    pub name: Option<String>,
}

pub open spec fn opt_str(o: Option<String>) -> Option<Seq<char>> {
    match o {
        Some(s) => Some(s@),
        None => None,
    }
}

impl Selector for TemplateSelector {
    open spec fn accepts(&self, c: DocumentComponent) -> bool {
        is_template_comp(c, opt_str(self.name))
    }

    open spec fn usable(&self) -> bool {
        true
    }

    fn select(&self, c: &DocumentComponent) -> (b: bool) {
        match &c.element {
            DocumentElement::Properties(ps) => {
                let mut i: usize = 0;
                while i < ps.len()
                    invariant
                        i <= ps@.len(),
                        c.element == DocumentElement::Properties(*ps),
                        forall|k: int| 0 <= k < i ==> !is_template_prop(#[trigger] ps@[k], opt_str(self.name)),
                    decreases ps.len() - i,
                {
                    if ps[i].has_name("template") {
                        let ok = match &self.name {
                            Some(n) => ps[i].has_value(&PropValue::String(n.clone())),
                            None => true,
                        };
                        if ok {
                            proof {
                                assert(is_template_prop(ps@[i as int], opt_str(self.name)));
                                assert(has_template_prop(ps@, opt_str(self.name)));
                            }
                            return true;
                        }
                    }
                    i = i + 1;
                }
                false
            },
            _ => false,
        }
    }
}

/// A list item holds a component the test accepts among its contents.
pub open spec fn le_holds(l: ListElem, p: spec_fn(DocumentComponent) -> bool) -> bool {
    exists|i: int| 0 <= i < pd_comps(l.contents).len() && p(#[trigger] pd_comps(l.contents)[i])
}

/// The first list item of `s[i..]` (searched in the lists among them, an item before the items
/// under it) whose contents hold an accepted component.
pub open spec fn first_le_seq(s: Seq<DocumentComponent>, i: int, p: spec_fn(DocumentComponent) -> bool) -> Option<ListElem>
    decreases s, s.len() - i,
{
    if i < 0 || i >= s.len() {
        None
    } else {
        match first_le_dc(s[i], p) {
            Some(x) => Some(x),
            None => first_le_seq(s, i + 1, p),
        }
    }
}

pub open spec fn first_le_dc(c: DocumentComponent, p: spec_fn(DocumentComponent) -> bool) -> Option<ListElem>
    decreases c, 0int,
{
    match c.element {
        DocumentElement::List(ls, _) => first_le_les(ls@, 0, p),
        _ => None,
    }
}

pub open spec fn first_le_les(ls: Seq<ListElem>, i: int, p: spec_fn(DocumentComponent) -> bool) -> Option<ListElem>
    decreases ls, ls.len() - i,
{
    if i < 0 || i >= ls.len() {
        None
    } else {
        match first_le_le(ls[i], p) {
            Some(x) => Some(x),
            None => first_le_les(ls, i + 1, p),
        }
    }
}

pub open spec fn first_le_le(l: ListElem, p: spec_fn(DocumentComponent) -> bool) -> Option<ListElem>
    decreases l, 0int,
{
    if le_holds(l, p) {
        Some(l)
    } else {
        first_le_les(l.children@, 0, p)
    }
}

pub open spec fn opt_le_v(o: Option<ListElem>) -> Option<ListElemV> {
    match o {
        Some(l) => Some(l@),
        None => None,
    }
}

fn le_holds_exec<S: Selector>(l: &ListElem, sel: &S) -> (b: bool)
    requires
        sel.usable(),
    ensures
        b == le_holds(*l, |c: DocumentComponent| sel.accepts(c)),
{
    let comps = l.contents.components();
    let mut i: usize = 0;
    while i < comps.len()
        invariant
            sel.usable(),
            i <= comps@.len(),
            comps@ == pd_comps(l.contents),
            forall|k: int| 0 <= k < i ==> !sel.accepts(#[trigger] comps@[k]),
        decreases comps.len() - i,
    {
        if sel.select(&comps[i]) {
            return true;
        }
        i = i + 1;
    }
    false
}

fn first_le_le_exec<S: Selector>(l: &ListElem, sel: &S) -> (r: Option<ListElem>)
    requires
        sel.usable(),
    ensures
        opt_le_v(r) == opt_le_v(first_le_le(*l, |c: DocumentComponent| sel.accepts(c))),
    decreases *l, 0int,
{
    if le_holds_exec(l, sel) {
        return Some(copy_le(l));
    }
    first_le_les_exec(&l.children, sel)
}

fn first_le_les_exec<S: Selector>(ls: &Vec<ListElem>, sel: &S) -> (r: Option<ListElem>)
    requires
        sel.usable(),
    ensures
        opt_le_v(r) == opt_le_v(first_le_les(ls@, 0, |c: DocumentComponent| sel.accepts(c))),
    decreases ls@, 1int,
{
    let ghost p = |c: DocumentComponent| sel.accepts(c);
    let mut i: usize = 0;
    while i < ls.len()
        invariant
            sel.usable(),
            i <= ls@.len(),
            p == (|c: DocumentComponent| sel.accepts(c)),
            first_le_les(ls@, 0, p) == first_le_les(ls@, i as int, p),
        decreases ls.len() - i,
    {
        let r = first_le_le_exec(&ls[i], sel);
        if r.is_some() {
            return r;
        }
        i = i + 1;
    }
    None
}

fn first_le_dc_exec<S: Selector>(c: &DocumentComponent, sel: &S) -> (r: Option<ListElem>)
    requires
        sel.usable(),
    ensures
        opt_le_v(r) == opt_le_v(first_le_dc(*c, |c: DocumentComponent| sel.accepts(c))),
    decreases *c, 2int,
{
    match &c.element {
        DocumentElement::List(ls, _) => first_le_les_exec(ls, sel),
        _ => None,
    }
}

/// The first list item of the document (searched in its lists, an item before the items under
/// it) whose contents hold a component the selector accepts.
pub fn get_list_elem_with_doc_elem<S: Selector>(pd: &ParsedDocument, elem_selector: &S) -> (r: Option<ListElem>)
    requires
        elem_selector.usable(),
    ensures
        opt_le_v(r) == opt_le_v(first_le_seq(pd_comps(*pd), 0, |c: DocumentComponent| elem_selector.accepts(c))),
{
    let ghost p = |c: DocumentComponent| elem_selector.accepts(c);
    let comps = pd.components();
    let mut i: usize = 0;
    while i < comps.len()
        invariant
            elem_selector.usable(),
            i <= comps@.len(),
            comps@ == pd_comps(*pd),
            p == (|c: DocumentComponent| elem_selector.accepts(c)),
            first_le_seq(comps@, 0, p) == first_le_seq(comps@, i as int, p),
        decreases comps.len() - i,
    {
        let r = first_le_dc_exec(&comps[i], elem_selector);
        if r.is_some() {
            return r;
        }
        i = i + 1;
    }
    None
}

/// The text a property value stands for: the text itself, or the mentioned file's name or path.
pub open spec fn value_text(v: PropValueV) -> Seq<char> {
    match v {
        PropValueV::Str(s) => s,
        PropValueV::FileLink(m, _, _) => match m {
            MentionedFileV::FileName(n) => n,
            MentionedFileV::FilePath(p) => p,
        },
    }
}

/// Index of the first property named `template`, or -1.
pub open spec fn template_index(ps: Seq<PropertyV>) -> int
    decreases ps.len(),
{
    if ps.len() == 0 {
        -1
    } else if template_index(ps.drop_last()) >= 0 {
        template_index(ps.drop_last())
    } else if ps.last().name == "template"@ {
        ps.len() - 1
    } else {
        -1
    }
}

/// The names given by the first `template` property of each properties block, in order.
pub open spec fn template_texts(cs: Seq<ComponentV>) -> Seq<Seq<char>>
    decreases cs.len(),
{
    if cs.len() == 0 {
        Seq::empty()
    } else {
        template_texts(cs.drop_last()) + match cs.last().element {
            ElementV::Properties(ps) => if template_index(ps) >= 0 {
                ps[template_index(ps)].values.map_values(|v: PropValueV| value_text(v))
            } else {
                Seq::empty()
            },
            _ => Seq::empty(),
        }
    }
}

/// The templates of a LogSeq graph: the page that holds them.
pub struct LogSeqTemplates {
    pub templates_pd: ParsedDocument,
}

impl LogSeqTemplates {
    pub fn new(templates_pd: ParsedDocument) -> (r: LogSeqTemplates)
        ensures
            r.templates_pd == templates_pd,
    {
        LogSeqTemplates { templates_pd }
    }

    /// The list item holding the properties that mark the template `template_name`.
    pub fn get_template_comp(&self, template_name: &str) -> (r: Option<ListElem>)
        ensures
            opt_le_v(r) == opt_le_v(
                first_le_seq(pd_comps(self.templates_pd), 0, |c: DocumentComponent| is_template_comp(c, Some(template_name@))),
            ),
    {
        let sel = TemplateSelector { name: Some(crate::text::string_of(&crate::text::chars_of(template_name))) };
        let r = get_list_elem_with_doc_elem(&self.templates_pd, &sel);
        proof {
            assert((|c: DocumentComponent| sel.accepts(c)) =~= (|c: DocumentComponent| is_template_comp(c, Some(template_name@))));
        }
        r
    }

    /// The names of all templates: the values of the first `template` property of each
    /// properties block that has one (found as `get_all_document_components` finds them).
    pub fn template_names(&self) -> (r: Vec<String>)
        ensures
            crate::config::strs_v(r@) == template_texts(
                crate::search::all_pd(self.templates_pd, TemplateSelector { name: None }),
            ),
    {
        let sel = TemplateSelector { name: None };
        let comps = self.templates_pd.get_all_document_components(&sel);
        let ghost cv = dcs_v(comps@);
        proof {
            lemma_dcs_v_len(comps@);
        }
        let mut res: Vec<String> = Vec::new();
        let mut i: usize = 0;
        proof {
            assert(cv.take(0) =~= Seq::<ComponentV>::empty());
            assert(crate::config::strs_v(res@) =~= Seq::<Seq<char>>::empty());
        }
        while i < comps.len()
            invariant
                i <= comps@.len(),
                cv == dcs_v(comps@),
                cv.len() == comps@.len(),
                crate::config::strs_v(res@) == template_texts(cv.take(i as int)),
            decreases comps.len() - i,
        {
            proof {
                crate::document::lemma_dcs_v_index(comps@, i as int);
                assert(cv.take(i + 1).drop_last() =~= cv.take(i as int));
                assert(cv.take(i + 1).last() == comps@[i as int]@);
            }
            match &comps[i].element {
                DocumentElement::Properties(ps) => {
                    let ghost pv = crate::document::props_v(ps@);
                    let mut k: usize = 0;
                    while k < ps.len() && !ps[k].has_name("template")
                        invariant
                            k <= ps@.len(),
                            pv == crate::document::props_v(ps@),
                            template_index(pv.take(k as int)) == -1,
                        decreases ps.len() - k,
                    {
                        proof {
                            assert(pv.take(k + 1).drop_last() =~= pv.take(k as int));
                        }
                        k = k + 1;
                    }
                    if k < ps.len() {
                        proof {
                            assert(pv.take(k + 1).drop_last() =~= pv.take(k as int));
                            lemma_template_index_prefix(pv, k + 1);
                        }
                        let vals = &ps[k].values;
                        let ghost r0 = crate::config::strs_v(res@);
                        let mut j: usize = 0;
                        while j < vals.len()
                            invariant
                                j <= vals@.len(),
                                crate::config::strs_v(res@) == r0 + pvs_v(vals@).take(j as int).map_values(|v: PropValueV| value_text(v)),
                            decreases vals.len() - j,
                        {
                            let t = match &vals[j] {
                                PropValue::String(s) => s.clone(),
                                PropValue::FileLink(mf, _, _) => mf.to_display(),
                            };
                            let ghost rb = res@;
                            res.push(t);
                            proof {
                                assert(crate::config::strs_v(res@) =~= crate::config::strs_v(rb).push(t@));
                                assert(pvs_v(vals@).take(j + 1).map_values(|v: PropValueV| value_text(v)) =~= pvs_v(vals@).take(j as int).map_values(|v: PropValueV| value_text(v)).push(value_text(vals@[j as int]@)));
                            }
                            j = j + 1;
                        }
                        proof {
                            assert(pvs_v(vals@).take(vals@.len() as int) =~= pvs_v(vals@));
                        }
                    } else {
                        proof {
                            assert(pv.take(ps@.len() as int) =~= pv);
                            assert(crate::config::strs_v(res@) =~= template_texts(cv.take(i as int)) + Seq::<Seq<char>>::empty());
                        }
                    }
                },
                _ => {
                    proof {
                        assert(crate::config::strs_v(res@) =~= template_texts(cv.take(i as int)) + Seq::<Seq<char>>::empty());
                    }
                },
            }
            i = i + 1;
        }
        proof {
            assert(cv.take(comps@.len() as int) =~= cv);
        }
        res
    }
}

proof fn lemma_template_index_prefix(ps: Seq<PropertyV>, n: int)
    requires
        0 <= n <= ps.len(),
        template_index(ps.take(n)) >= 0,
    ensures
        template_index(ps) == template_index(ps.take(n)),
    decreases ps.len() - n,
{
    if n < ps.len() {
        assert(ps.take(n + 1).drop_last() =~= ps.take(n));
        lemma_template_index_prefix(ps, n + 1);
    } else {
        assert(ps.take(n) =~= ps);
    }
}

// ---------------------------------------------------------------------------
// Filling in properties.
pub open spec fn entries_v(ps: Seq<(String, Vec<PropValue>)>) -> Seq<(Seq<char>, Seq<PropValueV>)> {
    ps.map_values(|e: (String, Vec<PropValue>)| (e.0@, pvs_v(e.1@)))
}

/// The document after each (name, values) entry in turn is added to the first properties block
/// that has a property of that name.
pub open spec fn fill_doc(d: DocV, entries: Seq<(Seq<char>, Seq<PropValueV>)>) -> DocV
    decreases entries.len(),
{
    if entries.len() == 0 {
        d
    } else {
        edited(
            fill_doc(d, entries.drop_last()),
            EditSpec::Add(AddSpec { name: entries.last().0, values: entries.last().1, in_frontmatter: false }),
        )
    }
}

/// Adds the given values to the first properties block of the item's contents that has a
/// property of the given name (to each such property in it); does nothing for a name no block
/// has.
pub fn fill_all_props_le(pd: &mut ListElem, properties: &[(String, Vec<PropValue>)])
    ensures
        final(pd)@ == (ListElemV { contents: fill_doc(old(pd)@.contents, entries_v(properties@)), ..old(pd)@ }),
{
    let ghost es = entries_v(properties@);
    let mut i: usize = 0;
    proof {
        assert(es.take(0) =~= Seq::<(Seq<char>, Seq<PropValueV>)>::empty());
    }
    while i < properties.len()
        invariant
            i <= properties@.len(),
            es == entries_v(properties@),
            pd@ == (ListElemV { contents: fill_doc(old(pd)@.contents, es.take(i as int)), ..old(pd)@ }),
        decreases properties.len() - i,
    {
        proof {
            assert(es.take(i + 1).drop_last() =~= es.take(i as int));
            assert(es.take(i + 1).last() == (properties@[i as int].0@, pvs_v(properties@[i as int].1@)));
        }
        add_to_first(&mut pd.contents, properties[i].0.as_str(), properties[i].1.as_slice(), false);
        i = i + 1;
    }
    proof {
        assert(es.take(properties@.len() as int) =~= es);
    }
}

// ---------------------------------------------------------------------------
// LogSeq: a block per task, added to today's journal.
/// The item is an empty list item (no contents, properties or children).
pub open spec fn empty_item(c: ComponentV) -> bool {
    c.element matches ElementV::ListElement(pd, props) && comps_of(pd).len() == 0 && props.len() == 0
        && c.children.len() == 0
}

/// The components without the empty list items at their end.
pub open spec fn trim_empty_tail(cs: Seq<ComponentV>) -> Seq<ComponentV>
    decreases cs.len(),
{
    if cs.len() > 0 && empty_item(cs.last()) {
        trim_empty_tail(cs.drop_last())
    } else {
        cs
    }
}

pub open spec fn strs_values(ts: Seq<Seq<char>>) -> Seq<PropValueV> {
    ts.map_values(|t: Seq<char>| PropValueV::Str(t))
}

/// The text under a video block: a short's url as it is, else the video macro.
pub open spec fn video_text(url: Seq<char>) -> Seq<char> {
    if crate::config::has_sub(url, "/shorts/"@) {
        url
    } else {
        "{{video "@ + url + "}}"@
    }
}

pub open spec fn docv_push(d: DocV, c: ComponentV) -> DocV {
    match d {
        DocV::File(cs, p) => DocV::File(cs.push(c), p),
        DocV::Text(cs) => DocV::Text(cs.push(c)),
    }
}

/// The item with `c` added to the contents of the first item under its first item, if there is
/// one.
pub open spec fn with_grandchild_comp(l: ListElemV, c: ComponentV) -> ListElemV {
    if l.children.len() > 0 && l.children[0].children.len() > 0 {
        let ch = l.children[0];
        let g = ch.children[0];
        ListElemV {
            children: l.children.update(
                0,
                ListElemV { children: ch.children.update(0, ListElemV { contents: docv_push(g.contents, c), ..g }), ..ch },
            ),
            ..l
        }
    } else {
        l
    }
}

pub open spec fn filled(t: ListElemV, entries: Seq<(Seq<char>, Seq<PropValueV>)>) -> ListElemV {
    ListElemV { contents: fill_doc(t.contents, entries), ..t }
}

pub open spec fn text_v(t: Seq<char>) -> ComponentV {
    ComponentV { element: ElementV::Text(t), children: Seq::empty() }
}

pub open spec fn block_v(l: ListElemV) -> ComponentV {
    ComponentV { element: ElementV::List(seq![l], false), children: Seq::empty() }
}

/// The template item of the graph named `name`.
pub open spec fn template_item(ts: LogSeqTemplates, name: Seq<char>) -> Option<ListElem> {
    first_le_seq(pd_comps(ts.templates_pd), 0, |c: DocumentComponent| is_template_comp(c, Some(name)))
}

pub open spec fn opt_entry(name: Seq<char>, v: Option<String>) -> Seq<(Seq<char>, Seq<PropValueV>)> {
    match v {
        Some(x) => seq![(name, seq![PropValueV::Str(x@)])],
        None => Seq::empty(),
    }
}

pub open spec fn opt_values(v: Option<String>) -> Seq<PropValueV> {
    match v {
        Some(x) => seq![PropValueV::Str(x@)],
        None => Seq::empty(),
    }
}

/// The block a task adds to the journal (none for an article without its template, or for a
/// task no import knows).
pub open spec fn logseq_block(ts: LogSeqTemplates, td: crate::tasks::TaskData) -> Option<ComponentV> {
    match td {
        crate::tasks::TaskData::Youtube(url, title, channel, tags) => {
            let t = template_item(ts, "youtube"@)->0@;
            let entries = seq![
                ("authors"@, seq![PropValueV::FileLink(MentionedFileV::FileName(channel@), None, None)]),
                ("description"@, seq![PropValueV::Str(title@)]),
                ("tags"@, strs_values(crate::config::strs_v(tags@))),
            ];
            Some(block_v(with_grandchild_comp(filled(t, entries), text_v(video_text(url@)))))
        },
        crate::tasks::TaskData::Sbs(url, author, title, tags, description) => match template_item(ts, "article"@) {
            Some(t) => {
                let entries = seq![
                    ("source"@, seq![PropValueV::Str("[[Stronger by Science]]"@)] + opt_values(author)),
                    ("url"@, seq![PropValueV::Str(url@)]),
                    ("tags"@, strs_values(crate::config::strs_v(tags@))),
                    ("description"@, opt_values(description)),
                ] + opt_entry("description"@, title);
                Some(block_v(filled(t@, entries)))
            },
            None => None,
        },
        crate::tasks::TaskData::YtPlaylist(url, channel, title) => {
            let t = template_item(ts, "youtube_playlist"@)->0@;
            let entries = seq![
                ("description"@, seq![PropValueV::Str(title@)]),
                ("authors"@, seq![PropValueV::Str("[["@ + channel@ + "]]"@)]),
                ("url"@, seq![PropValueV::Str(url@)]),
            ];
            Some(block_v(filled(t, entries)))
        },
        crate::tasks::TaskData::Interactive(name, url, _title, tags, sources) => {
            let t = template_item(ts, name@)->0@;
            let entries = seq![
                ("source"@, strs_values(crate::config::strs_v(sources@))),
                ("tags"@, strs_values(crate::config::strs_v(tags@))),
            ] + opt_entry("url"@, url);
            Some(block_v(filled(t, entries)))
        },
        crate::tasks::TaskData::Unhandled => None,
    }
}

/// The template a task needs is there (an article does without).
pub open spec fn templates_ready(ts: LogSeqTemplates, td: crate::tasks::TaskData) -> bool {
    match td {
        crate::tasks::TaskData::Youtube(..) => template_item(ts, "youtube"@) is Some,
        crate::tasks::TaskData::YtPlaylist(..) => template_item(ts, "youtube_playlist"@) is Some,
        crate::tasks::TaskData::Interactive(name, ..) => template_item(ts, name@) is Some,
        _ => true,
    }
}

/// Imports into a LogSeq graph: blocks from the graph's templates, added to today's journal.
pub struct LogSeqHandler {
    pub templates: LogSeqTemplates,
    pub todays_journal: ParsedDocument,
    pub todays_journal_file: String,
}

fn owned_string(s: &str) -> (r: String)
    ensures
        r@ == s@,
{
    crate::text::string_of(&crate::text::chars_of(s))
}

fn str_values(ts: &Vec<String>) -> (r: Vec<PropValue>)
    ensures
        pvs_v(r@) == strs_values(crate::config::strs_v(ts@)),
{
    let mut r: Vec<PropValue> = Vec::new();
    let mut i: usize = 0;
    while i < ts.len()
        invariant
            i <= ts@.len(),
            pvs_v(r@) == strs_values(crate::config::strs_v(ts@)).take(i as int),
        decreases ts.len() - i,
    {
        let ghost r0 = r@;
        r.push(PropValue::String(ts[i].clone()));
        proof {
            assert(pvs_v(r@) =~= pvs_v(r0).push(PropValueV::Str(ts@[i as int]@)));
            assert(strs_values(crate::config::strs_v(ts@)).take(i + 1) =~= strs_values(crate::config::strs_v(ts@)).take(i as int).push(PropValueV::Str(ts@[i as int]@)));
        }
        i = i + 1;
    }
    proof {
        assert(strs_values(crate::config::strs_v(ts@)).take(ts@.len() as int) =~= strs_values(crate::config::strs_v(ts@)));
    }
    r
}

fn one_value(t: String) -> (r: Vec<PropValue>)
    ensures
        pvs_v(r@) == seq![PropValueV::Str(t@)],
{
    let mut r: Vec<PropValue> = Vec::new();
    r.push(PropValue::String(t));
    proof {
        assert(pvs_v(r@) =~= seq![PropValueV::Str(t@)]);
    }
    r
}

fn opt_values_exec(v: &Option<String>) -> (r: Vec<PropValue>)
    ensures
        pvs_v(r@) == opt_values(*v),
{
    match v {
        Some(x) => one_value(x.clone()),
        None => {
            let r: Vec<PropValue> = Vec::new();
            proof {
                assert(pvs_v(r@) =~= Seq::<PropValueV>::empty());
            }
            r
        },
    }
}

fn block(l: ListElem) -> (r: DocumentComponent)
    ensures
        r@ == block_v(l@),
{
    let mut v: Vec<ListElem> = Vec::new();
    v.push(l);
    let r = DocumentComponent { element: DocumentElement::List(v, false), children: Vec::new() };
    proof {
        assert(v@.drop_last() =~= Seq::<ListElem>::empty());
        assert(crate::document::les_v(v@.drop_last()) =~= Seq::<ListElemV>::empty());
        assert(v@.last() == l);
        assert(crate::document::les_v(v@) =~= seq![l@]);
        assert(dcs_v(r.children@) =~= Seq::<ComponentV>::empty());
    }
    r
}

fn video_text_exec(url: &String) -> (r: String)
    ensures
        r@ == video_text(url@),
{
    let u = crate::text::chars_of(url.as_str());
    if crate::config::has_sub_exec(&u, &crate::text::chars_of("/shorts/")) {
        url.clone()
    } else {
        let mut v: Vec<char> = Vec::new();
        crate::text::push_str(&mut v, "{{video ");
        crate::text::push_all(&mut v, &u);
        crate::text::push_str(&mut v, "}}");
        crate::text::string_of(&v)
    }
}

fn add_to_grandchild(l: &mut ListElem, c: DocumentComponent)
    ensures
        final(l)@ == with_grandchild_comp(old(l)@, c@),
{
    proof {
        crate::document::lemma_les_v_len(l.children@);
    }
    if l.children.len() > 0 {
        proof {
            crate::document::lemma_les_v_index(l.children@, 0);
            crate::document::lemma_les_v_len(l.children@[0].children@);
        }
        if l.children[0].children.len() > 0 {
            proof {
                crate::document::lemma_les_v_index(l.children@[0].children@, 0);
            }
            let ghost o = l@;
            let mut ch = copy_le(&l.children[0]);
            proof {
                assert(ch@ == o.children[0]);
                crate::document::lemma_les_v_len(ch.children@);
                crate::document::lemma_les_v_index(ch.children@, 0);
            }
            let mut g = copy_le(&ch.children[0]);
            let ghost g0 = g;
            proof {
                assert(g0@ == o.children[0].children[0]);
            }
            g.contents.add_component(c);
            proof {
                crate::document::lemma_pd_push_v(g0.contents, c);
                assert(g.contents@ == docv_push(g0.contents@, c@));
                assert(g@ == ListElemV { contents: docv_push(o.children[0].children[0].contents, c@), ..o.children[0].children[0] });
            }
            let ghost chb = ch.children@;
            ch.children.set(0, g);
            proof {
                crate::document::lemma_les_v_update(chb, 0, g);
                assert(ch@ == ListElemV { children: o.children[0].children.update(0, g@), ..o.children[0] });
            }
            let ghost lb = l.children@;
            l.children.set(0, ch);
            proof {
                crate::document::lemma_les_v_update(lb, 0, ch);
                assert(l@ == with_grandchild_comp(o, c@));
            }
        }
    }
}

impl LogSeqHandler {
    /// The handler for today's journal (with the empty list items at its end left out).
    pub fn new(templates: LogSeqTemplates, todays_journal: ParsedDocument, todays_journal_file: String) -> (r: LogSeqHandler)
        ensures
            r.templates == templates,
            r.todays_journal_file == todays_journal_file,
            r.todays_journal@ == (match todays_journal@ {
                DocV::File(cs, p) => DocV::File(trim_empty_tail(cs), p),
                DocV::Text(cs) => DocV::Text(trim_empty_tail(cs)),
            }),
    {
        let comps = todays_journal.components();
        let ghost cv = dcs_v(comps@);
        proof {
            lemma_dcs_v_len(comps@);
            crate::document::lemma_pd_v_comps(todays_journal);
        }
        let mut n = comps.len();
        proof {
            assert(cv.take(comps@.len() as int) =~= cv);
        }
        while n > 0 && comps[n - 1].is_empty_list()
            invariant
                n <= comps@.len(),
                cv == dcs_v(comps@),
                cv.len() == comps@.len(),
                trim_empty_tail(cv) == trim_empty_tail(cv.take(n as int)),
            decreases n,
        {
            proof {
                crate::document::lemma_dcs_v_index(comps@, n - 1);
                assert(cv.take(n as int).drop_last() =~= cv.take(n - 1));
                assert(cv.take(n as int).last() == comps@[n - 1]@);
            }
            n = n - 1;
        }
        proof {
            if n > 0 {
                crate::document::lemma_dcs_v_index(comps@, n - 1);
                assert(cv.take(n as int).last() == comps@[n - 1]@);
            }
            if n == comps@.len() {
                assert(cv.take(n as int) =~= cv);
            }
        }
        let mut kept: Vec<DocumentComponent> = Vec::new();
        let mut i: usize = 0;
        while i < n
            invariant
                i <= n <= comps@.len(),
                cv == dcs_v(comps@),
                cv.len() == comps@.len(),
                dcs_v(kept@) == cv.take(i as int),
            decreases n - i,
        {
            proof {
                crate::document::lemma_dcs_v_index(comps@, i as int);
            }
            let c = crate::document::copy_dc(&comps[i]);
            proof {
                crate::obsidian_parsing::lemma_dcs_v_push(kept@, c);
                assert(cv.take(i + 1) =~= cv.take(i as int).push(cv[i as int]));
            }
            kept.push(c);
            i = i + 1;
        }
        let journal = todays_journal.with_components(kept);
        proof {
            crate::document::lemma_pd_v_comps(journal);
            assert(trim_empty_tail(cv.take(n as int)) == cv.take(n as int));
        }
        LogSeqHandler { templates, todays_journal: journal, todays_journal_file }
    }

    /// Adds the block for the task to today's journal; tells whether an import knows the task.
    pub fn handle_task_data(&mut self, task_data: &crate::tasks::TaskData) -> (handled: bool)
        requires
            templates_ready(old(self).templates, *task_data),
        ensures
            handled == !(task_data is Unhandled),
            final(self).templates == old(self).templates,
            final(self).todays_journal_file == old(self).todays_journal_file,
            final(self).todays_journal@ == match logseq_block(old(self).templates, *task_data) {
                Some(b) => docv_push(old(self).todays_journal@, b),
                None => old(self).todays_journal@,
            },
    {
        let ghost ts = self.templates;
        let comp = match task_data {
            crate::tasks::TaskData::Youtube(url, title, channel, tags) => {
                let mut t = self.templates.get_template_comp("youtube").unwrap();
                let mut entries: Vec<(String, Vec<PropValue>)> = Vec::new();
                let mut authors: Vec<PropValue> = Vec::new();
                authors.push(PropValue::FileLink(crate::document::MentionedFile::FileName(channel.clone()), None, None));
                entries.push((owned_string("authors"), authors));
                entries.push((owned_string("description"), one_value(title.clone())));
                entries.push((owned_string("tags"), str_values(tags)));
                proof {
                    assert(pvs_v(authors@) =~= seq![PropValueV::FileLink(MentionedFileV::FileName(channel@), None, None)]);
                    assert(entries_v(entries@) =~= seq![
                        ("authors"@, seq![PropValueV::FileLink(MentionedFileV::FileName(channel@), None, None)]),
                        ("description"@, seq![PropValueV::Str(title@)]),
                        ("tags"@, strs_values(crate::config::strs_v(tags@))),
                    ]);
                }
                fill_all_props_le(&mut t, entries.as_slice());
                let text = DocumentComponent { element: DocumentElement::Text(video_text_exec(url)), children: Vec::new() };
                proof {
                    assert(dcs_v(text.children@) =~= Seq::<ComponentV>::empty());
                }
                add_to_grandchild(&mut t, text);
                Some(block(t))
            },
            crate::tasks::TaskData::Sbs(url, author, title, tags, description) => {
                match self.templates.get_template_comp("article") {
                    Some(t) => {
                        let mut t = t;
                        let mut source: Vec<PropValue> = Vec::new();
                        source.push(PropValue::String(owned_string("[[Stronger by Science]]")));
                        let ghost s0 = pvs_v(source@);
                        let mut more = opt_values_exec(author);
                        source.append(&mut more);
                        let mut entries: Vec<(String, Vec<PropValue>)> = Vec::new();
                        entries.push((owned_string("source"), source));
                        entries.push((owned_string("url"), one_value(url.clone())));
                        entries.push((owned_string("tags"), str_values(tags)));
                        entries.push((owned_string("description"), opt_values_exec(description)));
                        match title {
                            Some(tt) => {
                                entries.push((owned_string("description"), one_value(tt.clone())));
                            },
                            None => {},
                        }
                        proof {
                            assert(pvs_v(source@) =~= seq![PropValueV::Str("[[Stronger by Science]]"@)] + opt_values(*author));
                            assert(entries_v(entries@) =~= seq![
                                ("source"@, seq![PropValueV::Str("[[Stronger by Science]]"@)] + opt_values(*author)),
                                ("url"@, seq![PropValueV::Str(url@)]),
                                ("tags"@, strs_values(crate::config::strs_v(tags@))),
                                ("description"@, opt_values(*description)),
                            ] + opt_entry("description"@, *title));
                        }
                        fill_all_props_le(&mut t, entries.as_slice());
                        Some(block(t))
                    },
                    None => None,
                }
            },
            crate::tasks::TaskData::YtPlaylist(url, channel, title) => {
                let mut t = self.templates.get_template_comp("youtube_playlist").unwrap();
                let mut authors: Vec<char> = Vec::new();
                crate::text::push_str(&mut authors, "[[");
                crate::text::push_all(&mut authors, &crate::text::chars_of(channel.as_str()));
                crate::text::push_str(&mut authors, "]]");
                let mut entries: Vec<(String, Vec<PropValue>)> = Vec::new();
                entries.push((owned_string("description"), one_value(title.clone())));
                entries.push((owned_string("authors"), one_value(crate::text::string_of(&authors))));
                entries.push((owned_string("url"), one_value(url.clone())));
                proof {
                    assert(entries_v(entries@) =~= seq![
                        ("description"@, seq![PropValueV::Str(title@)]),
                        ("authors"@, seq![PropValueV::Str("[["@ + channel@ + "]]"@)]),
                        ("url"@, seq![PropValueV::Str(url@)]),
                    ]);
                }
                fill_all_props_le(&mut t, entries.as_slice());
                Some(block(t))
            },
            crate::tasks::TaskData::Interactive(template_name, url, _title, tags, sources) => {
                let mut t = self.templates.get_template_comp(template_name.as_str()).unwrap();
                let mut entries: Vec<(String, Vec<PropValue>)> = Vec::new();
                entries.push((owned_string("source"), str_values(sources)));
                entries.push((owned_string("tags"), str_values(tags)));
                match url {
                    Some(u) => {
                        entries.push((owned_string("url"), one_value(u.clone())));
                    },
                    None => {},
                }
                proof {
                    assert(entries_v(entries@) =~= seq![
                        ("source"@, strs_values(crate::config::strs_v(sources@))),
                        ("tags"@, strs_values(crate::config::strs_v(tags@))),
                    ] + opt_entry("url"@, *url));
                }
                fill_all_props_le(&mut t, entries.as_slice());
                Some(block(t))
            },
            crate::tasks::TaskData::Unhandled => {
                return false;
            },
        };
        match comp {
            Some(c) => {
                let ghost j0 = self.todays_journal;
                self.todays_journal.add_component(c);
                proof {
                    crate::document::lemma_pd_push_v(j0, c);
                }
            },
            None => {},
        }
        true
    }
}

// ---------------------------------------------------------------------------
// zk: a note per task, filled in from its template.
/// The text without the `#`s it starts with.
pub open spec fn drop_hashes(t: Seq<char>) -> Seq<char>
    decreases t.len(),
{
    if t.len() > 0 && t[0] == '#' {
        drop_hashes(t.drop_first())
    } else {
        t
    }
}

/// The tags a zk note gets: the task's tags without their leading `#`s.
pub open spec fn zk_tags(td: crate::tasks::TaskData) -> Seq<Seq<char>> {
    td.tags().map_values(|t: Seq<char>| drop_hashes(t))
}

/// The description a zk note records: an article's description, a video's title.
pub open spec fn zk_desc(td: crate::tasks::TaskData) -> Option<Seq<char>> {
    match td {
        crate::tasks::TaskData::Sbs(_, _, _, _, d) => opt_str(d),
        crate::tasks::TaskData::Youtube(_, t, _, _) => Some(t@),
        _ => None,
    }
}

/// The creators whose notes a task links to, in the order they are looked up.
pub open spec fn creators(td: crate::tasks::TaskData) -> Seq<Seq<char>> {
    match td {
        crate::tasks::TaskData::Sbs(_, author, _, _, _) => seq!["sbs"@] + match author {
            Some(a) => seq![a@],
            None => Seq::empty(),
        },
        crate::tasks::TaskData::Youtube(_, _, channel, _) => seq![channel@],
        crate::tasks::TaskData::YtPlaylist(_, channel, _) => seq![channel@],
        crate::tasks::TaskData::Interactive(_, _, _, _, sources) => crate::config::strs_v(sources@),
        crate::tasks::TaskData::Unhandled => Seq::empty(),
    }
}

pub open spec fn creator_link(file: Seq<char>, name: Seq<char>) -> PropValueV {
    PropValueV::FileLink(crate::document::MentionedFileV::FilePath(file), None, Some(name))
}

pub open spec fn add_v(d: DocV, name: Seq<char>, vals: Seq<PropValueV>) -> DocV {
    edited(d, EditSpec::Add(AddSpec { name, values: vals, in_frontmatter: false }))
}

/// Links to the creators found (`files[k]` for `names[k]`), each added to the `source`
/// properties.
pub open spec fn add_sources(d: DocV, names: Seq<Seq<char>>, files: Seq<Option<Seq<char>>>) -> DocV
    decreases names.len(),
{
    if names.len() == 0 {
        d
    } else {
        let d0 = add_sources(d, names.drop_last(), files);
        match files[names.len() - 1] {
            Some(f) => add_v(d0, "source"@, seq![creator_link(f, names.last())]),
            None => d0,
        }
    }
}

/// What filling a zk note in does, given what the tags, the url and the description read as
/// (`tv`, `uv`, `dv`) and the creator notes found (`files`): whether it succeeded, and the note.
pub open spec fn zk_outcome(d: DocV, td: crate::tasks::TaskData, files: Seq<Option<Seq<char>>>, tv: Seq<PropValueV>, uv: PropValueV, dv: PropValueV) -> (bool, DocV) {
    let fm = EditSpec::Add(AddSpec { name: "tags"@, values: tv, in_frontmatter: true });
    if crate::edit::edit_doc(d, fm) is None {
        (false, d)
    } else {
        let d1 = edited(d, fm);
        match td {
            crate::tasks::TaskData::Sbs(_, author, _, _, desc) => {
                let d2 = add_v(d1, "url"@, seq![uv]);
                match files[0] {
                    None => (false, d2),
                    Some(f) => {
                        let d3 = add_v(d2, "source"@, seq![creator_link(f, "sbs"@)]);
                        match author {
                            Some(a) => match files[1] {
                                None => (false, d3),
                                Some(f2) => {
                                    let d4 = add_v(d3, "source"@, seq![creator_link(f2, a@)]);
                                    (true, if desc is Some { add_v(d4, "description"@, seq![dv]) } else { d4 })
                                },
                            },
                            None => (true, if desc is Some { add_v(d3, "description"@, seq![dv]) } else { d3 }),
                        }
                    },
                }
            },
            crate::tasks::TaskData::Youtube(_, _, channel, _) => {
                let d2 = add_v(d1, "url"@, seq![uv]);
                match files[0] {
                    None => (false, d2),
                    Some(f) => (true, add_v(add_v(d2, "channel"@, seq![creator_link(f, channel@)]), "description"@, seq![dv])),
                }
            },
            crate::tasks::TaskData::YtPlaylist(_, channel, _) => {
                let d2 = add_v(d1, "url"@, seq![uv]);
                match files[0] {
                    None => (false, d2),
                    Some(f) => (true, add_v(d2, "channel"@, seq![creator_link(f, channel@)])),
                }
            },
            crate::tasks::TaskData::Interactive(_, url, _, _, sources) => {
                let d2 = if url is Some { add_v(d1, "url"@, seq![uv]) } else { d1 };
                (true, add_sources(d2, crate::config::strs_v(sources@), files))
            },
            crate::tasks::TaskData::Unhandled => (false, d1),
        }
    }
}

pub open spec fn opt_strs(s: Seq<Option<String>>) -> Seq<Option<Seq<char>>> {
    s.map_values(|o: Option<String>| opt_str(o))
}

/// Imports into a zk notebook: a note per task, created from a template in the notebook.
pub struct ZkHandler {
    pub root_dir: String,
}

fn drop_hashes_exec(t: &String) -> (r: String)
    ensures
        r@ == drop_hashes(t@),
{
    let v = crate::text::chars_of(t.as_str());
    let mut i: usize = 0;
    proof {
        assert(v@.skip(0) =~= v@);
    }
    while i < v.len() && v[i] == '#'
        invariant
            i <= v@.len(),
            drop_hashes(v@) == drop_hashes(v@.skip(i as int)),
        decreases v.len() - i,
    {
        proof {
            assert(v@.skip(i as int).drop_first() =~= v@.skip(i + 1));
        }
        i = i + 1;
    }
    let r = crate::text::slice_of(&v, i, v.len());
    proof {
        assert(v@.subrange(i as int, v@.len() as int) =~= v@.skip(i as int));
    }
    crate::text::string_of(&r)
}

fn one_link(file: &String, name: &str) -> (r: Vec<PropValue>)
    ensures
        pvs_v(r@) == seq![creator_link(file@, name@)],
{
    let mut r: Vec<PropValue> = Vec::new();
    r.push(PropValue::FileLink(crate::document::MentionedFile::FilePath(file.clone()), None, Some(owned_string(name))));
    proof {
        assert(pvs_v(r@) =~= seq![creator_link(file@, name@)]);
    }
    r
}

impl ZkHandler {
    pub fn new(root_dir: String) -> (r: ZkHandler)
        ensures
            r.root_dir == root_dir,
    {
        ZkHandler { root_dir }
    }

    /// The title with each `|` replaced by `-`.
    pub fn normalize_title(title: &str) -> (r: String)
        ensures
            r@ == crate::text::replace_char(title@, '|', seq!['-']),
    {
        let dash = vec!['-'];
        proof {
            assert(dash@ == seq!['-']);
        }
        crate::text::string_of(&crate::text::replace_char_vec(&crate::text::chars_of(title), '|', &dash))
    }

    /// Adds `values` to the properties named `prop_name` of the first properties block that has
    /// one.
    pub fn fill_props(&self, pd: &mut ParsedDocument, prop_name: &str, values: &[PropValue], file_dir: &Option<String>)
        ensures
            final(pd)@ == add_v(old(pd)@, prop_name@, pvs_v(values@)),
    {
        add_to_first(pd, prop_name, values, false);
    }

    /// Adds the values read from `values` (as zk text) to the properties named `prop_name` of
    /// the first properties block that has one.
    pub fn fill_property(&self, pd: &mut ParsedDocument, prop_name: &str, values: &[String], file_dir: &Option<String>)
        requires
            forall|i: int| 0 <= i < values@.len() ==> !(crate::parse::mode_doc(crate::document::TextMode::Zk, #[trigger] values@[i]@) is Panics),
        ensures
            exists|vs: Seq<PropValueV>|
                {
                    &&& vs.len() == values@.len()
                    &&& forall|i: int| 0 <= i < vs.len() ==> crate::parse::value_read(crate::document::TextMode::Zk, values@[i]@, *file_dir, #[trigger] vs[i])
                    &&& final(pd)@ == add_v(old(pd)@, prop_name@, vs)
                },
    {
        let read = Property::new_parse(String::new(), crate::document::PropType::Single, values, crate::document::TextMode::Zk, file_dir);
        let ghost d0 = pd@;
        add_to_first(pd, prop_name, read.values.as_slice(), false);
        proof {
            let vs = pvs_v(read.values@);
            assert forall|i: int| 0 <= i < vs.len() implies crate::parse::value_read(crate::document::TextMode::Zk, values@[i]@, *file_dir, #[trigger] vs[i]) by {
                assert(vs[i] == read.values@[i]@);
            }
            assert(pd@ == add_v(d0, prop_name@, vs));
        }
    }

    /// Fills a zk note in for a task: its tags into the frontmatter (else nothing and `false`),
    /// then the url, the links to its creators' notes (`creator_files[k]` is the note of the
    /// k-th creator, `None` where none could be had) and its description. `false` where a
    /// needed creator note is missing, or no import knows the task.
    pub fn add_to_zk_pd(&self, pd: &mut ParsedDocument, task_data: &crate::tasks::TaskData, file_dir: &Option<String>, creator_files: &[Option<String>]) -> (r: bool)
        requires
            creator_files@.len() == creators(*task_data).len(),
            forall|i: int| 0 <= i < zk_tags(*task_data).len() ==> !(crate::parse::mode_doc(crate::document::TextMode::Zk, #[trigger] zk_tags(*task_data)[i]) is Panics),
            task_data.url() matches Some(u) ==> !(crate::parse::mode_doc(crate::document::TextMode::Zk, u) is Panics),
            zk_desc(*task_data) matches Some(x) ==> !(crate::parse::mode_doc(crate::document::TextMode::Zk, x) is Panics),
        ensures
            exists|tv: Seq<PropValueV>, uv: PropValueV, dv: PropValueV|
                {
                    &&& tv.len() == zk_tags(*task_data).len()
                    &&& forall|i: int| 0 <= i < tv.len() ==> crate::parse::value_read(crate::document::TextMode::Zk, zk_tags(*task_data)[i], *file_dir, #[trigger] tv[i])
                    &&& (task_data.url() matches Some(u) ==> crate::parse::value_read(crate::document::TextMode::Zk, u, *file_dir, uv))
                    &&& (zk_desc(*task_data) matches Some(x) ==> crate::parse::value_read(crate::document::TextMode::Zk, x, *file_dir, dv))
                    &&& (r, final(pd)@) == #[trigger] zk_outcome(old(pd)@, *task_data, opt_strs(creator_files@), tv, uv, dv)
                },
    {
        let tags = task_data.get_tags();
        let mut tvals: Vec<PropValue> = Vec::new();
        let mut i: usize = 0;
        while i < tags.len()
            invariant
                i <= tags@.len(),
                crate::config::strs_v(tags@) == task_data.tags(),
                tvals@.len() == i,
                forall|j: int| 0 <= j < zk_tags(*task_data).len() ==> !(crate::parse::mode_doc(crate::document::TextMode::Zk, #[trigger] zk_tags(*task_data)[j]) is Panics),
                forall|j: int| 0 <= j < i ==> crate::parse::value_read(crate::document::TextMode::Zk, zk_tags(*task_data)[j], *file_dir, #[trigger] tvals@[j]@),
            decreases tags.len() - i,
        {
            let t = drop_hashes_exec(&tags[i]);
            proof {
                assert(crate::config::strs_v(tags@)[i as int] == tags@[i as int]@);
                assert(zk_tags(*task_data)[i as int] == t@);
            }
            tvals.push(Property::try_prop_value_parse(t.as_str(), &crate::document::TextMode::Zk, file_dir));
            i = i + 1;
        }
        let ghost tv = pvs_v(tvals@);
        proof {
            assert forall|j: int| 0 <= j < tv.len() implies crate::parse::value_read(crate::document::TextMode::Zk, zk_tags(*task_data)[j], *file_dir, #[trigger] tv[j]) by {
                assert(tv[j] == tvals@[j]@);
            }
        }
        let uvo = match task_data.get_url() {
            Some(u) => Some(Property::try_prop_value_parse(u.as_str(), &crate::document::TextMode::Zk, file_dir)),
            None => None,
        };
        let desc = match task_data {
            crate::tasks::TaskData::Sbs(_, _, _, _, d) => crate::document::copy_opt_string(d),
            crate::tasks::TaskData::Youtube(_, t, _, _) => Some(t.clone()),
            _ => None,
        };
        let dvo = match &desc {
            Some(x) => Some(Property::try_prop_value_parse(x.as_str(), &crate::document::TextMode::Zk, file_dir)),
            None => None,
        };
        let ghost uv = pv_or_empty(uvo);
        let ghost dv = pv_or_empty(dvo);
        let ghost d0 = pd@;
        let ghost files = opt_strs(creator_files@);
        proof {
            assert(task_data.url() matches Some(u) ==> crate::parse::value_read(crate::document::TextMode::Zk, u, *file_dir, uv));
            assert(zk_desc(*task_data) matches Some(x) ==> crate::parse::value_read(crate::document::TextMode::Zk, x, *file_dir, dv));
        }
        if !add_to_first(pd, "tags", tvals.as_slice(), true) {
            proof {
                assert(zk_outcome(d0, *task_data, files, tv, uv, dv) == (false, pd@));
            }
            return false;
        }
        let ghost d1 = pd@;
        let ok = match task_data {
            crate::tasks::TaskData::Sbs(_, author, _, _, _) => {
                match uvo {
                    Some(v) => {
                        self.fill_props(pd, "url", one_value_pv(v).as_slice(), file_dir);
                    },
                    None => {},
                }
                match &creator_files[0] {
                    None => false,
                    Some(f) => {
                        self.fill_props(pd, "source", one_link(f, "sbs").as_slice(), file_dir);
                        let found = match author {
                            Some(a) => match &creator_files[1] {
                                None => false,
                                Some(f2) => {
                                    self.fill_props(pd, "source", one_link(f2, a.as_str()).as_slice(), file_dir);
                                    true
                                },
                            },
                            None => true,
                        };
                        if found {
                            match dvo {
                                Some(v) => {
                                    self.fill_props(pd, "description", one_value_pv(v).as_slice(), file_dir);
                                },
                                None => {},
                            }
                        }
                        found
                    },
                }
            },
            crate::tasks::TaskData::Youtube(_, _, channel, _) => {
                match uvo {
                    Some(v) => {
                        self.fill_props(pd, "url", one_value_pv(v).as_slice(), file_dir);
                    },
                    None => {},
                }
                match &creator_files[0] {
                    None => false,
                    Some(f) => {
                        self.fill_props(pd, "channel", one_link(f, channel.as_str()).as_slice(), file_dir);
                        match dvo {
                            Some(v) => {
                                self.fill_props(pd, "description", one_value_pv(v).as_slice(), file_dir);
                            },
                            None => {},
                        }
                        true
                    },
                }
            },
            crate::tasks::TaskData::YtPlaylist(_, channel, _) => {
                match uvo {
                    Some(v) => {
                        self.fill_props(pd, "url", one_value_pv(v).as_slice(), file_dir);
                    },
                    None => {},
                }
                match &creator_files[0] {
                    None => false,
                    Some(f) => {
                        self.fill_props(pd, "channel", one_link(f, channel.as_str()).as_slice(), file_dir);
                        true
                    },
                }
            },
            crate::tasks::TaskData::Interactive(_, _, _, _, sources) => {
                match uvo {
                    Some(v) => {
                        self.fill_props(pd, "url", one_value_pv(v).as_slice(), file_dir);
                    },
                    None => {},
                }
                let ghost d2 = pd@;
                let ghost names = crate::config::strs_v(sources@);
                let mut k: usize = 0;
                proof {
                    assert(names.take(0) =~= Seq::<Seq<char>>::empty());
                }
                while k < sources.len()
                    invariant
                        k <= sources@.len(),
                        names == crate::config::strs_v(sources@),
                        files == opt_strs(creator_files@),
                        creator_files@.len() == sources@.len(),
                        pd@ == add_sources(d2, names.take(k as int), files),
                    decreases sources.len() - k,
                {
                    proof {
                        assert(names.take(k + 1).drop_last() =~= names.take(k as int));
                        assert(names.take(k + 1).last() == sources@[k as int]@);
                    }
                    match &creator_files[k] {
                        Some(f) => {
                            proof {
                                assert(files[k as int] == Some(f@));
                            }
                            self.fill_props(pd, "source", one_link(f, sources[k].as_str()).as_slice(), file_dir);
                        },
                        None => {
                            proof {
                                assert(files[k as int] is None);
                            }
                        },
                    }
                    k = k + 1;
                }
                proof {
                    assert(names.take(sources@.len() as int) =~= names);
                }
                true
            },
            crate::tasks::TaskData::Unhandled => false,
        };
        proof {
            assert(zk_outcome(d0, *task_data, files, tv, uv, dv) == (ok, pd@));
        }
        ok
    }
}

/// Importing an article into a zk note with a description `desc` does what importing it
/// without one does and, where that succeeds (its creator notes are found), then adds what
/// `desc` reads as (`dv`) to the note's `description` property: where the note has one, `dv` is
/// then among its values. Where the import fails the description changes nothing.
pub proof fn sbs_description_is_filled_in(
    d: DocV,
    url: String,
    author: Option<String>,
    title: Option<String>,
    tags: Vec<String>,
    desc: String,
    files: Seq<Option<Seq<char>>>,
    tv: Seq<PropValueV>,
    uv: PropValueV,
    dv: PropValueV,
)
    ensures
        ({
            let with = zk_outcome(d, crate::tasks::TaskData::Sbs(url, author, title, tags, Some(desc)), files, tv, uv, dv);
            let without = zk_outcome(d, crate::tasks::TaskData::Sbs(url, author, title, tags, None), files, tv, uv, dv);
            let add_desc = EditSpec::Add(AddSpec { name: "description"@, values: seq![dv], in_frontmatter: false });
            &&& with.0 == without.0
            &&& (without.0 ==> with.1 == add_v(without.1, "description"@, seq![dv]))
            &&& (!without.0 ==> with.1 == without.1)
            &&& (without.0 && crate::edit::edit_doc(without.1, add_desc) is Some ==> crate::edit::holds_doc(with.1, "description"@, dv))
        }),
{
    let with = zk_outcome(d, crate::tasks::TaskData::Sbs(url, author, title, tags, Some(desc)), files, tv, uv, dv);
    let without = zk_outcome(d, crate::tasks::TaskData::Sbs(url, author, title, tags, None), files, tv, uv, dv);
    let a = AddSpec { name: "description"@, values: seq![dv], in_frontmatter: false };
    if without.0 && crate::edit::edit_doc(without.1, EditSpec::Add(a)) is Some {
        crate::edit::lemma_edit_doc_holds(without.1, a, 0);
        assert(seq![dv][0] == dv);
    }
}

pub open spec fn pv_or_empty(o: Option<PropValue>) -> PropValueV {
    match o {
        Some(v) => v@,
        None => PropValueV::Str(Seq::empty()),
    }
}

fn one_value_pv(v: PropValue) -> (r: Vec<PropValue>)
    ensures
        pvs_v(r@) == seq![v@],
{
    let ghost vv = v@;
    let mut r: Vec<PropValue> = Vec::new();
    r.push(v);
    proof {
        assert(pvs_v(r@) =~= seq![vv]);
    }
    r
}

/// The first index from `i` on where `p` occurs in `s`, or -1.
pub open spec fn find_sub(s: Seq<char>, p: Seq<char>, i: int) -> int
    decreases s.len() + 1 - i,
{
    if i < 0 || i + p.len() > s.len() {
        -1
    } else if s.subrange(i, i + p.len()) == p {
        i
    } else {
        find_sub(s, p, i + 1)
    }
}

pub open spec fn sep() -> Seq<char> {
    seq!['|', '|', '|', '|']
}

/// The path part of the first `title||||path` line whose title is `title`.
pub open spec fn listed(ls: Seq<Seq<char>>, title: Seq<char>) -> Option<Seq<char>>
    decreases ls.len(),
{
    if ls.len() == 0 {
        None
    } else {
        let l = ls[0];
        let k = find_sub(l, sep(), 0);
        if k >= 0 && l.take(k) == title {
            Some(l.skip(k + 4))
        } else {
            listed(ls.drop_first(), title)
        }
    }
}

fn find_sep(l: &Vec<char>) -> (r: Option<usize>)
    ensures
        match r {
            Some(k) => find_sub(l@, sep(), 0) == k && k + 4 <= l@.len(),
            None => find_sub(l@, sep(), 0) == -1,
        },
{
    if l.len() < 4 {
        return None;
    }
    let mut i: usize = 0;
    while i <= l.len() - 4
        invariant
            l@.len() >= 4,
            find_sub(l@, sep(), 0) == find_sub(l@, sep(), i as int),
        decreases l.len() - i,
    {
        if l[i] == '|' && l[i + 1] == '|' && l[i + 2] == '|' && l[i + 3] == '|' {
            proof {
                assert(l@.subrange(i as int, i + 4) =~= sep());
            }
            return Some(i);
        }
        proof {
            assert(l@.subrange(i as int, i + 4) != sep()) by {
                if l@.subrange(i as int, i + 4) == sep() {
                    assert(l@.subrange(i as int, i + 4)[0] == l@[i as int]);
                    assert(l@.subrange(i as int, i + 4)[1] == l@[i + 1]);
                    assert(l@.subrange(i as int, i + 4)[2] == l@[i + 2]);
                    assert(l@.subrange(i as int, i + 4)[3] == l@[i + 3]);
                }
            }
        }
        i = i + 1;
    }
    None
}

impl ZkHandler {
    /// The notebook file that `zk list` printed for `title` (as `title||||path` lines): the
    /// path of the first line with that title, inside the notebook.
    pub fn listed_file(&self, listing: &str, title: &str) -> (r: Option<String>)
        ensures
            match listed(crate::text::lines(listing@), title@) {
                Some(p) => r matches Some(x) && x@ == crate::paths::path_join(self.root_dir@, p),
                None => r is None,
            },
    {
        let ls = crate::text::lines_vec(&crate::text::chars_of(listing));
        let ghost lv = crate::text::views(ls@);
        let t = crate::text::chars_of(title);
        let mut i: usize = 0;
        proof {
            assert(lv.skip(0) =~= lv);
        }
        while i < ls.len()
            invariant
                i <= ls@.len(),
                lv == crate::text::views(ls@),
                lv == crate::text::lines(listing@),
                t@ == title@,
                listed(lv, title@) == listed(lv.skip(i as int), title@),
            decreases ls.len() - i,
        {
            proof {
                assert(lv.skip(i as int)[0] == ls@[i as int]@);
                assert(lv.skip(i as int).drop_first() =~= lv.skip(i + 1));
            }
            let l = &ls[i];
            match find_sep(l) {
                Some(k) => {
                    let n = l.len();
                    assert(k + 4 <= n);
                    let head = crate::text::slice_of(l, 0, k);
                    if crate::text::eq_vec(&head, &t) {
                        let rest = crate::text::slice_of(l, k + 4, n);
                        proof {
                            assert(l@.subrange(0, k as int) =~= l@.take(k as int));
                            assert(l@.subrange(k + 4, l@.len() as int) =~= l@.skip(k + 4));
                        }
                        return Some(crate::paths::join_path(self.root_dir.as_str(), crate::text::string_of(&rest).as_str()));
                    }
                    proof {
                        assert(l@.subrange(0, k as int) =~= l@.take(k as int));
                    }
                },
                None => {},
            }
            i = i + 1;
        }
        None
    }

    /// The template a task's note is created from, inside the notebook (none for a task no
    /// import knows).
    pub fn template_file(&self, task_data: &crate::tasks::TaskData) -> (r: Option<String>)
        ensures
            match *task_data {
                crate::tasks::TaskData::Youtube(..) => r matches Some(x) && x@ == crate::paths::path_join(self.root_dir@, ".zk/templates/yt_video.md"@),
                crate::tasks::TaskData::Sbs(..) => r matches Some(x) && x@ == crate::paths::path_join(self.root_dir@, ".zk/templates/article.md"@),
                crate::tasks::TaskData::YtPlaylist(..) => r matches Some(x) && x@ == crate::paths::path_join(self.root_dir@, ".zk/templates/yt_playlist.md"@),
                crate::tasks::TaskData::Interactive(name, ..) => r matches Some(x) && x@ == crate::paths::path_join(crate::paths::path_join(self.root_dir@, ".zk/templates"@), name@),
                crate::tasks::TaskData::Unhandled => r is None,
            },
    {
        match task_data {
            crate::tasks::TaskData::Youtube(..) => Some(crate::paths::join_path(self.root_dir.as_str(), ".zk/templates/yt_video.md")),
            crate::tasks::TaskData::Sbs(..) => Some(crate::paths::join_path(self.root_dir.as_str(), ".zk/templates/article.md")),
            crate::tasks::TaskData::YtPlaylist(..) => Some(crate::paths::join_path(self.root_dir.as_str(), ".zk/templates/yt_playlist.md")),
            crate::tasks::TaskData::Interactive(name, ..) => {
                let dir = crate::paths::join_path(self.root_dir.as_str(), ".zk/templates");
                Some(crate::paths::join_path(dir.as_str(), name.as_str()))
            },
            crate::tasks::TaskData::Unhandled => None,
        }
    }

    /// The template of creator notes, inside the notebook.
    pub fn creator_template(&self) -> (r: String)
        ensures
            r@ == crate::paths::path_join(
                crate::paths::path_join(crate::paths::path_join(self.root_dir@, ".zk"@), "templates"@),
                "creator.md"@,
            ),
    {
        let a = crate::paths::join_path(self.root_dir.as_str(), ".zk");
        let b = crate::paths::join_path(a.as_str(), "templates");
        crate::paths::join_path(b.as_str(), "creator.md")
    }

    /// The creators whose notes a task's note links to, in the order they are needed.
    pub fn creators_of(task_data: &crate::tasks::TaskData) -> (r: Vec<String>)
        ensures
            crate::config::strs_v(r@) == creators(*task_data),
    {
        let mut r: Vec<String> = Vec::new();
        match task_data {
            crate::tasks::TaskData::Sbs(_, author, _, _, _) => {
                r.push(owned_string("sbs"));
                match author {
                    Some(a) => {
                        r.push(a.clone());
                    },
                    None => {},
                }
            },
            crate::tasks::TaskData::Youtube(_, _, channel, _) => {
                r.push(channel.clone());
            },
            crate::tasks::TaskData::YtPlaylist(_, channel, _) => {
                r.push(channel.clone());
            },
            crate::tasks::TaskData::Interactive(_, _, _, _, sources) => {
                r = crate::config::copy_strings(sources);
            },
            crate::tasks::TaskData::Unhandled => {},
        }
        proof {
            assert(crate::config::strs_v(r@) =~= creators(*task_data));
        }
        r
    }

    /// The journal entry for a new note: a list item linking to it by its title.
    pub fn journal_mention(zk_file: String, title: String) -> (r: DocumentComponent)
        ensures
            r@ == block_v(ListElemV {
                contents: DocV::Text(seq![ComponentV {
                    element: ElementV::FileLink(MentionedFileV::FilePath(zk_file@), None, Some(title@)),
                    children: Seq::empty(),
                }]),
                children: Seq::empty(),
            }),
    {
        let link = DocumentComponent {
            element: DocumentElement::FileLink(crate::document::MentionedFile::FilePath(zk_file), None, Some(title)),
            children: Vec::new(),
        };
        let mut comps: Vec<DocumentComponent> = Vec::new();
        comps.push(link);
        let le = ListElem { contents: ParsedDocument::ParsedText(comps), children: Vec::new() };
        proof {
            assert(dcs_v(link.children@) =~= Seq::<ComponentV>::empty());
            assert(comps@.drop_last() =~= Seq::<DocumentComponent>::empty());
            assert(dcs_v(comps@.drop_last()) =~= Seq::<ComponentV>::empty());
            assert(dcs_v(comps@) =~= seq![link@]);
            assert(crate::document::les_v(le.children@) =~= Seq::<ListElemV>::empty());
        }
        block(le)
    }
}

} // verus!
