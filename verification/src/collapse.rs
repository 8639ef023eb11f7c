//! Merging neighbouring texts of a document.
use vstd::prelude::*;
use crate::document::{
    ComponentV, DocV, DocumentComponent, DocumentElement, ElementV, ListElem, ListElemV,
    ParsedDocument, copy_el, copy_pairs, dcs_v, keys_once_all, keys_once_dc, keys_once_doc,
    keys_once_le, keys_once_les, lemma_dcs_v_len, lemma_les_v_len, les_v,
};
use crate::text::{chars_of, push_all, string_of};

verus! {

pub open spec fn text_comp(t: Seq<char>) -> ComponentV {
    ComponentV { element: ElementV::Text(t), children: Seq::empty() }
}

/// The pending text, if there is any, added as a component.
pub open spec fn flush(text: Seq<char>, res: Seq<ComponentV>) -> Seq<ComponentV> {
    if text.len() > 0 {
        res.push(text_comp(text))
    } else {
        res
    }
}

pub open spec fn comps_of(d: DocV) -> Seq<ComponentV> {
    match d {
        DocV::File(cs, _) => cs,
        DocV::Text(cs) => cs,
    }
}

/// The components with neighbouring texts merged into one (a text's own children are
/// dropped; a list does not end the pending text), applied inside admonitions, list
/// elements and children too.
pub open spec fn collapse(cs: Seq<ComponentV>) -> Seq<ComponentV>
    decreases cs, 1int,
{
    let (text, res) = collapse_fold(cs);
    flush(text, res)
}

pub open spec fn collapse_fold(cs: Seq<ComponentV>) -> (Seq<char>, Seq<ComponentV>)
    decreases cs, 0int,
{
    if cs.len() == 0 {
        (Seq::empty(), Seq::empty())
    } else {
        let (text, res) = collapse_fold(cs.drop_last());
        let c = cs.last();
        match c.element {
            ElementV::Text(s) => (text + s, res),
            ElementV::Admonition(inner, props) => (
                Seq::empty(),
                flush(text, res).push(
                    ComponentV {
                        element: ElementV::Admonition(collapse(inner), props),
                        children: collapse(c.children),
                    },
                ),
            ),
            ElementV::ListElement(pd, props) => (
                Seq::empty(),
                flush(text, res).push(
                    ComponentV {
                        element: ElementV::ListElement(DocV::Text(collapse(comps_of(pd))), props),
                        children: collapse(c.children),
                    },
                ),
            ),
            ElementV::List(ls, b) => (
                text,
                res.push(ComponentV { element: ElementV::List(les_collapse(ls), b), children: Seq::empty() }),
            ),
            _ => (
                Seq::empty(),
                flush(text, res).push(ComponentV { element: c.element, children: collapse(c.children) }),
            ),
        }
    }
}

pub open spec fn le_collapse(l: ListElemV) -> ListElemV
    decreases l, 0int,
{
    ListElemV { contents: DocV::Text(collapse(comps_of(l.contents))), children: les_collapse(l.children) }
}

pub open spec fn les_collapse(ls: Seq<ListElemV>) -> Seq<ListElemV>
    decreases ls, 0int,
{
    if ls.len() == 0 {
        Seq::empty()
    } else {
        les_collapse(ls.drop_last()).push(le_collapse(ls.last()))
    }
}

/// The components have no empty text, no text with children, and no two texts next to each
/// other.
pub open spec fn texts_merged(cs: Seq<ComponentV>) -> bool {
    &&& forall|i: int| 0 <= i < cs.len() - 1 ==> !((#[trigger] cs[i]).element is Text && cs[i + 1].element is Text)
    &&& forall|i: int| 0 <= i < cs.len() && (#[trigger] cs[i]).element is Text ==> cs[i] == text_comp(cs[i].element->Text_0) && cs[i].element->Text_0.len() > 0
}

proof fn lemma_collapse_fold_shape(cs: Seq<ComponentV>)
    ensures
        texts_merged(collapse_fold(cs).1),
        collapse_fold(cs).1.len() > 0 ==> !(collapse_fold(cs).1.last().element is Text),
    decreases cs.len(),
{
    if cs.len() > 0 {
        lemma_collapse_fold_shape(cs.drop_last());
        let (text, res) = collapse_fold(cs.drop_last());
        let f = flush(text, res);
        assert(texts_merged(f) && (f.len() > 0 && f.last().element is Text ==> text.len() > 0)) by {
            if text.len() > 0 {
                assert(f == res.push(text_comp(text)));
                assert forall|i: int| 0 <= i < f.len() - 1 implies !((#[trigger] f[i]).element is Text && f[i + 1].element is Text) by {
                    if i < res.len() - 1 {
                        assert(f[i] == res[i] && f[i + 1] == res[i + 1]);
                    } else {
                        assert(f[i] == res.last());
                    }
                }
                assert forall|i: int| 0 <= i < f.len() && (#[trigger] f[i]).element is Text implies f[i] == text_comp(f[i].element->Text_0) && f[i].element->Text_0.len() > 0 by {
                    if i < res.len() {
                        assert(f[i] == res[i]);
                    }
                }
            }
        }
        let c = cs.last();
        let out = collapse_fold(cs).1;
        match c.element {
            ElementV::Text(_) => {},
            ElementV::List(ls, b) => {
                let nc = ComponentV { element: ElementV::List(les_collapse(ls), b), children: Seq::empty() };
                assert(out == res.push(nc));
                assert forall|i: int| 0 <= i < out.len() - 1 implies !((#[trigger] out[i]).element is Text && out[i + 1].element is Text) by {
                    if i < res.len() - 1 {
                        assert(out[i] == res[i] && out[i + 1] == res[i + 1]);
                    }
                }
                assert forall|i: int| 0 <= i < out.len() && (#[trigger] out[i]).element is Text implies out[i] == text_comp(out[i].element->Text_0) && out[i].element->Text_0.len() > 0 by {
                    assert(out[i] == res[i]);
                }
            },
            _ => {
                let nc = out.last();
                assert(out == f.push(nc));
                assert(!(nc.element is Text));
                assert forall|i: int| 0 <= i < out.len() - 1 implies !((#[trigger] out[i]).element is Text && out[i + 1].element is Text) by {
                    if i < f.len() - 1 {
                        assert(out[i] == f[i] && out[i + 1] == f[i + 1]);
                    }
                }
                assert forall|i: int| 0 <= i < out.len() && (#[trigger] out[i]).element is Text implies out[i] == text_comp(out[i].element->Text_0) && out[i].element->Text_0.len() > 0 by {
                    assert(out[i] == f[i]);
                }
            },
        }
    }
}

/// After collapsing, no two texts stand next to each other, and no text is empty or has
/// children.
pub proof fn collapse_merges_texts(cs: Seq<ComponentV>)
    ensures
        texts_merged(collapse(cs)),
{
    lemma_collapse_fold_shape(cs);
    let (text, res) = collapse_fold(cs);
    if text.len() > 0 {
        let out = collapse(cs);
        assert(out == res.push(text_comp(text)));
        assert forall|i: int| 0 <= i < out.len() - 1 implies !((#[trigger] out[i]).element is Text && out[i + 1].element is Text) by {
            if i < res.len() - 1 {
                assert(out[i] == res[i] && out[i + 1] == res[i + 1]);
            } else {
                assert(out[i] == res.last());
            }
        }
        assert forall|i: int| 0 <= i < out.len() && (#[trigger] out[i]).element is Text implies out[i] == text_comp(out[i].element->Text_0) && out[i].element->Text_0.len() > 0 by {
            if i < res.len() {
                assert(out[i] == res[i]);
            }
        }
    }
}

proof fn lemma_collapse_fold_again(cs: Seq<ComponentV>)
    ensures
        collapse_fold(collapse_fold(cs).1) == (Seq::<char>::empty(), collapse_fold(cs).1),
    decreases cs, 0int,
{
    if cs.len() > 0 {
        lemma_collapse_fold_again(cs.drop_last());
        let (t, r) = collapse_fold(cs.drop_last());
        let f = flush(t, r);
        assert(collapse_fold(f) == (t, r)) by {
            if t.len() > 0 {
                assert(f.drop_last() =~= r);
                assert(Seq::<char>::empty() + t =~= t);
            }
        }
        let c = cs.last();
        let out = collapse_fold(cs).1;
        match c.element {
            ElementV::Text(_) => {},
            ElementV::Admonition(inner, props) => {
                collapse_is_idempotent(inner);
                collapse_is_idempotent(c.children);
                assert(out.drop_last() =~= f);
            },
            ElementV::ListElement(pd, props) => {
                collapse_is_idempotent(comps_of(pd));
                collapse_is_idempotent(c.children);
                assert(out.drop_last() =~= f);
            },
            ElementV::List(ls, b) => {
                lemma_les_collapse_again(ls);
                assert(out.drop_last() =~= r);
            },
            _ => {
                collapse_is_idempotent(c.children);
                assert(out.drop_last() =~= f);
            },
        }
    }
}

proof fn lemma_les_collapse_again(ls: Seq<ListElemV>)
    ensures
        les_collapse(les_collapse(ls)) == les_collapse(ls),
    decreases ls, 0int,
{
    if ls.len() > 0 {
        lemma_les_collapse_again(ls.drop_last());
        let l = ls.last();
        collapse_is_idempotent(comps_of(l.contents));
        lemma_les_collapse_again(l.children);
        let once = les_collapse(ls);
        assert(once.drop_last() =~= les_collapse(ls.drop_last()));
        assert(once.last() == le_collapse(l));
        let l1 = le_collapse(l);
        assert(comps_of(l1.contents) == collapse(comps_of(l.contents)));
        assert(le_collapse(l1) == l1);
        assert(les_collapse(once) == les_collapse(once.drop_last()).push(le_collapse(once.last())));
    }
}

/// Collapsing twice gives what collapsing once gives.
pub proof fn collapse_is_idempotent(cs: Seq<ComponentV>)
    ensures
        collapse(collapse(cs)) == collapse(cs),
    decreases cs, 1int,
{
    lemma_collapse_fold_again(cs);
    let (t, r) = collapse_fold(cs);
    if t.len() > 0 {
        let out = collapse(cs);
        assert(out.drop_last() =~= r);
        assert(Seq::<char>::empty() + t =~= t);
    }
}

proof fn lemma_fold_keys_once(cs: Seq<ComponentV>)
    requires
        keys_once_all(cs),
    ensures
        keys_once_all(collapse_fold(cs).1),
    decreases cs, 0int,
{
    if cs.len() > 0 {
        let c = cs.last();
        assert(keys_once_dc(c));
        assert(keys_once_all(c.children));
        assert(crate::document::keys_once_el(c.element));
        lemma_fold_keys_once(cs.drop_last());
        let (t, r) = collapse_fold(cs.drop_last());
        let f = flush(t, r);
        assert(keys_once_all(f)) by {
            if t.len() > 0 {
                assert(f.drop_last() =~= r);
                assert(keys_once_dc(text_comp(t)));
            }
        }
        let out = collapse_fold(cs).1;
        match c.element {
            ElementV::Text(_) => {},
            ElementV::Admonition(inner, props) => {
                assert(crate::document::keys_once(props));
                assert(keys_once_all(inner));
                lemma_collapse_keys_once(inner);
                lemma_collapse_keys_once(c.children);
                assert(crate::document::keys_once_el(out.last().element));
                assert(keys_once_dc(out.last()));
                assert(out.drop_last() =~= f);
            },
            ElementV::ListElement(pd, props) => {
                assert(keys_once_doc(pd));
                assert(keys_once_all(comps_of(pd)));
                lemma_collapse_keys_once(comps_of(pd));
                lemma_collapse_keys_once(c.children);
                assert(keys_once_doc(DocV::Text(collapse(comps_of(pd)))));
                assert(crate::document::keys_once_el(out.last().element));
                assert(keys_once_dc(out.last()));
                assert(out.drop_last() =~= f);
            },
            ElementV::List(ls, b) => {
                assert(keys_once_les(ls));
                lemma_les_keys_once(ls);
                assert(crate::document::keys_once_el(out.last().element));
                assert(keys_once_all(out.last().children));
                assert(keys_once_dc(out.last()));
                assert(out.drop_last() =~= r);
            },
            _ => {
                lemma_collapse_keys_once(c.children);
                assert(crate::document::keys_once_el(out.last().element));
                assert(keys_once_dc(out.last()));
                assert(out.drop_last() =~= f);
            },
        }
    }
}

proof fn lemma_les_keys_once(ls: Seq<ListElemV>)
    requires
        keys_once_les(ls),
    ensures
        keys_once_les(les_collapse(ls)),
    decreases ls, 0int,
{
    if ls.len() > 0 {
        let l = ls.last();
        assert(keys_once_le(l));
        assert(keys_once_doc(l.contents));
        assert(keys_once_les(l.children));
        lemma_les_keys_once(ls.drop_last());
        lemma_collapse_keys_once(comps_of(l.contents));
        lemma_les_keys_once(l.children);
        let out = les_collapse(ls);
        assert(out.drop_last() =~= les_collapse(ls.drop_last()));
        assert(keys_once_le(le_collapse(l)));
    }
}

/// Collapsing keeps every admonition's properties as they were.
pub proof fn lemma_collapse_keys_once(cs: Seq<ComponentV>)
    requires
        keys_once_all(cs),
    ensures
        keys_once_all(collapse(cs)),
    decreases cs, 1int,
{
    lemma_fold_keys_once(cs);
    let (t, r) = collapse_fold(cs);
    if t.len() > 0 {
        let out = collapse(cs);
        assert(out.drop_last() =~= r);
        assert(keys_once_dc(text_comp(t)));
    }
}

fn text_component(t: &Vec<char>) -> (r: DocumentComponent)
    ensures
        r@ == text_comp(t@),
{
    let r = DocumentComponent { element: DocumentElement::Text(string_of(t)), children: Vec::new() };
    proof {
        assert(dcs_v(r.children@) =~= Seq::<ComponentV>::empty());
    }
    r
}

fn flush_exec(text: &mut Vec<char>, res: &mut Vec<DocumentComponent>)
    ensures
        dcs_v(final(res)@) == flush(old(text)@, dcs_v(old(res)@)),
        final(text)@.len() == 0,
{
    if text.len() > 0 {
        let ghost before = res@;
        let c = text_component(text);
        res.push(c);
        proof {
            assert(res@.drop_last() =~= before);
        }
        *text = Vec::new();
    }
}

/// Merges neighbouring texts into one component, inside admonitions, list elements, lists and
/// children too.
pub fn collapse_text(components: &[DocumentComponent]) -> (r: Vec<DocumentComponent>)
    ensures
        dcs_v(r@) == collapse(dcs_v(components@)),
    decreases components@, 1int,
{
    let ghost cv = dcs_v(components@);
    proof {
        lemma_dcs_v_len(components@);
    }
    let mut text: Vec<char> = Vec::new();
    let mut res: Vec<DocumentComponent> = Vec::new();
    let mut i: usize = 0;
    proof {
        assert(dcs_v(res@) =~= Seq::<ComponentV>::empty());
        assert(cv.take(0) =~= Seq::<ComponentV>::empty());
    }
    while i < components.len()
        invariant
            i <= components@.len(),
            cv == dcs_v(components@),
            cv.len() == components@.len(),
            forall|k: int| 0 <= k < components@.len() ==> #[trigger] cv[k] == components@[k]@,
            (text@, dcs_v(res@)) == collapse_fold(cv.take(i as int)),
        decreases components.len() - i,
    {
        let c = &components[i];
        proof {
            assert(cv.take(i + 1).drop_last() =~= cv.take(i as int));
            assert(cv.take(i + 1).last() == c@);
        }
        let ghost rv = dcs_v(res@);
        let ghost tv = text@;
        match &c.element {
            DocumentElement::Text(s) => {
                push_all(&mut text, &chars_of(s.as_str()));
                proof {
                    assert(c@.element == ElementV::Text(s@));
                    assert((text@, dcs_v(res@)) == collapse_fold(cv.take(i + 1)));
                }
            },
            DocumentElement::Admonition(inner, props) => {
                let ch_s = c.children.as_slice();
                let children = collapse_text(ch_s);
                flush_exec(&mut text, &mut res);
                let in_s = inner.as_slice();
                let collapsed = collapse_text(in_s);
                proof {
                    assert(ch_s@ == c.children@);
                    assert(in_s@ == inner@);
                }
                let ghost r1 = res@;
                let comp = DocumentComponent::new_with_children(
                    DocumentElement::Admonition(collapsed, copy_pairs(props)),
                    children,
                );
                res.push(comp);
                proof {
                    assert(res@.drop_last() =~= r1);
                    assert(c@.element == ElementV::Admonition(dcs_v(inner@), crate::document::pairs_v(props@)));
                    assert(text@ =~= Seq::<char>::empty());
                    assert(comp@ == ComponentV {
                        element: ElementV::Admonition(collapse(dcs_v(inner@)), crate::document::pairs_v(props@)),
                        children: collapse(c@.children),
                    });
                    assert((text@, dcs_v(res@)) == collapse_fold(cv.take(i + 1)));
                }
            },
            DocumentElement::ListElement(pd, props) => {
                let ch_s = c.children.as_slice();
                let children = collapse_text(ch_s);
                flush_exec(&mut text, &mut res);
                let pcs = pd.components();
                let p_s = pcs.as_slice();
                let inner = collapse_text(p_s);
                proof {
                    assert(ch_s@ == c.children@);
                    assert(p_s@ == pcs@);
                    crate::document::lemma_pd_v_comps(*pd);
                    assert(text@ =~= Seq::<char>::empty());
                }
                let ghost r1 = res@;
                let ghost iv = dcs_v(inner@);
                let npd = ParsedDocument::ParsedText(inner);
                proof {
                    assert(crate::document::pd_v(npd) == DocV::Text(iv));
                }
                let comp = DocumentComponent::new_with_children(
                    DocumentElement::ListElement(npd, copy_pairs(props)),
                    children,
                );
                res.push(comp);
                proof {
                    assert(res@.drop_last() =~= r1);
                    assert(c@.element == ElementV::ListElement(crate::document::pd_v(*pd), crate::document::pairs_v(props@)));
                    assert(comps_of(crate::document::pd_v(*pd)) == dcs_v(pcs@));
                    assert(comp@.element == ElementV::ListElement(DocV::Text(iv), crate::document::pairs_v(props@)));
                    assert((text@, dcs_v(res@)) == collapse_fold(cv.take(i + 1)));
                }
            },
            DocumentElement::List(ls, b) => {
                let elems = les_collapse_exec(ls);
                let ghost r1 = res@;
                let comp = DocumentComponent::new(DocumentElement::List(elems, *b));
                res.push(comp);
                proof {
                    assert(res@.drop_last() =~= r1);
                    assert(dcs_v(comp.children@) =~= Seq::<ComponentV>::empty());
                    assert(c@.element == ElementV::List(les_v(ls@), *b));
                    assert(comp@ == ComponentV { element: ElementV::List(les_collapse(les_v(ls@)), *b), children: Seq::empty() });
                    assert((text@, dcs_v(res@)) == collapse_fold(cv.take(i + 1)));
                }
            },
            _ => {
                let ch_s = c.children.as_slice();
                let children = collapse_text(ch_s);
                proof {
                    assert(ch_s@ == c.children@);
                }
                flush_exec(&mut text, &mut res);
                let ghost r1 = res@;
                let comp = DocumentComponent::new_with_children(copy_el(&c.element), children);
                res.push(comp);
                proof {
                    assert(res@.drop_last() =~= r1);
                    assert(text@ =~= Seq::<char>::empty());
                    assert(comp@ == ComponentV { element: c@.element, children: collapse(c@.children) });
                    assert((text@, dcs_v(res@)) == collapse_fold(cv.take(i + 1)));
                }
            },
        }
        i = i + 1;
    }
    proof {
        assert(cv.take(components@.len() as int) =~= cv);
    }
    flush_exec(&mut text, &mut res);
    res
}

fn le_collapse_exec(l: &ListElem) -> (r: ListElem)
    ensures
        r@ == le_collapse(l@),
    decreases l, 0int,
{
    let contents = match &l.contents {
        ParsedDocument::ParsedFile(cs, _) => collapse_text(cs.as_slice()),
        ParsedDocument::ParsedText(cs) => collapse_text(cs.as_slice()),
    };
    let children = les_collapse_exec(&l.children);
    ListElem { contents: ParsedDocument::ParsedText(contents), children }
}

fn les_collapse_exec(ls: &Vec<ListElem>) -> (r: Vec<ListElem>)
    ensures
        les_v(r@) == les_collapse(les_v(ls@)),
    decreases ls@, 0int,
{
    let ghost lv = les_v(ls@);
    proof {
        lemma_les_v_len(ls@);
    }
    let mut r: Vec<ListElem> = Vec::new();
    let mut i: usize = 0;
    proof {
        assert(les_v(r@) =~= Seq::<ListElemV>::empty());
        assert(lv.take(0) =~= Seq::<ListElemV>::empty());
    }
    while i < ls.len()
        invariant
            i <= ls@.len(),
            lv == les_v(ls@),
            lv.len() == ls@.len(),
            forall|k: int| 0 <= k < ls@.len() ==> #[trigger] lv[k] == ls@[k]@,
            les_v(r@) == les_collapse(lv.take(i as int)),
        decreases ls.len() - i,
    {
        proof {
            assert(lv.take(i + 1).drop_last() =~= lv.take(i as int));
            assert(lv.take(i + 1).last() == ls@[i as int]@);
        }
        let ghost r0 = r@;
        let e = le_collapse_exec(&ls[i]);
        r.push(e);
        proof {
            assert(r@.drop_last() =~= r0);
        }
        i = i + 1;
    }
    proof {
        assert(lv.take(ls@.len() as int) =~= lv);
    }
    r
}

/// The document with neighbouring texts merged; a file keeps its path.
pub open spec fn doc_collapse(d: DocV) -> DocV {
    match d {
        DocV::File(cs, p) => DocV::File(collapse(cs), p),
        DocV::Text(cs) => DocV::Text(collapse(cs)),
    }
}

/// Collapsing a document twice gives what collapsing it once gives.
pub proof fn doc_collapse_is_idempotent(d: DocV)
    ensures
        doc_collapse(doc_collapse(d)) == doc_collapse(d),
{
    collapse_is_idempotent(comps_of(d));
}

impl ParsedDocument {
    /// The document with neighbouring texts merged.
    pub fn collapse_text(&self) -> (r: Self)
        ensures
            r@ == doc_collapse(self@),
            match (*self, r) {
                (ParsedDocument::ParsedFile(c1, p1), ParsedDocument::ParsedFile(c2, p2)) => p1@ == p2@
                    && dcs_v(c2@) == collapse(dcs_v(c1@)),
                (ParsedDocument::ParsedText(c1), ParsedDocument::ParsedText(c2)) => dcs_v(c2@) == collapse(
                    dcs_v(c1@),
                ),
                _ => false,
            },
    {
        match self {
            ParsedDocument::ParsedFile(comps, path) => ParsedDocument::ParsedFile(
                collapse_text(comps.as_slice()),
                path.clone(),
            ),
            ParsedDocument::ParsedText(comps) => ParsedDocument::ParsedText(collapse_text(comps.as_slice())),
        }
    }
}

impl ListElem {
    /// The list element with neighbouring texts merged, in its contents and its children.
    pub fn collapse_text(&self) -> (r: Self)
        ensures
            r@ == le_collapse(self@),
    {
        le_collapse_exec(self)
    }
}

} // verus!
