//! Looking up components of a document with a selector.
use vstd::prelude::*;
use crate::document::{
    ComponentV, DocumentComponent, DocumentElement, ParsedDocument, copy_dc, dcs_v, lemma_dcs_v_add,
    lemma_dcs_v_index, lemma_dcs_v_len, pd_comps,
};

verus! {

/// What a search looks for: a test on components, stated by `accepts`.
pub trait Selector {
    /// The selector accepts the component.
    spec fn accepts(&self, c: DocumentComponent) -> bool;

    /// The selector can be asked.
    spec fn usable(&self) -> bool;

    fn select(&self, c: &DocumentComponent) -> (b: bool)
        requires
            self.usable(),
        ensures
            b == self.accepts(*c),
    ;
}

/// A closure as a selector: it accepts what the closure answers `true` for.
pub struct FnSelector<F> {
    pub f: F,
}

impl<F: Fn(&DocumentComponent) -> bool> Selector for FnSelector<F> {
    open spec fn accepts(&self, c: DocumentComponent) -> bool {
        call_ensures(self.f, (&c,), true)
    }

    /// The closure can be called on every component and answers the same each time.
    open spec fn usable(&self) -> bool {
        &&& forall|c: &DocumentComponent| #[trigger] call_requires(self.f, (c,))
        &&& forall|c: &DocumentComponent, b: bool|
            #[trigger] call_ensures(self.f, (c,), b) ==> b == call_ensures(self.f, (c,), true)
    }

    fn select(&self, c: &DocumentComponent) -> (b: bool) {
        let b = (self.f)(c);
        b
    }
}

/// The first of `s[i..]` that the selector accepts (no descent).
pub open spec fn first_direct<S: Selector>(
    s: Seq<DocumentComponent>,
    i: int,
    sel: S,
) -> Option<DocumentComponent>
    decreases s.len() - i,
{
    if i < 0 || i >= s.len() {
        None
    } else if sel.accepts(s[i]) {
        Some(s[i])
    } else {
        first_direct(s, i + 1, sel)
    }
}

/// What `DocumentComponent::get_document_component` finds: the component itself, else what its
/// element holds, else the first of its direct children.
pub open spec fn find_dc<S: Selector>(c: DocumentComponent, sel: S) -> Option<
    DocumentComponent,
>
    decreases c, 0int,
{
    if sel.accepts(c) {
        Some(c)
    } else {
        match find_el(c.element, sel) {
            Some(x) => Some(x),
            None => first_direct(c.children@, 0, sel),
        }
    }
}

pub open spec fn find_el<S: Selector>(e: DocumentElement, sel: S) -> Option<
    DocumentComponent,
>
    decreases e, 0int,
{
    match e {
        DocumentElement::Admonition(comps, _) => first_direct(comps@, 0, sel),
        DocumentElement::ListElement(pd, _) => find_pd(pd, sel),
        _ => None,
    }
}

pub open spec fn find_pd<S: Selector>(pd: ParsedDocument, sel: S) -> Option<
    DocumentComponent,
>
    decreases pd, 0int,
{
    match pd {
        ParsedDocument::ParsedFile(c, _) => find_seq(c@, 0, sel),
        ParsedDocument::ParsedText(c) => find_seq(c@, 0, sel),
    }
}

/// The first result of searching `s[i..]` one after the other.
pub open spec fn find_seq<S: Selector>(
    s: Seq<DocumentComponent>,
    i: int,
    sel: S,
) -> Option<DocumentComponent>
    decreases s, s.len() - i,
{
    if i < 0 || i >= s.len() {
        None
    } else {
        match find_dc(s[i], sel) {
            Some(x) => Some(x),
            None => find_seq(s, i + 1, sel),
        }
    }
}

pub open spec fn opt_dc_v(o: Option<DocumentComponent>) -> Option<ComponentV> {
    match o {
        Some(c) => Some(c@),
        None => None,
    }
}

fn first_direct_exec<S: Selector>(
    s: &Vec<DocumentComponent>,
    sel: &S,
) -> (r: Option<DocumentComponent>)
    requires
        sel.usable(),
    ensures
        opt_dc_v(r) == opt_dc_v(first_direct(s@, 0, *sel)),
{
    let mut i: usize = 0;
    while i < s.len()
        invariant
            sel.usable(),
            i <= s.len(),
            first_direct(s@, 0, *sel) == first_direct(s@, i as int, *sel),
        decreases s.len() - i,
    {
        if sel.select(&s[i]) {
            return Some(copy_dc(&s[i]));
        }
        i = i + 1;
    }
    None
}

impl DocumentComponent {
    /// The component itself if the selector accepts it, else what its element holds, else the
    /// first of its direct children that the selector accepts.
    pub fn get_document_component<S: Selector>(&self, selector: &S) -> (r:
        Option<DocumentComponent>)
        requires
            selector.usable(),
        ensures
            opt_dc_v(r) == opt_dc_v(find_dc(*self, *selector)),
        decreases *self, 0int,
    {
        if selector.select(self) {
            return Some(copy_dc(self));
        }
        if let Some(dc) = self.element.get_document_component(selector) {
            return Some(dc);
        }
        first_direct_exec(&self.children, selector)
    }
}

impl DocumentElement {
    /// Admonitions: their first component that the selector accepts; list items: what their
    /// contents hold; other elements hold nothing.
    pub fn get_document_component<S: Selector>(&self, selector: &S) -> (r:
        Option<DocumentComponent>)
        requires
            selector.usable(),
        ensures
            opt_dc_v(r) == opt_dc_v(find_el(*self, *selector)),
        decreases *self, 0int,
    {
        match self {
            DocumentElement::Admonition(comps, _) => first_direct_exec(comps, selector),
            DocumentElement::ListElement(pd, _) => pd.get_document_component(selector),
            _ => None,
        }
    }
}

impl ParsedDocument {
    /// The first result of searching the components one after the other.
    pub fn get_document_component<S: Selector>(&self, selector: &S) -> (r:
        Option<DocumentComponent>)
        requires
            selector.usable(),
        ensures
            opt_dc_v(r) == opt_dc_v(find_pd(*self, *selector)),
        decreases *self, 0int,
    {
        let comps = match self {
            ParsedDocument::ParsedFile(c, _) => c,
            ParsedDocument::ParsedText(c) => c,
        };
        let mut i: usize = 0;
        while i < comps.len()
            invariant
                selector.usable(),
                i <= comps.len(),
                comps@ == pd_comps(*self),
                find_pd(*self, *selector) == find_seq(comps@, i as int, *selector),
            decreases comps.len() - i,
        {
            let rec = comps[i].get_document_component(selector);
            if rec.is_some() {
                return rec;
            }
            i = i + 1;
        }
        None
    }
}


/// The views of all components that `get_all_document_components` collects.
pub open spec fn all_dc<S: Selector>(c: DocumentComponent, sel: S) -> Seq<
    ComponentV,
>
    decreases c, 0int,
{
    if sel.accepts(c) {
        seq![c@]
    } else {
        all_el(c.element, sel) + all_seq(c.children@, 0, sel)
    }
}

pub open spec fn all_el<S: Selector>(e: DocumentElement, sel: S) -> Seq<
    ComponentV,
>
    decreases e, 0int,
{
    match e {
        DocumentElement::Admonition(comps, _) => filter_direct(comps@, 0, sel),
        DocumentElement::ListElement(pd, _) => all_pd(pd, sel),
        _ => Seq::empty(),
    }
}

pub open spec fn all_pd<S: Selector>(pd: ParsedDocument, sel: S) -> Seq<
    ComponentV,
>
    decreases pd, 0int,
{
    match pd {
        ParsedDocument::ParsedFile(c, _) => all_seq(c@, 0, sel),
        ParsedDocument::ParsedText(c) => all_seq(c@, 0, sel),
    }
}

pub open spec fn all_seq<S: Selector>(
    s: Seq<DocumentComponent>,
    i: int,
    sel: S,
) -> Seq<ComponentV>
    decreases s, s.len() - i,
{
    if i < 0 || i >= s.len() {
        Seq::empty()
    } else {
        all_dc(s[i], sel) + all_seq(s, i + 1, sel)
    }
}

/// The views of the components of `s[i..]` that the selector accepts (no descent).
pub open spec fn filter_direct<S: Selector>(
    s: Seq<DocumentComponent>,
    i: int,
    sel: S,
) -> Seq<ComponentV>
    decreases s.len() - i,
{
    if i < 0 || i >= s.len() {
        Seq::empty()
    } else {
        (if sel.accepts(s[i]) {
            seq![s[i]@]
        } else {
            Seq::empty()
        }) + filter_direct(s, i + 1, sel)
    }
}

fn filter_direct_exec<S: Selector>(
    s: &Vec<DocumentComponent>,
    sel: &S,
) -> (r: Vec<DocumentComponent>)
    requires
        sel.usable(),
    ensures
        dcs_v(r@) == filter_direct(s@, 0, *sel),
{
    let mut r: Vec<DocumentComponent> = Vec::new();
    let mut i: usize = 0;
    while i < s.len()
        invariant
            sel.usable(),
            i <= s.len(),
            dcs_v(r@) + filter_direct(s@, i as int, *sel) == filter_direct(s@, 0, *sel),
        decreases s.len() - i,
    {
        let ghost before = r@;
        if sel.select(&s[i]) {
            r.push(copy_dc(&s[i]));
            proof {
                assert(r@.drop_last() =~= before);
                assert(dcs_v(r@) =~= dcs_v(before) + seq![s@[i as int]@]);
            }
        }
        proof {
            assert(dcs_v(r@) + filter_direct(s@, i + 1, *sel) =~= dcs_v(before) + filter_direct(
                s@,
                i as int,
                *sel,
            ));
        }
        i = i + 1;
    }
    proof {
        assert(dcs_v(r@) + Seq::<ComponentV>::empty() =~= dcs_v(r@));
    }
    r
}

fn append_dcs(r: &mut Vec<DocumentComponent>, other: Vec<DocumentComponent>)
    ensures
        dcs_v(final(r)@) == dcs_v(old(r)@) + dcs_v(other@),
{
    let mut other = other;
    let ghost o = other@;
    r.append(&mut other);
    proof {
        lemma_dcs_v_add(old(r)@, o);
    }
}

impl DocumentComponent {
    /// The component itself if the selector accepts it; else what its element holds, followed
    /// by what each child holds.
    pub fn get_all_document_components<S: Selector>(
        &self,
        selector: &S,
    ) -> (r: Vec<DocumentComponent>)
        requires
            selector.usable(),
        ensures
            dcs_v(r@) == all_dc(*self, *selector),
        decreases *self, 0int,
    {
        if selector.select(self) {
            let mut r: Vec<DocumentComponent> = Vec::new();
            r.push(copy_dc(self));
            proof {
                assert(r@.drop_last() =~= Seq::<DocumentComponent>::empty());
                assert(dcs_v(r@.drop_last()) =~= Seq::<ComponentV>::empty());
                assert(dcs_v(r@) =~= seq![self@]);
            }
            return r;
        }
        let mut res = self.element.get_all_document_components(selector);
        let mut i: usize = 0;
        while i < self.children.len()
            invariant
                selector.usable(),
                i <= self.children.len(),
                dcs_v(res@) + all_seq(self.children@, i as int, *selector) == all_dc(
                    *self,
                    *selector,
                ),
            decreases self.children.len() - i,
        {
            let rec = self.children[i].get_all_document_components(selector);
            let ghost before = res@;
            append_dcs(&mut res, rec);
            proof {
                assert(dcs_v(res@) + all_seq(self.children@, i + 1, *selector) =~= dcs_v(before)
                    + all_seq(self.children@, i as int, *selector));
            }
            i = i + 1;
        }
        proof {
            assert(dcs_v(res@) + Seq::<ComponentV>::empty() =~= dcs_v(res@));
        }
        res
    }
}

impl DocumentElement {
    /// Admonitions: those of their components that the selector accepts; list items: what their
    /// contents hold; other elements hold nothing.
    pub fn get_all_document_components<S: Selector>(
        &self,
        selector: &S,
    ) -> (r: Vec<DocumentComponent>)
        requires
            selector.usable(),
        ensures
            dcs_v(r@) == all_el(*self, *selector),
        decreases *self, 0int,
    {
        match self {
            DocumentElement::Admonition(comps, _) => filter_direct_exec(comps, selector),
            DocumentElement::ListElement(pd, _) => pd.get_all_document_components(selector),
            _ => {
                let r: Vec<DocumentComponent> = Vec::new();
                proof {
                    assert(dcs_v(r@) =~= Seq::<ComponentV>::empty());
                }
                r
            },
        }
    }
}

impl ParsedDocument {
    /// What each component holds, one after the other.
    pub fn get_all_document_components<S: Selector>(
        &self,
        selector: &S,
    ) -> (r: Vec<DocumentComponent>)
        requires
            selector.usable(),
        ensures
            dcs_v(r@) == all_pd(*self, *selector),
        decreases *self, 0int,
    {
        let comps = match self {
            ParsedDocument::ParsedFile(c, _) => c,
            ParsedDocument::ParsedText(c) => c,
        };
        let mut res: Vec<DocumentComponent> = Vec::new();
        proof {
            assert(dcs_v(res@) =~= Seq::<ComponentV>::empty());
            assert(dcs_v(res@) + all_seq(comps@, 0, *selector) =~= all_seq(comps@, 0, *selector));
        }
        let mut i: usize = 0;
        while i < comps.len()
            invariant
                selector.usable(),
                i <= comps.len(),
                comps@ == pd_comps(*self),
                dcs_v(res@) + all_seq(comps@, i as int, *selector) == all_pd(*self, *selector),
            decreases comps.len() - i,
        {
            let rec = comps[i].get_all_document_components(selector);
            let ghost before = res@;
            append_dcs(&mut res, rec);
            proof {
                assert(dcs_v(res@) + all_seq(comps@, i + 1, *selector) =~= dcs_v(before) + all_seq(
                    comps@,
                    i as int,
                    *selector,
                ));
            }
            i = i + 1;
        }
        proof {
            assert(dcs_v(res@) + Seq::<ComponentV>::empty() =~= dcs_v(res@));
        }
        res
    }
}


/// `new` is `old` with the first of `old[i..]` that the selector accepts replaced by `n`.
pub open spec fn replaced_direct<S: Selector>(
    old: Seq<DocumentComponent>,
    new: Seq<DocumentComponent>,
    i: int,
    sel: S,
    n: DocumentComponent,
) -> bool
    decreases old.len() - i,
{
    if i < 0 || i >= old.len() {
        new == old
    } else if sel.accepts(old[i]) {
        new == old.update(i, n)
    } else {
        replaced_direct(old, new, i + 1, sel, n)
    }
}

/// `new` is `old` with the component that `find_dc` finds replaced by `n`.
pub open spec fn replaced_dc<S: Selector>(
    old: DocumentComponent,
    new: DocumentComponent,
    sel: S,
    n: DocumentComponent,
) -> bool
    decreases old, 0int,
{
    if sel.accepts(old) {
        new == n
    } else if find_el(old.element, sel) is Some {
        new.children == old.children && replaced_el(old.element, new.element, sel, n)
    } else {
        new.element == old.element && replaced_direct(old.children@, new.children@, 0, sel, n)
    }
}

pub open spec fn replaced_el<S: Selector>(
    old: DocumentElement,
    new: DocumentElement,
    sel: S,
    n: DocumentComponent,
) -> bool
    decreases old, 0int,
{
    match (old, new) {
        (DocumentElement::Admonition(c1, p1), DocumentElement::Admonition(c2, p2)) => p1 == p2
            && replaced_direct(c1@, c2@, 0, sel, n),
        (DocumentElement::ListElement(d1, p1), DocumentElement::ListElement(d2, p2)) => p1 == p2
            && replaced_pd(d1, d2, sel, n),
        _ => new == old,
    }
}

pub open spec fn replaced_pd<S: Selector>(
    old: ParsedDocument,
    new: ParsedDocument,
    sel: S,
    n: DocumentComponent,
) -> bool
    decreases old, 0int,
{
    match (old, new) {
        (ParsedDocument::ParsedFile(c1, p1), ParsedDocument::ParsedFile(c2, p2)) => p1 == p2
            && replaced_seq(c1@, c2@, 0, sel, n),
        (ParsedDocument::ParsedText(c1), ParsedDocument::ParsedText(c2)) => replaced_seq(
            c1@,
            c2@,
            0,
            sel,
            n,
        ),
        _ => false,
    }
}

pub open spec fn replaced_seq<S: Selector>(
    old: Seq<DocumentComponent>,
    new: Seq<DocumentComponent>,
    i: int,
    sel: S,
    n: DocumentComponent,
) -> bool
    decreases old, old.len() - i,
{
    if i < 0 || i >= old.len() {
        new == old
    } else if find_dc(old[i], sel) is Some {
        new.len() == old.len() && (forall|k: int| 0 <= k < old.len() && k != i ==> new[k] == old[k])
            && replaced_dc(old[i], new[i], sel, n)
    } else {
        replaced_seq(old, new, i + 1, sel, n)
    }
}

proof fn lemma_keep_direct<S: Selector>(
    s: Seq<DocumentComponent>,
    new: Seq<DocumentComponent>,
    i: int,
    sel: S,
    n: DocumentComponent,
)
    requires
        first_direct(s, i, sel) == Some(n),
        replaced_direct(s, new, i, sel, n),
    ensures
        new == s,
    decreases s.len() - i,
{
    if 0 <= i < s.len() {
        if sel.accepts(s[i]) {
            assert(new =~= s);
        } else {
            lemma_keep_direct(s, new, i + 1, sel, n);
        }
    }
}

proof fn lemma_keep_dc<S: Selector>(c: DocumentComponent, c2: DocumentComponent, sel: S)
    requires
        find_dc(c, sel) is Some,
        replaced_dc(c, c2, sel, find_dc(c, sel)->Some_0),
    ensures
        c2@ == c@,
    decreases c, 0int,
{
    let n = find_dc(c, sel)->Some_0;
    if sel.accepts(c) {
    } else if find_el(c.element, sel) is Some {
        lemma_keep_el(c.element, c2.element, sel);
    } else {
        lemma_keep_direct(c.children@, c2.children@, 0, sel, n);
    }
}

proof fn lemma_keep_el<S: Selector>(e: DocumentElement, e2: DocumentElement, sel: S)
    requires
        find_el(e, sel) is Some,
        replaced_el(e, e2, sel, find_el(e, sel)->Some_0),
    ensures
        crate::document::el_v(e2) == crate::document::el_v(e),
    decreases e, 0int,
{
    let n = find_el(e, sel)->Some_0;
    match (e, e2) {
        (DocumentElement::Admonition(c1, p1), DocumentElement::Admonition(c2, p2)) => {
            lemma_keep_direct(c1@, c2@, 0, sel, n);
        },
        (DocumentElement::ListElement(d1, p1), DocumentElement::ListElement(d2, p2)) => {
            lemma_keep_pd(d1, d2, sel);
        },
        _ => {},
    }
}

proof fn lemma_keep_pd<S: Selector>(pd: ParsedDocument, pd2: ParsedDocument, sel: S)
    requires
        find_pd(pd, sel) is Some,
        replaced_pd(pd, pd2, sel, find_pd(pd, sel)->Some_0),
    ensures
        pd2@ == pd@,
    decreases pd, 0int,
{
    match (pd, pd2) {
        (ParsedDocument::ParsedFile(c1, p1), ParsedDocument::ParsedFile(c2, p2)) => {
            lemma_keep_seq(c1@, c2@, 0, sel);
        },
        (ParsedDocument::ParsedText(c1), ParsedDocument::ParsedText(c2)) => {
            lemma_keep_seq(c1@, c2@, 0, sel);
        },
        _ => {},
    }
}

proof fn lemma_keep_seq<S: Selector>(s: Seq<DocumentComponent>, new: Seq<DocumentComponent>, i: int, sel: S)
    requires
        find_seq(s, i, sel) is Some,
        replaced_seq(s, new, i, sel, find_seq(s, i, sel)->Some_0),
    ensures
        dcs_v(new) == dcs_v(s),
    decreases s, s.len() - i,
{
    if 0 <= i < s.len() {
        if find_dc(s[i], sel) is Some {
            lemma_keep_dc(s[i], new[i], sel);
            lemma_dcs_v_len(s);
            lemma_dcs_v_len(new);
            assert forall|k: int| 0 <= k < s.len() implies dcs_v(new)[k] == dcs_v(s)[k] by {
                lemma_dcs_v_index(s, k);
                lemma_dcs_v_index(new, k);
            }
            assert(dcs_v(new) =~= dcs_v(s));
        } else {
            lemma_keep_seq(s, new, i + 1, sel);
        }
    }
}

/// The mutable search hands out the component that the plain search finds (both are stated by
/// `find_pd`), and where the caller writes nothing through it (the component stays what was
/// found) the document is left as it was.
pub proof fn mutable_search_keeps_unwritten_document<S: Selector>(pd: ParsedDocument, after: ParsedDocument, sel: S)
    requires
        find_pd(pd, sel) is Some,
        replaced_pd(pd, after, sel, find_pd(pd, sel)->Some_0),
    ensures
        after@ == pd@,
{
    lemma_keep_pd(pd, after, sel);
}

fn first_direct_index<S: Selector>(
    s: &Vec<DocumentComponent>,
    sel: &S,
) -> (r: usize)
    requires
        sel.usable(),
    ensures
        r <= s.len(),
        r < s.len() ==> first_direct(s@, 0, *sel) == Some(s@[r as int]),
        r < s.len() ==> forall|new: Seq<DocumentComponent>, m: DocumentComponent|
            #[trigger] replaced_direct(s@, new, 0, *sel, m) == (new == s@.update(r as int, m)),
        r == s.len() ==> first_direct(s@, 0, *sel) is None,
        r == s.len() ==> forall|new: Seq<DocumentComponent>, m: DocumentComponent|
            #[trigger] replaced_direct(s@, new, 0, *sel, m) == (new == s@),
{
    let mut i: usize = 0;
    while i < s.len()
        invariant
            sel.usable(),
            i <= s.len(),
            first_direct(s@, 0, *sel) == first_direct(s@, i as int, *sel),
            forall|new: Seq<DocumentComponent>, m: DocumentComponent|
                #[trigger] replaced_direct(s@, new, 0, *sel, m) == replaced_direct(s@, new, i as int, *sel, m),
        decreases s.len() - i,
    {
        if sel.select(&s[i]) {
            return i;
        }
        i = i + 1;
    }
    i
}

fn first_seq_index<S: Selector>(
    s: &Vec<DocumentComponent>,
    sel: &S,
) -> (r: usize)
    requires
        sel.usable(),
    ensures
        r <= s.len(),
        r < s.len() ==> find_seq(s@, 0, *sel) == find_dc(s@[r as int], *sel) && find_dc(s@[r as int], *sel) is Some,
        r < s.len() ==> forall|new: Seq<DocumentComponent>, m: DocumentComponent|
            #[trigger] replaced_seq(s@, new, 0, *sel, m) == (new.len() == s@.len() && (forall|k: int| 0 <= k < s@.len() && k != r ==> new[k] == s@[k])
            && replaced_dc(s@[r as int], new[r as int], *sel, m)),
        r == s.len() ==> find_seq(s@, 0, *sel) is None,
        r == s.len() ==> forall|new: Seq<DocumentComponent>, m: DocumentComponent|
            #[trigger] replaced_seq(s@, new, 0, *sel, m) == (new == s@),
{
    let mut i: usize = 0;
    while i < s.len()
        invariant
            sel.usable(),
            i <= s.len(),
            find_seq(s@, 0, *sel) == find_seq(s@, i as int, *sel),
            forall|new: Seq<DocumentComponent>, m: DocumentComponent|
                #[trigger] replaced_seq(s@, new, 0, *sel, m) == replaced_seq(s@, new, i as int, *sel, m),
        decreases s.len() - i,
    {
        if s[i].get_document_component(sel).is_some() {
            return i;
        }
        i = i + 1;
    }
    i
}

impl DocumentComponent {
    /// Like `get_document_component`, but hands out the component itself for changing it.
    pub fn get_document_component_mut<S: Selector>(
        &mut self,
        selector: &S,
    ) -> (r: Option<&mut DocumentComponent>)
        requires
            selector.usable(),
        ensures
            match r {
                Some(m) => find_dc(*old(self), *selector) == Some(*m) && replaced_dc(
                    *old(self),
                    *final(self),
                    *selector,
                    *final(m),
                ),
                None => find_dc(*old(self), *selector) is None && *final(self) == *old(self),
            },
        decreases *old(self), 0int,
    {
        if selector.select(self) {
            return Some(self);
        }
        if self.element.get_document_component(selector).is_some() {
            return self.element.get_document_component_mut(selector);
        }
        let k = first_direct_index(&self.children, selector);
        if k < self.children.len() {
            Some(&mut self.children[k])
        } else {
            None
        }
    }
}

impl DocumentElement {
    /// Like `get_document_component`, but hands out the component itself for changing it.
    pub fn get_document_component_mut<S: Selector>(
        &mut self,
        selector: &S,
    ) -> (r: Option<&mut DocumentComponent>)
        requires
            selector.usable(),
        ensures
            match r {
                Some(m) => find_el(*old(self), *selector) == Some(*m) && replaced_el(
                    *old(self),
                    *final(self),
                    *selector,
                    *final(m),
                ),
                None => find_el(*old(self), *selector) is None && *final(self) == *old(self),
            },
        decreases *old(self), 0int,
    {
        match self {
            DocumentElement::Admonition(comps, _) => {
                let k = first_direct_index(comps, selector);
                if k < comps.len() {
                    Some(&mut comps[k])
                } else {
                    None
                }
            },
            DocumentElement::ListElement(pd, _) => pd.get_document_component_mut(selector),
            _ => None,
        }
    }
}

fn seq_component_mut<'a, S: Selector>(
    comps: &'a mut Vec<DocumentComponent>,
    selector: &S,
) -> (r: Option<&'a mut DocumentComponent>)
    requires
        selector.usable(),
    ensures
        match r {
            Some(m) => find_seq(old(comps)@, 0, *selector) == Some(*m) && replaced_seq(
                old(comps)@,
                final(comps)@,
                0,
                *selector,
                *final(m),
            ),
            None => find_seq(old(comps)@, 0, *selector) is None && *final(comps) == *old(comps),
        },
    decreases old(comps)@, 1int,
{
    let k = first_seq_index(comps, selector);
    if k < comps.len() {
        comps[k].get_document_component_mut(selector)
    } else {
        None
    }
}

impl ParsedDocument {
    /// Like `get_document_component`, but hands out the component itself for changing it.
    pub fn get_document_component_mut<S: Selector>(
        &mut self,
        selector: &S,
    ) -> (r: Option<&mut DocumentComponent>)
        requires
            selector.usable(),
        ensures
            r is Some ==> find_pd(*old(self), *selector) == Some(*r->0) && replaced_pd(
                *old(self),
                *final(self),
                *selector,
                *final(r->0),
            ),
            r is None ==> find_pd(*old(self), *selector) is None && *final(self) == *old(self),
        decreases *old(self), 2int,
    {
        match self {
            ParsedDocument::ParsedFile(comps, _) => seq_component_mut(comps, selector),
            ParsedDocument::ParsedText(comps) => seq_component_mut(comps, selector),
        }
    }
}

} // verus!
