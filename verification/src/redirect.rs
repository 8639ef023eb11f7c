//! Redirecting links: the links to one of some files, and the property values that link to one
//! of them, are made to link to another file instead.
use vstd::prelude::*;
use crate::config::strs_v;
use crate::document::{
    ComponentV, DocV, DocumentComponent, DocumentElement, ElementV, MentionedFile, MentionedFileV,
    ParsedDocument, PropValue, PropValueV, Property, PropertyV, dc_v, dcs_v, lemma_dcs_v_index,
    lemma_dcs_v_len, lemma_dcs_v_update, pd_v, props_v, pvs_v,
};

verus! {

/// The two texts name the same path, as `Path`'s `==` compares them (component by component)
/// under the path rules of the platform the program is built for.
pub uninterp spec fn same_path(a: Seq<char>, b: Seq<char>) -> bool;

/// Calls `==` on two `std::path::Path`s. Claimed: the result is the named value `same_path`.
#[verifier::external_body]
fn path_eq(a: &str, b: &str) -> (r: bool)
    ensures
        r == same_path(a@, b@),
{
    std::path::Path::new(a) == std::path::Path::new(b)
}

/// The path is one of `from`.
pub open spec fn among(from: Seq<Seq<char>>, p: Seq<char>) -> bool {
    exists|i: int| 0 <= i < from.len() && same_path(#[trigger] from[i], p)
}

/// The value links to a path among `from`.
pub open spec fn pv_hit(v: PropValueV, from: Seq<Seq<char>>) -> bool {
    v matches PropValueV::FileLink(MentionedFileV::FilePath(p), _, _) && among(from, p)
}

pub open spec fn redirect_pv(v: PropValueV, from: Seq<Seq<char>>, to: Seq<char>) -> PropValueV {
    match v {
        PropValueV::FileLink(MentionedFileV::FilePath(p), s, r) => if among(from, p) {
            PropValueV::FileLink(MentionedFileV::FilePath(to), s, r)
        } else {
            v
        },
        _ => v,
    }
}

pub open spec fn prop_hit(p: PropertyV, from: Seq<Seq<char>>) -> bool {
    exists|j: int| 0 <= j < p.values.len() && pv_hit(#[trigger] p.values[j], from)
}

pub open spec fn redirect_prop(p: PropertyV, from: Seq<Seq<char>>, to: Seq<char>) -> PropertyV {
    PropertyV { values: p.values.map_values(|v: PropValueV| redirect_pv(v, from, to)), ..p }
}

/// The element links to a path among `from`, or is a properties block with a value that does.
pub open spec fn el_hit(e: ElementV, from: Seq<Seq<char>>) -> bool {
    match e {
        ElementV::FileLink(MentionedFileV::FilePath(p), _, _) => among(from, p),
        ElementV::Properties(ps) => exists|i: int| 0 <= i < ps.len() && prop_hit(#[trigger] ps[i], from),
        _ => false,
    }
}

/// The element with its link, or its properties' links, redirected to `to`.
pub open spec fn redirect_el(e: ElementV, from: Seq<Seq<char>>, to: Seq<char>) -> ElementV {
    match e {
        ElementV::FileLink(MentionedFileV::FilePath(p), s, r) => if among(from, p) {
            ElementV::FileLink(MentionedFileV::FilePath(to), s, r)
        } else {
            e
        },
        ElementV::Properties(ps) => ElementV::Properties(
            ps.map_values(|p: PropertyV| redirect_prop(p, from, to)),
        ),
        _ => e,
    }
}

/// A component that is hit is redirected (and not searched further); other components are
/// searched: inside their element, then their children.
pub open spec fn rd_dc(c: ComponentV, from: Seq<Seq<char>>, to: Seq<char>) -> ComponentV
    decreases c, 1int,
{
    if el_hit(c.element, from) {
        ComponentV { element: redirect_el(c.element, from, to), children: c.children }
    } else {
        ComponentV { element: rd_el(c.element, from, to), children: rd_dcs(c.children, from, to) }
    }
}

/// Inside an element: an admonition's own components that are hit are redirected; a list
/// item's document is searched throughout.
pub open spec fn rd_el(e: ElementV, from: Seq<Seq<char>>, to: Seq<char>) -> ElementV
    decreases e, 1int,
{
    match e {
        ElementV::Admonition(cs, p) => ElementV::Admonition(rd_direct(cs, from, to), p),
        ElementV::ListElement(d, p) => ElementV::ListElement(rd_doc(d, from, to), p),
        _ => e,
    }
}

pub open spec fn rd_direct(s: Seq<ComponentV>, from: Seq<Seq<char>>, to: Seq<char>) -> Seq<ComponentV> {
    s.map_values(
        |c: ComponentV|
            if el_hit(c.element, from) {
                ComponentV { element: redirect_el(c.element, from, to), children: c.children }
            } else {
                c
            },
    )
}

pub open spec fn rd_dcs(s: Seq<ComponentV>, from: Seq<Seq<char>>, to: Seq<char>) -> Seq<ComponentV>
    decreases s, 0int,
{
    if s.len() == 0 {
        Seq::empty()
    } else {
        rd_dcs(s.drop_last(), from, to).push(rd_dc(s.last(), from, to))
    }
}

pub open spec fn rd_doc(d: DocV, from: Seq<Seq<char>>, to: Seq<char>) -> DocV
    decreases d, 1int,
{
    match d {
        DocV::File(cs, p) => DocV::File(rd_dcs(cs, from, to), p),
        DocV::Text(cs) => DocV::Text(rd_dcs(cs, from, to)),
    }
}

/// Some component that the search reaches is hit.
pub open spec fn any_dc(c: ComponentV, from: Seq<Seq<char>>) -> bool
    decreases c, 1int,
{
    el_hit(c.element, from) || any_el(c.element, from) || any_dcs(c.children, from)
}

pub open spec fn any_el(e: ElementV, from: Seq<Seq<char>>) -> bool
    decreases e, 1int,
{
    match e {
        ElementV::Admonition(cs, _) => exists|i: int| 0 <= i < cs.len() && el_hit((#[trigger] cs[i]).element, from),
        ElementV::ListElement(d, _) => any_doc(d, from),
        _ => false,
    }
}

pub open spec fn any_dcs(s: Seq<ComponentV>, from: Seq<Seq<char>>) -> bool
    decreases s, 0int,
{
    if s.len() == 0 {
        false
    } else {
        any_dcs(s.drop_last(), from) || any_dc(s.last(), from)
    }
}

pub open spec fn any_doc(d: DocV, from: Seq<Seq<char>>) -> bool
    decreases d, 1int,
{
    match d {
        DocV::File(cs, _) => any_dcs(cs, from),
        DocV::Text(cs) => any_dcs(cs, from),
    }
}

// ---------------------------------------------------------------------------
fn among_exec(from: &[String], p: &String) -> (r: bool)
    ensures
        r == among(strs_v(from@), p@),
{
    let ghost fs = strs_v(from@);
    let mut i: usize = 0;
    while i < from.len()
        invariant
            i <= from@.len(),
            fs == strs_v(from@),
            forall|k: int| 0 <= k < i ==> !same_path(#[trigger] fs[k], p@),
        decreases from.len() - i,
    {
        if path_eq(from[i].as_str(), p.as_str()) {
            proof {
                assert(same_path(fs[i as int], p@));
            }
            return true;
        }
        i = i + 1;
    }
    false
}

fn redirect_value(v: &mut PropValue, from: &[String], to: &String) -> (hit: bool)
    ensures
        final(v)@ == redirect_pv(old(v)@, strs_v(from@), to@),
        hit == pv_hit(old(v)@, strs_v(from@)),
{
    match v {
        PropValue::FileLink(MentionedFile::FilePath(p), _, _) => {
            if among_exec(from, p) {
                *p = to.clone();
                true
            } else {
                false
            }
        },
        _ => false,
    }
}

fn redirect_property(p: &mut Property, from: &[String], to: &String) -> (hit: bool)
    ensures
        final(p)@ == redirect_prop(old(p)@, strs_v(from@), to@),
        hit == prop_hit(old(p)@, strs_v(from@)),
{
    let ghost orig = pvs_v(p.values@);
    let ghost fs = strs_v(from@);
    let mut hit = false;
    let mut i: usize = 0;
    while i < p.values.len()
        invariant
            i <= p.values@.len() == orig.len(),
            orig == pvs_v(old(p).values@),
            fs == strs_v(from@),
            p.name == old(p).name,
            p.prop_type == old(p).prop_type,
            forall|k: int| 0 <= k < i ==> (#[trigger] pvs_v(p.values@)[k]) == redirect_pv(orig[k], fs, to@),
            forall|k: int| i <= k < p.values@.len() ==> (#[trigger] pvs_v(p.values@)[k]) == orig[k],
            hit == exists|k: int| 0 <= k < i && pv_hit(#[trigger] orig[k], fs),
        decreases p.values.len() - i,
    {
        let ghost before = p.values@;
        let mut v = p.values[i].copy();
        proof {
            assert(pvs_v(before)[i as int] == before[i as int]@);
        }
        let h = redirect_value(&mut v, from, to);
        p.values.set(i, v);
        if h {
            hit = true;
        }
        proof {
            assert forall|k: int| 0 <= k < i + 1 implies (#[trigger] pvs_v(p.values@)[k]) == redirect_pv(orig[k], fs, to@) by {
                assert(pvs_v(p.values@)[k] == p.values@[k]@);
                if k < i {
                    assert(pvs_v(before)[k] == before[k]@);
                }
            }
            assert forall|k: int| i + 1 <= k < p.values@.len() implies (#[trigger] pvs_v(p.values@)[k]) == orig[k] by {
                assert(pvs_v(before)[k] == before[k]@);
            }
        }
        i = i + 1;
    }
    proof {
        assert(pvs_v(p.values@) =~= orig.map_values(|v: PropValueV| redirect_pv(v, fs, to@)));
    }
    hit
}

fn redirect_element(e: &mut DocumentElement, from: &[String], to: &String) -> (hit: bool)
    ensures
        final(e)@ == (if el_hit(old(e)@, strs_v(from@)) {
            redirect_el(old(e)@, strs_v(from@), to@)
        } else {
            old(e)@
        }),
        hit == el_hit(old(e)@, strs_v(from@)),
        !hit ==> *final(e) == *old(e),
{
    let ghost fs = strs_v(from@);
    match e {
        DocumentElement::FileLink(MentionedFile::FilePath(p), _, _) => {
            if among_exec(from, p) {
                *p = to.clone();
                true
            } else {
                false
            }
        },
        DocumentElement::Properties(ps) => {
            let ghost orig = props_v(ps@);
            let mut copy = crate::document::copy_properties(ps);
            let mut hit = false;
            let mut i: usize = 0;
            while i < copy.len()
                invariant
                    i <= copy@.len() == orig.len(),
                    fs == strs_v(from@),
                    forall|k: int| 0 <= k < i ==> (#[trigger] props_v(copy@)[k]) == redirect_prop(orig[k], fs, to@),
                    forall|k: int| i <= k < copy@.len() ==> (#[trigger] props_v(copy@)[k]) == orig[k],
                    hit == exists|k: int| 0 <= k < i && prop_hit(#[trigger] orig[k], fs),
                decreases copy.len() - i,
            {
                let ghost before = copy@;
                let mut q = copy[i].copy();
                proof {
                    assert(props_v(before)[i as int] == before[i as int]@);
                }
                let h = redirect_property(&mut q, from, to);
                copy.set(i, q);
                if h {
                    hit = true;
                }
                proof {
                    assert forall|k: int| 0 <= k < i + 1 implies (#[trigger] props_v(copy@)[k]) == redirect_prop(orig[k], fs, to@) by {
                        assert(props_v(copy@)[k] == copy@[k]@);
                        if k < i {
                            assert(props_v(before)[k] == before[k]@);
                        }
                    }
                    assert forall|k: int| i + 1 <= k < copy@.len() implies (#[trigger] props_v(copy@)[k]) == orig[k] by {
                        assert(props_v(before)[k] == before[k]@);
                    }
                }
                i = i + 1;
            }
            proof {
                assert(props_v(copy@) =~= orig.map_values(|p: PropertyV| redirect_prop(p, fs, to@)));
                assert(hit == el_hit(old(e)@, fs));
            }
            if hit {
                *ps = copy;
            }
            hit
        },
        _ => false,
    }
}

fn rd_direct_exec(cs: &mut Vec<DocumentComponent>, from: &[String], to: &String) -> (hit: bool)
    ensures
        dcs_v(final(cs)@) == rd_direct(dcs_v(old(cs)@), strs_v(from@), to@),
        hit == exists|i: int| 0 <= i < dcs_v(old(cs)@).len() && el_hit((#[trigger] dcs_v(old(cs)@)[i]).element, strs_v(from@)),
{
    let ghost orig = dcs_v(cs@);
    let ghost fs = strs_v(from@);
    proof {
        lemma_dcs_v_len(cs@);
    }
    let mut hit = false;
    let mut i: usize = 0;
    while i < cs.len()
        invariant
            i <= cs@.len() == orig.len(),
            orig == dcs_v(old(cs)@),
            fs == strs_v(from@),
            forall|k: int| 0 <= k < i ==> (#[trigger] dcs_v(cs@)[k]) == rd_direct(orig, fs, to@)[k],
            forall|k: int| i <= k < cs@.len() ==> (#[trigger] dcs_v(cs@)[k]) == orig[k],
            hit == exists|k: int| 0 <= k < i && el_hit((#[trigger] orig[k]).element, fs),
        decreases cs.len() - i,
    {
        let ghost before = cs@;
        proof {
            lemma_dcs_v_len(before);
            lemma_dcs_v_index(before, i as int);
        }
        let mut c = crate::document::copy_dc(&cs[i]);
        let h = redirect_element(&mut c.element, from, to);
        cs.set(i, c);
        if h {
            hit = true;
        }
        proof {
            lemma_dcs_v_update(before, i as int, c);
            lemma_dcs_v_len(cs@);
            assert forall|k: int| 0 <= k < i + 1 implies (#[trigger] dcs_v(cs@)[k]) == rd_direct(orig, fs, to@)[k] by {
                if k < i {
                    assert(dcs_v(cs@)[k] == dcs_v(before)[k]);
                }
            }
            assert forall|k: int| i + 1 <= k < cs@.len() implies (#[trigger] dcs_v(cs@)[k]) == orig[k] by {
                assert(dcs_v(cs@)[k] == dcs_v(before)[k]);
            }
        }
        i = i + 1;
    }
    proof {
        lemma_dcs_v_len(cs@);
        assert(dcs_v(cs@) =~= rd_direct(orig, fs, to@));
    }
    hit
}

fn rd_dc_exec(c: &mut DocumentComponent, from: &[String], to: &String) -> (hit: bool)
    ensures
        final(c)@ == rd_dc(old(c)@, strs_v(from@), to@),
        hit == any_dc(old(c)@, strs_v(from@)),
    decreases *old(c), 1int,
{
    let h = redirect_element(&mut c.element, from, to);
    if h {
        return true;
    }
    let h2 = rd_el_exec(&mut c.element, from, to);
    let h3 = rd_dcs_exec(&mut c.children, from, to);
    h2 || h3
}

fn rd_el_exec(e: &mut DocumentElement, from: &[String], to: &String) -> (hit: bool)
    ensures
        final(e)@ == rd_el(old(e)@, strs_v(from@), to@),
        hit == any_el(old(e)@, strs_v(from@)),
    decreases *old(e), 1int,
{
    match e {
        DocumentElement::Admonition(cs, _) => rd_direct_exec(cs, from, to),
        DocumentElement::ListElement(pd, _) => rd_doc_exec(pd, from, to),
        _ => false,
    }
}

fn rd_dcs_exec(cs: &mut Vec<DocumentComponent>, from: &[String], to: &String) -> (hit: bool)
    ensures
        dcs_v(final(cs)@) == rd_dcs(dcs_v(old(cs)@), strs_v(from@), to@),
        hit == any_dcs(dcs_v(old(cs)@), strs_v(from@)),
    decreases *old(cs), 0int,
{
    let ghost orig = cs@;
    let ghost fs = strs_v(from@);
    let mut hit = false;
    let mut i: usize = 0;
    proof {
        assert(orig.take(0) =~= Seq::<DocumentComponent>::empty());
        assert(cs@.take(0) =~= Seq::<DocumentComponent>::empty());
    }
    while i < cs.len()
        invariant
            i <= cs@.len() == orig.len(),
            orig == old(cs)@,
            fs == strs_v(from@),
            dcs_v(cs@.take(i as int)) == rd_dcs(dcs_v(orig.take(i as int)), fs, to@),
            forall|k: int| i <= k < cs@.len() ==> #[trigger] cs@[k] == orig[k],
            hit == any_dcs(dcs_v(orig.take(i as int)), fs),
        decreases cs.len() - i,
    {
        let ghost before = cs@;
        let mut c = cs.remove(i);
        proof {
            assert(c == orig[i as int]);
            assert(decreases_to!(*old(cs) => old(cs)@));
        }
        let h = rd_dc_exec(&mut c, from, to);
        cs.insert(i, c);
        if h {
            hit = true;
        }
        proof {
            assert(cs@ =~= before.update(i as int, c));
            assert(cs@.take(i as int) =~= before.take(i as int));
            let t = cs@.take(i + 1);
            assert(t.drop_last() =~= cs@.take(i as int));
            assert(dcs_v(t) =~= dcs_v(cs@.take(i as int)).push(dc_v(c)));
            let o = orig.take(i + 1);
            assert(o.drop_last() =~= orig.take(i as int));
            assert(dcs_v(o).drop_last() =~= dcs_v(orig.take(i as int)));
            assert(dcs_v(o).last() == dc_v(orig[i as int]));
        }
        i = i + 1;
    }
    proof {
        assert(cs@.take(orig.len() as int) =~= cs@);
        assert(orig.take(orig.len() as int) =~= orig);
    }
    hit
}

fn rd_doc_exec(pd: &mut ParsedDocument, from: &[String], to: &String) -> (hit: bool)
    ensures
        final(pd)@ == rd_doc(old(pd)@, strs_v(from@), to@),
        hit == any_doc(old(pd)@, strs_v(from@)),
    decreases *old(pd), 1int,
{
    match pd {
        ParsedDocument::ParsedFile(cs, _) => rd_dcs_exec(cs, from, to),
        ParsedDocument::ParsedText(cs) => rd_dcs_exec(cs, from, to),
    }
}

/// Makes every link to a file among `from` link to `to` instead: links, and properties blocks
/// with a value linking to such a file, are redirected wherever the search for components
/// reaches (a component that is redirected is not searched further). Tells whether anything
/// was redirected.
pub fn redirect_file_mentions(pd: &mut ParsedDocument, from: &[String], to: &String) -> (changed: bool)
    ensures
        final(pd)@ == rd_doc(old(pd)@, strs_v(from@), to@),
        changed == any_doc(old(pd)@, strs_v(from@)),
{
    rd_doc_exec(pd, from, to)
}

} // verus!
