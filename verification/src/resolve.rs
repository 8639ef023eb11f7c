//! Looking up mentioned files in the directory of the note that mentions them.
use vstd::prelude::*;
use crate::document::{
    ComponentV, DocV, DocumentComponent, DocumentElement, ElementV, ListElem, ListElemV,
    MentionedFile, MentionedFileV, ParsedDocument, dcs_v, lemma_dcs_v_len, lemma_les_v_len, les_v,
};
use crate::document::{keys_once_all, keys_once_dc, keys_once_doc, keys_once_el, keys_once_le, keys_once_les};
use crate::document::{PropValue, PropValueV, Property, PropertyV, prop_v, props_v, pv_v, pvs_v};
use crate::obsidian_parsing::ParseError;
use crate::paths::{join_path, path_exists};

verus! {

/// Calls `std::path::Path::canonicalize`, which asks the file system. Nothing is claimed of
/// the result: it depends on what is on disk when the call is made.
#[verifier::external_body]
fn canonical_path(p: &str) -> (r: Option<String>) {
    std::path::Path::new(p).canonicalize().ok().map(|c| c.to_string_lossy().to_string())
}

/// How the files named by one kind of mention are looked up.
pub enum Lookup {
    /// Mentions stay as they were read.
    Keep,
    /// A name is looked up in this directory, then as given; a file found stands by its
    /// canonical path.
    InDir(String),
    /// A name that exists as given (relative to the working directory) stands as that path.
    AsGiven,
}

/// The lookups for links, for embeds and for file links among property values.
pub struct Lookups {
    pub links: Lookup,
    pub embeds: Lookup,
    pub values: Lookup,
}

pub enum LookupMode {
    Keep,
    InDir,
    AsGiven,
}

pub struct LookupModes {
    pub links: LookupMode,
    pub embeds: LookupMode,
    pub values: LookupMode,
}

impl Lookup {
    pub open spec fn mode(self) -> LookupMode {
        match self {
            Lookup::Keep => LookupMode::Keep,
            Lookup::InDir(_) => LookupMode::InDir,
            Lookup::AsGiven => LookupMode::AsGiven,
        }
    }
}

impl Lookups {
    /// No lookup of these needs a directory (and none of them can fail).
    pub open spec fn dirless(self) -> bool {
        !(self.links is InDir) && !(self.embeds is InDir) && !(self.values is InDir)
    }

    pub open spec fn modes(self) -> LookupModes {
        LookupModes { links: self.links.mode(), embeds: self.embeds.mode(), values: self.values.mode() }
    }
}

/// `b` is the mention `a` after a lookup of the given kind.
pub open spec fn resolved_mf(a: MentionedFileV, b: MentionedFileV, m: LookupMode) -> bool {
    match m {
        LookupMode::Keep => a == b,
        LookupMode::InDir => a == b || (a is FileName && b is FilePath),
        LookupMode::AsGiven => a == b || (a matches MentionedFileV::FileName(t) && b
            == MentionedFileV::FilePath(t)),
    }
}

pub open spec fn resolved_pv(a: PropValueV, b: PropValueV, m: LookupMode) -> bool {
    match (a, b) {
        (PropValueV::FileLink(m1, s1, r1), PropValueV::FileLink(m2, s2, r2)) => resolved_mf(m1, m2, m)
            && s1 == s2 && r1 == r2,
        _ => a == b,
    }
}

pub open spec fn resolved_pvs(a: Seq<PropValueV>, b: Seq<PropValueV>, m: LookupMode) -> bool {
    a.len() == b.len() && forall|i: int| 0 <= i < a.len() ==> #[trigger] resolved_pv(a[i], b[i], m)
}

pub open spec fn resolved_prop(a: PropertyV, b: PropertyV, m: LookupMode) -> bool {
    a.name == b.name && a.prop_type == b.prop_type && resolved_pvs(a.values, b.values, m)
}

pub open spec fn resolved_props(a: Seq<PropertyV>, b: Seq<PropertyV>, m: LookupMode) -> bool {
    a.len() == b.len() && forall|i: int| 0 <= i < a.len() ==> #[trigger] resolved_prop(a[i], b[i], m)
}

pub open spec fn resolved_el(a: ElementV, b: ElementV, lk: LookupModes) -> bool
    decreases a,
{
    match (a, b) {
        (ElementV::FileLink(m1, s1, r1), ElementV::FileLink(m2, s2, r2)) => resolved_mf(m1, m2, lk.links)
            && s1 == s2 && r1 == r2,
        (ElementV::FileEmbed(m1, s1), ElementV::FileEmbed(m2, s2)) => resolved_mf(m1, m2, lk.embeds)
            && s1 == s2,
        (ElementV::Properties(p1), ElementV::Properties(p2)) => resolved_props(p1, p2, lk.values),
        (ElementV::Frontmatter(p1), ElementV::Frontmatter(p2)) => resolved_props(p1, p2, lk.values),
        (ElementV::Admonition(c1, p1), ElementV::Admonition(c2, p2)) => resolved_all(c1, c2, lk) && p1
            == p2,
        (ElementV::ListElement(d1, p1), ElementV::ListElement(d2, p2)) => resolved_doc(d1, d2, lk) && p1
            == p2,
        (ElementV::List(l1, b1), ElementV::List(l2, b2)) => resolved_les(l1, l2, lk) && b1 == b2,
        _ => a == b,
    }
}

pub open spec fn resolved_all(a: Seq<ComponentV>, b: Seq<ComponentV>, lk: LookupModes) -> bool
    decreases a,
{
    a.len() == b.len() && (a.len() == 0 || (resolved_all(a.drop_last(), b.drop_last(), lk) && resolved_dc(
        a.last(),
        b.last(),
        lk,
    )))
}

pub open spec fn resolved_dc(a: ComponentV, b: ComponentV, lk: LookupModes) -> bool
    decreases a,
{
    resolved_el(a.element, b.element, lk) && resolved_all(a.children, b.children, lk)
}

pub open spec fn resolved_doc(a: DocV, b: DocV, lk: LookupModes) -> bool
    decreases a,
{
    match (a, b) {
        (DocV::Text(c1), DocV::Text(c2)) => resolved_all(c1, c2, lk),
        (DocV::File(c1, p1), DocV::File(c2, p2)) => p1 == p2 && resolved_all(c1, c2, lk),
        _ => false,
    }
}

pub open spec fn resolved_le(a: ListElemV, b: ListElemV, lk: LookupModes) -> bool
    decreases a,
{
    resolved_doc(a.contents, b.contents, lk) && resolved_les(a.children, b.children, lk)
}

pub open spec fn resolved_les(a: Seq<ListElemV>, b: Seq<ListElemV>, lk: LookupModes) -> bool
    decreases a,
{
    a.len() == b.len() && (a.len() == 0 || (resolved_les(a.drop_last(), b.drop_last(), lk) && resolved_le(
        a.last(),
        b.last(),
        lk,
    )))
}

proof fn lemma_resolved_keys_el(a: ElementV, b: ElementV, lk: LookupModes)
    requires
        resolved_el(a, b, lk),
        keys_once_el(a),
    ensures
        keys_once_el(b),
    decreases a,
{
    match (a, b) {
        (ElementV::Admonition(c1, p1), ElementV::Admonition(c2, p2)) => {
            lemma_resolved_keys_all(c1, c2, lk);
        },
        (ElementV::ListElement(d1, p1), ElementV::ListElement(d2, p2)) => {
            lemma_resolved_keys_doc(d1, d2, lk);
        },
        (ElementV::List(l1, b1), ElementV::List(l2, b2)) => {
            lemma_resolved_keys_les(l1, l2, lk);
        },
        _ => {},
    }
}

proof fn lemma_resolved_keys_all(a: Seq<ComponentV>, b: Seq<ComponentV>, lk: LookupModes)
    requires
        resolved_all(a, b, lk),
        keys_once_all(a),
    ensures
        keys_once_all(b),
    decreases a,
{
    if a.len() > 0 {
        lemma_resolved_keys_all(a.drop_last(), b.drop_last(), lk);
        lemma_resolved_keys_dc(a.last(), b.last(), lk);
    }
}

proof fn lemma_resolved_keys_dc(a: ComponentV, b: ComponentV, lk: LookupModes)
    requires
        resolved_dc(a, b, lk),
        keys_once_dc(a),
    ensures
        keys_once_dc(b),
    decreases a,
{
    lemma_resolved_keys_el(a.element, b.element, lk);
    lemma_resolved_keys_all(a.children, b.children, lk);
}

/// Looking up the files a document mentions keeps every admonition's properties as they were.
pub proof fn lemma_resolved_keys_doc(a: DocV, b: DocV, lk: LookupModes)
    requires
        resolved_doc(a, b, lk),
        keys_once_doc(a),
    ensures
        keys_once_doc(b),
    decreases a,
{
    match (a, b) {
        (DocV::Text(c1), DocV::Text(c2)) => lemma_resolved_keys_all(c1, c2, lk),
        (DocV::File(c1, p1), DocV::File(c2, p2)) => lemma_resolved_keys_all(c1, c2, lk),
        _ => {},
    }
}

proof fn lemma_resolved_keys_le(a: ListElemV, b: ListElemV, lk: LookupModes)
    requires
        resolved_le(a, b, lk),
        keys_once_le(a),
    ensures
        keys_once_le(b),
    decreases a,
{
    lemma_resolved_keys_doc(a.contents, b.contents, lk);
    lemma_resolved_keys_les(a.children, b.children, lk);
}

proof fn lemma_resolved_keys_les(a: Seq<ListElemV>, b: Seq<ListElemV>, lk: LookupModes)
    requires
        resolved_les(a, b, lk),
        keys_once_les(a),
    ensures
        keys_once_les(b),
    decreases a,
{
    if a.len() > 0 {
        lemma_resolved_keys_les(a.drop_last(), b.drop_last(), lk);
        lemma_resolved_keys_le(a.last(), b.last(), lk);
    }
}

/// A lookup of this kind asks the disk in a way that can fail: a file name looked up in a
/// directory (a file that exists there or as given must be given its canonical path).
pub open spec fn can_fail_mf(m: MentionedFileV, mode: LookupMode) -> bool {
    mode is InDir && m is FileName
}

pub open spec fn needs_pv(v: PropValueV, mode: LookupMode) -> bool {
    v matches PropValueV::FileLink(m, _, _) && can_fail_mf(m, mode)
}

pub open spec fn needs_props(ps: Seq<PropertyV>, mode: LookupMode) -> bool {
    exists|i: int, j: int|
        0 <= i < ps.len() && 0 <= j < ps[i].values.len() && #[trigger] needs_pv(ps[i].values[j], mode)
}

/// Some mention in the element is looked up on disk in a way that can fail.
pub open spec fn needs_el(e: ElementV, lk: LookupModes) -> bool
    decreases e,
{
    match e {
        ElementV::FileLink(m, _, _) => can_fail_mf(m, lk.links),
        ElementV::FileEmbed(m, _) => can_fail_mf(m, lk.embeds),
        ElementV::Properties(ps) => needs_props(ps, lk.values),
        ElementV::Frontmatter(ps) => needs_props(ps, lk.values),
        ElementV::Admonition(cs, _) => needs_all(cs, lk),
        ElementV::ListElement(d, _) => needs_doc(d, lk),
        ElementV::List(ls, _) => needs_les(ls, lk),
        _ => false,
    }
}

pub open spec fn needs_all(s: Seq<ComponentV>, lk: LookupModes) -> bool
    decreases s,
{
    s.len() > 0 && (needs_all(s.drop_last(), lk) || needs_dc(s.last(), lk))
}

pub open spec fn needs_dc(c: ComponentV, lk: LookupModes) -> bool
    decreases c,
{
    needs_el(c.element, lk) || needs_all(c.children, lk)
}

pub open spec fn needs_doc(d: DocV, lk: LookupModes) -> bool
    decreases d,
{
    match d {
        DocV::Text(cs) => needs_all(cs, lk),
        DocV::File(cs, _) => needs_all(cs, lk),
    }
}

pub open spec fn needs_le(l: ListElemV, lk: LookupModes) -> bool
    decreases l,
{
    needs_doc(l.contents, lk) || needs_les(l.children, lk)
}

pub open spec fn needs_les(s: Seq<ListElemV>, lk: LookupModes) -> bool
    decreases s,
{
    s.len() > 0 && (needs_les(s.drop_last(), lk) || needs_le(s.last(), lk))
}

/// The document mentions a file that is looked up on disk in a way that can fail.
pub open spec fn needs_disk_lookup(d: DocV, lk: LookupModes) -> bool {
    needs_doc(d, lk)
}

proof fn lemma_needs_all_index(s: Seq<ComponentV>, k: int, lk: LookupModes)
    requires
        0 <= k < s.len(),
        needs_dc(s[k], lk),
    ensures
        needs_all(s, lk),
    decreases s.len(),
{
    if k < s.len() - 1 {
        lemma_needs_all_index(s.drop_last(), k, lk);
    }
}

proof fn lemma_needs_les_index(s: Seq<ListElemV>, k: int, lk: LookupModes)
    requires
        0 <= k < s.len(),
        needs_le(s[k], lk),
    ensures
        needs_les(s, lk),
    decreases s.len(),
{
    if k < s.len() - 1 {
        lemma_needs_les_index(s.drop_last(), k, lk);
    }
}

/// What the disk said of a path: `None` where no file is there, `Some(c)` where one is and
/// `c` is what canonicalising it gave (`None` where that failed).
pub open spec fn probe_v(p: Option<Option<String>>) -> Option<Option<Seq<char>>> {
    match p {
        Some(Some(c)) => Some(Some(c@)),
        Some(None) => Some(None),
        None => None,
    }
}

/// The mention a name resolves to, given what the disk says of the name inside the directory
/// and of the name as given: a failure to canonicalise an existing file (inside the directory
/// first) fails; else the file as given wins over the file in the directory; else the name.
pub open spec fn picked(name: Seq<char>, in_dir: Option<Option<Seq<char>>>, as_given: Option<Option<Seq<char>>>) -> Option<MentionedFileV> {
    if in_dir == Some(None::<Seq<char>>) {
        None
    } else if as_given == Some(None::<Seq<char>>) {
        None
    } else {
        match as_given {
            Some(Some(p)) => Some(MentionedFileV::FilePath(p)),
            _ => match in_dir {
                Some(Some(p)) => Some(MentionedFileV::FilePath(p)),
                _ => Some(MentionedFileV::FileName(name)),
            },
        }
    }
}

pub open spec fn result_mf(r: Result<MentionedFile, ParseError>) -> Option<MentionedFileV> {
    match r {
        Ok(m) => Some(m@),
        Err(_) => None,
    }
}

/// The paths a name is looked up at: inside the directory, and as given.
pub fn lookup_paths(name: &String, dir: &str) -> (r: (String, String))
    ensures
        r.0@ == crate::paths::path_join(dir@, name@),
        r.1@ == name@,
{
    (join_path(dir, name.as_str()), name.clone())
}

/// The mention a name resolves to, from what the disk said (see `picked`).
pub fn pick_resolution(name: &String, in_dir: Option<Option<String>>, as_given: Option<Option<String>>) -> (r: Result<MentionedFile, ParseError>)
    ensures
        result_mf(r) == picked(name@, probe_v(in_dir), probe_v(as_given)),
{
    match (in_dir, as_given) {
        (Some(None), _) => Err(ParseError::Unresolved),
        (_, Some(None)) => Err(ParseError::Unresolved),
        (_, Some(Some(p))) => Ok(MentionedFile::FilePath(p)),
        (Some(Some(p)), _) => Ok(MentionedFile::FilePath(p)),
        _ => Ok(MentionedFile::FileName(name.clone())),
    }
}

/// Asks the disk about a path: whether a file is there, and if so its canonical path.
fn probe(p: &str) -> (r: Option<Option<String>>) {
    if path_exists(p) {
        Some(canonical_path(p))
    } else {
        None
    }
}

/// The file a name mentions: found on disk in `dir` or (failing that) as given, by its
/// canonical path; else by its name.
pub fn resolve_name(name: &String, dir: &str) -> (r: Result<MentionedFile, ParseError>)
    ensures
        exists|a: Option<Option<Seq<char>>>, b: Option<Option<Seq<char>>>|
            #[trigger] picked(name@, a, b) == result_mf(r),
{
    let (in_dir_path, as_given_path) = lookup_paths(name, dir);
    let in_dir = probe(in_dir_path.as_str());
    let as_given = probe(as_given_path.as_str());
    let r = pick_resolution(name, in_dir, as_given);
    proof {
        assert(picked(name@, probe_v(in_dir), probe_v(as_given)) == result_mf(r));
    }
    r
}

fn resolve_mf(m: MentionedFile, lk: &Lookup) -> (r: Result<MentionedFile, ParseError>)
    ensures
        r matches Ok(x) ==> resolved_mf(m@, x@, lk.mode()),
        r is Err ==> can_fail_mf(m@, lk.mode()),
        !(lk is InDir) ==> r is Ok,
{
    match lk {
        Lookup::Keep => Ok(m),
        Lookup::InDir(dir) => match m {
            MentionedFile::FileName(n) => {
                let r = resolve_name(&n, dir.as_str());
                proof {
                    if r is Ok {
                        let x = r->Ok_0;
                        let (a, b) = choose|a: Option<Option<Seq<char>>>, b: Option<Option<Seq<char>>>|
                            #[trigger] picked(n@, a, b) == result_mf(r);
                        assert(picked(n@, a, b) == Some(x@));
                    }
                }
                r
            },
            MentionedFile::FilePath(p) => Ok(MentionedFile::FilePath(p)),
        },
        Lookup::AsGiven => match m {
            MentionedFile::FileName(n) => if path_exists(n.as_str()) {
                Ok(MentionedFile::FilePath(n))
            } else {
                Ok(MentionedFile::FileName(n))
            },
            MentionedFile::FilePath(p) => Ok(MentionedFile::FilePath(p)),
        },
    }
}

fn resolve_pv(v: PropValue, lk: &Lookup) -> (r: Result<PropValue, ParseError>)
    ensures
        r matches Ok(x) ==> resolved_pv(v@, x@, lk.mode()),
        r is Err ==> needs_pv(v@, lk.mode()),
        !(lk is InDir) ==> r is Ok,
{
    match v {
        PropValue::FileLink(m, s, n) => match resolve_mf(m, lk) {
            Ok(m2) => Ok(PropValue::FileLink(m2, s, n)),
            Err(x) => Err(x),
        },
        other => Ok(other),
    }
}

fn resolve_props(ps: &Vec<Property>, lk: &Lookup) -> (r: Result<Vec<Property>, ParseError>)
    ensures
        r matches Ok(x) ==> resolved_props(props_v(ps@), props_v(x@), lk.mode()),
        r is Err ==> needs_props(props_v(ps@), lk.mode()),
        !(lk is InDir) ==> r is Ok,
{
    let mut out: Vec<Property> = Vec::new();
    let mut i: usize = 0;
    while i < ps.len()
        invariant
            i <= ps.len(),
            out@.len() == i,
            forall|k: int| 0 <= k < i ==> #[trigger] resolved_prop(ps@[k]@, out@[k]@, lk.mode()),
        decreases ps.len() - i,
    {
        let p = &ps[i];
        let mut vals: Vec<PropValue> = Vec::new();
        let mut j: usize = 0;
        while j < p.values.len()
            invariant
                i < ps.len(),
                *p == ps@[i as int],
                j <= p.values.len(),
                vals@.len() == j,
                forall|k: int| 0 <= k < j ==> #[trigger] resolved_pv(p.values@[k]@, vals@[k]@, lk.mode()),
            decreases p.values.len() - j,
        {
            match resolve_pv(p.values[j].copy(), lk) {
                Ok(v) => {
                    vals.push(v);
                },
                Err(x) => {
                    proof {
                        assert(props_v(ps@)[i as int] == prop_v(ps@[i as int]));
                        assert(props_v(ps@)[i as int].values[j as int] == pv_v(p.values@[j as int]));
                        assert(needs_pv(props_v(ps@)[i as int].values[j as int], lk.mode()));
                    }
                    return Err(x);
                },
            }
            j = j + 1;
        }
        let np = Property { name: p.name.clone(), prop_type: p.prop_type, values: vals };
        proof {
            assert forall|k: int| 0 <= k < p.values@.len() implies #[trigger] resolved_pv(
                pvs_v(p.values@)[k],
                pvs_v(np.values@)[k],
                lk.mode(),
            ) by {
                assert(resolved_pv(p.values@[k]@, vals@[k]@, lk.mode()));
            }
            assert(resolved_prop(p@, np@, lk.mode()));
        }
        out.push(np);
        i = i + 1;
    }
    proof {
        assert forall|k: int| 0 <= k < ps@.len() implies #[trigger] resolved_prop(
            props_v(ps@)[k],
            props_v(out@)[k],
            lk.mode(),
        ) by {
            assert(resolved_prop(ps@[k]@, out@[k]@, lk.mode()));
        }
    }
    Ok(out)
}

fn resolve_el(e: DocumentElement, lk: &Lookups) -> (r: Result<DocumentElement, ParseError>)
    ensures
        r matches Ok(x) ==> resolved_el(e@, x@, lk.modes()),
        r is Err ==> needs_el(e@, lk.modes()),
        lk.dirless() ==> r is Ok,
    decreases e, 0int,
{
    match e {
        DocumentElement::FileLink(m, s, n) => match resolve_mf(m, &lk.links) {
            Ok(m2) => Ok(DocumentElement::FileLink(m2, s, n)),
            Err(x) => Err(x),
        },
        DocumentElement::FileEmbed(m, s) => match resolve_mf(m, &lk.embeds) {
            Ok(m2) => Ok(DocumentElement::FileEmbed(m2, s)),
            Err(x) => Err(x),
        },
        DocumentElement::Properties(ps) => match resolve_props(&ps, &lk.values) {
            Ok(ps2) => Ok(DocumentElement::Properties(ps2)),
            Err(x) => Err(x),
        },
        DocumentElement::Frontmatter(ps) => match resolve_props(&ps, &lk.values) {
            Ok(ps2) => Ok(DocumentElement::Frontmatter(ps2)),
            Err(x) => Err(x),
        },
        DocumentElement::Admonition(cs, p) => match resolve_all(cs, lk) {
            Ok(cs2) => Ok(DocumentElement::Admonition(cs2, p)),
            Err(x) => Err(x),
        },
        DocumentElement::ListElement(pd, p) => match resolve_doc(pd, lk) {
            Ok(pd2) => Ok(DocumentElement::ListElement(pd2, p)),
            Err(x) => Err(x),
        },
        DocumentElement::List(ls, b) => match resolve_les(ls, lk) {
            Ok(ls2) => Ok(DocumentElement::List(ls2, b)),
            Err(x) => Err(x),
        },
        other => Ok(other),
    }
}

fn resolve_dc(c: DocumentComponent, lk: &Lookups) -> (r: Result<DocumentComponent, ParseError>)
    ensures
        r matches Ok(x) ==> resolved_dc(c@, x@, lk.modes()),
        r is Err ==> needs_dc(c@, lk.modes()),
        lk.dirless() ==> r is Ok,
    decreases c, 0int,
{
    let DocumentComponent { element, children } = c;
    match resolve_el(element, lk) {
        Ok(e) => match resolve_all(children, lk) {
            Ok(ch) => Ok(DocumentComponent { element: e, children: ch }),
            Err(x) => Err(x),
        },
        Err(x) => Err(x),
    }
}

fn resolve_all(cs: Vec<DocumentComponent>, lk: &Lookups) -> (r: Result<Vec<DocumentComponent>, ParseError>)
    ensures
        r matches Ok(x) ==> resolved_all(dcs_v(cs@), dcs_v(x@), lk.modes()),
        r is Err ==> needs_all(dcs_v(cs@), lk.modes()),
        lk.dirless() ==> r is Ok,
    decreases cs@, 0int,
{
    let ghost cv = dcs_v(cs@);
    let ghost n = cs@.len();
    let ghost orig = cs@;
    proof {
        lemma_dcs_v_len(cs@);
    }
    let mut rest = crate::md_parsing::reversed(cs);
    let mut out: Vec<DocumentComponent> = Vec::new();
    proof {
        assert(cv.take(0) =~= Seq::<ComponentV>::empty());
        assert(dcs_v(out@) =~= Seq::<ComponentV>::empty());
    }
    while rest.len() > 0
        invariant
            rest@.len() <= n,
            n == orig.len(),
            cv == dcs_v(orig),
            cv.len() == n,
            forall|k: int| 0 <= k < n ==> #[trigger] cv[k] == orig[k]@,
            rest@.reverse() == orig.skip(n - rest@.len()),
            resolved_all(cv.take(n - rest@.len()), dcs_v(out@), lk.modes()),
            orig == cs@,
        decreases rest.len(),
    {
        let ghost k = n - rest@.len();
        let ghost rr = rest@;
        let c = rest.pop().unwrap();
        proof {
            assert(rr.reverse()[0] == orig.skip(k)[0]);
            assert(rr.reverse()[0] == rr.last());
            assert(rest@.reverse() =~= rr.reverse().drop_first());
            assert(orig.skip(k).drop_first() =~= orig.skip(k + 1));
            assert(cv.take(k + 1).drop_last() =~= cv.take(k));
            assert(cv.take(k + 1).last() == c@);
        }
        let ghost cview = c@;
        match resolve_dc(c, lk) {
            Ok(c2) => {
                let ghost o0 = out@;
                out.push(c2);
                proof {
                    assert(out@.drop_last() =~= o0);
                    lemma_dcs_v_len(o0);
                    lemma_dcs_v_len(out@);
                    assert(dcs_v(out@) == dcs_v(o0).push(c2@));
                    assert(dcs_v(out@).drop_last() =~= dcs_v(o0));
                    assert(resolved_all(cv.take(k + 1), dcs_v(out@), lk.modes()));
                }
            },
            Err(x) => {
                proof {
                    assert(cv[k] == cview);
                    lemma_needs_all_index(cv, k, lk.modes());
                }
                return Err(x);
            },
        }
    }
    proof {
        assert(cv.take(n as int) =~= cv);
    }
    Ok(out)
}

fn resolve_doc(pd: ParsedDocument, lk: &Lookups) -> (r: Result<ParsedDocument, ParseError>)
    ensures
        r matches Ok(x) ==> resolved_doc(pd@, x@, lk.modes()),
        r is Err ==> needs_doc(pd@, lk.modes()),
        lk.dirless() ==> r is Ok,
    decreases pd, 0int,
{
    match pd {
        ParsedDocument::ParsedFile(cs, p) => match resolve_all(cs, lk) {
            Ok(cs2) => Ok(ParsedDocument::ParsedFile(cs2, p)),
            Err(x) => Err(x),
        },
        ParsedDocument::ParsedText(cs) => match resolve_all(cs, lk) {
            Ok(cs2) => Ok(ParsedDocument::ParsedText(cs2)),
            Err(x) => Err(x),
        },
    }
}

fn resolve_le(l: ListElem, lk: &Lookups) -> (r: Result<ListElem, ParseError>)
    ensures
        r matches Ok(x) ==> resolved_le(l@, x@, lk.modes()),
        r is Err ==> needs_le(l@, lk.modes()),
        lk.dirless() ==> r is Ok,
    decreases l, 0int,
{
    let ListElem { contents, children } = l;
    match resolve_doc(contents, lk) {
        Ok(c2) => match resolve_les(children, lk) {
            Ok(ch) => Ok(ListElem { contents: c2, children: ch }),
            Err(x) => Err(x),
        },
        Err(x) => Err(x),
    }
}

fn resolve_les(ls: Vec<ListElem>, lk: &Lookups) -> (r: Result<Vec<ListElem>, ParseError>)
    ensures
        r matches Ok(x) ==> resolved_les(les_v(ls@), les_v(x@), lk.modes()),
        r is Err ==> needs_les(les_v(ls@), lk.modes()),
        lk.dirless() ==> r is Ok,
    decreases ls@, 0int,
{
    let ghost lv = les_v(ls@);
    let ghost n = ls@.len();
    let ghost orig = ls@;
    proof {
        lemma_les_v_len(ls@);
    }
    let mut rest = crate::md_parsing::reversed(ls);
    let mut out: Vec<ListElem> = Vec::new();
    proof {
        assert(lv.take(0) =~= Seq::<ListElemV>::empty());
        assert(les_v(out@) =~= Seq::<ListElemV>::empty());
    }
    while rest.len() > 0
        invariant
            rest@.len() <= n,
            n == orig.len(),
            lv == les_v(orig),
            lv.len() == n,
            forall|k: int| 0 <= k < n ==> #[trigger] lv[k] == orig[k]@,
            rest@.reverse() == orig.skip(n - rest@.len()),
            resolved_les(lv.take(n - rest@.len()), les_v(out@), lk.modes()),
            orig == ls@,
        decreases rest.len(),
    {
        let ghost k = n - rest@.len();
        let ghost rr = rest@;
        let l = rest.pop().unwrap();
        proof {
            assert(rr.reverse()[0] == orig.skip(k)[0]);
            assert(rr.reverse()[0] == rr.last());
            assert(rest@.reverse() =~= rr.reverse().drop_first());
            assert(orig.skip(k).drop_first() =~= orig.skip(k + 1));
            assert(lv.take(k + 1).drop_last() =~= lv.take(k));
            assert(lv.take(k + 1).last() == l@);
        }
        let ghost lview = l@;
        match resolve_le(l, lk) {
            Ok(l2) => {
                let ghost o0 = out@;
                out.push(l2);
                proof {
                    assert(out@.drop_last() =~= o0);
                    lemma_les_v_len(o0);
                    lemma_les_v_len(out@);
                    assert(les_v(out@) == les_v(o0).push(l2@));
                    assert(les_v(out@).drop_last() =~= les_v(o0));
                    assert(resolved_les(lv.take(k + 1), les_v(out@), lk.modes()));
                }
            },
            Err(x) => {
                proof {
                    assert(lv[k] == lview);
                    lemma_needs_les_index(lv, k, lk.modes());
                }
                return Err(x);
            },
        }
    }
    proof {
        assert(lv.take(n as int) =~= lv);
    }
    Ok(out)
}

/// The document with the files it mentions looked up as `lk` says for each kind of mention.
/// It fails only where a file name is looked up in a directory (and the disk decides).
pub fn resolve_mentions(pd: ParsedDocument, lk: &Lookups) -> (r: Result<ParsedDocument, ParseError>)
    ensures
        r matches Ok(x) ==> resolved_doc(pd@, x@, lk.modes()),
        r is Err ==> needs_disk_lookup(pd@, lk.modes()),
        lk.dirless() ==> r is Ok,
{
    resolve_doc(pd, lk)
}

} // verus!
