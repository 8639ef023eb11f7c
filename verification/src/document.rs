//! The document model shared by all note formats.
use vstd::prelude::*;

verus! {

/// The note formats the tool reads and writes.
#[derive(Clone, Copy, Debug, PartialEq, Eq, Structural)]
pub enum TextMode {
    Obsidian,
    LogSeq,
    Zk,
}

/// Where a parsed file came from and where its conversion goes.
/// `destination_file`: the file the contents will be written to (`None`: the original file).
/// `image_dirs`: (directory images are read from, directory images are written to).
#[derive(Clone, Debug)]
pub struct FileInfo {
    pub original_file: String,
    pub destination_file: Option<String>,
    pub image_dirs: Option<(String, String)>,
}

/// Errors of the document model.
#[derive(Clone, Copy, Debug, PartialEq, Eq, Structural)]
pub enum DocumentError {
    /// Exactly one of the image input and image output directories was given.
    MixedImageDirs,
}

#[derive(Clone, Debug, PartialEq, Eq)]
pub enum MentionedFile {
    FileName(String),
    FilePath(String),
}

/// How the values of a property are written.
#[derive(Clone, Copy, Debug, PartialEq, Eq, Structural)]
pub enum PropType {
    /// one value: `name ::= value`
    Single,
    /// values in brackets: `name ::= [a, b]`
    CompactList,
    /// one value per line (frontmatter): `name:` followed by `    - a`
    List,
}

#[derive(Clone, Debug, PartialEq, Eq)]
pub struct Property {
    pub name: String,
    pub prop_type: PropType,
    pub values: Vec<PropValue>,
}

#[derive(Clone, Debug, PartialEq, Eq)]
pub enum PropValue {
    String(String),
    /// mentioned file, optional section, optional rename
    FileLink(MentionedFile, Option<String>, Option<String>),
}

#[derive(Debug, PartialEq, Eq)]
pub struct ListElem {
    pub contents: ParsedDocument,
    pub children: Vec<ListElem>,
}

#[derive(Debug, PartialEq, Eq)]
pub enum DocumentElement {
    Heading(u16, String),
    /// file, optional section, optional rename
    FileLink(MentionedFile, Option<String>, Option<String>),
    FileEmbed(MentionedFile, Option<String>),
    Text(String),
    /// inner components, additional properties (the readers give each key once: see
    /// `keys_once_doc`)
    Admonition(Vec<DocumentComponent>, Vec<(String, String)>),
    /// inner text, code type
    CodeBlock(String, Option<String>),
    /// list item, additional properties
    ListElement(ParsedDocument, Vec<(String, String)>),
    /// list elements, terminated by a blank line
    List(Vec<ListElem>, bool),
    Properties(Vec<Property>),
    Frontmatter(Vec<Property>),
}

#[derive(Debug, PartialEq, Eq)]
pub struct DocumentComponent {
    pub element: DocumentElement,
    pub children: Vec<DocumentComponent>,
}

#[derive(Debug, PartialEq, Eq)]
pub enum ParsedDocument {
    ParsedFile(Vec<DocumentComponent>, String),
    ParsedText(Vec<DocumentComponent>),
}

// ---------------------------------------------------------------------------
// The mathematical model (view) of the document types.
pub enum MentionedFileV {
    FileName(Seq<char>),
    FilePath(Seq<char>),
}

pub enum PropValueV {
    Str(Seq<char>),
    FileLink(MentionedFileV, Option<Seq<char>>, Option<Seq<char>>),
}

pub struct PropertyV {
    pub name: Seq<char>,
    pub prop_type: PropType,
    pub values: Seq<PropValueV>,
}

pub struct ListElemV {
    pub contents: DocV,
    pub children: Seq<ListElemV>,
}

pub enum ElementV {
    Heading(u16, Seq<char>),
    FileLink(MentionedFileV, Option<Seq<char>>, Option<Seq<char>>),
    FileEmbed(MentionedFileV, Option<Seq<char>>),
    Text(Seq<char>),
    Admonition(Seq<ComponentV>, Seq<(Seq<char>, Seq<char>)>),
    CodeBlock(Seq<char>, Option<Seq<char>>),
    ListElement(DocV, Seq<(Seq<char>, Seq<char>)>),
    List(Seq<ListElemV>, bool),
    Properties(Seq<PropertyV>),
    Frontmatter(Seq<PropertyV>),
}

pub struct ComponentV {
    pub element: ElementV,
    pub children: Seq<ComponentV>,
}

pub enum DocV {
    File(Seq<ComponentV>, Seq<char>),
    Text(Seq<ComponentV>),
}

pub open spec fn opt_v(o: Option<String>) -> Option<Seq<char>> {
    match o {
        Some(s) => Some(s@),
        None => None,
    }
}

pub open spec fn pair_v(p: (String, String)) -> (Seq<char>, Seq<char>) {
    (p.0@, p.1@)
}

pub open spec fn pairs_v(s: Seq<(String, String)>) -> Seq<(Seq<char>, Seq<char>)> {
    s.map_values(|p: (String, String)| pair_v(p))
}

pub open spec fn mf_v(m: MentionedFile) -> MentionedFileV {
    match m {
        MentionedFile::FileName(n) => MentionedFileV::FileName(n@),
        MentionedFile::FilePath(p) => MentionedFileV::FilePath(p@),
    }
}

pub open spec fn pv_v(v: PropValue) -> PropValueV {
    match v {
        PropValue::String(s) => PropValueV::Str(s@),
        PropValue::FileLink(m, s, r) => PropValueV::FileLink(mf_v(m), opt_v(s), opt_v(r)),
    }
}

/// Each key occurs at most once among the pairs.
pub open spec fn keys_once(props: Seq<(Seq<char>, Seq<char>)>) -> bool {
    forall|i: int, j: int| 0 <= i < j < props.len() ==> #[trigger] props[i].0 != #[trigger] props[j].0
}

/// Every admonition in the element (at any depth) gives each property key once.
pub open spec fn keys_once_el(e: ElementV) -> bool
    decreases e,
{
    match e {
        ElementV::Admonition(cs, p) => keys_once(p) && keys_once_all(cs),
        ElementV::ListElement(d, _) => keys_once_doc(d),
        ElementV::List(ls, _) => keys_once_les(ls),
        _ => true,
    }
}

/// Every admonition among the components gives each property key once.
pub open spec fn keys_once_all(cs: Seq<ComponentV>) -> bool
    decreases cs,
{
    cs.len() == 0 || (keys_once_all(cs.drop_last()) && keys_once_dc(cs.last()))
}

pub open spec fn keys_once_dc(c: ComponentV) -> bool
    decreases c,
{
    keys_once_el(c.element) && keys_once_all(c.children)
}

pub open spec fn keys_once_doc(d: DocV) -> bool
    decreases d,
{
    match d {
        DocV::File(cs, _) => keys_once_all(cs),
        DocV::Text(cs) => keys_once_all(cs),
    }
}

pub open spec fn keys_once_le(l: ListElemV) -> bool
    decreases l,
{
    keys_once_doc(l.contents) && keys_once_les(l.children)
}

pub open spec fn keys_once_les(ls: Seq<ListElemV>) -> bool
    decreases ls,
{
    ls.len() == 0 || (keys_once_les(ls.drop_last()) && keys_once_le(ls.last()))
}

pub proof fn lemma_keys_once_all(cs: Seq<ComponentV>)
    ensures
        keys_once_all(cs) <==> forall|i: int| 0 <= i < cs.len() ==> #[trigger] keys_once_dc(cs[i]),
    decreases cs.len(),
{
    if cs.len() > 0 {
        lemma_keys_once_all(cs.drop_last());
        if forall|i: int| 0 <= i < cs.len() ==> #[trigger] keys_once_dc(cs[i]) {
            assert forall|i: int| 0 <= i < cs.drop_last().len() implies #[trigger] keys_once_dc(cs.drop_last()[i]) by {
                assert(cs.drop_last()[i] == cs[i]);
            }
            assert(keys_once_dc(cs[cs.len() - 1]));
        }
        if keys_once_all(cs) {
            assert forall|i: int| 0 <= i < cs.len() implies #[trigger] keys_once_dc(cs[i]) by {
                if i < cs.len() - 1 {
                    assert(cs.drop_last()[i] == cs[i]);
                }
            }
        }
    }
}

pub proof fn lemma_keys_once_push(cs: Seq<ComponentV>, c: ComponentV)
    requires
        keys_once_all(cs),
        keys_once_dc(c),
    ensures
        keys_once_all(cs.push(c)),
{
    assert(cs.push(c).drop_last() =~= cs);
}

pub proof fn lemma_keys_once_concat(a: Seq<ComponentV>, b: Seq<ComponentV>)
    requires
        keys_once_all(a),
        keys_once_all(b),
    ensures
        keys_once_all(a + b),
{
    lemma_keys_once_all(a);
    lemma_keys_once_all(b);
    lemma_keys_once_all(a + b);
    assert forall|i: int| 0 <= i < (a + b).len() implies #[trigger] keys_once_dc((a + b)[i]) by {
        if i < a.len() {
            assert((a + b)[i] == a[i]);
        } else {
            assert((a + b)[i] == b[i - a.len()]);
        }
    }
}

/// A component without children whose element holds no admonition.
pub proof fn lemma_keys_once_plain(e: ElementV)
    requires
        !(e is Admonition) && !(e is ListElement) && !(e is List),
    ensures
        keys_once_dc(ComponentV { element: e, children: Seq::empty() }),
{
    assert(keys_once_all(Seq::<ComponentV>::empty()));
}

pub proof fn lemma_keys_once_les(ls: Seq<ListElemV>)
    ensures
        keys_once_les(ls) <==> forall|i: int| 0 <= i < ls.len() ==> #[trigger] keys_once_le(ls[i]),
    decreases ls.len(),
{
    if ls.len() > 0 {
        lemma_keys_once_les(ls.drop_last());
        if forall|i: int| 0 <= i < ls.len() ==> #[trigger] keys_once_le(ls[i]) {
            assert forall|i: int| 0 <= i < ls.drop_last().len() implies #[trigger] keys_once_le(ls.drop_last()[i]) by {
                assert(ls.drop_last()[i] == ls[i]);
            }
            assert(keys_once_le(ls[ls.len() - 1]));
        }
        if keys_once_les(ls) {
            assert forall|i: int| 0 <= i < ls.len() implies #[trigger] keys_once_le(ls[i]) by {
                if i < ls.len() - 1 {
                    assert(ls.drop_last()[i] == ls[i]);
                }
            }
        }
    }
}

pub open spec fn pvs_v(s: Seq<PropValue>) -> Seq<PropValueV> {
    s.map_values(|v: PropValue| pv_v(v))
}

pub open spec fn prop_v(p: Property) -> PropertyV {
    PropertyV { name: p.name@, prop_type: p.prop_type, values: pvs_v(p.values@) }
}

pub open spec fn props_v(s: Seq<Property>) -> Seq<PropertyV> {
    s.map_values(|p: Property| prop_v(p))
}

pub open spec fn dcs_v(s: Seq<DocumentComponent>) -> Seq<ComponentV>
    decreases s,
{
    if s.len() == 0 {
        Seq::empty()
    } else {
        dcs_v(s.drop_last()).push(dc_v(s.last()))
    }
}

pub open spec fn les_v(s: Seq<ListElem>) -> Seq<ListElemV>
    decreases s,
{
    if s.len() == 0 {
        Seq::empty()
    } else {
        les_v(s.drop_last()).push(le_v(s.last()))
    }
}

pub open spec fn dc_v(c: DocumentComponent) -> ComponentV
    decreases c,
{
    ComponentV { element: el_v(c.element), children: dcs_v(c.children@) }
}

pub open spec fn le_v(l: ListElem) -> ListElemV
    decreases l,
{
    ListElemV { contents: pd_v(l.contents), children: les_v(l.children@) }
}

pub open spec fn pd_v(pd: ParsedDocument) -> DocV
    decreases pd,
{
    match pd {
        ParsedDocument::ParsedFile(c, p) => DocV::File(dcs_v(c@), p@),
        ParsedDocument::ParsedText(c) => DocV::Text(dcs_v(c@)),
    }
}

pub open spec fn el_v(e: DocumentElement) -> ElementV
    decreases e,
{
    match e {
        DocumentElement::Heading(l, t) => ElementV::Heading(l, t@),
        DocumentElement::FileLink(m, s, r) => ElementV::FileLink(mf_v(m), opt_v(s), opt_v(r)),
        DocumentElement::FileEmbed(m, s) => ElementV::FileEmbed(mf_v(m), opt_v(s)),
        DocumentElement::Text(t) => ElementV::Text(t@),
        DocumentElement::Admonition(c, p) => ElementV::Admonition(dcs_v(c@), pairs_v(p@)),
        DocumentElement::CodeBlock(t, ct) => ElementV::CodeBlock(t@, opt_v(ct)),
        DocumentElement::ListElement(pd, p) => ElementV::ListElement(pd_v(pd), pairs_v(p@)),
        DocumentElement::List(l, b) => ElementV::List(les_v(l@), b),
        DocumentElement::Properties(p) => ElementV::Properties(props_v(p@)),
        DocumentElement::Frontmatter(p) => ElementV::Frontmatter(props_v(p@)),
    }
}

impl View for MentionedFile {
    type V = MentionedFileV;

    open spec fn view(&self) -> MentionedFileV {
        mf_v(*self)
    }
}

impl View for PropValue {
    type V = PropValueV;

    open spec fn view(&self) -> PropValueV {
        pv_v(*self)
    }
}

impl View for Property {
    type V = PropertyV;

    open spec fn view(&self) -> PropertyV {
        prop_v(*self)
    }
}

impl View for ListElem {
    type V = ListElemV;

    open spec fn view(&self) -> ListElemV {
        le_v(*self)
    }
}

impl View for DocumentElement {
    type V = ElementV;

    open spec fn view(&self) -> ElementV {
        el_v(*self)
    }
}

impl View for DocumentComponent {
    type V = ComponentV;

    open spec fn view(&self) -> ComponentV {
        dc_v(*self)
    }
}

impl View for ParsedDocument {
    type V = DocV;

    open spec fn view(&self) -> DocV {
        pd_v(*self)
    }
}

pub open spec fn pd_comps(pd: ParsedDocument) -> Seq<DocumentComponent> {
    match pd {
        ParsedDocument::ParsedFile(c, _) => c@,
        ParsedDocument::ParsedText(c) => c@,
    }
}

impl FileInfo {
    /// Some(original file, destination file, image input dir, image output dir) if all are set.
    pub fn get_all(&self) -> (r: Option<(String, String, String, String)>)
        ensures
            match (self.destination_file, self.image_dirs) {
                (Some(d), Some((i, o))) => r matches Some((a, b, c, e)) && a@ == self.original_file@
                    && b@ == d@ && c@ == i@ && e@ == o@,
                _ => r is None,
            },
    {
        match (&self.destination_file, &self.image_dirs) {
            (Some(dest), Some((image_in, image_out))) => Some(
                (self.original_file.clone(), dest.clone(), image_in.clone(), image_out.clone()),
            ),
            _ => None,
        }
    }

    /// Info for a file that is written back to where it was read from.
    pub fn new_same_file(file: String) -> (r: Self)
        ensures
            r.original_file == file,
            r.destination_file is None,
            r.image_dirs is None,
    {
        FileInfo { original_file: file, destination_file: None, image_dirs: None }
    }

    pub fn new(
        original_file: String,
        destination_file: Option<String>,
        image_dirs: Option<(String, String)>,
    ) -> (r: Self)
        ensures
            r.original_file == original_file,
            r.destination_file == destination_file,
            r.image_dirs == image_dirs,
    {
        FileInfo { original_file, destination_file, image_dirs }
    }

    /// The image directories must be given both or neither.
    pub fn try_new(
        original_file: String,
        destination_file: Option<String>,
        image_in_dir: Option<String>,
        image_out_dir: Option<String>,
    ) -> (r: Result<Self, DocumentError>)
        ensures
            (image_in_dir is Some) != (image_out_dir is Some) <==> r == Err::<Self, DocumentError>(
                DocumentError::MixedImageDirs,
            ),
            r matches Ok(f) ==> f.original_file == original_file && f.destination_file
                == destination_file && f.image_dirs == (match (image_in_dir, image_out_dir) {
                (Some(i), Some(o)) => Some((i, o)),
                _ => None,
            }),
    {
        match (image_in_dir, image_out_dir) {
            (Some(image_in), Some(image_out)) => Ok(
                FileInfo { original_file, destination_file, image_dirs: Some((image_in, image_out)) },
            ),
            (None, None) => Ok(FileInfo { original_file, destination_file, image_dirs: None }),
            _ => Err(DocumentError::MixedImageDirs),
        }
    }
}

// ---------------------------------------------------------------------------
// Copies whose result Verus knows (a derived `clone` says nothing of its result).
pub fn copy_string(s: &String) -> (r: String)
    ensures
        r == *s,
{
    s.clone()
}

pub fn copy_opt_string(s: &Option<String>) -> (r: Option<String>)
    ensures
        r == *s,
{
    match s {
        Some(x) => Some(x.clone()),
        None => None,
    }
}

pub fn copy_pairs(v: &Vec<(String, String)>) -> (r: Vec<(String, String)>)
    ensures
        r@ == v@,
{
    let mut r: Vec<(String, String)> = Vec::new();
    let mut i: usize = 0;
    while i < v.len()
        invariant
            i <= v.len(),
            r@ == v@.take(i as int),
        decreases v.len() - i,
    {
        let (a, b) = &v[i];
        r.push((a.clone(), b.clone()));
        proof {
            assert(v@.take(i + 1) == v@.take(i as int).push(v@[i as int]));
        }
        i = i + 1;
    }
    proof {
        assert(v@.take(v.len() as int) == v@);
    }
    r
}

impl MentionedFile {
    pub fn copy(&self) -> (r: Self)
        ensures
            r == *self,
    {
        match self {
            MentionedFile::FileName(n) => MentionedFile::FileName(n.clone()),
            MentionedFile::FilePath(p) => MentionedFile::FilePath(p.clone()),
        }
    }

    pub open spec fn display(self) -> Seq<char> {
        match self {
            MentionedFile::FileName(n) => n@,
            MentionedFile::FilePath(p) => p@,
        }
    }

    /// The text `Display` gives for a mentioned file: the name or the path.
    pub fn to_display(&self) -> (r: String)
        ensures
            r@ == self.display(),
    {
        match self {
            MentionedFile::FileName(n) => n.clone(),
            MentionedFile::FilePath(p) => p.clone(),
        }
    }

    /// Equality of mentioned files.
    pub fn same(&self, other: &MentionedFile) -> (r: bool)
        ensures
            r == (self@ == other@),
    {
        match (self, other) {
            (MentionedFile::FileName(a), MentionedFile::FileName(b)) => *a == *b,
            (MentionedFile::FilePath(a), MentionedFile::FilePath(b)) => *a == *b,
            _ => false,
        }
    }
}

pub fn same_opt_string(a: &Option<String>, b: &Option<String>) -> (r: bool)
    ensures
        r == (opt_v(*a) == opt_v(*b)),
{
    match (a, b) {
        (Some(x), Some(y)) => *x == *y,
        (None, None) => true,
        _ => false,
    }
}

impl PropValue {
    pub fn copy(&self) -> (r: Self)
        ensures
            r == *self,
    {
        match self {
            PropValue::String(s) => PropValue::String(s.clone()),
            PropValue::FileLink(mf, sec, ren) => PropValue::FileLink(
                mf.copy(),
                copy_opt_string(sec),
                copy_opt_string(ren),
            ),
        }
    }

    /// Equality of property values.
    pub fn same(&self, other: &PropValue) -> (r: bool)
        ensures
            r == (self@ == other@),
    {
        match (self, other) {
            (PropValue::String(a), PropValue::String(b)) => *a == *b,
            (PropValue::FileLink(m1, s1, r1), PropValue::FileLink(m2, s2, r2)) => m1.same(m2)
                && same_opt_string(s1, s2) && same_opt_string(r1, r2),
            _ => false,
        }
    }
}

pub fn copy_prop_values(v: &[PropValue]) -> (r: Vec<PropValue>)
    ensures
        r@ == v@,
{
    let mut r: Vec<PropValue> = Vec::new();
    let mut i: usize = 0;
    while i < v.len()
        invariant
            i <= v.len(),
            r@ == v@.take(i as int),
        decreases v.len() - i,
    {
        r.push(v[i].copy());
        proof {
            assert(v@.take(i + 1) == v@.take(i as int).push(v@[i as int]));
        }
        i = i + 1;
    }
    proof {
        assert(v@.take(v.len() as int) == v@);
    }
    r
}

impl Property {
    pub fn copy(&self) -> (r: Self)
        ensures
            r@ == self@,
    {
        let values = copy_prop_values(&self.values);
        Property { name: self.name.clone(), prop_type: self.prop_type, values }
    }

    pub fn new(name: String, prop_type: PropType, values: Vec<PropValue>) -> (r: Self)
        ensures
            r.name == name,
            r.prop_type == prop_type,
            r.values == values,
    {
        Property { name, prop_type, values }
    }

    pub fn has_name(&self, name: &str) -> (r: bool)
        ensures
            r == (self.name@ == name@),
    {
        crate::text::eq_str(&crate::text::chars_of(self.name.as_str()), name)
    }

    pub fn has_value(&self, value: &PropValue) -> (r: bool)
        ensures
            r == self@.values.contains(value@),
    {
        let mut i: usize = 0;
        while i < self.values.len()
            invariant
                i <= self.values.len(),
                forall|k: int| 0 <= k < i ==> self@.values[k] != value@,
            decreases self.values.len() - i,
        {
            if self.values[i].same(value) {
                proof {
                    assert(self@.values[i as int] == value@);
                }
                return true;
            }
            i = i + 1;
        }
        proof {
            if self@.values.contains(value@) {
                let k = choose|k: int| 0 <= k < self@.values.len() && self@.values[k] == value@;
                assert(self@.values[k] != value@);
            }
        }
        false
    }

    /// Adds each of `values` that the property does not hold yet, in order.
    pub fn add_values(&mut self, values: &[PropValue])
        ensures
            final(self).name == old(self).name,
            final(self).prop_type == old(self).prop_type,
            final(self)@.values == add_missing(old(self)@.values, pvs_v(values@)),
    {
        let mut i: usize = 0;
        while i < values.len()
            invariant
                i <= values.len(),
                self.name == old(self).name,
                self.prop_type == old(self).prop_type,
                self@.values == add_missing(old(self)@.values, pvs_v(values@.take(i as int))),
            decreases values.len() - i,
        {
            proof {
                assert(pvs_v(values@.take(i + 1)).drop_last() =~= pvs_v(values@.take(i as int)));
                assert(pvs_v(values@.take(i + 1)).last() == values@[i as int]@);
            }
            if !self.has_value(&values[i]) {
                let ghost before = self.values@;
                self.values.push(values[i].copy());
                proof {
                    assert(pvs_v(self.values@) =~= pvs_v(before).push(values@[i as int]@));
                }
            }
            i = i + 1;
        }
        proof {
            assert(values@.take(values.len() as int) =~= values@);
        }
    }
}

/// `old` followed by each of `add` that is not in what came before it.
pub open spec fn add_missing(old: Seq<PropValueV>, add: Seq<PropValueV>) -> Seq<PropValueV>
    decreases add.len(),
{
    if add.len() == 0 {
        old
    } else {
        let prev = add_missing(old, add.drop_last());
        if prev.contains(add.last()) {
            prev
        } else {
            prev.push(add.last())
        }
    }
}

/// No value occurs twice.
pub open spec fn no_dups(s: Seq<PropValueV>) -> bool {
    forall|i: int, j: int| 0 <= i < j < s.len() ==> s[i] != s[j]
}

/// Adding values keeps the old ones in front, in order; every added value is then held; nothing
/// else is added; and no value comes to be held twice.
pub proof fn add_values_law(old: Seq<PropValueV>, add: Seq<PropValueV>)
    ensures
        add_missing(old, add).len() >= old.len(),
        add_missing(old, add).take(old.len() as int) == old,
        forall|x: PropValueV| #[trigger] add.contains(x) ==> add_missing(old, add).contains(x),
        forall|x: PropValueV| #[trigger] add_missing(old, add).contains(x) ==> old.contains(x) || add.contains(x),
        no_dups(old) ==> no_dups(add_missing(old, add)),
    decreases add.len(),
{
    if add.len() > 0 {
        let prev = add_missing(old, add.drop_last());
        add_values_law(old, add.drop_last());
        let r = add_missing(old, add);
        assert forall|x: PropValueV| add.contains(x) implies r.contains(x) by {
            let k = choose|k: int| 0 <= k < add.len() && add[k] == x;
            if k < add.len() - 1 {
                assert(add.drop_last()[k] == x);
                assert(add.drop_last().contains(x));
                assert(prev.contains(x));
                let m = choose|m: int| 0 <= m < prev.len() && prev[m] == x;
                if !prev.contains(add.last()) {
                    assert(r[m] == x);
                }
            } else {
                if !prev.contains(add.last()) {
                    assert(r[prev.len() as int] == x);
                }
            }
        }
        assert forall|x: PropValueV| #[trigger] r.contains(x) implies old.contains(x) || add.contains(x) by {
            let m = choose|m: int| 0 <= m < r.len() && r[m] == x;
            if m < prev.len() {
                assert(prev[m] == x);
                assert(prev.contains(x));
                if add.drop_last().contains(x) {
                    let k = choose|k: int| 0 <= k < add.drop_last().len() && add.drop_last()[k] == x;
                    assert(add[k] == x);
                }
            } else {
                assert(add[add.len() - 1] == x);
            }
        }
        if !prev.contains(add.last()) {
            assert(r.take(old.len() as int) =~= prev.take(old.len() as int));
        }
    } else {
        assert(old.take(old.len() as int) =~= old);
    }
}

proof fn lemma_add_missing_contained(old: Seq<PropValueV>, add: Seq<PropValueV>)
    requires
        forall|i: int| 0 <= i < add.len() ==> old.contains(#[trigger] add[i]),
    ensures
        add_missing(old, add) == old,
    decreases add.len(),
{
    if add.len() > 0 {
        lemma_add_missing_contained(old, add.drop_last());
        assert(old.contains(add[add.len() - 1]));
    }
}

/// Adding the same values a second time changes nothing.
pub proof fn add_values_idempotent(old: Seq<PropValueV>, add: Seq<PropValueV>)
    ensures
        add_missing(add_missing(old, add), add) == add_missing(old, add),
{
    add_values_law(old, add);
    let r = add_missing(old, add);
    assert forall|i: int| 0 <= i < add.len() implies r.contains(#[trigger] add[i]) by {
        assert(add.contains(add[i]));
    }
    lemma_add_missing_contained(r, add);
}

pub fn copy_properties(v: &Vec<Property>) -> (r: Vec<Property>)
    ensures
        props_v(r@) == props_v(v@),
{
    let mut r: Vec<Property> = Vec::new();
    let mut i: usize = 0;
    while i < v.len()
        invariant
            i <= v.len(),
            props_v(r@) == props_v(v@.take(i as int)),
        decreases v.len() - i,
    {
        let ghost before = r@;
        r.push(v[i].copy());
        proof {
            assert(props_v(r@) =~= props_v(before).push(v@[i as int]@));
            assert(props_v(v@.take(i + 1)) =~= props_v(v@.take(i as int)).push(v@[i as int]@));
        }
        i = i + 1;
    }
    proof {
        assert(v@.take(v.len() as int) =~= v@);
    }
    r
}

} // verus!

verus! {

pub fn copy_dcs(v: &Vec<DocumentComponent>) -> (r: Vec<DocumentComponent>)
    ensures
        dcs_v(r@) == dcs_v(v@),
    decreases v@, 0int,
{
    let mut r: Vec<DocumentComponent> = Vec::new();
    let mut i: usize = 0;
    while i < v.len()
        invariant
            i <= v.len(),
            dcs_v(r@) == dcs_v(v@.take(i as int)),
        decreases v.len() - i,
    {
        let ghost before = r@;
        let c = copy_dc(&v[i]);
        r.push(c);
        proof {
            assert(r@.drop_last() =~= before);
            assert(v@.take(i + 1).drop_last() =~= v@.take(i as int));
        }
        i = i + 1;
    }
    proof {
        assert(v@.take(v.len() as int) =~= v@);
    }
    r
}

pub fn copy_les(v: &Vec<ListElem>) -> (r: Vec<ListElem>)
    ensures
        les_v(r@) == les_v(v@),
    decreases v@, 0int,
{
    let mut r: Vec<ListElem> = Vec::new();
    let mut i: usize = 0;
    while i < v.len()
        invariant
            i <= v.len(),
            les_v(r@) == les_v(v@.take(i as int)),
        decreases v.len() - i,
    {
        let ghost before = r@;
        let c = copy_le(&v[i]);
        r.push(c);
        proof {
            assert(r@.drop_last() =~= before);
            assert(v@.take(i + 1).drop_last() =~= v@.take(i as int));
        }
        i = i + 1;
    }
    proof {
        assert(v@.take(v.len() as int) =~= v@);
    }
    r
}

pub fn copy_dc(c: &DocumentComponent) -> (r: DocumentComponent)
    ensures
        r@ == c@,
    decreases c, 0int,
{
    DocumentComponent { element: copy_el(&c.element), children: copy_dcs(&c.children) }
}

pub fn copy_le(l: &ListElem) -> (r: ListElem)
    ensures
        r@ == l@,
    decreases l, 0int,
{
    ListElem { contents: copy_pd(&l.contents), children: copy_les(&l.children) }
}

pub fn copy_pd(pd: &ParsedDocument) -> (r: ParsedDocument)
    ensures
        r@ == pd@,
    decreases pd, 0int,
{
    match pd {
        ParsedDocument::ParsedFile(c, p) => ParsedDocument::ParsedFile(copy_dcs(c), p.clone()),
        ParsedDocument::ParsedText(c) => ParsedDocument::ParsedText(copy_dcs(c)),
    }
}

pub fn copy_el(e: &DocumentElement) -> (r: DocumentElement)
    ensures
        r@ == e@,
    decreases e, 0int,
{
    match e {
        DocumentElement::Heading(l, t) => DocumentElement::Heading(*l, t.clone()),
        DocumentElement::FileLink(m, s, r) => DocumentElement::FileLink(
            m.copy(),
            copy_opt_string(s),
            copy_opt_string(r),
        ),
        DocumentElement::FileEmbed(m, s) => DocumentElement::FileEmbed(m.copy(), copy_opt_string(s)),
        DocumentElement::Text(t) => DocumentElement::Text(t.clone()),
        DocumentElement::Admonition(c, p) => DocumentElement::Admonition(copy_dcs(c), copy_pairs(p)),
        DocumentElement::CodeBlock(t, ct) => DocumentElement::CodeBlock(t.clone(), copy_opt_string(ct)),
        DocumentElement::ListElement(pd, p) => DocumentElement::ListElement(copy_pd(pd), copy_pairs(p)),
        DocumentElement::List(l, b) => DocumentElement::List(copy_les(l), *b),
        DocumentElement::Properties(p) => DocumentElement::Properties(copy_properties(p)),
        DocumentElement::Frontmatter(p) => DocumentElement::Frontmatter(copy_properties(p)),
    }
}

impl Clone for DocumentComponent {
    fn clone(&self) -> (r: Self)
        ensures
            r@ == self@,
    {
        copy_dc(self)
    }
}

impl Clone for ListElem {
    fn clone(&self) -> (r: Self)
        ensures
            r@ == self@,
    {
        copy_le(self)
    }
}

impl Clone for ParsedDocument {
    fn clone(&self) -> (r: Self)
        ensures
            r@ == self@,
    {
        copy_pd(self)
    }
}

impl Clone for DocumentElement {
    fn clone(&self) -> (r: Self)
        ensures
            r@ == self@,
    {
        copy_el(self)
    }
}

} // verus!

verus! {

pub open spec fn docv_comps(d: DocV) -> Seq<ComponentV> {
    match d {
        DocV::File(c, _) => c,
        DocV::Text(c) => c,
    }
}

pub proof fn lemma_dcs_v_add(a: Seq<DocumentComponent>, b: Seq<DocumentComponent>)
    ensures
        dcs_v(a + b) == dcs_v(a) + dcs_v(b),
    decreases b.len(),
{
    if b.len() == 0 {
        assert(a + b =~= a);
        assert(dcs_v(b) =~= Seq::<ComponentV>::empty());
        assert(dcs_v(a) + dcs_v(b) =~= dcs_v(a));
    } else {
        lemma_dcs_v_add(a, b.drop_last());
        assert((a + b).drop_last() =~= a + b.drop_last());
        assert((a + b).last() == b.last());
        assert(dcs_v(a) + dcs_v(b) =~= (dcs_v(a) + dcs_v(b.drop_last())).push(dc_v(b.last())));
    }
}

pub proof fn lemma_dcs_v_index(s: Seq<DocumentComponent>, i: int)
    requires
        0 <= i < s.len(),
    ensures
        dcs_v(s)[i] == s[i]@,
        dcs_v(s).len() == s.len(),
    decreases s.len(),
{
    lemma_dcs_v_len(s);
    if i < s.len() - 1 {
        lemma_dcs_v_index(s.drop_last(), i);
    }
}

pub proof fn lemma_dcs_v_update(s: Seq<DocumentComponent>, i: int, c: DocumentComponent)
    requires
        0 <= i < s.len(),
    ensures
        dcs_v(s.update(i, c)) == dcs_v(s).update(i, c@),
{
    lemma_dcs_v_len(s);
    lemma_dcs_v_len(s.update(i, c));
    assert forall|k: int| 0 <= k < s.len() implies dcs_v(s.update(i, c))[k] == dcs_v(s).update(i, c@)[k] by {
        lemma_dcs_v_index(s.update(i, c), k);
        lemma_dcs_v_index(s, k);
    }
    assert(dcs_v(s.update(i, c)) =~= dcs_v(s).update(i, c@));
}

pub proof fn lemma_les_v_index(s: Seq<ListElem>, i: int)
    requires
        0 <= i < s.len(),
    ensures
        les_v(s)[i] == s[i]@,
        les_v(s).len() == s.len(),
    decreases s.len(),
{
    lemma_les_v_len(s);
    if i < s.len() - 1 {
        lemma_les_v_index(s.drop_last(), i);
    }
}

pub proof fn lemma_les_v_update(s: Seq<ListElem>, i: int, l: ListElem)
    requires
        0 <= i < s.len(),
    ensures
        les_v(s.update(i, l)) == les_v(s).update(i, l@),
{
    lemma_les_v_len(s);
    lemma_les_v_len(s.update(i, l));
    assert forall|k: int| 0 <= k < s.len() implies les_v(s.update(i, l))[k] == les_v(s).update(i, l@)[k] by {
        lemma_les_v_index(s.update(i, l), k);
        lemma_les_v_index(s, k);
    }
    assert(les_v(s.update(i, l)) =~= les_v(s).update(i, l@));
}

/// Adding a component to a document adds its view to the document's view.
pub proof fn lemma_pd_push_v(pd: ParsedDocument, c: DocumentComponent)
    ensures
        forall|pd2: ParsedDocument|
            pd_comps(pd2) == pd_comps(pd).push(c) && (match (pd, pd2) {
                (ParsedDocument::ParsedFile(_, p), ParsedDocument::ParsedFile(_, q)) => p == q,
                (ParsedDocument::ParsedText(_), ParsedDocument::ParsedText(_)) => true,
                _ => false,
            }) ==> #[trigger] pd_v(pd2) == match pd_v(pd) {
                DocV::File(cs, p) => DocV::File(cs.push(c@), p),
                DocV::Text(cs) => DocV::Text(cs.push(c@)),
            },
{
    assert forall|pd2: ParsedDocument|
        pd_comps(pd2) == pd_comps(pd).push(c) && (match (pd, pd2) {
            (ParsedDocument::ParsedFile(_, p), ParsedDocument::ParsedFile(_, q)) => p == q,
            (ParsedDocument::ParsedText(_), ParsedDocument::ParsedText(_)) => true,
            _ => false,
        }) implies #[trigger] pd_v(pd2) == match pd_v(pd) {
            DocV::File(cs, p) => DocV::File(cs.push(c@), p),
            DocV::Text(cs) => DocV::Text(cs.push(c@)),
        } by {
        assert(pd_comps(pd2).drop_last() =~= pd_comps(pd));
    }
}

pub proof fn lemma_dcs_v_len(a: Seq<DocumentComponent>)
    ensures
        dcs_v(a).len() == a.len(),
        forall|i: int| 0 <= i < a.len() ==> #[trigger] dcs_v(a)[i] == dc_v(a[i]),
    decreases a.len(),
{
    if a.len() > 0 {
        lemma_dcs_v_len(a.drop_last());
    }
}

pub proof fn lemma_les_v_len(a: Seq<ListElem>)
    ensures
        les_v(a).len() == a.len(),
        forall|i: int| 0 <= i < a.len() ==> #[trigger] les_v(a)[i] == le_v(a[i]),
    decreases a.len(),
{
    if a.len() > 0 {
        lemma_les_v_len(a.drop_last());
    }
}

pub proof fn lemma_pd_v_comps(pd: ParsedDocument)
    ensures
        docv_comps(pd_v(pd)) == dcs_v(pd_comps(pd)),
{
}

impl ParsedDocument {
    pub fn components(&self) -> (r: &Vec<DocumentComponent>)
        ensures
            r@ == pd_comps(*self),
    {
        match self {
            ParsedDocument::ParsedFile(comps, _) => comps,
            ParsedDocument::ParsedText(comps) => comps,
        }
    }

    pub fn into_components(self) -> (r: Vec<DocumentComponent>)
        ensures
            r@ == pd_comps(self),
    {
        match self {
            ParsedDocument::ParsedFile(comps, _) => comps,
            ParsedDocument::ParsedText(comps) => comps,
        }
    }

    pub fn add_component(&mut self, component: DocumentComponent)
        ensures
            pd_comps(*final(self)) == pd_comps(*old(self)).push(component),
            match (*old(self), *final(self)) {
                (ParsedDocument::ParsedFile(_, p), ParsedDocument::ParsedFile(_, q)) => p == q,
                (ParsedDocument::ParsedText(_), ParsedDocument::ParsedText(_)) => true,
                _ => false,
            },
    {
        match self {
            ParsedDocument::ParsedFile(comps, _) => comps.push(component),
            ParsedDocument::ParsedText(comps) => comps.push(component),
        }
    }

    /// A document of the same kind (and file) holding `components`.
    pub fn with_components(&self, components: Vec<DocumentComponent>) -> (r: ParsedDocument)
        ensures
            pd_comps(r) == components@,
            match (*self, r) {
                (ParsedDocument::ParsedFile(_, p), ParsedDocument::ParsedFile(_, q)) => p@ == q@,
                (ParsedDocument::ParsedText(_), ParsedDocument::ParsedText(_)) => true,
                _ => false,
            },
    {
        match self {
            ParsedDocument::ParsedFile(_, file) => ParsedDocument::ParsedFile(components, file.clone()),
            ParsedDocument::ParsedText(_) => ParsedDocument::ParsedText(components),
        }
    }

    pub fn _get_nth_child_mut(&mut self, n: usize) -> (r: Option<&mut DocumentComponent>)
        ensures
            n < pd_comps(*old(self)).len() ==> (r matches Some(c) && *c == pd_comps(*old(self))[n as int]
                && pd_comps(*final(self)) == pd_comps(*old(self)).update(n as int, *final(c))),
            n >= pd_comps(*old(self)).len() ==> r is None && *final(self) == *old(self),
    {
        match self {
            ParsedDocument::ParsedFile(comps, _) => {
                if n < comps.len() {
                    Some(&mut comps[n])
                } else {
                    None
                }
            },
            ParsedDocument::ParsedText(comps) => {
                if n < comps.len() {
                    Some(&mut comps[n])
                } else {
                    None
                }
            },
        }
    }
}

impl DocumentComponent {
    pub fn new(element: DocumentElement) -> (r: Self)
        ensures
            r.element == element,
            r.children@.len() == 0,
    {
        DocumentComponent { element, children: Vec::new() }
    }

    pub fn new_with_children(element: DocumentElement, children: Vec<DocumentComponent>) -> (r: Self)
        ensures
            r.element == element,
            r.children == children,
    {
        DocumentComponent { element, children }
    }

    pub fn new_text(text: &str) -> (r: Self)
        ensures
            r.element matches DocumentElement::Text(t) && t@ == text@,
            r.children@.len() == 0,
    {
        DocumentComponent::new(DocumentElement::Text(text.to_owned()))
    }

    pub fn get_element(&self) -> (r: &DocumentElement)
        ensures
            *r == self.element,
    {
        &self.element
    }

    pub fn get_element_mut(&mut self) -> (r: &mut DocumentElement)
        ensures
            *r == old(self).element,
            *final(self) == (DocumentComponent { element: *final(r), children: old(self).children }),
    {
        &mut self.element
    }

    pub fn get_nth_child_mut(&mut self, n: usize) -> (r: Option<&mut DocumentComponent>)
        ensures
            n < old(self).children@.len() ==> (r matches Some(c) && *c == old(self).children@[n as int]
                && final(self).children@ == old(self).children@.update(n as int, *final(c))
                && final(self).element == old(self).element),
            n >= old(self).children@.len() ==> r is None && *final(self) == *old(self),
    {
        if n < self.children.len() {
            Some(&mut self.children[n])
        } else {
            None
        }
    }

    pub fn is_empty_lines(&self) -> (r: bool)
        ensures
            r == elem_is_empty_lines(self@.element),
    {
        self.element.is_empty_lines()
    }

    /// A list element with no content, no properties and no children.
    pub fn is_empty_list(&self) -> (r: bool)
        ensures
            r == (self@.element matches ElementV::ListElement(pd, props) && docv_comps(pd).len() == 0
                && props.len() == 0 && self@.children.len() == 0),
    {
        proof {
            lemma_dcs_v_len(self.children@);
        }
        let element_empty = match &self.element {
            DocumentElement::ListElement(pd, props) => {
                proof {
                    lemma_dcs_v_len(pd_comps(*pd));
                    lemma_pd_v_comps(*pd);
                    assert(pairs_v(props@).len() == props@.len());
                }
                pd.components().len() == 0 && props.len() == 0
            },
            _ => false,
        };
        element_empty && self.children.len() == 0
    }

    pub fn should_have_own_block(&self) -> (r: bool)
        ensures
            r == elem_own_block(self@.element),
    {
        self.element.should_have_own_block()
    }
}

/// A text made of more than one line and nothing but whitespace.
pub open spec fn elem_is_empty_lines(e: ElementV) -> bool {
    match e {
        ElementV::Text(t) => crate::text::is_blank(t) && crate::text::lines(t).len() > 1,
        _ => false,
    }
}

/// Elements that start a block of their own when rendered.
pub open spec fn elem_own_block(e: ElementV) -> bool {
    match e {
        ElementV::Text(_) => elem_is_empty_lines(e),
        ElementV::FileLink(_, _, _) => false,
        _ => true,
    }
}

impl DocumentElement {
    pub fn is_empty_lines(&self) -> (r: bool)
        ensures
            r == elem_is_empty_lines(self@),
    {
        match self {
            DocumentElement::Text(text) => {
                let t = crate::text::chars_of(text.as_str());
                crate::text::is_blank_vec(&t) && crate::text::lines_vec(&t).len() > 1
            },
            _ => false,
        }
    }

    pub fn should_have_own_block(&self) -> (r: bool)
        ensures
            r == elem_own_block(self@),
    {
        match self {
            DocumentElement::Text(_) => self.is_empty_lines(),
            DocumentElement::FileLink(_, _, _) => false,
            _ => true,
        }
    }
}

} // verus!
