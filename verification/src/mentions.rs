//! The files that a document mentions by link or embed.
use vstd::prelude::*;
use crate::document::{
    ComponentV, DocV, DocumentComponent, dc_v, DocumentElement, ElementV, MentionedFile, MentionedFileV,
    ParsedDocument, dcs_v, docv_comps, lemma_pd_v_comps, pd_comps,
};
use crate::paths::{file_name_of, opt_view, path_file_name};

verus! {

/// A mentioned file has a name: a file name always, a path where it has a last component.
pub open spec fn mf_named(m: MentionedFileV) -> bool {
    match m {
        MentionedFileV::FileName(_) => true,
        MentionedFileV::FilePath(p) => path_file_name(p) is Some,
    }
}

/// The name of a mentioned file: the file name itself, or the last component of the path.
pub open spec fn mf_name(m: MentionedFileV) -> Seq<char> {
    match m {
        MentionedFileV::FileName(n) => n,
        MentionedFileV::FilePath(p) => path_file_name(p).unwrap(),
    }
}

/// The file an element links to or embeds, if it is a link or an embed.
pub open spec fn el_mention(e: ElementV) -> Option<MentionedFileV> {
    match e {
        ElementV::FileLink(m, _, _) => Some(m),
        ElementV::FileEmbed(m, _) => Some(m),
        _ => None,
    }
}

/// The names of the files an element mentions (links and embeds only).
pub open spec fn el_mentions(e: ElementV) -> Seq<Seq<char>> {
    match el_mention(e) {
        Some(m) => seq![mf_name(m)],
        None => Seq::empty(),
    }
}

/// The names of the files a component and its children mention, in document order.
pub open spec fn dc_mentions(c: ComponentV) -> Seq<Seq<char>>
    decreases c,
{
    el_mentions(c.element) + dcs_mentions(c.children)
}

pub open spec fn dcs_mentions(s: Seq<ComponentV>) -> Seq<Seq<char>>
    decreases s,
{
    if s.len() == 0 {
        Seq::empty()
    } else {
        dcs_mentions(s.drop_last()) + dc_mentions(s.last())
    }
}

/// Every file that a component or its children mention has a name.
pub open spec fn dc_all_named(c: ComponentV) -> bool
    decreases c,
{
    (el_mention(c.element) matches Some(m) ==> mf_named(m)) && dcs_all_named(c.children)
}

pub open spec fn dcs_all_named(s: Seq<ComponentV>) -> bool
    decreases s,
{
    if s.len() == 0 {
        true
    } else {
        dcs_all_named(s.drop_last()) && dc_all_named(s.last())
    }
}

/// The names of the files a document mentions.
pub open spec fn doc_mentions(d: DocV) -> Seq<Seq<char>> {
    dcs_mentions(docv_comps(d))
}

/// Every file that the document mentions has a name.
pub open spec fn doc_all_named(d: DocV) -> bool {
    dcs_all_named(docv_comps(d))
}

fn mentioned_name(m: &MentionedFile) -> (r: String)
    requires
        mf_named(m@),
    ensures
        r@ == mf_name(m@),
{
    match m {
        MentionedFile::FileName(n) => n.clone(),
        MentionedFile::FilePath(p) => {
            let n = file_name_of(p.as_str());
            proof {
                assert(opt_view(n) == path_file_name(p@));
            }
            n.unwrap()
        },
    }
}

fn mentioned_has_name(m: &MentionedFile) -> (b: bool)
    ensures
        b == mf_named(m@),
{
    match m {
        MentionedFile::FileName(_) => true,
        MentionedFile::FilePath(p) => {
            let n = file_name_of(p.as_str());
            proof {
                assert(opt_view(n) == path_file_name(p@));
            }
            n.is_some()
        },
    }
}

impl DocumentElement {
    /// The names of the files this element links to or embeds: one name for a link or an
    /// embed, none for anything else.
    pub fn mentioned_files(&self) -> (r: Vec<String>)
        requires
            el_mention(self@) matches Some(m) ==> mf_named(m),
        ensures
            r@.map_values(|s: String| s@) == el_mentions(self@),
    {
        let mut r: Vec<String> = Vec::new();
        match self {
            DocumentElement::FileLink(m, _, _) => {
                r.push(mentioned_name(m));
            },
            DocumentElement::FileEmbed(m, _) => {
                r.push(mentioned_name(m));
            },
            _ => {},
        }
        proof {
            assert(r@.map_values(|s: String| s@) =~= el_mentions(self@));
        }
        r
    }

    fn has_named_mention(&self) -> (b: bool)
        ensures
            b == (el_mention(self@) matches Some(m) ==> mf_named(m)),
    {
        match self {
            DocumentElement::FileLink(m, _, _) => mentioned_has_name(m),
            DocumentElement::FileEmbed(m, _) => mentioned_has_name(m),
            _ => true,
        }
    }
}

fn append_names(out: &mut Vec<String>, more: Vec<String>)
    ensures
        final(out)@.map_values(|s: String| s@) == old(out)@.map_values(|s: String| s@)
            + more@.map_values(|s: String| s@),
{
    let ghost start = out@;
    let mut i: usize = 0;
    while i < more.len()
        invariant
            i <= more.len(),
            out@.map_values(|s: String| s@) == start.map_values(|s: String| s@) + more@.take(
                i as int,
            ).map_values(|s: String| s@),
        decreases more.len() - i,
    {
        let ghost before = out@;
        let x = more[i].clone();
        assert(x@ == more@[i as int]@);
        out.push(x);
        proof {
            assert(out@.map_values(|s: String| s@) =~= before.map_values(|s: String| s@).push(x@));
            assert(more@.take(i + 1).map_values(|s: String| s@) =~= more@.take(i as int).map_values(
                |s: String| s@,
            ).push(more@[i as int]@));
            assert(out@.map_values(|s: String| s@) =~= start.map_values(|s: String| s@)
                + more@.take(i + 1).map_values(|s: String| s@));
        }
        i = i + 1;
    }
    proof {
        assert(more@.take(more.len() as int) =~= more@);
    }
}

/// The names of the files the components of `comps` and their children mention.
fn comps_mentioned_files(comps: &Vec<DocumentComponent>) -> (r: Vec<String>)
    requires
        dcs_all_named(dcs_v(comps@)),
    ensures
        r@.map_values(|s: String| s@) == dcs_mentions(dcs_v(comps@)),
    decreases comps@, 0int,
{
    let mut r: Vec<String> = Vec::new();
    let mut i: usize = 0;
    while i < comps.len()
        invariant
            i <= comps.len(),
            dcs_all_named(dcs_v(comps@)),
            r@.map_values(|s: String| s@) == dcs_mentions(dcs_v(comps@.take(i as int))),
        decreases comps.len() - i,
    {
        proof {
            lemma_named_prefix(comps@, i as int + 1);
            assert(comps@.take(i + 1).drop_last() =~= comps@.take(i as int));
        }
        let more = comps[i].mentioned_files();
        append_names(&mut r, more);
        proof {
            let t = comps@.take(i + 1);
            assert(t.last() == comps@[i as int]);
            assert(dcs_v(t).drop_last() =~= dcs_v(comps@.take(i as int)));
            assert(dcs_v(t).last() == dc_v(comps@[i as int]));
        }
        i = i + 1;
    }
    proof {
        assert(comps@.take(comps.len() as int) =~= comps@);
    }
    r
}

fn comps_named(comps: &Vec<DocumentComponent>) -> (b: bool)
    ensures
        b == dcs_all_named(dcs_v(comps@)),
    decreases comps@, 0int,
{
    let mut i: usize = 0;
    while i < comps.len()
        invariant
            i <= comps.len(),
            dcs_all_named(dcs_v(comps@.take(i as int))),
        decreases comps.len() - i,
    {
        proof {
            assert(comps@.take(i + 1).drop_last() =~= comps@.take(i as int));
        }
        let ghost t = comps@.take(i + 1);
        proof {
            assert(t.last() == comps@[i as int]);
            assert(dcs_v(t).drop_last() =~= dcs_v(comps@.take(i as int)));
            assert(dcs_v(t).last() == dc_v(comps@[i as int]));
        }
        if !comps[i].has_named_mentions() {
            proof {
                if dcs_all_named(dcs_v(comps@)) {
                    lemma_named_prefix(comps@, i as int + 1);
                }
            }
            return false;
        }
        i = i + 1;
    }
    proof {
        assert(comps@.take(comps.len() as int) =~= comps@);
    }
    true
}

/// Where every mention of a sequence has a name, so has every mention of its prefixes.
proof fn lemma_named_prefix(s: Seq<DocumentComponent>, n: int)
    requires
        0 <= n <= s.len(),
        dcs_all_named(dcs_v(s)),
    ensures
        dcs_all_named(dcs_v(s.take(n))),
        n > 0 ==> dc_all_named(dcs_v(s.take(n)).last()),
    decreases s.len(),
{
    if s.len() > 0 {
        assert(dcs_v(s).drop_last() == dcs_v(s.drop_last()));
        if n < s.len() {
            lemma_named_prefix(s.drop_last(), n);
            assert(s.drop_last().take(n) =~= s.take(n));
        } else {
            assert(s.take(n) =~= s);
        }
    }
}

impl DocumentComponent {
    /// The names of the files this component and its children mention, in document order.
    pub fn mentioned_files(&self) -> (r: Vec<String>)
        requires
            dc_all_named(self@),
        ensures
            r@.map_values(|s: String| s@) == dc_mentions(self@),
        decreases self, 1int,
    {
        let mut r = self.element.mentioned_files();
        let more = comps_mentioned_files(&self.children);
        append_names(&mut r, more);
        r
    }

    /// Every file this component and its children mention has a name.
    pub fn has_named_mentions(&self) -> (b: bool)
        ensures
            b == dc_all_named(self@),
        decreases self, 1int,
    {
        self.element.has_named_mention() && comps_named(&self.children)
    }
}

impl ParsedDocument {
    /// The names of the files the document mentions by link or embed, in document order.
    pub fn mentioned_files(&self) -> (r: Vec<String>)
        requires
            doc_all_named(self@),
        ensures
            r@.map_values(|s: String| s@) == doc_mentions(self@),
    {
        proof {
            lemma_pd_v_comps(*self);
        }
        comps_mentioned_files(self.components())
    }

    /// Every file the document mentions has a name.
    pub fn has_named_mentions(&self) -> (b: bool)
        ensures
            b == doc_all_named(self@),
    {
        proof {
            lemma_pd_v_comps(*self);
        }
        comps_named(self.components())
    }

    /// The names of the files the document mentions, where each has a name; `None` where a
    /// mentioned path has no last component to name it by.
    pub fn checked_mentioned_files(&self) -> (r: Option<Vec<String>>)
        ensures
            match r {
                Some(v) => doc_all_named(self@) && v@.map_values(|s: String| s@) == doc_mentions(
                    self@,
                ),
                None => !doc_all_named(self@),
            },
    {
        if self.has_named_mentions() {
            Some(self.mentioned_files())
        } else {
            None
        }
    }
}


/// An image file is mentioned: its file name, or the stem of its file name, is among the
/// mentioned names.
pub open spec fn image_mentioned(file: Seq<char>, mentioned: Seq<Seq<char>>) -> bool {
    match path_file_name(file) {
        Some(n) => mentioned.contains(n) || (match crate::paths::path_file_stem(n) {
            Some(s) => mentioned.contains(s),
            None => false,
        }),
        None => false,
    }
}

fn contains_name(names: &[String], n: &String) -> (r: bool)
    ensures
        r == names@.map_values(|s: String| s@).contains(n@),
{
    let ghost ns = names@.map_values(|s: String| s@);
    let mut i: usize = 0;
    while i < names.len()
        invariant
            i <= names@.len(),
            ns == names@.map_values(|s: String| s@),
            forall|k: int| 0 <= k < i ==> ns[k] != n@,
        decreases names.len() - i,
    {
        if names[i] == *n {
            proof {
                assert(ns[i as int] == n@);
            }
            return true;
        }
        i = i + 1;
    }
    false
}

/// The image files that the converted notes mention, in order.
pub fn mentioned_images(files: &[String], mentioned: &[String]) -> (r: Vec<String>)
    ensures
        r@.map_values(|s: String| s@) == files@.map_values(|s: String| s@).filter(
            |f: Seq<char>| image_mentioned(f, mentioned@.map_values(|s: String| s@)),
        ),
{
    let ghost ms = mentioned@.map_values(|s: String| s@);
    let ghost fs = files@.map_values(|s: String| s@);
    let mut r: Vec<String> = Vec::new();
    let mut i: usize = 0;
    while i < files.len()
        invariant
            i <= files@.len(),
            ms == mentioned@.map_values(|s: String| s@),
            fs == files@.map_values(|s: String| s@),
            r@.map_values(|s: String| s@) == fs.take(i as int).filter(
                |f: Seq<char>| image_mentioned(f, ms),
            ),
        decreases files.len() - i,
    {
        proof {
            assert(fs.take(i + 1).drop_last() =~= fs.take(i as int));
            assert(fs.take(i + 1).last() == files@[i as int]@);
            reveal(Seq::filter);
        }
        let keep = match file_name_of(files[i].as_str()) {
            Some(n) => {
                proof {
                    assert(opt_view(Some(n)) == path_file_name(files@[i as int]@));
                }
                if contains_name(mentioned, &n) {
                    true
                } else {
                    match crate::paths::file_stem_of(n.as_str()) {
                        Some(st) => {
                            proof {
                                assert(opt_view(Some(st)) == crate::paths::path_file_stem(n@));
                            }
                            contains_name(mentioned, &st)
                        },
                        None => false,
                    }
                }
            },
            None => false,
        };
        let ghost before = r@.map_values(|s: String| s@);
        if keep {
            r.push(files[i].clone());
            proof {
                assert(r@.map_values(|s: String| s@) =~= before.push(files@[i as int]@));
            }
        }
        i = i + 1;
    }
    proof {
        assert(fs.take(files@.len() as int) =~= fs);
    }
    r
}

} // verus!
