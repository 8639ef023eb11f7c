//! Tidying the text of document elements: trimmed headings and text without runs of blank lines.
use vstd::prelude::*;
use crate::document::{
    ComponentV, DocumentComponent, DocumentElement, ElementV, ListElem, ParsedDocument, dc_v, dcs_v,
    el_v, les_v,
};
use crate::render::join_vec;
use crate::text::{chars_of, is_blank, is_blank_vec, join, lines, lines_vec, string_of, trim, trim_vec, views};

verus! {

/// Some line of `ls` is blank.
pub open spec fn any_blank(ls: Seq<Seq<char>>) -> bool {
    exists|j: int| 0 <= j < ls.len() && #[trigger] is_blank(ls[j])
}

/// The lines with blank lines dropped; once a blank line has been seen, every following
/// non-blank line is preceded by one empty line.
pub open spec fn tidied_lines(ls: Seq<Seq<char>>) -> Seq<Seq<char>>
    decreases ls.len(),
{
    if ls.len() == 0 {
        Seq::empty()
    } else {
        let init = ls.drop_last();
        let l = ls.last();
        if is_blank(l) {
            tidied_lines(init)
        } else if any_blank(init) {
            tidied_lines(init) + seq![Seq::<char>::empty(), l]
        } else {
            tidied_lines(init).push(l)
        }
    }
}

/// What `DocumentElement::cleanup_text` gives back: the lines of the trimmed text, tidied, joined
/// by newlines.
pub open spec fn tidied_text(t: Seq<char>) -> Seq<char> {
    join(tidied_lines(lines(trim(t))), seq!['\n'])
}

/// The element after `DocumentElement::cleanup`: a heading's title trimmed, a text tidied, the
/// elements of an admonition's components cleaned in turn; anything else unchanged.
pub open spec fn cleaned_el(e: ElementV) -> ElementV
    decreases e,
{
    match e {
        ElementV::Heading(l, t) => ElementV::Heading(l, trim(t)),
        ElementV::Text(t) => ElementV::Text(tidied_text(t)),
        ElementV::Admonition(comps, props) => ElementV::Admonition(cleaned_comps(comps), props),
        _ => e,
    }
}

/// Components whose elements are cleaned; their children stay as they are.
pub open spec fn cleaned_comps(s: Seq<ComponentV>) -> Seq<ComponentV>
    decreases s,
{
    if s.len() == 0 {
        Seq::empty()
    } else {
        cleaned_comps(s.drop_last()).push(
            ComponentV { element: cleaned_el(s.last().element), children: s.last().children },
        )
    }
}

proof fn lemma_cleaned_comps_len(s: Seq<ComponentV>)
    ensures
        cleaned_comps(s).len() == s.len(),
    decreases s.len(),
{
    if s.len() > 0 {
        lemma_cleaned_comps_len(s.drop_last());
    }
}

impl DocumentElement {
    /// The text with surrounding whitespace trimmed and blank lines dropped; after the first
    /// blank line, each remaining line is preceded by one empty line.
    pub fn cleanup_text(text: &str) -> (r: String)
        ensures
            r@ == tidied_text(text@),
    {
        let chars = chars_of(text);
        let trimmed = trim_vec(&chars);
        let ls = lines_vec(&trimmed);
        let mut kept: Vec<Vec<char>> = Vec::new();
        let mut seen_blank = false;
        let mut i: usize = 0;
        while i < ls.len()
            invariant
                i <= ls.len(),
                views(kept@) == tidied_lines(views(ls@).take(i as int)),
                seen_blank == any_blank(views(ls@).take(i as int)),
            decreases ls.len() - i,
        {
            let ghost before = views(kept@);
            let ghost t = views(ls@).take(i + 1);
            proof {
                assert(t.drop_last() =~= views(ls@).take(i as int));
                assert(t.last() == ls@[i as int]@);
            }
            if is_blank_vec(&ls[i]) {
                proof {
                    assert(is_blank(t[i as int]));
                }
            } else {
                if seen_blank {
                    kept.push(Vec::new());
                }
                kept.push(crate::text::copy_chars(&ls[i]));
                proof {
                    if seen_blank {
                        assert(views(kept@) =~= before + seq![Seq::<char>::empty(), t.last()]);
                    } else {
                        assert(views(kept@) =~= before.push(t.last()));
                    }
                    assert forall|j: int| 0 <= j < t.len() && #[trigger] is_blank(t[j]) implies j
                        < i by {}
                }
                seen_blank = seen_blank;
            }
            proof {
                if is_blank(t.last()) {
                    assert(is_blank(t[i as int]));
                } else {
                    if any_blank(t) {
                        let j = choose|j: int| 0 <= j < t.len() && #[trigger] is_blank(t[j]);
                        assert(j < i);
                        assert(is_blank(t.drop_last()[j]));
                    }
                    if any_blank(t.drop_last()) {
                        let j = choose|j: int|
                            0 <= j < t.drop_last().len() && #[trigger] is_blank(t.drop_last()[j]);
                        assert(is_blank(t[j]));
                    }
                }
            }
            if is_blank_vec(&ls[i]) {
                seen_blank = true;
            }
            i = i + 1;
        }
        proof {
            assert(views(ls@).take(ls.len() as int) =~= views(ls@));
        }
        proof {
            reveal_strlit("\n");
            assert("\n"@ =~= seq!['\n']);
        }
        let joined = join_vec(&kept, "\n");
        assert(views(ls@) == lines(trim(text@)));
        assert(joined@ == join(views(kept@), seq!['\n']));
        let r = string_of(&joined);
        assert(r@ == joined@);
        r
    }

    /// Tidies the element in place: a heading's title is trimmed, a text loses surrounding
    /// whitespace and runs of blank lines, and the elements of an admonition's components are
    /// cleaned in turn.
    pub fn cleanup(&mut self)
        ensures
            final(self)@ == cleaned_el(old(self)@),
        decreases *old(self), 1int,
    {
        match self {
            DocumentElement::Heading(_, text) => {
                let t = trim_vec(&chars_of(text.as_str()));
                *text = string_of(&t);
            },
            DocumentElement::Text(text) => {
                *text = DocumentElement::cleanup_text(text.as_str());
            },
            DocumentElement::Admonition(components, _) => {
                cleanup_components(components);
            },
            _ => {},
        }
    }
}

fn cleanup_components(components: &mut Vec<DocumentComponent>)
    ensures
        dcs_v(final(components)@) == cleaned_comps(dcs_v(old(components)@)),
    decreases *old(components), 0int,
{
    let ghost orig = components@;
    let mut i: usize = 0;
    while i < components.len()
        invariant
            i <= components.len() == orig.len(),
            orig == old(components)@,
            forall|k: int| i <= k < orig.len() ==> #[trigger] components@[k] == orig[k],
            dcs_v(components@.take(i as int)) == cleaned_comps(dcs_v(orig.take(i as int))),
        decreases components.len() - i,
    {
        let ghost before = components@;
        let mut c = components.remove(i);
        proof {
            assert(c == orig[i as int]);
            assert(decreases_to!(*old(components) => old(components)@));
            assert(decreases_to!(old(components)@ => old(components)@[i as int]));
            assert(decreases_to!(c => c.element));
        }
        c.element.cleanup();
        components.insert(i, c);
        proof {
            assert(components@ =~= before.update(i as int, c));
            assert(components@.take(i as int) =~= before.take(i as int));
            let t = components@.take(i + 1);
            assert(t.drop_last() =~= components@.take(i as int));
            assert(t.last() == c);
            let o = orig.take(i + 1);
            assert(o.drop_last() =~= orig.take(i as int));
            assert(o.last() == orig[i as int]);
            assert(dcs_v(o).drop_last() =~= dcs_v(orig.take(i as int)));
            assert(dcs_v(o).last() == dc_v(orig[i as int]));
            assert(dcs_v(t) =~= dcs_v(components@.take(i as int)).push(dc_v(c)));
            assert(dc_v(c) == ComponentV { element: cleaned_el(dc_v(orig[i as int]).element), children: dc_v(orig[i as int]).children });
        }
        i = i + 1;
    }
    proof {
        assert(components@.take(orig.len() as int) =~= components@);
        assert(orig.take(orig.len() as int) =~= orig);
    }
}

impl ListElem {
    /// A list element with the given contents and no children.
    pub fn new(contents: ParsedDocument) -> (r: ListElem)
        ensures
            r.contents == contents,
            r.children@.len() == 0,
            r@.children == Seq::<crate::document::ListElemV>::empty(),
    {
        let r = ListElem { contents, children: Vec::new() };
        proof {
            assert(les_v(r.children@) =~= Seq::<crate::document::ListElemV>::empty());
        }
        r
    }
}

} // verus!
