//! Reading a note in any of the formats, and property values that may be file links.
use vstd::prelude::*;
use crate::collapse::comps_of;
use crate::document::{
    ComponentV, DocV, DocumentElement, ElementV, MentionedFileV, ParsedDocument, PropType, PropValue,
    PropValueV, Property, TextMode, add_missing, copy_opt_string, dcs_v, lemma_dcs_v_len,
    lemma_pd_v_comps, pvs_v,
};
use crate::logseq_parsing::{logseq_doc, parse_logseq_text};
use crate::md_parsing::Parsed;
use crate::obsidian_parsing::{ParseError, obsidian_doc, obsidian_lookups, parse_obsidian_text, parse_result};
use crate::resolve::{LookupMode, LookupModes, needs_disk_lookup, resolved_mf};
use crate::text::{chars_of, string_of};
use crate::zk_parsing::{parse_zk_text, zk_doc, zk_lookups, zk_result};

verus! {

/// The note formats, as the reader names them.
#[derive(Clone, Copy, Debug, PartialEq, Eq, Structural)]
pub enum ParseMode {
    Obsidian,
    LogSeq,
    Zk,
}

impl ParseMode {
    /// The format of the same name.
    pub fn text_mode(&self) -> (r: TextMode)
        ensures
            r == (match *self {
                ParseMode::Obsidian => TextMode::Obsidian,
                ParseMode::LogSeq => TextMode::LogSeq,
                ParseMode::Zk => TextMode::Zk,
            }),
    {
        match self {
            ParseMode::Obsidian => TextMode::Obsidian,
            ParseMode::LogSeq => TextMode::LogSeq,
            ParseMode::Zk => TextMode::Zk,
        }
    }
}

/// What a text reads as in the given format.
pub open spec fn mode_doc(mode: TextMode, text: Seq<char>) -> Parsed<Seq<ComponentV>> {
    match mode {
        TextMode::Obsidian => obsidian_doc(text),
        TextMode::LogSeq => logseq_doc(text),
        TextMode::Zk => zk_doc(text),
    }
}

/// The result of reading `text` in `mode`, as each format's reader states it.
pub open spec fn text_result(mode: TextMode, text: Seq<char>, file_dir: Option<String>, r: Result<ParsedDocument, ParseError>) -> bool {
    match mode {
        TextMode::Obsidian => parse_result(obsidian_doc(text), file_dir, r),
        TextMode::LogSeq => match r {
            Ok(pd) => pd is ParsedText && logseq_doc(text) == Parsed::Done(comps_of(pd@)),
            Err(_) => logseq_doc(text) is Fails,
        },
        TextMode::Zk => zk_result(zk_doc(text), file_dir, r),
    }
}

/// Reads a note's text in the given format.
pub fn parse_text(text: &str, mode: &TextMode, file_dir: &Option<String>) -> (r: Result<ParsedDocument, ParseError>)
    requires
        !(mode_doc(*mode, text@) is Panics),
    ensures
        text_result(*mode, text@, *file_dir, r),
        r matches Ok(pd) ==> crate::document::keys_once_doc(pd@),
{
    match mode {
        TextMode::Obsidian => parse_obsidian_text(text, file_dir),
        TextMode::LogSeq => parse_logseq_text(text, file_dir),
        TextMode::Zk => parse_zk_text(text, file_dir),
    }
}

/// `parse_text` in a format does what that format's reader does: it asks of the text what
/// the reader asks, and its result is stated as the reader's is (`parse_zk_text`,
/// `parse_logseq_text`, `parse_obsidian_text`).
pub proof fn parse_text_agrees_with_readers(text: Seq<char>, file_dir: Option<String>, r: Result<ParsedDocument, ParseError>)
    ensures
        mode_doc(TextMode::Zk, text) == zk_doc(text),
        text_result(TextMode::Zk, text, file_dir, r) == zk_result(zk_doc(text), file_dir, r),
        mode_doc(TextMode::Obsidian, text) == obsidian_doc(text),
        text_result(TextMode::Obsidian, text, file_dir, r) == parse_result(obsidian_doc(text), file_dir, r),
        mode_doc(TextMode::LogSeq, text) == logseq_doc(text),
        text_result(TextMode::LogSeq, text, file_dir, r) == (match r {
            Ok(pd) => pd is ParsedText && logseq_doc(text) == Parsed::Done(comps_of(pd@)),
            Err(_) => logseq_doc(text) is Fails,
        }),
{
}

/// How the file of a link is looked up when a text is read in `mode`.
pub open spec fn link_mode(mode: TextMode, has_dir: bool) -> LookupMode {
    match mode {
        TextMode::Obsidian => if has_dir {
            LookupMode::InDir
        } else {
            LookupMode::Keep
        },
        TextMode::LogSeq => LookupMode::Keep,
        TextMode::Zk => LookupMode::AsGiven,
    }
}

/// The link, if the components are exactly one file link.
pub open spec fn single_link(cs: Seq<ComponentV>) -> Option<(MentionedFileV, Option<Seq<char>>, Option<Seq<char>>)> {
    if cs.len() == 1 {
        match cs[0].element {
            ElementV::FileLink(m, s, n) => Some((m, s, n)),
            _ => None,
        }
    } else {
        None
    }
}

/// How the files a text mentions are looked up when it is read in `mode`.
pub open spec fn mode_lookups(mode: TextMode, has_dir: bool) -> LookupModes {
    match mode {
        TextMode::Obsidian => if has_dir {
            obsidian_lookups()
        } else {
            LookupModes { links: LookupMode::Keep, embeds: LookupMode::Keep, values: LookupMode::Keep }
        },
        TextMode::LogSeq => LookupModes {
            links: LookupMode::Keep,
            embeds: LookupMode::Keep,
            values: LookupMode::Keep,
        },
        TextMode::Zk => zk_lookups(has_dir),
    }
}

/// `r` is what the property value `v` reads as: the file link it consists of (its file looked up
/// as the format does), or else the text itself. A lookup that asks the disk and fails leaves
/// the text.
pub open spec fn value_read(mode: TextMode, v: Seq<char>, file_dir: Option<String>, r: PropValueV) -> bool {
    match mode_doc(mode, v) {
        Parsed::Done(cs) => match single_link(cs) {
            Some((m, s, n)) => (needs_disk_lookup(DocV::Text(cs), mode_lookups(mode, file_dir is Some))
                && r == PropValueV::Str(v)) || (r matches PropValueV::FileLink(
                m2,
                s2,
                n2,
            ) && s2 == s && n2 == n && resolved_mf(m, m2, link_mode(mode, file_dir is Some))),
            None => r == PropValueV::Str(v),
        },
        _ => r == PropValueV::Str(v),
    }
}

impl Property {
    /// The value `val` as a file link if it reads (in `mode`) as exactly one, else as text.
    #[verifier::rlimit(40)]
    pub fn try_prop_value_parse(val: &str, mode: &TextMode, file_dir: &Option<String>) -> (r: PropValue)
        requires
            !(mode_doc(*mode, val@) is Panics),
        ensures
            value_read(*mode, val@, *file_dir, r@),
    {
        let text = PropValue::String(string_of(&chars_of(val)));
        match parse_text(val, mode, file_dir) {
            Ok(pd) => {
                let comps = pd.components();
                proof {
                    lemma_pd_v_comps(pd);
                    lemma_dcs_v_len(comps@);
                }
                if comps.len() == 1 {
                    proof {
                        assert(dcs_v(comps@)[0] == comps@[0]@) by {
                            assert(comps@.drop_last() =~= Seq::<crate::document::DocumentComponent>::empty());
                        }
                    }
                    match &comps[0].element {
                        DocumentElement::FileLink(mf, sec, ren) => {
                            return PropValue::FileLink(mf.copy(), copy_opt_string(sec), copy_opt_string(ren));
                        },
                        _ => {},
                    }
                }
                text
            },
            Err(_) => text,
        }
    }

    /// A property whose values are read from `values` (see `try_prop_value_parse`).
    pub fn new_parse(name: String, prop_type: PropType, values: &[String], mode: TextMode, file_dir: &Option<String>) -> (r: Property)
        requires
            forall|i: int| 0 <= i < values@.len() ==> !(mode_doc(mode, #[trigger] values@[i]@) is Panics),
        ensures
            r.name == name,
            r.prop_type == prop_type,
            r.values@.len() == values@.len(),
            forall|i: int| 0 <= i < values@.len() ==> value_read(mode, values@[i]@, *file_dir, #[trigger] r.values@[i]@),
    {
        let mut vals: Vec<PropValue> = Vec::new();
        let mut i: usize = 0;
        while i < values.len()
            invariant
                i <= values@.len(),
                vals@.len() == i,
                forall|j: int| 0 <= j < values@.len() ==> !(mode_doc(mode, #[trigger] values@[j]@) is Panics),
                forall|j: int| 0 <= j < i ==> value_read(mode, values@[j]@, *file_dir, #[trigger] vals@[j]@),
            decreases values.len() - i,
        {
            let v = Property::try_prop_value_parse(values[i].as_str(), &mode, file_dir);
            vals.push(v);
            i = i + 1;
        }
        Property { name, prop_type, values: vals }
    }

    /// Adds each value read from `values` that the property does not hold yet, in order.
    pub fn add_values_parse(&mut self, values: &[String], mode: &TextMode, file_dir: &Option<String>)
        requires
            forall|i: int| 0 <= i < values@.len() ==> !(mode_doc(*mode, #[trigger] values@[i]@) is Panics),
        ensures
            final(self).name == old(self).name,
            final(self).prop_type == old(self).prop_type,
            exists|ps: Seq<PropValueV>|
                {
                    &&& ps.len() == values@.len()
                    &&& forall|i: int| 0 <= i < ps.len() ==> value_read(*mode, values@[i]@, *file_dir, #[trigger] ps[i])
                    &&& final(self)@.values == add_missing(old(self)@.values, ps)
                },
    {
        let read = Property::new_parse(String::new(), PropType::Single, values, *mode, file_dir);
        self.add_values(read.values.as_slice());
        proof {
            let ps = pvs_v(read.values@);
            assert(forall|i: int| 0 <= i < ps.len() ==> #[trigger] ps[i] == read.values@[i]@);
            assert(forall|i: int| 0 <= i < ps.len() ==> value_read(*mode, values@[i]@, *file_dir, #[trigger] ps[i]));
        }
    }
}

} // verus!
