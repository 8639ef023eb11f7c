//! Text helpers shared by the parsers.
use vstd::prelude::*;
use crate::text::{chars_of, lines, lines_vec, push_str, string_of, views};

verus! {

pub const SPACES_PER_INDENT: usize = 4;

/// What a character becomes before parsing: typographic characters are replaced by plain ones.
pub open spec fn subst_char(c: char) -> Seq<char> {
    if c == '\u{2212}' {
        seq!['-']
    } else if c == '\u{2217}' {
        seq!['*']
    } else if c == '\u{2208}' {
        seq!['\\', 'i', 'n', ' ']
    } else if c == '\u{201c}' || c == '\u{201d}' {
        seq!['"']
    } else if c == '\u{2203}' {
        seq!['E', 'X', 'I', 'S', 'T', 'S']
    } else if c == '\u{2019}' {
        seq!['\'']
    } else if c == '\u{2013}' {
        seq!['-']
    } else {
        seq![c]
    }
}

/// The text with each character replaced as `subst_char` says.
pub open spec fn substituted(s: Seq<char>) -> Seq<char>
    decreases s.len(),
{
    if s.len() == 0 {
        s
    } else {
        substituted(s.drop_last()) + subst_char(s.last())
    }
}

proof fn lemma_substituted_concat(a: Seq<char>, b: Seq<char>)
    ensures
        substituted(a + b) == substituted(a) + substituted(b),
    decreases b.len(),
{
    if b.len() == 0 {
        assert(a + b =~= a);
        assert(substituted(a) + substituted(b) =~= substituted(a));
    } else {
        lemma_substituted_concat(a, b.drop_last());
        assert((a + b).drop_last() =~= a + b.drop_last());
        assert((a + b).last() == b.last());
        assert(substituted(a) + substituted(b.drop_last()) + subst_char(b.last()) =~= substituted(a) + (
        substituted(b.drop_last()) + subst_char(b.last())));
    }
}

/// The text has only ASCII characters.
pub open spec fn ascii_text(s: Seq<char>) -> bool {
    forall|i: int| 0 <= i < s.len() ==> (#[trigger] s[i] as u32) < 128
}

proof fn lemma_substituted_single(c: char)
    ensures
        substituted(seq![c]) == subst_char(c),
{
    let one = seq![c];
    assert(one.len() == 1);
    assert(one.last() == c);
    assert(one.drop_last() =~= Seq::<char>::empty());
    assert(substituted(one.drop_last()) =~= Seq::<char>::empty());
    assert(substituted(one) == substituted(one.drop_last()) + subst_char(c));
    assert(Seq::<char>::empty() + subst_char(c) =~= subst_char(c));
}

proof fn lemma_subst_char_fixed(c: char)
    ensures
        substituted(subst_char(c)) == subst_char(c),
{
    let t = subst_char(c);
    if c == '\u{2208}' {
        lemma_substituted_concat(seq!['\\', 'i'], seq!['n', ' ']);
        lemma_substituted_concat(seq!['\\'], seq!['i']);
        lemma_substituted_concat(seq!['n'], seq![' ']);
        lemma_substituted_single('\\');
        lemma_substituted_single('i');
        lemma_substituted_single('n');
        lemma_substituted_single(' ');
        assert(seq!['\\', 'i'] =~= seq!['\\'] + seq!['i']);
        assert(seq!['n', ' '] =~= seq!['n'] + seq![' ']);
        assert(t =~= seq!['\\', 'i'] + seq!['n', ' ']);
    } else if c == '\u{2203}' {
        lemma_substituted_concat(seq!['E', 'X', 'I'], seq!['S', 'T', 'S']);
        lemma_substituted_concat(seq!['E'], seq!['X', 'I']);
        lemma_substituted_concat(seq!['X'], seq!['I']);
        lemma_substituted_concat(seq!['S'], seq!['T', 'S']);
        lemma_substituted_concat(seq!['T'], seq!['S']);
        lemma_substituted_single('E');
        lemma_substituted_single('X');
        lemma_substituted_single('I');
        lemma_substituted_single('S');
        lemma_substituted_single('T');
        assert(seq!['X', 'I'] =~= seq!['X'] + seq!['I']);
        assert(seq!['E', 'X', 'I'] =~= seq!['E'] + seq!['X', 'I']);
        assert(seq!['T', 'S'] =~= seq!['T'] + seq!['S']);
        assert(seq!['S', 'T', 'S'] =~= seq!['S'] + seq!['T', 'S']);
        assert(t =~= seq!['E', 'X', 'I'] + seq!['S', 'T', 'S']);
    } else {
        assert(t.len() == 1);
        lemma_substituted_single(t[0]);
        assert(t =~= seq![t[0]]);
    }
}

/// Substituting twice gives what substituting once gives.
pub proof fn substitution_is_idempotent(s: Seq<char>)
    ensures
        substituted(substituted(s)) == substituted(s),
    decreases s.len(),
{
    if s.len() > 0 {
        substitution_is_idempotent(s.drop_last());
        lemma_substituted_concat(substituted(s.drop_last()), subst_char(s.last()));
        lemma_subst_char_fixed(s.last());
    }
}

/// Text of ASCII characters alone is left as it is.
pub proof fn substitution_keeps_ascii(s: Seq<char>)
    requires
        ascii_text(s),
    ensures
        substituted(s) == s,
    decreases s.len(),
{
    if s.len() > 0 {
        let c = s.last();
        assert((s[s.len() - 1] as u32) < 128);
        assert(s.drop_last().len() < s.len());
        assert forall|i: int| 0 <= i < s.drop_last().len() implies (#[trigger] s.drop_last()[i] as u32) < 128 by {
            assert(s.drop_last()[i] == s[i]);
        }
        substitution_keeps_ascii(s.drop_last());
        assert(subst_char(c) =~= seq![c]);
        assert(s.drop_last() + seq![c] =~= s);
    }
}

fn push_subst(out: &mut Vec<char>, c: char)
    ensures
        final(out)@ == old(out)@ + subst_char(c),
{
    if c == '\u{2212}' {
        out.push('-');
    } else if c == '\u{2217}' {
        out.push('*');
    } else if c == '\u{2208}' {
        out.push('\\');
        out.push('i');
        out.push('n');
        out.push(' ');
    } else if c == '\u{201c}' || c == '\u{201d}' {
        out.push('"');
    } else if c == '\u{2203}' {
        out.push('E');
        out.push('X');
        out.push('I');
        out.push('S');
        out.push('T');
        out.push('S');
    } else if c == '\u{2019}' {
        out.push('\'');
    } else if c == '\u{2013}' {
        out.push('-');
    } else {
        out.push(c);
    }
    proof {
        assert(final(out)@ =~= old(out)@ + subst_char(c));
    }
}

pub fn substitute_vec(s: &Vec<char>) -> (r: Vec<char>)
    ensures
        r@ == substituted(s@),
{
    let mut r: Vec<char> = Vec::new();
    let mut i: usize = 0;
    while i < s.len()
        invariant
            i <= s.len(),
            r@ == substituted(s@.take(i as int)),
        decreases s.len() - i,
    {
        proof {
            assert(s@.take(i + 1).drop_last() =~= s@.take(i as int));
        }
        push_subst(&mut r, s[i]);
        i = i + 1;
    }
    proof {
        assert(s@.take(s.len() as int) =~= s@);
    }
    r
}

/// Replaces typographic dashes, asterisks, quotes and a few symbols by plain characters.
pub fn apply_substitutions(text: &str) -> (r: String)
    ensures
        r@ == substituted(text@),
{
    string_of(&substitute_vec(&chars_of(text)))
}

/// Tabs widened to four spaces.
pub open spec fn untabbed(s: Seq<char>) -> Seq<char>
    decreases s.len(),
{
    if s.len() == 0 {
        s
    } else {
        untabbed(s.drop_last()) + (if s.last() == '\t' {
            seq![' ', ' ', ' ', ' ']
        } else {
            seq![s.last()]
        })
    }
}

pub fn untab_vec(s: &Vec<char>) -> (r: Vec<char>)
    ensures
        r@ == untabbed(s@),
{
    let mut r: Vec<char> = Vec::new();
    let mut i: usize = 0;
    while i < s.len()
        invariant
            i <= s.len(),
            r@ == untabbed(s@.take(i as int)),
        decreases s.len() - i,
    {
        proof {
            assert(s@.take(i + 1).drop_last() =~= s@.take(i as int));
        }
        if s[i] == '\t' {
            r.push(' ');
            r.push(' ');
            r.push(' ');
            r.push(' ');
        } else {
            r.push(s[i]);
        }
        proof {
            assert(r@ =~= untabbed(s@.take(i + 1)));
        }
        i = i + 1;
    }
    proof {
        assert(s@.take(s.len() as int) =~= s@);
    }
    r
}

/// Number of spaces at the start of `s`.
pub open spec fn leading_spaces(s: Seq<char>) -> nat
    decreases s.len(),
{
    if s.len() > 0 && s[0] == ' ' {
        1 + leading_spaces(s.drop_first())
    } else {
        0
    }
}

pub fn leading_spaces_exec(s: &Vec<char>) -> (n: usize)
    ensures
        n == leading_spaces(s@),
        n <= s.len(),
{
    let mut i: usize = 0;
    proof {
        assert(s@.skip(0) =~= s@);
    }
    while i < s.len() && s[i] == ' '
        invariant
            i <= s.len(),
            forall|k: int| 0 <= k < i ==> s@[k] == ' ',
            leading_spaces(s@) == i + leading_spaces(s@.skip(i as int)),
        decreases s.len() - i,
    {
        proof {
            assert(s@.skip(i as int).drop_first() =~= s@.skip(i + 1));
        }
        i = i + 1;
    }
    proof {
        if i < s.len() {
            assert(s@.skip(i as int)[0] == s@[i as int]);
        }
    }
    i
}

/// How many indentation steps (four spaces, a tab counting as four) a line starts with.
pub open spec fn indent_count(line: Seq<char>) -> nat {
    leading_spaces(untabbed(line)) / 4
}

pub fn indent_level(line: &str) -> (r: usize)
    ensures
        r == indent_count(line@),
{
    let l = untab_vec(&chars_of(line));
    leading_spaces_exec(&l) / SPACES_PER_INDENT
}

/// The lines after the first, with as much leading space removed as the first line had plus
/// `extra` (but never more than their own leading space); the first line without its
/// leading space.
pub open spec fn trimmed_like_first(text: Seq<char>, extra: nat) -> Seq<char> {
    let ls = lines(untabbed(text));
    if ls.len() == 0 {
        Seq::empty()
    } else {
        let sc = leading_spaces(ls[0]);
        ls[0].skip(sc as int) + rest_trimmed(ls.drop_first(), sc + extra)
    }
}

pub open spec fn rest_trimmed(ls: Seq<Seq<char>>, n: nat) -> Seq<char>
    decreases ls.len(),
{
    if ls.len() == 0 {
        Seq::empty()
    } else {
        let l = ls.last();
        let k = if leading_spaces(l) < n {
            leading_spaces(l)
        } else {
            n
        };
        rest_trimmed(ls.drop_last(), n).push('\n') + l.skip(k as int)
    }
}

pub fn trim_like_first_line_plus(text: &str, extra: usize) -> (r: String)
    ensures
        r@ == trimmed_like_first(text@, extra as nat),
{
    let t = untab_vec(&chars_of(text));
    let ls = lines_vec(&t);
    let mut r: Vec<char> = Vec::new();
    if ls.len() == 0 {
        return string_of(&r);
    }
    let l0 = &ls[0];
    let sc = leading_spaces_exec(l0);
    let mut i: usize = sc;
    while i < l0.len()
        invariant
            sc <= i <= l0@.len(),
            r@ == l0@.subrange(sc as int, i as int),
        decreases l0.len() - i,
    {
        r.push(l0[i]);
        proof {
            assert(l0@.subrange(sc as int, i + 1) =~= l0@.subrange(sc as int, i as int).push(l0@[i as int]));
        }
        i = i + 1;
    }
    let ghost first = r@;
    let ghost rest = views(ls@).drop_first();
    let mut j: usize = 1;
    while j < ls.len()
        invariant
            1 <= j <= ls.len(),
            sc == leading_spaces(views(ls@)[0]),
            rest == views(ls@).drop_first(),
            r@ == first + rest_trimmed(rest.take(j - 1), sc as nat + extra as nat),
        decreases ls.len() - j,
    {
        proof {
            assert(rest.take(j as int).drop_last() =~= rest.take(j - 1));
            assert(rest.take(j as int).last() == ls@[j as int]@);
        }
        let l = &ls[j];
        let lead = leading_spaces_exec(l);
        // drop the first min(lead, sc + extra) characters
        let k: usize = if lead < sc || lead - sc < extra {
            lead
        } else {
            sc + extra
        };
        r.push('\n');
        let mut p: usize = k;
        let ghost before = r@;
        while p < l.len()
            invariant
                k <= p <= l@.len(),
                r@ == before + l@.subrange(k as int, p as int),
            decreases l.len() - p,
        {
            r.push(l[p]);
            proof {
                assert(l@.subrange(k as int, p + 1) =~= l@.subrange(k as int, p as int).push(l@[p as int]));
            }
            p = p + 1;
        }
        proof {
            assert(l@.subrange(k as int, l@.len() as int) =~= l@.skip(k as int));
        }
        j = j + 1;
    }
    proof {
        assert(rest.take(ls.len() - 1) =~= rest);
        assert(first =~= views(ls@)[0].skip(sc as int));
    }
    string_of(&r)
}

} // verus!
