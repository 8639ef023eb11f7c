use vstd::prelude::*;

verus! {

/// Unicode `White_Space`, the set that `char::is_whitespace` (and thus `str::trim`) uses.
pub open spec fn is_ws(c: char) -> bool {
    ||| ('\u{9}' <= c && c <= '\u{d}')
    ||| c == ' '
    ||| c == '\u{85}'
    ||| c == '\u{a0}'
    ||| c == '\u{1680}'
    ||| ('\u{2000}' <= c && c <= '\u{200a}')
    ||| c == '\u{2028}'
    ||| c == '\u{2029}'
    ||| c == '\u{202f}'
    ||| c == '\u{205f}'
    ||| c == '\u{3000}'
}

pub fn is_whitespace(c: char) -> (b: bool)
    ensures
        b == is_ws(c),
{
    ('\u{9}' <= c && c <= '\u{d}') || c == ' ' || c == '\u{85}' || c == '\u{a0}' || c == '\u{1680}'
        || ('\u{2000}' <= c && c <= '\u{200a}') || c == '\u{2028}' || c == '\u{2029}' || c
        == '\u{202f}' || c == '\u{205f}' || c == '\u{3000}'
}

/// First index at or after `i` whose character is not whitespace (or the length).
pub open spec fn ws_end(s: Seq<char>, i: int) -> int
    decreases s.len() - i,
{
    if i >= s.len() {
        s.len() as int
    } else if is_ws(s[i]) {
        ws_end(s, i + 1)
    } else {
        i
    }
}

/// Length of the longest prefix of `s.take(j)` that does not end in whitespace.
pub open spec fn ws_trail(s: Seq<char>, j: int) -> int
    decreases j,
{
    if j <= 0 {
        0
    } else if is_ws(s[j - 1]) {
        ws_trail(s, j - 1)
    } else {
        j
    }
}

pub open spec fn trim_start(s: Seq<char>) -> Seq<char> {
    s.subrange(ws_end(s, 0), s.len() as int)
}

pub open spec fn trim_end(s: Seq<char>) -> Seq<char> {
    s.take(ws_trail(s, s.len() as int))
}

/// What `str::trim` gives back.
pub open spec fn trim(s: Seq<char>) -> Seq<char> {
    trim_end(trim_start(s))
}

/// `s.trim().is_empty()`
pub open spec fn is_blank(s: Seq<char>) -> bool {
    trim(s).len() == 0
}

pub open spec fn starts_with(s: Seq<char>, p: Seq<char>) -> bool {
    p.len() <= s.len() && s.take(p.len() as int) == p
}

pub open spec fn ends_with(s: Seq<char>, p: Seq<char>) -> bool {
    p.len() <= s.len() && s.skip(s.len() - p.len()) == p
}

/// `s` repeated `n` times.
pub open spec fn repeat(s: Seq<char>, n: nat) -> Seq<char>
    decreases n,
{
    if n == 0 {
        Seq::empty()
    } else {
        repeat(s, (n - 1) as nat) + s
    }
}

/// The parts joined by `sep`.
pub open spec fn join(parts: Seq<Seq<char>>, sep: Seq<char>) -> Seq<char>
    decreases parts.len(),
{
    if parts.len() == 0 {
        Seq::empty()
    } else if parts.len() == 1 {
        parts[0]
    } else {
        join(parts.drop_last(), sep) + sep + parts.last()
    }
}

/// All parts one after the other.
pub open spec fn concat(parts: Seq<Seq<char>>) -> Seq<char>
    decreases parts.len(),
{
    if parts.len() == 0 {
        Seq::empty()
    } else {
        concat(parts.drop_last()) + parts.last()
    }
}

/// Index of the first `'\n'` at or after `i` (or the length).
pub open spec fn next_nl(s: Seq<char>, i: int) -> int
    decreases s.len() - i,
{
    if i >= s.len() {
        s.len() as int
    } else if s[i] == '\n' {
        i
    } else {
        next_nl(s, i + 1)
    }
}

pub proof fn lemma_next_nl_bounds(s: Seq<char>, i: int)
    requires
        0 <= i,
    ensures
        i <= s.len() ==> i <= next_nl(s, i) <= s.len(),
        next_nl(s, i) < s.len() ==> s[next_nl(s, i)] == '\n',
        forall|k: int| i <= k < next_nl(s, i) ==> s[k] != '\n',
    decreases s.len() - i,
{
    if i < s.len() && s[i] != '\n' {
        lemma_next_nl_bounds(s, i + 1);
    }
}

/// The character sequences of a vector of character vectors.
pub open spec fn views(v: Seq<Vec<char>>) -> Seq<Seq<char>> {
    v.map_values(|x: Vec<char>| x@)
}

pub open spec fn strip_cr(l: Seq<char>) -> Seq<char> {
    if l.len() > 0 && l.last() == '\r' {
        l.drop_last()
    } else {
        l
    }
}

pub open spec fn lines_from(s: Seq<char>, i: int) -> Seq<Seq<char>>
    decreases s.len() - i,
{
    if i < 0 || i >= s.len() {
        Seq::empty()
    } else {
        let e = next_nl(s, i);
        if e >= s.len() {
            seq![s.subrange(i, s.len() as int)]
        } else {
            proof {
                lemma_next_nl_bounds(s, i);
            }
            seq![strip_cr(s.subrange(i, e))] + lines_from(s, e + 1)
        }
    }
}

/// What `str::lines` yields.
pub open spec fn lines(s: Seq<char>) -> Seq<Seq<char>> {
    lines_from(s, 0)
}

/// `s` with every occurrence of `from` replaced by `to` (a single character pattern).
pub open spec fn replace_char(s: Seq<char>, from: char, to: Seq<char>) -> Seq<char>
    decreases s.len(),
{
    if s.len() == 0 {
        Seq::empty()
    } else {
        replace_char(s.drop_last(), from, to) + (if s.last() == from {
            to
        } else {
            seq![s.last()]
        })
    }
}

pub proof fn lemma_repeat_add(s: Seq<char>, a: nat, b: nat)
    ensures
        repeat(s, a + b) == repeat(s, a) + repeat(s, b),
    decreases b,
{
    if b == 0 {
        assert(repeat(s, a) + repeat(s, 0) =~= repeat(s, a));
    } else {
        lemma_repeat_add(s, a, (b - 1) as nat);
        assert(repeat(s, a + b) == repeat(s, (a + b - 1) as nat) + s);
        assert(repeat(s, a) + repeat(s, b) =~= repeat(s, a) + repeat(s, (b - 1) as nat) + s);
    }
}

pub proof fn lemma_ws_end_bounds(s: Seq<char>, i: int)
    requires
        0 <= i <= s.len(),
    ensures
        i <= ws_end(s, i) <= s.len(),
        forall|k: int| i <= k < ws_end(s, i) ==> is_ws(s[k]),
        ws_end(s, i) < s.len() ==> !is_ws(s[ws_end(s, i)]),
    decreases s.len() - i,
{
    if i < s.len() && is_ws(s[i]) {
        lemma_ws_end_bounds(s, i + 1);
    }
}

pub proof fn lemma_ws_trail_bounds(s: Seq<char>, j: int)
    requires
        0 <= j <= s.len(),
    ensures
        0 <= ws_trail(s, j) <= j,
        forall|k: int| ws_trail(s, j) <= k < j ==> is_ws(s[k]),
        ws_trail(s, j) > 0 ==> !is_ws(s[ws_trail(s, j) - 1]),
    decreases j,
{
    if j > 0 && is_ws(s[j - 1]) {
        lemma_ws_trail_bounds(s, j - 1);
    }
}

/// A sequence is blank exactly when all of its characters are whitespace.
pub proof fn lemma_blank_iff_all_ws(s: Seq<char>)
    ensures
        is_blank(s) <==> (forall|k: int| 0 <= k < s.len() ==> is_ws(s[k])),
        is_blank(s) <==> ws_end(s, 0) == s.len(),
{
    lemma_ws_end_bounds(s, 0);
    let t = trim_start(s);
    lemma_ws_trail_bounds(t, t.len() as int);
    if ws_end(s, 0) < s.len() {
        assert(t[0] == s[ws_end(s, 0)]);
        if ws_trail(t, t.len() as int) == 0 {
            assert(is_ws(t[0]));
        }
    }
}

// ---------------------------------------------------------------------------
// Executable helpers over character vectors.
/// Calls `String::push`. Claimed: the string afterwards is the old one with the character
/// appended.
#[verifier::external_body]
fn push_char_to_string(s: &mut String, c: char)
    ensures
        final(s)@ == old(s)@.push(c),
{
    s.push(c)
}

/// The characters of a string.
pub fn chars_of(s: &str) -> (v: Vec<char>)
    ensures
        v@ == s@,
{
    let mut v: Vec<char> = Vec::new();
    for c in it: s.chars()
        invariant
            v@ == it.seq().take(it.index() as int),
    {
        v.push(c);
    }
    v
}

/// The string made of the given characters.
pub fn string_of(v: &Vec<char>) -> (s: String)
    ensures
        s@ == v@,
{
    let mut s = String::new();
    let mut i: usize = 0;
    while i < v.len()
        invariant
            i <= v.len(),
            s@ == v@.take(i as int),
        decreases v.len() - i,
    {
        push_char_to_string(&mut s, v[i]);
        proof {
            assert(v@.take(i + 1) == v@.take(i as int).push(v@[i as int]));
        }
        i = i + 1;
    }
    proof {
        assert(v@.take(v.len() as int) == v@);
    }
    s
}

/// Appends all characters of `s` to `out`.
pub fn push_all(out: &mut Vec<char>, s: &Vec<char>)
    ensures
        final(out)@ == old(out)@ + s@,
{
    let mut i: usize = 0;
    while i < s.len()
        invariant
            i <= s.len(),
            out@ == old(out)@ + s@.take(i as int),
        decreases s.len() - i,
    {
        out.push(s[i]);
        proof {
            assert(s@.take(i + 1) == s@.take(i as int).push(s@[i as int]));
        }
        i = i + 1;
    }
    proof {
        assert(s@.take(s.len() as int) == s@);
    }
}

/// Appends all characters of the string `s` to `out`.
pub fn push_str(out: &mut Vec<char>, s: &str)
    ensures
        final(out)@ == old(out)@ + s@,
{
    let v = chars_of(s);
    push_all(out, &v);
}

/// Appends `s` `n` times.
pub fn push_repeat(out: &mut Vec<char>, s: &Vec<char>, n: usize)
    ensures
        final(out)@ == old(out)@ + repeat(s@, n as nat),
{
    let mut i: usize = 0;
    while i < n
        invariant
            i <= n,
            out@ == old(out)@ + repeat(s@, i as nat),
        decreases n - i,
    {
        push_all(out, s);
        proof {
            assert(repeat(s@, (i + 1) as nat) == repeat(s@, i as nat) + s@);
        }
        i = i + 1;
    }
}

/// `s.subrange(lo, hi)`
pub fn slice_of(s: &Vec<char>, lo: usize, hi: usize) -> (r: Vec<char>)
    requires
        lo <= hi <= s.len(),
    ensures
        r@ == s@.subrange(lo as int, hi as int),
{
    let mut r: Vec<char> = Vec::new();
    let mut i: usize = lo;
    while i < hi
        invariant
            lo <= i <= hi <= s.len(),
            r@ == s@.subrange(lo as int, i as int),
        decreases hi - i,
    {
        r.push(s[i]);
        proof {
            assert(s@.subrange(lo as int, i + 1) == s@.subrange(lo as int, i as int).push(
                s@[i as int],
            ));
        }
        i = i + 1;
    }
    r
}

pub fn copy_chars(s: &Vec<char>) -> (r: Vec<char>)
    ensures
        r@ == s@,
{
    let r = slice_of(s, 0, s.len());
    proof {
        assert(s@.subrange(0, s@.len() as int) == s@);
    }
    r
}

pub fn ws_end_exec(s: &Vec<char>, i: usize) -> (e: usize)
    requires
        i <= s.len(),
    ensures
        e == ws_end(s@, i as int),
{
    let mut k = i;
    while k < s.len() && is_whitespace(s[k])
        invariant
            i <= k <= s.len(),
            ws_end(s@, i as int) == ws_end(s@, k as int),
        decreases s.len() - k,
    {
        k = k + 1;
    }
    k
}

pub fn ws_trail_exec(s: &Vec<char>, j: usize) -> (e: usize)
    requires
        j <= s.len(),
    ensures
        e == ws_trail(s@, j as int),
{
    let mut k = j;
    while k > 0 && is_whitespace(s[k - 1])
        invariant
            k <= j <= s.len(),
            ws_trail(s@, j as int) == ws_trail(s@, k as int),
        decreases k,
    {
        k = k - 1;
    }
    k
}

pub fn trim_start_vec(s: &Vec<char>) -> (r: Vec<char>)
    ensures
        r@ == trim_start(s@),
{
    let e = ws_end_exec(s, 0);
    proof {
        lemma_ws_end_bounds(s@, 0);
    }
    slice_of(s, e, s.len())
}

pub fn trim_end_vec(s: &Vec<char>) -> (r: Vec<char>)
    ensures
        r@ == trim_end(s@),
{
    let e = ws_trail_exec(s, s.len());
    proof {
        lemma_ws_trail_bounds(s@, s@.len() as int);
    }
    slice_of(s, 0, e)
}

pub fn trim_vec(s: &Vec<char>) -> (r: Vec<char>)
    ensures
        r@ == trim(s@),
{
    let t = trim_start_vec(s);
    trim_end_vec(&t)
}

pub fn is_blank_vec(s: &Vec<char>) -> (b: bool)
    ensures
        b == is_blank(s@),
{
    proof {
        lemma_blank_iff_all_ws(s@);
    }
    ws_end_exec(s, 0) == s.len()
}

pub fn starts_with_vec(s: &Vec<char>, p: &Vec<char>) -> (b: bool)
    ensures
        b == starts_with(s@, p@),
{
    if p.len() > s.len() {
        return false;
    }
    let mut i: usize = 0;
    while i < p.len()
        invariant
            p.len() <= s.len(),
            i <= p.len(),
            s@.take(i as int) == p@.take(i as int),
        decreases p.len() - i,
    {
        if s[i] != p[i] {
            proof {
                assert(s@.take(p.len() as int)[i as int] != p@[i as int]);
            }
            return false;
        }
        proof {
            assert(s@.take(i + 1) == s@.take(i as int).push(s@[i as int]));
            assert(p@.take(i + 1) == p@.take(i as int).push(p@[i as int]));
        }
        i = i + 1;
    }
    proof {
        assert(p@.take(p.len() as int) == p@);
    }
    true
}

pub fn starts_with_str(s: &Vec<char>, p: &str) -> (b: bool)
    ensures
        b == starts_with(s@, p@),
{
    let pv = chars_of(p);
    starts_with_vec(s, &pv)
}

pub fn ends_with_vec(s: &Vec<char>, p: &Vec<char>) -> (b: bool)
    ensures
        b == ends_with(s@, p@),
{
    if p.len() > s.len() {
        return false;
    }
    let t = slice_of(s, s.len() - p.len(), s.len());
    proof {
        assert(t@ == s@.skip(s@.len() - p@.len()));
    }
    eq_vec(&t, p)
}

pub fn eq_vec(a: &Vec<char>, b: &Vec<char>) -> (r: bool)
    ensures
        r == (a@ == b@),
{
    if a.len() != b.len() {
        return false;
    }
    let r = starts_with_vec(a, b);
    proof {
        assert(a@.take(b@.len() as int) =~= a@);
    }
    r
}

pub fn eq_str(a: &Vec<char>, b: &str) -> (r: bool)
    ensures
        r == (a@ == b@),
{
    let bv = chars_of(b);
    eq_vec(a, &bv)
}

pub fn next_nl_exec(s: &Vec<char>, i: usize) -> (e: usize)
    requires
        i <= s.len(),
    ensures
        e == next_nl(s@, i as int),
{
    let mut k = i;
    while k < s.len() && s[k] != '\n'
        invariant
            i <= k <= s.len(),
            next_nl(s@, i as int) == next_nl(s@, k as int),
        decreases s.len() - k,
    {
        k = k + 1;
    }
    k
}

pub fn strip_cr_vec(l: Vec<char>) -> (r: Vec<char>)
    ensures
        r@ == strip_cr(l@),
{
    let mut l = l;
    if l.len() > 0 && l[l.len() - 1] == '\r' {
        l.pop();
    }
    l
}

/// The lines of `s` as `str::lines` yields them.
pub fn lines_vec(s: &Vec<char>) -> (r: Vec<Vec<char>>)
    ensures
        views(r@) == lines(s@),
{
    let mut r: Vec<Vec<char>> = Vec::new();
    let mut i: usize = 0;
    while i < s.len()
        invariant
            i <= s.len(),
            views(r@) + lines_from(s@, i as int) == lines(s@),
        decreases s.len() - i,
    {
        let e = next_nl_exec(s, i);
        proof {
            lemma_next_nl_bounds(s@, i as int);
        }
        let ghost old_r = views(r@);
        if e >= s.len() {
            let piece = slice_of(s, i, s.len());
            r.push(piece);
            proof {
                assert(views(r@) =~= old_r.push(piece@));
                assert(lines_from(s@, s@.len() as int) == Seq::<Seq<char>>::empty());
                assert(views(r@) + lines_from(s@, s@.len() as int) == old_r + lines_from(
                    s@,
                    i as int,
                ));
            }
            i = s.len();
        } else {
            let piece = strip_cr_vec(slice_of(s, i, e));
            r.push(piece);
            proof {
                assert(views(r@) =~= old_r.push(piece@));
                assert(views(r@) + lines_from(s@, e + 1) == old_r + lines_from(s@, i as int));
            }
            i = e + 1;
        }
    }
    proof {
        assert(lines_from(s@, i as int) == Seq::<Seq<char>>::empty());
        assert(views(r@) + Seq::<Seq<char>>::empty() == views(r@));
    }
    r
}

/// `s` with every `from` replaced by `to`.
pub fn replace_char_vec(s: &Vec<char>, from: char, to: &Vec<char>) -> (r: Vec<char>)
    ensures
        r@ == replace_char(s@, from, to@),
{
    let mut r: Vec<char> = Vec::new();
    let mut i: usize = 0;
    while i < s.len()
        invariant
            i <= s.len(),
            r@ == replace_char(s@.take(i as int), from, to@),
        decreases s.len() - i,
    {
        proof {
            assert(s@.take(i + 1).drop_last() == s@.take(i as int));
        }
        if s[i] == from {
            push_all(&mut r, to);
        } else {
            r.push(s[i]);
        }
        i = i + 1;
    }
    proof {
        assert(s@.take(s.len() as int) == s@);
    }
    r
}

} // verus!
