//! The order of strings (character by character, as `str`'s `Ord` orders them: UTF-8 keeps the
//! order of code points), and sorted lists without repetitions.
use vstd::prelude::*;
use crate::config::strs_v;
use crate::text::chars_of;

verus! {

/// `a` comes before `b`, both compared from position `i` on.
pub open spec fn lt_from(a: Seq<char>, b: Seq<char>, i: int) -> bool
    decreases a.len() - i,
{
    if i < 0 || i >= a.len() {
        0 <= i < b.len()
    } else if i >= b.len() {
        false
    } else if a[i] != b[i] {
        (a[i] as int) < (b[i] as int)
    } else {
        lt_from(a, b, i + 1)
    }
}

/// `a` comes strictly before `b`: at the first position where they differ `a` has the smaller
/// character, or `a` is a proper prefix of `b`.
pub open spec fn seq_lt(a: Seq<char>, b: Seq<char>) -> bool {
    lt_from(a, b, 0)
}

proof fn lemma_lt_from_irreflexive(a: Seq<char>, i: int)
    requires
        0 <= i,
    ensures
        !lt_from(a, a, i),
    decreases a.len() - i,
{
    if i < a.len() {
        lemma_lt_from_irreflexive(a, i + 1);
    }
}

proof fn lemma_lt_from_asymmetric(a: Seq<char>, b: Seq<char>, i: int)
    requires
        0 <= i,
        lt_from(a, b, i),
    ensures
        !lt_from(b, a, i),
    decreases a.len() - i,
{
    if i < a.len() && i < b.len() && a[i] == b[i] {
        lemma_lt_from_asymmetric(a, b, i + 1);
    }
}

proof fn lemma_lt_from_total(a: Seq<char>, b: Seq<char>, i: int)
    requires
        0 <= i <= a.len(),
        i <= b.len(),
        a.take(i) == b.take(i),
        !lt_from(a, b, i),
        !lt_from(b, a, i),
    ensures
        a == b,
    decreases a.len() - i,
{
    if i < a.len() && i < b.len() {
        if a[i] == b[i] {
            assert(a.take(i + 1) =~= a.take(i).push(a[i]));
            assert(b.take(i + 1) =~= b.take(i).push(b[i]));
            lemma_lt_from_total(a, b, i + 1);
        } else {
            assert((a[i] as int) != (b[i] as int));
        }
    } else {
        assert(a.len() == i && b.len() == i);
        assert(a =~= a.take(i));
        assert(b =~= b.take(i));
    }
}

proof fn lemma_lt_from_transitive(a: Seq<char>, b: Seq<char>, c: Seq<char>, i: int)
    requires
        0 <= i,
        lt_from(a, b, i),
        lt_from(b, c, i),
    ensures
        lt_from(a, c, i),
    decreases a.len() - i,
{
    if i < a.len() && i < b.len() && i < c.len() && a[i] == b[i] && b[i] == c[i] {
        lemma_lt_from_transitive(a, b, c, i + 1);
    }
}

/// The order is a strict total order.
pub proof fn lemma_seq_lt_order()
    ensures
        forall|a: Seq<char>| !#[trigger] seq_lt(a, a),
        forall|a: Seq<char>, b: Seq<char>| #[trigger] seq_lt(a, b) ==> !seq_lt(b, a),
        forall|a: Seq<char>, b: Seq<char>|
            a != b ==> #[trigger] seq_lt(a, b) || #[trigger] seq_lt(b, a),
        forall|a: Seq<char>, b: Seq<char>, c: Seq<char>|
            #[trigger] seq_lt(a, b) && #[trigger] seq_lt(b, c) ==> seq_lt(a, c),
{
    assert forall|a: Seq<char>| !#[trigger] seq_lt(a, a) by {
        lemma_lt_from_irreflexive(a, 0);
    }
    assert forall|a: Seq<char>, b: Seq<char>| #[trigger] seq_lt(a, b) implies !seq_lt(b, a) by {
        lemma_lt_from_asymmetric(a, b, 0);
    }
    assert forall|a: Seq<char>, b: Seq<char>|
        a != b implies #[trigger] seq_lt(a, b) || #[trigger] seq_lt(b, a) by {
        if !seq_lt(a, b) && !seq_lt(b, a) {
            assert(a.take(0) =~= b.take(0));
            lemma_lt_from_total(a, b, 0);
        }
    }
    assert forall|a: Seq<char>, b: Seq<char>, c: Seq<char>|
        #[trigger] seq_lt(a, b) && #[trigger] seq_lt(b, c) implies seq_lt(a, c) by {
        lemma_lt_from_transitive(a, b, c, 0);
    }
}

/// `a` comes strictly before `b`.
pub fn str_lt(a: &str, b: &str) -> (r: bool)
    ensures
        r == seq_lt(a@, b@),
{
    let x = chars_of(a);
    let y = chars_of(b);
    let mut i: usize = 0;
    while i < x.len() && i < y.len() && x[i] == y[i]
        invariant
            i <= x.len(),
            i <= y.len(),
            x@ == a@,
            y@ == b@,
            lt_from(a@, b@, i as int) == seq_lt(a@, b@),
        decreases x.len() - i,
    {
        i = i + 1;
    }
    if i >= x.len() {
        i < y.len()
    } else if i >= y.len() {
        false
    } else {
        x[i] < y[i]
    }
}

/// Each element comes strictly before every later one.
pub open spec fn strictly_sorted(s: Seq<Seq<char>>) -> bool {
    forall|i: int, j: int| 0 <= i < j < s.len() ==> seq_lt(#[trigger] s[i], #[trigger] s[j])
}


/// Inserts `x` into a strictly sorted list where it is not yet.
fn insert_sorted(v: &mut Vec<String>, x: String)
    requires
        strictly_sorted(strs_v(old(v)@)),
    ensures
        strictly_sorted(strs_v(final(v)@)),
        strs_v(final(v)@).to_set() == strs_v(old(v)@).to_set().insert(x@),
{
    proof {
        lemma_seq_lt_order();
    }
    let ghost s = strs_v(v@);
    let mut p: usize = 0;
    while p < v.len() && str_lt(v[p].as_str(), x.as_str())
        invariant
            p <= v.len(),
            s == strs_v(v@),
            forall|k: int| 0 <= k < p ==> seq_lt(#[trigger] s[k], x@),
        decreases v.len() - p,
    {
        p = p + 1;
    }
    if p < v.len() && !str_lt(x.as_str(), v[p].as_str()) {
        proof {
            assert(!seq_lt(s[p as int], x@));
            assert(s[p as int] == x@);
            assert(s.to_set().insert(x@) =~= s.to_set());
        }
        return;
    }
    proof {
        assert forall|k: int| p <= k < s.len() implies seq_lt(x@, #[trigger] s[k]) by {
            assert(!seq_lt(s[p as int], x@));
            assert(s[p as int] != x@);
            assert(seq_lt(x@, s[p as int]));
            if k > p {
                assert(seq_lt(s[p as int], s[k]));
            }
        }
    }
    v.insert(p, x);
    proof {
        let t = strs_v(v@);
        assert(t =~= s.insert(p as int, x@));
        assert forall|i: int, j: int| 0 <= i < j < t.len() implies seq_lt(
            #[trigger] t[i],
            #[trigger] t[j],
        ) by {
            if j < p {
                assert(t[i] == s[i] && t[j] == s[j]);
            } else if j == p {
                assert(t[i] == s[i]);
            } else if i < p {
                assert(t[i] == s[i] && t[j] == s[j - 1]);
                assert(seq_lt(s[i], x@));
                assert(seq_lt(x@, s[j - 1]));
            } else if i == p {
                assert(t[j] == s[j - 1]);
            } else {
                assert(t[i] == s[i - 1] && t[j] == s[j - 1]);
            }
        }
        assert forall|e: Seq<char>| t.to_set().contains(e) <==> s.to_set().insert(x@).contains(e) by {
            if t.to_set().contains(e) {
                let k = choose|k: int| 0 <= k < t.len() && t[k] == e;
                if k < p {
                    assert(s[k] == e);
                } else if k > p {
                    assert(s[k - 1] == e);
                }
            }
            if s.to_set().contains(e) {
                let k = choose|k: int| 0 <= k < s.len() && s[k] == e;
                if k < p {
                    assert(t[k] == e);
                } else {
                    assert(t[k + 1] == e);
                }
            }
            if e == x@ {
                assert(t[p as int] == e);
            }
        }
        assert(t.to_set() =~= s.to_set().insert(x@));
    }
}

/// The strings sorted, each once: what `sort` then `dedup` leave of them.
pub fn sorted_unique(v: &Vec<String>) -> (r: Vec<String>)
    ensures
        strictly_sorted(strs_v(r@)),
        strs_v(r@).to_set() == strs_v(v@).to_set(),
{
    let mut r: Vec<String> = Vec::new();
    let mut i: usize = 0;
    proof {
        assert(strs_v(r@).to_set() =~= strs_v(v@.take(0)).to_set());
    }
    while i < v.len()
        invariant
            i <= v.len(),
            strictly_sorted(strs_v(r@)),
            strs_v(r@).to_set() == strs_v(v@.take(i as int)).to_set(),
        decreases v.len() - i,
    {
        insert_sorted(&mut r, v[i].clone());
        proof {
            assert(strs_v(v@.take(i + 1)) =~= strs_v(v@.take(i as int)).push(v@[i as int]@));
            strs_v(v@.take(i as int)).lemma_push_to_set_commute(v@[i as int]@);
        }
        i = i + 1;
    }
    proof {
        assert(v@.take(v.len() as int) =~= v@);
    }
    r
}

/// A strictly sorted list is determined by its elements.
pub proof fn lemma_strictly_sorted_unique(a: Seq<Seq<char>>, b: Seq<Seq<char>>)
    requires
        strictly_sorted(a),
        strictly_sorted(b),
        a.to_set() == b.to_set(),
    ensures
        a == b,
    decreases a.len() + b.len(),
{
    lemma_seq_lt_order();
    if a.len() == 0 {
        if b.len() > 0 {
            assert(b.to_set().contains(b[0]));
        }
    } else if b.len() == 0 {
        assert(a.to_set().contains(a[0]));
    } else {
        let x = a.last();
        let y = b.last();
        assert(b.to_set().contains(x));
        assert(a.to_set().contains(y));
        let kx = choose|k: int| 0 <= k < b.len() && b[k] == x;
        let ky = choose|k: int| 0 <= k < a.len() && a[k] == y;
        if x != y {
            if seq_lt(x, y) {
                assert(ky != a.len() - 1);
                assert(seq_lt(a[ky], x));
            } else {
                assert(kx != b.len() - 1);
                assert(seq_lt(b[kx], y));
            }
        }
        let a0 = a.drop_last();
        let b0 = b.drop_last();
        assert forall|e: Seq<char>| a0.to_set().contains(e) <==> b0.to_set().contains(e) by {
            if a0.to_set().contains(e) {
                let k = choose|k: int| 0 <= k < a0.len() && a0[k] == e;
                assert(seq_lt(a[k], x));
                assert(b.to_set().contains(e));
                let m = choose|m: int| 0 <= m < b.len() && b[m] == e;
                assert(m != b.len() - 1);
                assert(b0[m] == e);
            }
            if b0.to_set().contains(e) {
                let k = choose|k: int| 0 <= k < b0.len() && b0[k] == e;
                assert(seq_lt(b[k], y));
                assert(a.to_set().contains(e));
                let m = choose|m: int| 0 <= m < a.len() && a[m] == e;
                assert(m != a.len() - 1);
                assert(a0[m] == e);
            }
        }
        assert(a0.to_set() =~= b0.to_set());
        lemma_strictly_sorted_unique(a0, b0);
        assert(a =~= a0.push(x));
        assert(b =~= b0.push(y));
    }
}

} // verus!
