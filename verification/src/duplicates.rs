//! Resolving notes with similar names: ordering them by the date in their frontmatter, reading
//! what the user chose for each, and remembering pairs that are to be left alone.
use vstd::prelude::*;
use crate::config::strs_v;
use crate::document::{DocumentComponent, DocumentElement, ElementV, ParsedDocument, PropValue, PropValueV, PropertyV, props_v, pvs_v};
use crate::order::{lemma_seq_lt_order, seq_lt, str_lt};
use crate::search::{Selector, find_pd};
use crate::ui_state::{SimilarNameResolution, has_main, paths_of, resolutions_of};

verus! {

/// Accepts frontmatter blocks.
pub struct FrontmatterSelector;

impl Selector for FrontmatterSelector {
    open spec fn accepts(&self, c: DocumentComponent) -> bool {
        c.element is Frontmatter
    }

    open spec fn usable(&self) -> bool {
        true
    }

    fn select(&self, c: &DocumentComponent) -> (b: bool) {
        match &c.element {
            DocumentElement::Frontmatter(_) => true,
            _ => false,
        }
    }
}

/// The index of the first property named `date`, or -1.
pub open spec fn first_date_prop(props: Seq<PropertyV>) -> int
    decreases props.len(),
{
    if props.len() == 0 {
        -1
    } else if first_date_prop(props.drop_last()) >= 0 {
        first_date_prop(props.drop_last())
    } else if props.last().name == "date"@ {
        props.len() - 1
    } else {
        -1
    }
}

/// The date of a note: the first value of the first property `date` of its first frontmatter
/// block, where that value is text.
pub open spec fn note_date(pd: ParsedDocument) -> Option<Seq<char>> {
    match find_pd(pd, FrontmatterSelector) {
        Some(c) => match c@.element {
            ElementV::Frontmatter(props) => {
                let i = first_date_prop(props);
                if i >= 0 && props[i].values.len() > 0 {
                    match props[i].values[0] {
                        PropValueV::Str(s) => Some(s),
                        _ => None,
                    }
                } else {
                    None
                }
            },
            _ => None,
        },
        None => None,
    }
}

/// The date of the note (see `note_date`).
pub fn document_date(pd: &ParsedDocument) -> (r: Option<String>)
    ensures
        crate::paths::opt_view(r) == note_date(*pd),
{
    match pd.get_document_component(&FrontmatterSelector) {
        Some(c) => match &c.element {
            DocumentElement::Frontmatter(props) => {
                let ghost pv = props_v(props@);
                let mut i: usize = 0;
                while i < props.len() && !props[i].has_name("date")
                    invariant
                        i <= props@.len(),
                        pv == props_v(props@),
                        first_date_prop(pv.take(i as int)) == -1,
                    decreases props.len() - i,
                {
                    proof {
                        assert(pv.take(i + 1).drop_last() =~= pv.take(i as int));
                        assert(pv[i as int] == props@[i as int]@);
                    }
                    i = i + 1;
                }
                proof {
                    if i < props@.len() {
                        assert(pv[i as int] == props@[i as int]@);
                        assert(pv.take(i + 1).drop_last() =~= pv.take(i as int));
                        lemma_first_date_prefix(pv, i as int + 1);
                    } else {
                        assert(pv.take(i as int) =~= pv);
                    }
                }
                if i < props.len() && props[i].values.len() > 0 {
                    proof {
                        assert(pv[i as int].values == pvs_v(props@[i as int].values@));
                        assert(pv[i as int].values[0] == props@[i as int].values@[0]@);
                    }
                    match &props[i].values[0] {
                        PropValue::String(s) => Some(s.clone()),
                        _ => None,
                    }
                } else {
                    None
                }
            },
            _ => None,
        },
        None => None,
    }
}

proof fn lemma_first_date_prefix(props: Seq<PropertyV>, n: int)
    requires
        0 < n <= props.len(),
        first_date_prop(props.take(n)) == n - 1,
    ensures
        first_date_prop(props) == n - 1,
    decreases props.len(),
{
    if n < props.len() {
        assert(props.drop_last().take(n) =~= props.take(n));
        lemma_first_date_prefix(props.drop_last(), n);
    } else {
        assert(props.take(n) =~= props);
    }
}

// ---------------------------------------------------------------------------
/// Entry `a` comes before entry `b`: it has the earlier date, or the same date and comes
/// first (a stable sort by date).
pub open spec fn date_before(dates: Seq<Seq<char>>, a: int, b: int) -> bool {
    seq_lt(dates[a], dates[b]) || (dates[a] == dates[b] && a < b)
}

/// The order is a permutation of the entries.
pub open spec fn is_order(r: Seq<usize>, n: int) -> bool {
    &&& r.len() == n
    &&& r.no_duplicates()
    &&& forall|i: int| 0 <= i < r.len() ==> (#[trigger] r[i]) < n
}

proof fn lemma_insert_order(ds: Seq<Seq<char>>, s: Seq<usize>, k: usize, p: int)
    requires
        0 <= p <= s.len(),
        0 <= k < ds.len(),
        forall|m: int| 0 <= m < s.len() ==> (#[trigger] s[m]) < k,
        forall|i: int, j: int| 0 <= i < j < s.len() ==> date_before(ds, #[trigger] s[i] as int, #[trigger] s[j] as int),
        forall|m: int| 0 <= m < p ==> !seq_lt(ds[k as int], #[trigger] ds[s[m] as int]),
        p < s.len() ==> seq_lt(ds[k as int], ds[s[p] as int]),
    ensures
        forall|i: int, j: int|
            0 <= i < j < s.len() + 1 ==> date_before(ds, #[trigger] s.insert(p, k)[i] as int, #[trigger] s.insert(p, k)[j] as int),
{
    lemma_seq_lt_order();
    let r = s.insert(p, k);
    assert forall|i: int, j: int| 0 <= i < j < s.len() + 1 implies date_before(ds, #[trigger] r[i] as int, #[trigger] r[j] as int) by {
        if j < p {
            assert(r[i] == s[i] && r[j] == s[j]);
        } else if j == p {
            assert(r[i] == s[i]);
            assert(r[j] == k);
            assert(!seq_lt(ds[k as int], ds[s[i] as int]));
            if ds[k as int] != ds[s[i] as int] {
                assert(seq_lt(ds[s[i] as int], ds[k as int]));
            }
        } else if i < p {
            assert(r[i] == s[i] && r[j] == s[j - 1]);
            assert(date_before(ds, s[i] as int, s[j - 1] as int));
        } else if i == p {
            assert(r[i] == k);
            assert(r[j] == s[j - 1]);
            if j - 1 > p {
                assert(date_before(ds, s[p] as int, s[j - 1] as int));
                if seq_lt(ds[s[p] as int], ds[s[j - 1] as int]) {
                    assert(seq_lt(ds[k as int], ds[s[j - 1] as int]));
                } else {
                    assert(ds[s[p] as int] == ds[s[j - 1] as int]);
                }
            }
        } else {
            assert(r[i] == s[i - 1] && r[j] == s[j - 1]);
        }
    }
}

/// The entries in the order of a stable sort by their dates: the positions of the entries,
/// earliest date first, entries with the same date in their given order.
pub fn date_order(dates: &[String]) -> (r: Vec<usize>)
    ensures
        is_order(r@, dates@.len() as int),
        forall|i: int, j: int|
            0 <= i < j < r@.len() ==> date_before(strs_v(dates@), #[trigger] r@[i] as int, #[trigger] r@[j] as int),
{
    proof {
        lemma_seq_lt_order();
    }
    let ghost ds = strs_v(dates@);
    let mut r: Vec<usize> = Vec::new();
    let mut k: usize = 0;
    while k < dates.len()
        invariant
            k <= dates@.len(),
            ds == strs_v(dates@),
            is_order(r@, k as int),
            forall|i: int, j: int| 0 <= i < j < r@.len() ==> date_before(ds, #[trigger] r@[i] as int, #[trigger] r@[j] as int),
        decreases dates.len() - k,
    {
        let mut p: usize = 0;
        while p < r.len() && !str_lt(dates[k].as_str(), dates[r[p]].as_str())
            invariant
                p <= r@.len(),
                k < dates@.len(),
                ds == strs_v(dates@),
                is_order(r@, k as int),
                forall|m: int| 0 <= m < p ==> !seq_lt(ds[k as int], #[trigger] ds[r@[m] as int]),
            decreases r.len() - p,
        {
            proof {
                assert(ds[r@[p as int] as int] == dates@[r@[p as int] as int]@);
                assert(ds[k as int] == dates@[k as int]@);
            }
            p = p + 1;
        }
        proof {
            if p < r@.len() {
                assert(ds[r@[p as int] as int] == dates@[r@[p as int] as int]@);
                assert(ds[k as int] == dates@[k as int]@);
            }
        }
        let ghost s = r@;
        r.insert(p, k);
        proof {
            assert(r@ =~= s.insert(p as int, k));
            assert forall|i: int| 0 <= i < r@.len() implies (#[trigger] r@[i]) < k + 1 by {
                if i < p {
                    assert(r@[i] == s[i]);
                } else if i > p {
                    assert(r@[i] == s[i - 1]);
                }
            }
            assert(r@.no_duplicates()) by {
                assert forall|a: int, b: int| 0 <= a < b < r@.len() implies r@[a] != r@[b] by {
                    if a < p && b < p {
                    } else if a < p && b == p {
                        assert(s[a] < k);
                    } else if a < p {
                        assert(r@[b] == s[b - 1]);
                    } else if a == p {
                        assert(r@[b] == s[b - 1]);
                        assert(s[b - 1] < k);
                    } else {
                        assert(r@[a] == s[a - 1] && r@[b] == s[b - 1]);
                    }
                }
            }
            lemma_insert_order(ds, s, k, p as int);
        }
        k = k + 1;
    }
    r
}

/// The resolutions a cluster starts with: the first file is the main one, the others are
/// skipped.
pub fn initial_resolutions(paths: Vec<String>) -> (r: Vec<(String, SimilarNameResolution)>)
    ensures
        paths_of(r@) == strs_v(paths@),
        forall|i: int|
            0 <= i < r@.len() ==> (#[trigger] r@[i]).1 == (if i == 0 {
                SimilarNameResolution::Main
            } else {
                SimilarNameResolution::Skip
            }),
{
    let mut r: Vec<(String, SimilarNameResolution)> = Vec::new();
    let mut i: usize = 0;
    while i < paths.len()
        invariant
            i <= paths@.len(),
            paths_of(r@) == strs_v(paths@).take(i as int),
            forall|k: int|
                0 <= k < r@.len() ==> (#[trigger] r@[k]).1 == (if k == 0 {
                    SimilarNameResolution::Main
                } else {
                    SimilarNameResolution::Skip
                }),
        decreases paths.len() - i,
    {
        let res = if i == 0 { SimilarNameResolution::Main } else { SimilarNameResolution::Skip };
        let ghost before = r@;
        r.push((paths[i].clone(), res));
        proof {
            assert(paths_of(r@) =~= paths_of(before).push(paths@[i as int]@));
            assert(strs_v(paths@).take(i + 1) =~= strs_v(paths@).take(i as int).push(paths@[i as int]@));
        }
        i = i + 1;
    }
    proof {
        assert(strs_v(paths@).take(paths@.len() as int) =~= strs_v(paths@));
    }
    r
}

/// What the user chose for a cluster: the main file, the files to delete (with the index of
/// their note), and the pairs (main file, file) to leave alone from now on.
pub struct ClusterOutcome {
    pub main: String,
    pub delete: Vec<(String, usize)>,
    pub ignore: Vec<(String, String)>,
}

/// The first main file.
pub open spec fn first_main(rs: Seq<SimilarNameResolution>) -> int
    decreases rs.len(),
{
    if rs.len() == 0 {
        -1
    } else if first_main(rs.drop_last()) >= 0 {
        first_main(rs.drop_last())
    } else if rs.last() == SimilarNameResolution::Main {
        rs.len() - 1
    } else {
        -1
    }
}

/// The entries marked `res`, each with the value at its position, in order.
pub open spec fn marked<T>(rs: Seq<SimilarNameResolution>, vals: Seq<T>, res: SimilarNameResolution) -> Seq<T>
    decreases rs.len(),
{
    if rs.len() == 0 || vals.len() < rs.len() {
        Seq::empty()
    } else {
        marked(rs.drop_last(), vals, res) + if rs.last() == res {
            seq![vals[rs.len() - 1]]
        } else {
            Seq::empty()
        }
    }
}

proof fn lemma_first_main_some(rs: Seq<SimilarNameResolution>, k: int)
    requires
        0 <= k < rs.len(),
        rs[k] == SimilarNameResolution::Main,
    ensures
        0 <= first_main(rs) <= k,
        rs[first_main(rs)] == SimilarNameResolution::Main,
    decreases rs.len(),
{
    if k < rs.len() - 1 {
        lemma_first_main_some(rs.drop_last(), k);
    } else if first_main(rs.drop_last()) >= 0 {
        lemma_first_main_range(rs.drop_last());
    }
}

proof fn lemma_first_main_range(rs: Seq<SimilarNameResolution>)
    ensures
        first_main(rs) >= 0 ==> first_main(rs) < rs.len() && rs[first_main(rs)] == SimilarNameResolution::Main,
    decreases rs.len(),
{
    if rs.len() > 0 {
        lemma_first_main_range(rs.drop_last());
    }
}

/// Reads the user's choices: the first main file, the files marked for removal with their
/// notes' indices, and for each file marked to be ignored the pair (main file, file).
pub fn cluster_outcome(file_paths: &[(String, SimilarNameResolution)], note_indices: &[usize]) -> (r: ClusterOutcome)
    requires
        has_main(file_paths@),
        note_indices@.len() == file_paths@.len(),
    ensures
        ({
            let rs = resolutions_of(file_paths@);
            let ps = paths_of(file_paths@);
            let m = first_main(rs);
            &&& 0 <= m < ps.len()
            &&& r.main@ == ps[m]
            &&& r.delete@.map_values(|d: (String, usize)| (d.0@, d.1)) == marked(
                rs,
                Seq::new(ps.len(), |i: int| (ps[i], note_indices@[i])),
                SimilarNameResolution::Remove,
            )
            &&& r.ignore@.map_values(|d: (String, String)| (d.0@, d.1@)) == marked(
                rs,
                Seq::new(ps.len(), |i: int| (ps[m], ps[i])),
                SimilarNameResolution::Ignore,
            )
        }),
{
    let ghost rs = resolutions_of(file_paths@);
    let ghost ps = paths_of(file_paths@);
    let mut m: usize = 0;
    while m < file_paths.len() && file_paths[m].1 != SimilarNameResolution::Main
        invariant
            m <= file_paths@.len(),
            rs == resolutions_of(file_paths@),
            first_main(rs.take(m as int)) == -1,
        decreases file_paths.len() - m,
    {
        proof {
            assert(rs.take(m + 1).drop_last() =~= rs.take(m as int));
        }
        m = m + 1;
    }
    proof {
        let k = choose|k: int| 0 <= k < file_paths@.len() && (#[trigger] file_paths@[k]).1 == SimilarNameResolution::Main;
        assert(rs[k] == SimilarNameResolution::Main);
        lemma_first_main_some(rs, k);
        if m >= file_paths@.len() {
            assert(rs.take(m as int) =~= rs);
        }
        assert(m < file_paths@.len());
        assert(rs.take(m + 1).drop_last() =~= rs.take(m as int));
        assert(first_main(rs.take(m + 1)) == m);
        lemma_first_main_prefix(rs, m as int + 1);
    }
    let main = file_paths[m].0.clone();
    let ghost dvals = Seq::new(ps.len(), |i: int| (ps[i], note_indices@[i]));
    let ghost ivals = Seq::new(ps.len(), |i: int| (ps[m as int], ps[i]));
    let mut delete: Vec<(String, usize)> = Vec::new();
    let mut ignore: Vec<(String, String)> = Vec::new();
    let mut i: usize = 0;
    while i < file_paths.len()
        invariant
            i <= file_paths@.len() == note_indices@.len(),
            rs == resolutions_of(file_paths@),
            ps == paths_of(file_paths@),
            m < ps.len(),
            main@ == ps[m as int],
            dvals == Seq::new(ps.len(), |i: int| (ps[i], note_indices@[i])),
            ivals == Seq::new(ps.len(), |i: int| (ps[m as int], ps[i])),
            delete@.map_values(|d: (String, usize)| (d.0@, d.1)) == marked(rs.take(i as int), dvals, SimilarNameResolution::Remove),
            ignore@.map_values(|d: (String, String)| (d.0@, d.1@)) == marked(rs.take(i as int), ivals, SimilarNameResolution::Ignore),
        decreases file_paths.len() - i,
    {
        let ghost db = delete@.map_values(|d: (String, usize)| (d.0@, d.1));
        let ghost ib = ignore@.map_values(|d: (String, String)| (d.0@, d.1@));
        proof {
            assert(rs.take(i + 1).drop_last() =~= rs.take(i as int));
            assert(rs.take(i + 1).last() == file_paths@[i as int].1);
            assert(ps[i as int] == file_paths@[i as int].0@);
        }
        if file_paths[i].1 == SimilarNameResolution::Remove {
            delete.push((file_paths[i].0.clone(), note_indices[i]));
            proof {
                assert(delete@.map_values(|d: (String, usize)| (d.0@, d.1)) =~= db.push(dvals[i as int]));
            }
        } else if file_paths[i].1 == SimilarNameResolution::Ignore {
            ignore.push((main.clone(), file_paths[i].0.clone()));
            proof {
                assert(ignore@.map_values(|d: (String, String)| (d.0@, d.1@)) =~= ib.push(ivals[i as int]));
            }
        }
        i = i + 1;
    }
    proof {
        assert(rs.take(file_paths@.len() as int) =~= rs);
    }
    ClusterOutcome { main, delete, ignore }
}

proof fn lemma_first_main_prefix(rs: Seq<SimilarNameResolution>, n: int)
    requires
        0 < n <= rs.len(),
        first_main(rs.take(n)) == n - 1,
    ensures
        first_main(rs) == n - 1,
    decreases rs.len(),
{
    if n < rs.len() {
        assert(rs.drop_last().take(n) =~= rs.take(n));
        lemma_first_main_prefix(rs.drop_last(), n);
    } else {
        assert(rs.take(n) =~= rs);
    }
}

// ---------------------------------------------------------------------------
/// Pairs of files whose similar names are to be left alone.
pub struct IgnoredSimilarFiles {
    pub ignore_similar: Vec<(String, String)>,
}

pub open spec fn pairs_of(v: Seq<(String, String)>) -> Seq<(Seq<char>, Seq<char>)> {
    v.map_values(|p: (String, String)| (p.0@, p.1@))
}

/// The pair is noted, in either order.
pub open spec fn ignores(v: Seq<(Seq<char>, Seq<char>)>, a: Seq<char>, b: Seq<char>) -> bool {
    exists|i: int| 0 <= i < v.len() && ((#[trigger] v[i]) == (a, b) || v[i] == (b, a))
}

impl IgnoredSimilarFiles {
    /// The pair of files is to be left alone (in either order).
    pub fn contains(&self, a: &String, b: &String) -> (r: bool)
        ensures
            r == ignores(pairs_of(self.ignore_similar@), a@, b@),
    {
        let ghost v = pairs_of(self.ignore_similar@);
        let mut i: usize = 0;
        while i < self.ignore_similar.len()
            invariant
                i <= self.ignore_similar@.len(),
                v == pairs_of(self.ignore_similar@),
                forall|k: int| 0 <= k < i ==> !((#[trigger] v[k]) == (a@, b@) || v[k] == (b@, a@)),
            decreases self.ignore_similar.len() - i,
        {
            let (x, y) = &self.ignore_similar[i];
            if (*x == *a && *y == *b) || (*x == *b && *y == *a) {
                proof {
                    assert(v[i as int] == (x@, y@));
                }
                return true;
            }
            proof {
                assert(v[i as int] == (x@, y@));
            }
            i = i + 1;
        }
        false
    }

    /// Notes the pair unless it is noted; tells whether it was added (and is to be saved).
    pub fn ensure_contains(&mut self, a: &String, b: &String) -> (added: bool)
        ensures
            added == !ignores(pairs_of(old(self).ignore_similar@), a@, b@),
            pairs_of(final(self).ignore_similar@) == if added {
                pairs_of(old(self).ignore_similar@).push((a@, b@))
            } else {
                pairs_of(old(self).ignore_similar@)
            },
    {
        if !self.contains(a, b) {
            let ghost before = pairs_of(self.ignore_similar@);
            self.ignore_similar.push((a.clone(), b.clone()));
            proof {
                assert(pairs_of(self.ignore_similar@) =~= before.push((a@, b@)));
            }
            true
        } else {
            false
        }
    }
}

} // verus!
