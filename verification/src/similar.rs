//! Finding notes with similar names: names within an edit distance of each other are linked,
//! and the links are followed to one representative per cluster.
use vstd::prelude::*;
use crate::config::strs_v;
use crate::paths::components_of;

verus! {

/// The Levenshtein distance: the fewest single-character insertions, deletions and
/// substitutions that turn `a` into `b`.
pub open spec fn levenshtein(a: Seq<char>, b: Seq<char>) -> nat
    decreases a.len() + b.len(),
{
    if a.len() == 0 {
        b.len()
    } else if b.len() == 0 {
        a.len()
    } else {
        let del = levenshtein(a.drop_last(), b) + 1;
        let ins = levenshtein(a, b.drop_last()) + 1;
        let sub = levenshtein(a.drop_last(), b.drop_last()) + if a.last() == b.last() {
            0nat
        } else {
            1nat
        };
        if del <= ins && del <= sub {
            del
        } else if ins <= sub {
            ins
        } else {
            sub
        }
    }
}

/// Calls `edit_distance::edit_distance`, which its documentation describes as the Levenshtein
/// distance of the two strings (counted in characters). Claimed: the result is `levenshtein`.
#[verifier::external_body]
fn edit_distance_of(a: &str, b: &str) -> (r: usize)
    ensures
        r == levenshtein(a@, b@),
{
    edit_distance::edit_distance(a, b)
}

/// The last index in `(a, b]` whose name is within `th` of the name at `a`, or `a`.
pub open spec fn link_upto(names: Seq<Seq<char>>, th: nat, a: int, b: int) -> int
    decreases b - a,
{
    if b <= a {
        a
    } else if levenshtein(names[a], names[b]) <= th {
        b
    } else {
        link_upto(names, th, a, b - 1)
    }
}

/// Where the name at `a` is linked: the last later name within `th` of it, or `a` itself.
pub open spec fn link(names: Seq<Seq<char>>, th: nat, a: int) -> int {
    link_upto(names, th, a, names.len() - 1)
}

proof fn lemma_link_upto_bounds(names: Seq<Seq<char>>, th: nat, a: int, b: int)
    ensures
        a <= link_upto(names, th, a, b),
        b >= a ==> link_upto(names, th, a, b) <= b,
    decreases b - a,
{
    if b > a && levenshtein(names[a], names[b]) > th {
        lemma_link_upto_bounds(names, th, a, b - 1);
    }
}

/// The representative of the cluster of `i`: the end of the chain of links from `i`.
pub open spec fn rep(names: Seq<Seq<char>>, th: nat, i: int) -> int
    decreases names.len() - i,
{
    if i < 0 || i >= names.len() {
        i
    } else {
        let l = link(names, th, i);
        if l <= i || l >= names.len() {
            i
        } else {
            rep(names, th, l)
        }
    }
}

proof fn lemma_rep_bounds(names: Seq<Seq<char>>, th: nat, i: int)
    requires
        0 <= i < names.len(),
    ensures
        i <= rep(names, th, i) < names.len(),
    decreases names.len() - i,
{
    let l = link(names, th, i);
    if l > i && l < names.len() {
        lemma_rep_bounds(names, th, l);
    }
}

/// For each name, the representative of its cluster: each name is linked to the last later name
/// within `threshold` of it, and the links are followed to their end.
pub fn cluster_representatives(names: &[String], threshold: usize) -> (r: Vec<usize>)
    ensures
        r@.len() == names@.len(),
        forall|i: int| 0 <= i < names@.len() ==> r@[i] == rep(strs_v(names@), threshold as nat, i),
{
    let ghost ns = strs_v(names@);
    let n = names.len();
    let mut c: Vec<usize> = Vec::new();
    let mut a: usize = 0;
    while a < n
        invariant
            n == names@.len(),
            ns == strs_v(names@),
            a <= n,
            c@.len() == a,
            forall|k: int| 0 <= k < a ==> c@[k] == link(ns, threshold as nat, k),
        decreases n - a,
    {
        let mut l: usize = a;
        let mut b: usize = a + 1;
        while b < n
            invariant
                n == names@.len(),
                ns == strs_v(names@),
                a < n,
                a < b <= n,
                l == link_upto(ns, threshold as nat, a as int, b - 1),
            decreases n - b,
        {
            let d = edit_distance_of(names[a].as_str(), names[b].as_str());
            proof {
                assert(ns[a as int] == names@[a as int]@);
                assert(ns[b as int] == names@[b as int]@);
            }
            if d <= threshold {
                l = b;
            }
            b = b + 1;
        }
        proof {
            lemma_link_upto_bounds(ns, threshold as nat, a as int, n - 1);
        }
        c.push(l);
        a = a + 1;
    }
    let mut j: usize = n;
    while j > 0
        invariant
            n == names@.len(),
            ns == strs_v(names@),
            j <= n,
            c@.len() == n,
            forall|k: int| 0 <= k < j ==> c@[k] == link(ns, threshold as nat, k),
            forall|k: int| j <= k < n ==> c@[k] == rep(ns, threshold as nat, k),
        decreases j,
    {
        j = j - 1;
        let next = c[j];
        proof {
            lemma_link_upto_bounds(ns, threshold as nat, j as int, n - 1);
            assert(j <= next < n);
        }
        let v = c[next];
        proof {
            if next > j {
                assert(v == rep(ns, threshold as nat, next as int));
            } else {
                assert(v == j);
            }
        }
        c.set(j, v);
    }
    c
}

/// The distinct representatives in the order they first occur.
pub open spec fn cluster_keys(reps: Seq<usize>) -> Seq<usize>
    decreases reps.len(),
{
    if reps.len() == 0 {
        Seq::empty()
    } else {
        let k = cluster_keys(reps.drop_last());
        if k.contains(reps.last()) {
            k
        } else {
            k.push(reps.last())
        }
    }
}

/// The indices whose representative is `key`, in increasing order.
pub open spec fn cluster_members(reps: Seq<usize>, key: usize) -> Seq<usize>
    decreases reps.len(),
{
    if reps.len() == 0 {
        Seq::empty()
    } else {
        cluster_members(reps.drop_last(), key) + if reps.last() == key {
            seq![(reps.len() - 1) as usize]
        } else {
            Seq::empty()
        }
    }
}

proof fn lemma_keys_distinct(reps: Seq<usize>)
    ensures
        cluster_keys(reps).no_duplicates(),
        forall|x: usize| cluster_keys(reps).contains(x) <==> reps.contains(x),
    decreases reps.len(),
{
    if reps.len() > 0 {
        lemma_keys_distinct(reps.drop_last());
        let k = cluster_keys(reps.drop_last());
        assert forall|x: usize| cluster_keys(reps).contains(x) <==> reps.contains(x) by {
            if reps.contains(x) {
                let i = choose|i: int| 0 <= i < reps.len() && reps[i] == x;
                if i < reps.len() - 1 {
                    assert(reps.drop_last()[i] == x);
                    assert(reps.drop_last().contains(x));
                    assert(k.contains(x));
                    if !k.contains(reps.last()) {
                        let j = choose|j: int| 0 <= j < k.len() && k[j] == x;
                        assert(k.push(reps.last())[j] == x);
                    }
                } else {
                    assert(x == reps.last());
                    if !k.contains(reps.last()) {
                        assert(k.push(reps.last())[k.len() as int] == x);
                    }
                }
            }
            if cluster_keys(reps).contains(x) {
                let j = choose|j: int| 0 <= j < cluster_keys(reps).len() && cluster_keys(reps)[j] == x;
                if j < k.len() {
                    assert(k[j] == x);
                    assert(k.contains(x));
                    assert(reps.drop_last().contains(x));
                    let i = choose|i: int| 0 <= i < reps.drop_last().len() && reps.drop_last()[i] == x;
                    assert(reps[i] == x);
                } else {
                    assert(x == reps.last());
                    assert(reps[reps.len() - 1] == x);
                }
            }
        }
        if !k.contains(reps.last()) {
            assert(k.push(reps.last()).no_duplicates()) by {
                assert forall|a: int, b: int| 0 <= a < b < k.len() + 1 implies k.push(reps.last())[a] != k.push(reps.last())[b] by {
                    if b == k.len() {
                        assert(k[a] == k.push(reps.last())[a]);
                    }
                }
            }
        }
    }
}

/// The clusters: for each representative, in the order representatives first occur, the
/// indices it represents, in increasing order.
pub open spec fn clusters(reps: Seq<usize>) -> Seq<Seq<usize>> {
    cluster_keys(reps).map_values(|k: usize| cluster_members(reps, k))
}

pub open spec fn groups_v(g: Seq<Vec<usize>>) -> Seq<Seq<usize>> {
    g.map_values(|v: Vec<usize>| v@)
}

/// Groups the indices by their representative (see `clusters`).
pub fn group_clusters(reps: &[usize]) -> (r: Vec<Vec<usize>>)
    ensures
        groups_v(r@) == clusters(reps@),
{
    let mut keys: Vec<usize> = Vec::new();
    let mut groups: Vec<Vec<usize>> = Vec::new();
    let mut i: usize = 0;
    while i < reps.len()
        invariant
            i <= reps@.len(),
            keys@ == cluster_keys(reps@.take(i as int)),
            groups@.len() == keys@.len(),
            forall|j: int| 0 <= j < keys@.len() ==> (#[trigger] groups@[j])@ == cluster_members(
                reps@.take(i as int),
                keys@[j],
            ),
        decreases reps.len() - i,
    {
        let ghost t = reps@.take(i + 1);
        proof {
            assert(t.drop_last() =~= reps@.take(i as int));
            assert(t.last() == reps@[i as int]);
            lemma_keys_distinct(reps@.take(i as int));
        }
        let x = reps[i];
        let mut j: usize = 0;
        while j < keys.len() && keys[j] != x
            invariant
                j <= keys@.len(),
                forall|k: int| 0 <= k < j ==> keys@[k] != x,
            decreases keys.len() - j,
        {
            j = j + 1;
        }
        let ghost old_groups = groups@;
        let ghost old_keys = keys@;
        if j < keys.len() {
            let mut g = groups[j].clone();
            proof {
                assert(g@ == old_groups[j as int]@);
            }
            g.push(i);
            groups.set(j, g);
            proof {
                assert(old_keys.contains(x));
                assert(keys@ == cluster_keys(t));
                assert forall|m: int| 0 <= m < keys@.len() implies (#[trigger] groups@[m])@
                    == cluster_members(t, keys@[m]) by {
                    if m != j {
                        assert(groups@[m] == old_groups[m]);
                        assert(keys@[m] != x) by {
                            assert(old_keys.no_duplicates());
                        }
                        assert(cluster_members(t, keys@[m]) =~= cluster_members(
                            reps@.take(i as int),
                            keys@[m],
                        ));
                    } else {
                        assert(cluster_members(t, x) =~= cluster_members(reps@.take(i as int), x).push(
                            i,
                        ));
                    }
                }
            }
        } else {
            keys.push(x);
            let mut g: Vec<usize> = Vec::new();
            g.push(i);
            groups.push(g);
            proof {
                assert(!old_keys.contains(x));
                assert(keys@ == cluster_keys(t));
                assert forall|m: int| 0 <= m < keys@.len() implies (#[trigger] groups@[m])@
                    == cluster_members(t, keys@[m]) by {
                    if m < old_keys.len() {
                        assert(groups@[m] == old_groups[m]);
                        assert(keys@[m] != x);
                        assert(cluster_members(t, keys@[m]) =~= cluster_members(
                            reps@.take(i as int),
                            keys@[m],
                        ));
                    } else {
                        lemma_no_members(reps@.take(i as int), x);
                        assert(cluster_members(t, x) =~= seq![i]);
                    }
                }
            }
        }
        i = i + 1;
    }
    proof {
        assert(reps@.take(reps@.len() as int) =~= reps@);
        assert(groups_v(groups@) =~= clusters(reps@));
    }
    groups
}


proof fn lemma_members_iff(reps: Seq<usize>, key: usize)
    requires
        reps.len() <= usize::MAX,
    ensures
        forall|m: usize| #[trigger] cluster_members(reps, key).contains(m) <==> (m < reps.len() && reps[m as int] == key),
    decreases reps.len(),
{
    if reps.len() > 0 {
        lemma_members_iff(reps.drop_last(), key);
        let a = cluster_members(reps.drop_last(), key);
        let b = cluster_members(reps, key);
        let n = (reps.len() - 1) as usize;
        assert forall|m: usize| b.contains(m) <==> (m < reps.len() && reps[m as int] == key) by {
            if b.contains(m) {
                let j = choose|j: int| 0 <= j < b.len() && b[j] == m;
                if j < a.len() {
                    assert(a[j] == m);
                    assert(a.contains(m));
                    assert(m < reps.drop_last().len());
                    assert(reps.drop_last()[m as int] == key);
                } else {
                    assert(reps.last() == key);
                    assert(b[j] == n);
                    assert(m == n);
                }
            }
            if m < reps.len() && reps[m as int] == key {
                if m < n {
                    assert(reps.drop_last()[m as int] == key);
                    assert(a.contains(m));
                    let j = choose|j: int| 0 <= j < a.len() && a[j] == m;
                    assert(b[j] == m);
                } else {
                    assert(m == n);
                    assert(reps.last() == key);
                    assert(b[a.len() as int] == n);
                }
            }
        }
    }
}

/// Some cluster holds the index.
pub open spec fn in_some_cluster(reps: Seq<usize>, i: usize) -> bool {
    exists|g: int| 0 <= g < clusters(reps).len() && #[trigger] clusters(reps)[g].contains(i)
}

/// The clusters part the indices: every index lies in exactly one cluster, and the indices of a
/// cluster are those with its representative.
pub proof fn clusters_partition(reps: Seq<usize>)
    requires
        reps.len() <= usize::MAX,
    ensures
        forall|g: int, m: usize|
            0 <= g < clusters(reps).len() ==> (#[trigger] clusters(reps)[g].contains(m) <==> (m < reps.len()
                && reps[m as int] == cluster_keys(reps)[g])),
        forall|i: usize| i < reps.len() ==> #[trigger] in_some_cluster(reps, i),
        forall|i: usize, g1: int, g2: int|
            0 <= g1 < clusters(reps).len() && 0 <= g2 < clusters(reps).len() && #[trigger] clusters(reps)[g1].contains(i)
                && #[trigger] clusters(reps)[g2].contains(i) ==> g1 == g2,
{
    lemma_keys_distinct(reps);
    let ks = cluster_keys(reps);
    assert forall|g: int, m: usize|
        0 <= g < clusters(reps).len() implies (#[trigger] clusters(reps)[g].contains(m) <==> (m < reps.len()
            && reps[m as int] == ks[g])) by {
        lemma_members_iff(reps, ks[g]);
        assert(clusters(reps)[g] == cluster_members(reps, ks[g]));
    }
    assert forall|i: usize| i < reps.len() implies #[trigger] in_some_cluster(reps, i) by {
        assert(reps.contains(reps[i as int]));
        assert(ks.contains(reps[i as int]));
        let g = choose|g: int| 0 <= g < ks.len() && ks[g] == reps[i as int];
        lemma_members_iff(reps, ks[g]);
        assert(clusters(reps)[g] == cluster_members(reps, ks[g]));
        assert(clusters(reps)[g].contains(i));
    }
    assert forall|i: usize, g1: int, g2: int|
        0 <= g1 < clusters(reps).len() && 0 <= g2 < clusters(reps).len() && #[trigger] clusters(reps)[g1].contains(i)
            && #[trigger] clusters(reps)[g2].contains(i) implies g1 == g2 by {
        lemma_members_iff(reps, ks[g1]);
        lemma_members_iff(reps, ks[g2]);
        assert(clusters(reps)[g1] == cluster_members(reps, ks[g1]));
        assert(clusters(reps)[g2] == cluster_members(reps, ks[g2]));
    }
}

proof fn lemma_no_members(reps: Seq<usize>, key: usize)
    requires
        !cluster_keys(reps).contains(key),
    ensures
        cluster_members(reps, key) == Seq::<usize>::empty(),
    decreases reps.len(),
{
    lemma_keys_distinct(reps);
    if reps.len() > 0 {
        lemma_keys_distinct(reps.drop_last());
        assert(!reps.contains(key));
        assert(!reps.drop_last().contains(key)) by {
            if reps.drop_last().contains(key) {
                let i = choose|i: int| 0 <= i < reps.drop_last().len() && reps.drop_last()[i] == key;
                assert(reps[i] == key);
            }
        }
        assert(reps.last() != key) by {
            assert(reps[reps.len() - 1] == reps.last());
        }
        lemma_no_members(reps.drop_last(), key);
        assert(cluster_members(reps, key) =~= Seq::<usize>::empty());
    }
}

/// The clusters of similar names: names are linked to the last later name within `threshold`
/// edits, and each cluster holds the indices that lead to one representative.
pub fn similar_name_clusters(names: &[String], threshold: usize) -> (r: Vec<Vec<usize>>)
    ensures
        groups_v(r@) == clusters(
            Seq::new(names@.len(), |i: int| rep(strs_v(names@), threshold as nat, i) as usize),
        ),
{
    let reps = cluster_representatives(names, threshold);
    proof {
        assert(reps@ =~= Seq::new(
            names@.len(),
            |i: int| rep(strs_v(names@), threshold as nat, i) as usize,
        ));
    }
    group_clusters(reps.as_slice())
}

} // verus!

verus! {

proof fn lemma_members_bound(reps: Seq<usize>, key: usize)
    ensures
        forall|m: int| 0 <= m < cluster_members(reps, key).len() ==> (#[trigger] cluster_members(reps, key)[m]) < reps.len(),
    decreases reps.len(),
{
    if reps.len() > 0 {
        lemma_members_bound(reps.drop_last(), key);
        let a = cluster_members(reps.drop_last(), key);
        assert forall|m: int| 0 <= m < cluster_members(reps, key).len() implies (#[trigger] cluster_members(reps, key)[m]) < reps.len() by {
            if m < a.len() {
                assert(cluster_members(reps, key)[m] == a[m]);
            }
        }
    }
}

/// The path has a component `bak`.
pub open spec fn in_backup(p: Seq<char>) -> bool {
    crate::paths::path_components(p).contains("bak"@)
}

/// The paths outside backup directories, in order.
pub open spec fn kept_paths(ps: Seq<Seq<char>>) -> Seq<Seq<char>> {
    ps.filter(|p: Seq<char>| !in_backup(p))
}

/// Each of the paths has a file name.
pub open spec fn all_named(ps: Seq<Seq<char>>) -> bool {
    forall|i: int| 0 <= i < ps.len() ==> (#[trigger] crate::paths::path_file_name(ps[i])) is Some
}

/// The file names of the paths.
pub open spec fn file_names(ps: Seq<Seq<char>>) -> Seq<Seq<char>> {
    ps.map_values(|p: Seq<char>| crate::paths::path_file_name(p).unwrap())
}

/// The clusters of similar file names among the paths (as indices into the paths).
pub open spec fn name_clusters(ps: Seq<Seq<char>>, th: nat) -> Seq<Seq<usize>> {
    let names = file_names(ps);
    clusters(Seq::new(names.len(), |i: int| rep(names, th, i) as usize))
}

/// The clusters of more than one path, each as the paths it holds.
pub open spec fn similar_groups(ps: Seq<Seq<char>>, th: nat) -> Seq<Seq<Seq<char>>> {
    name_clusters(ps, th).filter(|g: Seq<usize>| g.len() > 1).map_values(
        |g: Seq<usize>| g.map_values(|i: usize| ps[i as int]),
    )
}

fn has_bak_component(p: &str) -> (r: bool)
    ensures
        r == in_backup(p@),
{
    let cs = components_of(p);
    let mut i: usize = 0;
    while i < cs.len()
        invariant
            i <= cs@.len(),
            cs@.map_values(|c: String| c@) == crate::paths::path_components(p@),
            forall|k: int| 0 <= k < i ==> cs@[k]@ != "bak"@,
        decreases cs.len() - i,
    {
        if crate::text::eq_str(&crate::text::chars_of(cs[i].as_str()), "bak") {
            proof {
                assert(crate::paths::path_components(p@)[i as int] == "bak"@);
            }
            return true;
        }
        i = i + 1;
    }
    proof {
        if crate::paths::path_components(p@).contains("bak"@) {
            let k = choose|k: int| 0 <= k < cs@.len() && crate::paths::path_components(p@)[k] == "bak"@;
            assert(cs@[k]@ == "bak"@);
        }
    }
    false
}

/// `base` is a prefix of `p` by whole components, as `Path::starts_with` compares them.
pub open spec fn path_under(p: Seq<char>, base: Seq<char>) -> bool {
    let pc = crate::paths::path_components(p);
    let bc = crate::paths::path_components(base);
    bc.len() <= pc.len() && pc.take(bc.len() as int) == bc
}

fn path_under_exec(p: &str, base: &str) -> (r: bool)
    ensures
        r == path_under(p@, base@),
{
    let pc = components_of(p);
    let bc = components_of(base);
    let ghost pv = crate::paths::path_components(p@);
    let ghost bv = crate::paths::path_components(base@);
    proof {
        assert(pc@.map_values(|c: String| c@).len() == pc@.len());
        assert(bc@.map_values(|c: String| c@).len() == bc@.len());
    }
    if bc.len() > pc.len() {
        return false;
    }
    let mut i: usize = 0;
    while i < bc.len()
        invariant
            bc@.len() <= pc@.len(),
            i <= bc@.len(),
            pc@.map_values(|c: String| c@) == pv,
            bc@.map_values(|c: String| c@) == bv,
            pv == crate::paths::path_components(p@),
            bv == crate::paths::path_components(base@),
            forall|k: int| 0 <= k < i ==> pv[k] == bv[k],
        decreases bc.len() - i,
    {
        proof {
            assert(pv[i as int] == pc@[i as int]@);
            assert(bv[i as int] == bc@[i as int]@);
        }
        if !crate::text::eq_vec(&crate::text::chars_of(pc[i].as_str()), &crate::text::chars_of(bc[i].as_str())) {
            proof {
                assert(pv[i as int] != bv[i as int]);
                assert(pv.take(bv.len() as int)[i as int] == pv[i as int]);
                assert(pv.take(bv.len() as int) != bv);
            }
            return false;
        }
        i = i + 1;
    }
    proof {
        assert(pv.take(bv.len() as int) =~= bv);
    }
    true
}

/// The path lies below the notebook's `.zk` directory or its `journal` directory (paths under
/// `root`, compared by whole components); such notes are not compared for similar names.
pub open spec fn in_special_dir(p: Seq<char>, root: Seq<char>) -> bool {
    path_under(p, crate::paths::path_join(root, ".zk"@)) || path_under(p, crate::paths::path_join(root, "journal"@))
}

/// `b` is a prefix of `a`.
pub open spec fn seq_prefix(a: Seq<Seq<char>>, b: Seq<Seq<char>>) -> bool {
    b.len() <= a.len() && a.take(b.len() as int) == b
}

/// The special directories of a notebook are exactly its `journal` and `.zk` directories: a
/// path whose components begin with those of `root/journal`, or with those of `root/.zk`, is in
/// a special directory, and no other path is.
pub proof fn special_dirs_are_journal_and_zk(p: Seq<char>, root: Seq<char>)
    ensures
        seq_prefix(crate::paths::path_components(p), crate::paths::path_components(crate::paths::path_join(root, "journal"@)))
            ==> in_special_dir(p, root),
        seq_prefix(crate::paths::path_components(p), crate::paths::path_components(crate::paths::path_join(root, ".zk"@)))
            ==> in_special_dir(p, root),
        in_special_dir(p, root) ==> seq_prefix(crate::paths::path_components(p), crate::paths::path_components(crate::paths::path_join(root, "journal"@)))
            || seq_prefix(crate::paths::path_components(p), crate::paths::path_components(crate::paths::path_join(root, ".zk"@))),
{
}

/// Whether the path lies below the `.zk` or `journal` directory of the notebook at `root`.
pub fn is_in_special_dir(p: &str, root: &str) -> (r: bool)
    ensures
        r == in_special_dir(p@, root@),
{
    let zk = crate::paths::join_path(root, ".zk");
    let journal = crate::paths::join_path(root, "journal");
    path_under_exec(p, zk.as_str()) || path_under_exec(p, journal.as_str())
}

/// The groups of files with similar names, as the original paths: paths below a directory
/// named `bak` are left out; each file is linked to the last later file whose name is within
/// `threshold` edits of its own, links are followed to a representative, and every cluster of
/// more than one file is given. `None` where a path has no file name.
pub fn similar_file_groups(paths: &[String], threshold: usize) -> (r: Option<Vec<Vec<String>>>)
    ensures
        match r {
            Some(g) => all_named(kept_paths(strs_v(paths@))) && g@.map_values(
                |v: Vec<String>| strs_v(v@),
            ) == similar_groups(kept_paths(strs_v(paths@)), threshold as nat),
            None => !all_named(kept_paths(strs_v(paths@))),
        },
{
    let ghost ps = strs_v(paths@);
    let mut kept: Vec<String> = Vec::new();
    let mut i: usize = 0;
    while i < paths.len()
        invariant
            i <= paths@.len(),
            ps == strs_v(paths@),
            strs_v(kept@) == kept_paths(ps.take(i as int)),
        decreases paths.len() - i,
    {
        let ghost before = strs_v(kept@);
        proof {
            assert(ps.take(i + 1).drop_last() =~= ps.take(i as int));
            assert(ps.take(i + 1).last() == paths@[i as int]@);
            reveal(Seq::filter);
        }
        if !has_bak_component(paths[i].as_str()) {
            kept.push(paths[i].clone());
            proof {
                assert(strs_v(kept@) =~= before.push(paths@[i as int]@));
            }
        }
        i = i + 1;
    }
    proof {
        assert(ps.take(paths@.len() as int) =~= ps);
    }
    let ghost ks = strs_v(kept@);
    let mut names: Vec<String> = Vec::new();
    let mut j: usize = 0;
    while j < kept.len()
        invariant
            j <= kept@.len(),
            ks == strs_v(kept@),
            ps == strs_v(paths@),
            ks == kept_paths(ps),
            all_named(ks.take(j as int)),
            strs_v(names@) == file_names(ks.take(j as int)),
        decreases kept.len() - j,
    {
        proof {
            assert(ks.take(j + 1).drop_last() =~= ks.take(j as int));
        }
        match crate::paths::file_name_of(kept[j].as_str()) {
            Some(n) => {
                let ghost before = strs_v(names@);
                names.push(n);
                proof {
                    assert(strs_v(names@) =~= before.push(n@));
                    assert(file_names(ks.take(j + 1)) =~= file_names(ks.take(j as int)).push(n@));
                    assert forall|k: int| 0 <= k < ks.take(j + 1).len() implies (
                        #[trigger] crate::paths::path_file_name(ks.take(j + 1)[k])) is Some by {
                        if k < j {
                            assert(ks.take(j + 1)[k] == ks.take(j as int)[k]);
                        }
                    }
                }
            },
            None => {
                proof {
                    assert(crate::paths::path_file_name(ks[j as int]) is None);
                }
                return None;
            },
        }
        j = j + 1;
    }
    proof {
        assert(ks.take(kept@.len() as int) =~= ks);
    }
    let groups = similar_name_clusters(names.as_slice(), threshold);
    let ghost gs = groups_v(groups@);
    proof {
        let reps = Seq::new(names@.len(), |i: int| rep(strs_v(names@), threshold as nat, i) as usize);
        assert(names@.len() == ks.len());
        assert forall|g: int, m: int| 0 <= g < gs.len() && 0 <= m < gs[g].len() implies (#[trigger] gs[g][m]) < ks.len() by {
            lemma_members_bound(reps, cluster_keys(reps)[g]);
            assert(gs[g] == cluster_members(reps, cluster_keys(reps)[g]));
        }
        assert(strs_v(names@) == file_names(ks));
    }
    let mut out: Vec<Vec<String>> = Vec::new();
    let mut k: usize = 0;
    while k < groups.len()
        invariant
            k <= groups@.len(),
            gs == groups_v(groups@),
            ks == strs_v(kept@),
            forall|g: int, m: int| 0 <= g < gs.len() && 0 <= m < gs[g].len() ==> (#[trigger] gs[g][m]) < ks.len(),
            out@.map_values(|v: Vec<String>| strs_v(v@)) == gs.take(k as int).filter(
                |g: Seq<usize>| g.len() > 1,
            ).map_values(|g: Seq<usize>| g.map_values(|i: usize| ks[i as int])),
        decreases groups.len() - k,
    {
        proof {
            assert(gs.take(k + 1).drop_last() =~= gs.take(k as int));
            reveal(Seq::filter);
        }
        let ghost before = out@.map_values(|v: Vec<String>| strs_v(v@));
        if groups[k].len() > 1 {
            let mut v: Vec<String> = Vec::new();
            let mut m: usize = 0;
            while m < groups[k].len()
                invariant
                    k < groups@.len(),
                    m <= groups@[k as int]@.len(),
                    gs == groups_v(groups@),
                    ks == strs_v(kept@),
                    forall|g: int, m: int| 0 <= g < gs.len() && 0 <= m < gs[g].len() ==> (#[trigger] gs[g][m]) < ks.len(),
                    strs_v(v@) == groups@[k as int]@.take(m as int).map_values(|i: usize| ks[i as int]),
                decreases groups@[k as int]@.len() - m,
            {
                let idx = groups[k][m];
                proof {
                    assert(gs[k as int] == groups@[k as int]@);
                    assert(idx < ks.len());
                }
                let ghost vb = strs_v(v@);
                v.push(kept[idx].clone());
                proof {
                    assert(strs_v(v@) =~= vb.push(ks[idx as int]));
                    assert(groups@[k as int]@.take(m + 1).map_values(|i: usize| ks[i as int]) =~= groups@[k as int]@.take(m as int).map_values(|i: usize| ks[i as int]).push(ks[idx as int]));
                }
                m = m + 1;
            }
            out.push(v);
            proof {
                assert(groups@[k as int]@.take(groups@[k as int]@.len() as int) =~= groups@[k as int]@);
                assert(gs[k as int] == groups@[k as int]@);
                assert(out@.map_values(|v: Vec<String>| strs_v(v@)) =~= before.push(
                    gs[k as int].map_values(|i: usize| ks[i as int]),
                ));
            }
        }
        k = k + 1;
    }
    proof {
        assert(gs.take(groups@.len() as int) =~= gs);
    }
    Some(out)
}

} // verus!
