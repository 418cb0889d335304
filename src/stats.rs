use vstd::prelude::*;

use crate::model::{FileChangeSummary, GitCommit, GitFile, GitStats};
use crate::order::{lemma_lt_transitive, text_less, text_lt};

verus! {

broadcast use vstd::seq_lib::group_to_multiset_ensures;

/// Most entries in the ranking of changed files.
pub const RANKING_LIMIT: usize = 20;

/// The paths one commit touched, in order.
pub open spec fn commit_paths(c: GitCommit) -> Seq<Seq<char>> {
    c.files@.map_values(|f: GitFile| f.path@)
}

/// Every path touched by the sample, commit after commit.
pub open spec fn sample_paths(s: Seq<GitCommit>) -> Seq<Seq<char>>
    decreases s.len(),
{
    if s.len() == 0 {
        Seq::empty()
    } else {
        sample_paths(s.drop_last()) + commit_paths(s.last())
    }
}

/// Sum of the lengths of the file lists of the sample.
pub open spec fn files_in(s: Seq<GitCommit>) -> nat
    decreases s.len(),
{
    if s.len() == 0 {
        0
    } else {
        files_in(s.drop_last()) + s.last().files@.len()
    }
}

/// How many times the sample changed path `q`.
pub open spec fn change_count(s: Seq<GitCommit>, q: Seq<char>) -> nat {
    sample_paths(s).to_multiset().count(q)
}

/// Sum of `v`, saturating at `usize::MAX`.
pub open spec fn sum_upto(v: Seq<usize>) -> nat
    decreases v.len(),
{
    if v.len() == 0 {
        0
    } else {
        sum_upto(v.drop_last()) + (v.last() as nat)
    }
}

pub open spec fn saturated(n: nat) -> nat {
    if n <= usize::MAX {
        n
    } else {
        usize::MAX as nat
    }
}

proof fn lemma_paths_len(s: Seq<GitCommit>)
    ensures
        sample_paths(s).len() == files_in(s),
    decreases s.len(),
{
    if s.len() > 0 {
        lemma_paths_len(s.drop_last());
    }
}

/// The sum of the commit counts of several repositories, saturating at
/// `usize::MAX`.
pub fn sum_counts(counts: &Vec<usize>) -> (r: usize)
    ensures
        r == saturated(sum_upto(counts@)),
{
    let mut total: usize = 0;
    let mut i: usize = 0;
    while i < counts.len()
        invariant
            i <= counts@.len(),
            total == saturated(sum_upto(counts@.subrange(0, i as int))),
        decreases counts@.len() - i,
    {
        proof {
            assert(counts@.subrange(0, i + 1).drop_last() =~= counts@.subrange(0, i as int));
        }
        total = total.saturating_add(counts[i]);
        i = i + 1;
    }
    proof {
        assert(counts@.subrange(0, i as int) =~= counts@);
    }
    total
}

/// Whether the file lists of the sample hold at most `usize::MAX` entries
/// in all.
pub fn files_fit(sample: &Vec<GitCommit>) -> (r: bool)
    ensures
        r == (files_in(sample@) <= usize::MAX),
{
    let mut total: usize = 0;
    let mut i: usize = 0;
    while i < sample.len()
        invariant
            i <= sample@.len(),
            total == files_in(sample@.subrange(0, i as int)),
        decreases sample@.len() - i,
    {
        proof {
            assert(sample@.subrange(0, i + 1).drop_last() =~= sample@.subrange(0, i as int));
        }
        let n = sample[i].files.len();
        if n > usize::MAX - total {
            proof {
                lemma_files_in_prefix(sample@, i + 1);
            }
            return false;
        }
        total = total + n;
        i = i + 1;
    }
    proof {
        assert(sample@.subrange(0, i as int) =~= sample@);
    }
    true
}

proof fn lemma_files_in_prefix(s: Seq<GitCommit>, k: int)
    requires
        0 <= k <= s.len(),
    ensures
        files_in(s.subrange(0, k)) <= files_in(s),
    decreases s.len() - k,
{
    if k < s.len() {
        lemma_files_in_prefix(s, k + 1);
        assert(s.subrange(0, k + 1).drop_last() =~= s.subrange(0, k));
    } else {
        assert(s.subrange(0, k) =~= s);
    }
}

/// Position of the first string equal to `q`, or the length.
fn position_of(v: &Vec<String>, q: &String) -> (k: usize)
    ensures
        k <= v@.len(),
        k < v@.len() ==> v@[k as int]@ == q@,
        forall|j: int| 0 <= j < k ==> v@[j]@ != q@,
{
    let mut k: usize = 0;
    while k < v.len()
        invariant
            k <= v@.len(),
            forall|j: int| 0 <= j < k ==> v@[j]@ != q@,
        decreases v@.len() - k,
    {
        if v[k] == *q {
            return k;
        }
        k = k + 1;
    }
    k
}

/// The texts of a list of strings.
pub open spec fn texts(r: Seq<String>) -> Seq<Seq<char>> {
    r.map_values(|x: String| x@)
}

/// The author of each commit, in order.
pub open spec fn authors_of(s: Seq<GitCommit>) -> Seq<Seq<char>> {
    s.map_values(|c: GitCommit| c.author@)
}

/// The distinct authors of the sample, in order of first appearance.
pub fn distinct_authors(sample: &Vec<GitCommit>) -> (r: Vec<String>)
    ensures
        texts(r@).no_duplicates(),
        texts(r@).to_set() == authors_of(sample@).to_set(),
{
    let mut out: Vec<String> = Vec::new();
    let mut i: usize = 0;
    let ghost mut pos: Seq<int> = Seq::empty();
    let ghost mut src: Seq<int> = Seq::empty();
    while i < sample.len()
        invariant
            i <= sample@.len(),
            pos.len() == i,
            src.len() == out@.len(),
            forall|a: int, b: int| 0 <= a < b < out@.len() ==> out@[a]@ != out@[b]@,
            forall|m: int|
                0 <= m < i ==> 0 <= #[trigger] pos[m] < out@.len() && out@[pos[m]]@
                    == sample@[m].author@,
            forall|k: int|
                0 <= k < out@.len() ==> 0 <= #[trigger] src[k] < i && sample@[src[k]].author@
                    == out@[k]@,
        decreases sample@.len() - i,
    {
        let a = &sample[i].author;
        let k = position_of(&out, a);
        if k == out.len() {
            out.push(a.clone());
            proof {
                pos = pos.push(k as int);
                src = src.push(i as int);
            }
        } else {
            proof {
                pos = pos.push(k as int);
            }
        }
        i = i + 1;
    }
    proof {
        let t = texts(out@);
        let w = authors_of(sample@);
        assert forall|x: Seq<char>| t.to_set().contains(x) <==> w.to_set().contains(x) by {
            if t.contains(x) {
                let k = choose|k: int| 0 <= k < t.len() && t[k] == x;
                assert(w[src[k]] == x);
            }
            if w.contains(x) {
                let m = choose|m: int| 0 <= m < w.len() && w[m] == x;
                assert(t[pos[m]] == x);
            }
        }
        assert(t.to_set() =~= w.to_set());
        assert forall|a: int, b: int| 0 <= a < t.len() && 0 <= b < t.len() && a != b implies t[a]
            != t[b] by {
            if a < b {
                assert(out@[a]@ != out@[b]@);
            } else {
                assert(out@[b]@ != out@[a]@);
            }
        }
    }
    out
}

/// Indices of the earliest and latest dates of a non-empty sample.
fn date_extremes(sample: &Vec<GitCommit>) -> (r: (usize, usize))
    requires
        sample@.len() > 0,
    ensures
        r.0 < sample@.len(),
        r.1 < sample@.len(),
        forall|i: int| 0 <= i < sample@.len() ==> !text_lt(sample@[i].date@, sample@[r.0 as int].date@),
        forall|i: int| 0 <= i < sample@.len() ==> !text_lt(sample@[r.1 as int].date@, sample@[i].date@),
{
    let mut lo: usize = 0;
    let mut hi: usize = 0;
    let mut i: usize = 1;
    proof {
        crate::order::lemma_lt_irreflexive(sample@[0].date@, 0);
    }
    while i < sample.len()
        invariant
            1 <= i <= sample@.len(),
            lo < i,
            hi < i,
            forall|k: int| 0 <= k < i ==> !text_lt(sample@[k].date@, sample@[lo as int].date@),
            forall|k: int| 0 <= k < i ==> !text_lt(sample@[hi as int].date@, sample@[k].date@),
        decreases sample@.len() - i,
    {
        let d = &sample[i].date;
        proof {
            crate::order::lemma_lt_irreflexive(d@, 0);
        }
        if text_less(d, &sample[lo].date) {
            proof {
                assert forall|k: int| 0 <= k < i + 1 implies !text_lt(sample@[k].date@, d@) by {
                    if text_lt(sample@[k].date@, d@) {
                        lemma_lt_transitive(sample@[k].date@, d@, sample@[lo as int].date@, 0);
                    }
                }
            }
            lo = i;
        }
        if text_less(&sample[hi].date, d) {
            proof {
                assert forall|k: int| 0 <= k < i + 1 implies !text_lt(d@, sample@[k].date@) by {
                    if text_lt(d@, sample@[k].date@) {
                        lemma_lt_transitive(sample@[hi as int].date@, d@, sample@[k].date@, 0);
                    }
                }
            }
            hi = i;
        }
        i = i + 1;
    }
    (lo, hi)
}

/// The earliest and latest dates of the sample, or the requested bounds
/// when the sample is empty.
pub fn date_range(sample: &Vec<GitCommit>, since: String, until: String) -> (r: (String, String))
    ensures
        sample@.len() == 0 ==> r.0@ == since@ && r.1@ == until@,
        sample@.len() > 0 ==> (exists|i: int| 0 <= i < sample@.len() && r.0@ == sample@[i].date@),
        sample@.len() > 0 ==> (exists|i: int| 0 <= i < sample@.len() && r.1@ == sample@[i].date@),
        sample@.len() > 0 ==> forall|i: int|
            0 <= i < sample@.len() ==> !text_lt(sample@[i].date@, r.0@) && !text_lt(
                r.1@,
                sample@[i].date@,
            ),
{
    if sample.len() == 0 {
        (since, until)
    } else {
        let (lo, hi) = date_extremes(sample);
        (sample[lo].date.clone(), sample[hi].date.clone())
    }
}

/// Paths and their counts: distinct paths, each count exact over `seen`.
pub open spec fn tally_ok(paths: Seq<String>, counts: Seq<usize>, seen: Seq<Seq<char>>) -> bool {
    &&& paths.len() == counts.len()
    &&& forall|k: int| 0 <= k < paths.len() ==> counts[k] == seen.to_multiset().count(paths[k]@)
    &&& forall|a: int, b: int| 0 <= a < b < paths.len() ==> paths[a]@ != paths[b]@
    &&& forall|m: int|
        0 <= m < seen.len() ==> exists|k: int| 0 <= k < paths.len() && paths[k]@ == #[trigger] seen[m]
    &&& forall|k: int| 0 <= k < paths.len() ==> seen.contains(#[trigger] paths[k]@)
}

/// Adds one changed path to the tally.
fn tally_path(
    paths: &mut Vec<String>,
    counts: &mut Vec<usize>,
    q: &String,
    Ghost(seen): Ghost<Seq<Seq<char>>>,
)
    requires
        tally_ok(old(paths)@, old(counts)@, seen),
        seen.len() < usize::MAX,
    ensures
        tally_ok(final(paths)@, final(counts)@, seen.push(q@)),
{
    let k = position_of(paths, q);
    let ghost next = seen.push(q@);
    proof {
        assert(next.to_multiset() =~= seen.to_multiset().insert(q@));
        assert(next[next.len() - 1] == q@);
        assert(next.contains(q@));
    }
    if k < paths.len() {
        proof {
            assert(seen.to_multiset().count(q@) <= seen.len()) by {
                assert(seen.to_multiset().count(q@) <= seen.to_multiset().len());
            }
        }
        let c = counts[k] + 1;
        counts.set(k, c);
        proof {
            assert forall|m: int| 0 <= m < next.len() implies exists|k2: int|
                0 <= k2 < paths@.len() && paths@[k2]@ == #[trigger] next[m] by {
                if m < seen.len() {
                    assert(next[m] == seen[m]);
                } else {
                    assert(paths@[k as int]@ == next[m]);
                }
            }
            assert forall|k2: int| 0 <= k2 < paths@.len() implies next.contains(
                #[trigger] paths@[k2]@,
            ) by {
                let m = choose|m: int| 0 <= m < seen.len() && seen[m] == paths@[k2]@;
                assert(next[m] == seen[m]);
            }
        }
    } else {
        let ghost before = paths@;
        paths.push(q.clone());
        counts.push(1);
        proof {
            assert(seen.to_multiset().count(q@) == 0) by {
                if seen.to_multiset().count(q@) > 0 {
                    assert(seen.contains(q@));
                    let m = choose|m: int| 0 <= m < seen.len() && seen[m] == q@;
                    let k2 = choose|k2: int| 0 <= k2 < before.len() && before[k2]@ == seen[m];
                }
            }
            assert forall|m: int| 0 <= m < next.len() implies exists|k2: int|
                0 <= k2 < paths@.len() && paths@[k2]@ == #[trigger] next[m] by {
                if m < seen.len() {
                    assert(next[m] == seen[m]);
                    let k2 = choose|k2: int| 0 <= k2 < before.len() && before[k2]@ == seen[m];
                    assert(paths@[k2] == before[k2]);
                } else {
                    assert(paths@[before.len() as int]@ == next[m]);
                }
            }
            assert forall|k2: int| 0 <= k2 < paths@.len() implies next.contains(
                #[trigger] paths@[k2]@,
            ) by {
                if k2 < before.len() {
                    assert(paths@[k2] == before[k2]);
                    assert(seen.contains(before[k2]@));
                    let m = choose|m: int| 0 <= m < seen.len() && seen[m] == before[k2]@;
                    assert(next[m] == seen[m]);
                }
            }
        }
    }
}

/// Every changed path of the sample with the number of times it changed, in
/// order of first appearance.
fn tally(sample: &Vec<GitCommit>) -> (r: (Vec<String>, Vec<usize>))
    requires
        files_in(sample@) <= usize::MAX,
    ensures
        tally_ok(r.0@, r.1@, sample_paths(sample@)),
{
    let mut paths: Vec<String> = Vec::new();
    let mut counts: Vec<usize> = Vec::new();
    let mut i: usize = 0;
    proof {
        lemma_paths_len(sample@);
        assert(sample_paths(sample@.subrange(0, 0)) =~= Seq::<Seq<char>>::empty());
    }
    while i < sample.len()
        invariant
            i <= sample@.len(),
            files_in(sample@) <= usize::MAX,
            sample_paths(sample@).len() == files_in(sample@),
            tally_ok(paths@, counts@, sample_paths(sample@.subrange(0, i as int))),
        decreases sample@.len() - i,
    {
        let files = &sample[i].files;
        let ghost prefix = sample_paths(sample@.subrange(0, i as int));
        let ghost cp = commit_paths(sample@[i as int]);
        proof {
            assert(sample@.subrange(0, i + 1).drop_last() =~= sample@.subrange(0, i as int));
            assert(sample_paths(sample@.subrange(0, i + 1)) == prefix + cp);
            lemma_prefix_paths_len(sample@, i + 1);
            assert(prefix + cp.subrange(0, 0) =~= prefix);
        }
        let mut j: usize = 0;
        while j < files.len()
            invariant
                j <= files@.len(),
                files@ == sample@[i as int].files@,
                cp == commit_paths(sample@[i as int]),
                (prefix + cp).len() <= usize::MAX,
                tally_ok(paths@, counts@, prefix + cp.subrange(0, j as int)),
            decreases files@.len() - j,
        {
            let q = &files[j].path;
            proof {
                assert(cp[j as int] == q@);
                assert((prefix + cp.subrange(0, j as int)).push(q@) =~= prefix + cp.subrange(
                    0,
                    j + 1,
                ));
            }
            tally_path(&mut paths, &mut counts, q, Ghost(prefix + cp.subrange(0, j as int)));
            j = j + 1;
        }
        proof {
            assert(cp.subrange(0, j as int) =~= cp);
        }
        i = i + 1;
    }
    proof {
        assert(sample@.subrange(0, i as int) =~= sample@);
    }
    (paths, counts)
}

proof fn lemma_prefix_paths_len(s: Seq<GitCommit>, k: int)
    requires
        0 <= k <= s.len(),
    ensures
        sample_paths(s.subrange(0, k)).len() <= sample_paths(s).len(),
    decreases s.len() - k,
{
    if k < s.len() {
        lemma_prefix_paths_len(s, k + 1);
        assert(s.subrange(0, k + 1).drop_last() =~= s.subrange(0, k));
    } else {
        assert(s.subrange(0, k) =~= s);
    }
}

/// The paths of a ranking, in order.
pub open spec fn ranked_paths(r: Seq<FileChangeSummary>) -> Seq<Seq<char>> {
    r.map_values(|e: FileChangeSummary| e.path@)
}

/// A ranking of the paths in `seen`: at most twenty distinct paths, each
/// with the number of times it occurs, most changed first; a path left out
/// changed no more often than any path listed, and only when the list is full.
pub open spec fn ranking_ok(r: Seq<FileChangeSummary>, seen: Seq<Seq<char>>) -> bool {
    &&& r.len() <= RANKING_LIMIT
    &&& forall|i: int|
        0 <= i < r.len() ==> #[trigger] r[i].change_count == seen.to_multiset().count(r[i].path@)
            && seen.contains(r[i].path@)
    &&& ranked_paths(r).no_duplicates()
    &&& forall|a: int, b: int|
        0 <= a < b < r.len() ==> #[trigger] r[a].change_count >= #[trigger] r[b].change_count
    &&& forall|q: Seq<char>|
        #[trigger] seen.contains(q) ==> ranked_paths(r).contains(q) || (r.len() == RANKING_LIMIT
            && forall|i: int| 0 <= i < r.len() ==> r[i].change_count >= seen.to_multiset().count(q))
}

/// Index of the first largest count.
fn first_max(counts: &Vec<usize>) -> (m: usize)
    requires
        counts@.len() > 0,
    ensures
        m < counts@.len(),
        forall|j: int| 0 <= j < counts@.len() ==> counts@[j] <= counts@[m as int],
{
    let mut m: usize = 0;
    let mut j: usize = 1;
    while j < counts.len()
        invariant
            1 <= j <= counts@.len(),
            m < j,
            forall|t: int| 0 <= t < j ==> counts@[t] <= counts@[m as int],
        decreases counts@.len() - j,
    {
        if counts[j] > counts[m] {
            m = j;
        }
        j = j + 1;
    }
    m
}

/// The twenty most changed paths of a tally, most changed first.
fn rank_changes(paths: Vec<String>, counts: Vec<usize>, Ghost(seen): Ghost<Seq<Seq<char>>>) -> (r:
    Vec<FileChangeSummary>)
    requires
        tally_ok(paths@, counts@, seen),
    ensures
        ranking_ok(r@, seen),
{
    let mut rp = paths;
    let mut rc = counts;
    let mut out: Vec<FileChangeSummary> = Vec::new();
    proof {
        assert forall|q: Seq<char>| #[trigger] seen.contains(q) implies texts(rp@).contains(q) by {
            let m = choose|m: int| 0 <= m < seen.len() && seen[m] == q;
            let k = choose|k: int| 0 <= k < rp@.len() && rp@[k]@ == seen[m];
            assert(texts(rp@)[k] == q);
        }
    }
    while out.len() < RANKING_LIMIT && rp.len() > 0
        invariant
            out@.len() <= RANKING_LIMIT,
            rp@.len() == rc@.len(),
            forall|k: int|
                0 <= k < rp@.len() ==> #[trigger] rc@[k] == seen.to_multiset().count(rp@[k]@)
                    && seen.contains(rp@[k]@),
            forall|i: int|
                0 <= i < out@.len() ==> #[trigger] out@[i].change_count == seen.to_multiset().count(
                    out@[i].path@,
                ) && seen.contains(out@[i].path@),
            forall|a: int, b: int| 0 <= a < b < out@.len() ==> out@[a].path@ != out@[b].path@,
            forall|a: int, b: int| 0 <= a < b < rp@.len() ==> rp@[a]@ != rp@[b]@,
            forall|a: int, b: int|
                0 <= a < out@.len() && 0 <= b < rp@.len() ==> out@[a].path@ != rp@[b]@,
            forall|a: int, b: int|
                0 <= a < b < out@.len() ==> #[trigger] out@[a].change_count
                    >= #[trigger] out@[b].change_count,
            forall|a: int, b: int|
                0 <= a < out@.len() && 0 <= b < rp@.len() ==> out@[a].change_count >= rc@[b],
            forall|q: Seq<char>|
                #[trigger] seen.contains(q) ==> ranked_paths(out@).contains(q) || texts(
                    rp@,
                ).contains(q),
        decreases rp@.len(),
    {
        let m = first_max(&rc);
        let ghost old_rp = rp@;
        let ghost old_rc = rc@;
        let ghost old_out = out@;
        let p = rp.remove(m);
        let c = rc.remove(m);
        out.push(FileChangeSummary { path: p, change_count: c });
        proof {
            assert(out@[old_out.len() as int].path@ == old_rp[m as int]@);
            assert forall|k: int| 0 <= k < rp@.len() implies #[trigger] rc@[k]
                == seen.to_multiset().count(rp@[k]@) && seen.contains(rp@[k]@) by {
                if k < m {
                    assert(rp@[k] == old_rp[k]);
                    assert(rc@[k] == old_rc[k]);
                } else {
                    assert(rp@[k] == old_rp[k + 1]);
                    assert(rc@[k] == old_rc[k + 1]);
                }
            }
            assert forall|a: int, b: int| 0 <= a < b < rp@.len() implies rp@[a]@ != rp@[b]@ by {
                let a2 = if a < m { a } else { a + 1 };
                let b2 = if b < m { b } else { b + 1 };
                assert(rp@[a] == old_rp[a2]);
                assert(rp@[b] == old_rp[b2]);
            }
            assert forall|a: int, b: int|
                0 <= a < out@.len() && 0 <= b < rp@.len() implies out@[a].path@ != rp@[b]@ by {
                let b2 = if b < m { b } else { b + 1 };
                assert(rp@[b] == old_rp[b2]);
                if a < old_out.len() {
                    assert(out@[a] == old_out[a]);
                }
            }
            assert forall|a: int, b: int|
                0 <= a < out@.len() && 0 <= b < rp@.len() implies out@[a].change_count
                >= rc@[b] by {
                let b2 = if b < m { b } else { b + 1 };
                assert(rc@[b] == old_rc[b2]);
                if a < old_out.len() {
                    assert(out@[a] == old_out[a]);
                }
            }
            assert forall|a: int, b: int| 0 <= a < b < out@.len() implies out@[a].path@
                != out@[b].path@ by {
                assert(out@[a] == old_out[a]);
                if b < old_out.len() {
                    assert(out@[b] == old_out[b]);
                }
            }
            assert forall|a: int, b: int| 0 <= a < b < out@.len() implies #[trigger] out@[a].change_count
                >= #[trigger] out@[b].change_count by {
                assert(out@[a] == old_out[a]);
                if b < old_out.len() {
                    assert(out@[b] == old_out[b]);
                }
            }
            assert forall|q: Seq<char>| #[trigger] seen.contains(q) implies ranked_paths(
                out@,
            ).contains(q) || texts(rp@).contains(q) by {
                if ranked_paths(old_out).contains(q) {
                    let i = choose|i: int| 0 <= i < old_out.len() && ranked_paths(old_out)[i] == q;
                    assert(ranked_paths(out@)[i] == q);
                } else {
                    let k = choose|k: int| 0 <= k < old_rp.len() && texts(old_rp)[k] == q;
                    if k == m {
                        assert(ranked_paths(out@)[old_out.len() as int] == q);
                    } else if k < m {
                        assert(texts(rp@)[k] == q);
                    } else {
                        assert(texts(rp@)[k - 1] == q);
                    }
                }
            }
        }
    }
    proof {
        let rpaths = ranked_paths(out@);
        assert forall|a: int, b: int|
            0 <= a < rpaths.len() && 0 <= b < rpaths.len() && a != b implies rpaths[a]
            != rpaths[b] by {
            if a < b {
                assert(out@[a].path@ != out@[b].path@);
            } else {
                assert(out@[b].path@ != out@[a].path@);
            }
        }
        assert forall|q: Seq<char>| #[trigger] seen.contains(q) implies ranked_paths(out@).contains(
            q,
        ) || (out@.len() == RANKING_LIMIT && forall|i: int|
            0 <= i < out@.len() ==> out@[i].change_count >= seen.to_multiset().count(q)) by {
            if !ranked_paths(out@).contains(q) {
                let k = choose|k: int| 0 <= k < rp@.len() && texts(rp@)[k] == q;
                assert(rc@[k] == seen.to_multiset().count(q));
            }
        }
    }
    out
}

/// The ranking of changed files over the sample: at most twenty distinct
/// paths, most changed first, with exact counts.
pub fn file_change_ranking(sample: &Vec<GitCommit>) -> (r: Vec<FileChangeSummary>)
    requires
        files_in(sample@) <= usize::MAX,
    ensures
        ranking_ok(r@, sample_paths(sample@)),
{
    let (paths, counts) = tally(sample);
    rank_changes(paths, counts, Ghost(sample_paths(sample@)))
}

/// Number of changed files over the sample: the sum of the lengths of its
/// file lists.
pub fn files_changed(sample: &Vec<GitCommit>) -> (r: usize)
    requires
        files_in(sample@) <= usize::MAX,
    ensures
        r == files_in(sample@),
{
    let mut total: usize = 0;
    let mut i: usize = 0;
    while i < sample.len()
        invariant
            i <= sample@.len(),
            files_in(sample@) <= usize::MAX,
            total == files_in(sample@.subrange(0, i as int)),
        decreases sample@.len() - i,
    {
        proof {
            assert(sample@.subrange(0, i + 1).drop_last() =~= sample@.subrange(0, i as int));
            lemma_files_in_prefix(sample@, i + 1);
        }
        total = total + sample[i].files.len();
        i = i + 1;
    }
    proof {
        assert(sample@.subrange(0, i as int) =~= sample@);
    }
    total
}

/// The statistics of a sample: the commit total given, the number of changed
/// files, the distinct authors, the date extent (the requested bounds when
/// the sample is empty), the sample itself and the ranking of changed files.
pub fn summarize(total_commits: usize, sample: Vec<GitCommit>, since: String, until: String) -> (r:
    GitStats)
    requires
        files_in(sample@) <= usize::MAX,
    ensures
        r.total_commits == total_commits,
        r.total_files_changed == files_in(sample@),
        texts(r.authors@).no_duplicates(),
        texts(r.authors@).to_set() == authors_of(sample@).to_set(),
        sample@.len() == 0 ==> r.date_range.0@ == since@ && r.date_range.1@ == until@,
        sample@.len() > 0 ==> (exists|i: int|
            0 <= i < sample@.len() && r.date_range.0@ == sample@[i].date@),
        sample@.len() > 0 ==> (exists|i: int|
            0 <= i < sample@.len() && r.date_range.1@ == sample@[i].date@),
        forall|i: int|
            0 <= i < sample@.len() ==> !text_lt(sample@[i].date@, r.date_range.0@) && !text_lt(
                r.date_range.1@,
                sample@[i].date@,
            ),
        r.sample_commits@ == sample@,
        ranking_ok(r.file_changes_summary@, sample_paths(sample@)),
{
    let total_files_changed = files_changed(&sample);
    let authors = distinct_authors(&sample);
    let date_range = date_range(&sample, since, until);
    let file_changes_summary = file_change_ranking(&sample);
    GitStats {
        total_commits,
        total_files_changed,
        authors,
        date_range,
        sample_commits: sample,
        file_changes_summary,
    }
}

} // verus!
