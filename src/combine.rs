use vstd::prelude::*;

use crate::model::GitCommit;
use crate::order::{lemma_lt_irreflexive, lemma_lt_transitive, lemma_text_total, text_less, text_lt};

verus! {

broadcast use vstd::seq_lib::group_to_multiset_ensures;

/// Most commits kept, across all repositories, in a statistics sample.
pub const SAMPLE_LIMIT: usize = 50;

/// Commits ordered by date, newest first: no commit is dated after one
/// before it.
pub open spec fn newest_first(s: Seq<GitCommit>) -> bool {
    forall|i: int, j: int| 0 <= i < j < s.len() ==> !text_lt(s[i].date@, s[j].date@)
}

/// The commits of every submodule fetch that succeeded, in order; failed
/// fetches contribute nothing.
pub open spec fn fetched(subs: Seq<Result<Vec<GitCommit>, String>>) -> Seq<GitCommit>
    decreases subs.len(),
{
    if subs.len() == 0 {
        Seq::empty()
    } else {
        fetched(subs.drop_last()) + match subs.last() {
            Ok(v) => v@,
            Err(_) => Seq::empty(),
        }
    }
}

pub open spec fn min_nat(a: nat, b: nat) -> nat {
    if a <= b {
        a
    } else {
        b
    }
}

/// `r` is `v` rearranged by `perm` (position in `r` to position in `v`),
/// with commits of equal dates kept in their order in `v`.
pub open spec fn stable_arrangement(r: Seq<GitCommit>, v: Seq<GitCommit>, perm: Seq<int>) -> bool {
    &&& perm.len() == r.len()
    &&& forall|k: int| 0 <= k < r.len() ==> 0 <= #[trigger] perm[k] < v.len() && r[k] == v[perm[k]]
    &&& forall|k: int, l: int| 0 <= k < l < r.len() ==> #[trigger] perm[k] != #[trigger] perm[l]
    &&& forall|k: int, l: int|
        0 <= k < l < r.len() && (#[trigger] r[k]).date@ == (#[trigger] r[l]).date@ ==> perm[k]
            < perm[l]
}

/// The commits sorted by date, newest first; commits with equal dates keep
/// their order.
pub fn sort_newest_first(v: Vec<GitCommit>) -> (r: Vec<GitCommit>)
    ensures
        r@.to_multiset() == v@.to_multiset(),
        r@.len() == v@.len(),
        newest_first(r@),
        exists|perm: Seq<int>| stable_arrangement(r@, v@, perm),
{
    let ghost orig = v@;
    let mut rest = v;
    let mut out: Vec<GitCommit> = Vec::new();
    let ghost mut perm: Seq<int> = Seq::empty();
    let ghost mut i: int = 0;
    proof {
        assert(out@.to_multiset().add(rest@.to_multiset()) =~= orig.to_multiset());
        assert(rest@ =~= orig.subrange(0, orig.len() as int));
    }
    while rest.len() > 0
        invariant
            0 <= i <= orig.len(),
            rest@ == orig.subrange(i, orig.len() as int),
            out@.to_multiset().add(rest@.to_multiset()) == orig.to_multiset(),
            newest_first(out@),
            stable_arrangement(out@, orig, perm),
            forall|k: int| 0 <= k < out@.len() ==> #[trigger] perm[k] < i,
        decreases rest@.len(),
    {
        let ghost old_rest = rest@;
        let x = rest.remove(0);
        let mut p: usize = 0;
        while p < out.len() && !text_less(&out[p].date, &x.date)
            invariant
                p <= out@.len(),
                forall|k: int| 0 <= k < p ==> !text_lt(out@[k].date@, x.date@),
            decreases out@.len() - p,
        {
            p = p + 1;
        }
        proof {
            let xd = x.date@;
            if p < out@.len() {
                let xp = out@[p as int].date@;
                assert forall|k: int| p <= k < out@.len() implies text_lt(out@[k].date@, xd) by {
                    let xk = out@[k].date@;
                    if k > p {
                        if text_lt(xk, xp) {
                            lemma_lt_transitive(xk, xp, xd, 0);
                        } else {
                            lemma_text_total(xk, xp);
                        }
                    }
                }
                assert forall|k: int| p <= k < out@.len() implies !text_lt(xd, out@[k].date@)
                    && out@[k].date@ != xd by {
                    let xk = out@[k].date@;
                    lemma_lt_irreflexive(xd, 0);
                    if text_lt(xd, xk) {
                        lemma_lt_transitive(xd, xk, xd, 0);
                    }
                }
            }
        }
        let ghost old_out = out@;
        let ghost old_perm = perm;
        out.insert(p, x);
        proof {
            perm = old_perm.insert(p as int, i);
            assert(old_rest[0] == orig[i]);
            assert(out@.remove(p as int) =~= old_out);
            assert(old_rest.remove(0) =~= rest@);
            assert(out@[p as int] == x);
            assert(out@.to_multiset() =~= old_out.to_multiset().insert(x));
            assert(old_rest.to_multiset() =~= rest@.to_multiset().insert(x));
            assert(out@.to_multiset().add(rest@.to_multiset()) =~= old_out.to_multiset().add(
                old_rest.to_multiset(),
            ));
            assert forall|a: int, b: int| 0 <= a < b < out@.len() implies !text_lt(
                out@[a].date@,
                out@[b].date@,
            ) by {
                if a < p && b > p {
                    assert(out@[b] == old_out[b - 1]);
                } else if a > p {
                    assert(out@[a] == old_out[a - 1]);
                    assert(out@[b] == old_out[b - 1]);
                } else if a == p {
                    assert(out@[b] == old_out[b - 1]);
                }
            }
            assert forall|k: int| 0 <= k < out@.len() implies 0 <= #[trigger] perm[k] < orig.len()
                && out@[k] == orig[perm[k]] by {
                if k < p {
                    assert(perm[k] == old_perm[k]);
                } else if k > p {
                    assert(perm[k] == old_perm[k - 1]);
                    assert(out@[k] == old_out[k - 1]);
                }
            }
            assert forall|k: int| 0 <= k < out@.len() implies #[trigger] perm[k] < i + 1 by {
                if k < p {
                    assert(perm[k] == old_perm[k]);
                } else if k > p {
                    assert(perm[k] == old_perm[k - 1]);
                }
            }
            assert forall|k: int, l: int| 0 <= k < l < out@.len() implies #[trigger] perm[k]
                != #[trigger] perm[l] by {
                if k < p && l > p {
                    assert(perm[l] == old_perm[l - 1]);
                } else if k > p {
                    assert(perm[k] == old_perm[k - 1]);
                    assert(perm[l] == old_perm[l - 1]);
                } else if k == p {
                    assert(perm[l] == old_perm[l - 1]);
                } else if l == p {
                    assert(perm[k] == old_perm[k]);
                }
            }
            assert forall|k: int, l: int|
                0 <= k < l < out@.len() && (#[trigger] out@[k]).date@ == (#[trigger] out@[l]).date@
                implies perm[k] < perm[l] by {
                if k < p && l > p {
                    assert(perm[l] == old_perm[l - 1]);
                    assert(out@[l] == old_out[l - 1]);
                } else if k > p {
                    assert(perm[k] == old_perm[k - 1]);
                    assert(perm[l] == old_perm[l - 1]);
                    assert(out@[k] == old_out[k - 1]);
                    assert(out@[l] == old_out[l - 1]);
                } else if k == p {
                    assert(out@[l] == old_out[l - 1]);
                } else if l == p {
                    assert(perm[k] == old_perm[k]);
                }
            }
            i = i + 1;
            assert(rest@ =~= orig.subrange(i, orig.len() as int));
        }
    }
    proof {
        assert(rest@ =~= Seq::<GitCommit>::empty());
        assert(out@.to_multiset() =~= orig.to_multiset());
        assert(out@.len() == out@.to_multiset().len());
        assert(orig.len() == orig.to_multiset().len());
        assert(stable_arrangement(out@, orig, perm));
    }
    out
}

/// The main repository's commits followed by those of every submodule fetch
/// that succeeded.
pub fn gather(main: Vec<GitCommit>, subs: Vec<Result<Vec<GitCommit>, String>>) -> (r: Vec<
    GitCommit,
>)
    ensures
        r@ == main@ + fetched(subs@),
{
    let ghost orig = subs@;
    let mut all = main;
    let mut rest = subs;
    let total = rest.len();
    let mut i: usize = 0;
    proof {
        assert(orig.subrange(0, 0) =~= Seq::<Result<Vec<GitCommit>, String>>::empty());
        assert(all@ =~= main@ + fetched(orig.subrange(0, 0)));
        assert(rest@ =~= orig.subrange(0, orig.len() as int));
    }
    while rest.len() > 0
        invariant
            i <= orig.len(),
            orig.len() == total,
            rest@ == orig.subrange(i as int, orig.len() as int),
            all@ == main@ + fetched(orig.subrange(0, i as int)),
        decreases rest@.len(),
    {
        let item = rest.remove(0);
        proof {
            assert(orig.subrange(0, i + 1).drop_last() =~= orig.subrange(0, i as int));
            assert(orig.subrange(0, i + 1).last() == item);
        }
        match item {
            Ok(mut v) => {
                let ghost before = all@;
                all.append(&mut v);
                proof {
                    assert(all@ =~= main@ + fetched(orig.subrange(0, i + 1)));
                }
            },
            Err(_) => {
                proof {
                    assert(all@ =~= main@ + fetched(orig.subrange(0, i + 1)));
                }
            },
        }
        i = i + 1;
        proof {
            assert(rest@ =~= orig.subrange(i as int, orig.len() as int));
        }
    }
    proof {
        assert(orig.subrange(0, i as int) =~= orig);
    }
    all
}

/// The full history of a request: a failed main repository fails the whole
/// request with its error; otherwise its commits and those of every
/// submodule that succeeded, newest first. Failed submodules are skipped.
pub fn assemble_log(
    main: Result<Vec<GitCommit>, String>,
    subs: Vec<Result<Vec<GitCommit>, String>>,
) -> (r: Result<Vec<GitCommit>, String>)
    ensures
        main is Err <==> r is Err,
        main matches Err(e) ==> r matches Err(x) && x@ == e@,
        main matches Ok(m) ==> r matches Ok(v) && v@.to_multiset() == (m@ + fetched(
            subs@,
        )).to_multiset() && newest_first(v@) && exists|perm: Seq<int>|
            stable_arrangement(v@, m@ + fetched(subs@), perm),
{
    match main {
        Err(e) => Err(e),
        Ok(m) => Ok(sort_newest_first(gather(m, subs))),
    }
}

/// The statistics sample: the main repository's sample followed by those of
/// the submodules that succeeded, cut to the first fifty, then ordered newest
/// first.
pub fn combine_samples(main: Vec<GitCommit>, subs: Vec<Result<Vec<GitCommit>, String>>) -> (r: Vec<
    GitCommit,
>)
    ensures
        r@.len() == min_nat((main@ + fetched(subs@)).len(), SAMPLE_LIMIT as nat),
        r@.to_multiset() == (main@ + fetched(subs@)).subrange(
            0,
            min_nat((main@ + fetched(subs@)).len(), SAMPLE_LIMIT as nat) as int,
        ).to_multiset(),
        newest_first(r@),
        exists|perm: Seq<int>|
            stable_arrangement(
                r@,
                (main@ + fetched(subs@)).subrange(
                    0,
                    min_nat((main@ + fetched(subs@)).len(), SAMPLE_LIMIT as nat) as int,
                ),
                perm,
            ),
{
    let mut all = gather(main, subs);
    let ghost whole = all@;
    all.truncate(SAMPLE_LIMIT);
    proof {
        assert(all@ =~= whole.subrange(0, min_nat(whole.len(), SAMPLE_LIMIT as nat) as int));
    }
    sort_newest_first(all)
}

} // verus!
