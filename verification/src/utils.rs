//! Dataset partitioning: result filters, a chronological sort, and the
//! random k-way split used for cross-validation.
use vstd::prelude::*;

use crate::models::{Match, Sets};
use rand::seq::SliceRandom;
use vstd::multiset::Multiset;

verus! {

/// The collection is ordered by date, earliest first.
pub open spec fn sorted_by_date(ms: Seq<Match>) -> bool {
    forall|i: int, j: int| 0 <= i < j < ms.len() ==> ms[i].date <= ms[j].date
}

/// An exact copy of a match collection.
pub fn clone_matches(v: &Vec<Match>) -> (r: Vec<Match>)
    ensures
        r@ == v@,
{
    let mut r: Vec<Match> = Vec::new();
    let n = v.len();
    for i in 0..n
        invariant
            n == v@.len(),
            r@ == v@.take(i as int),
    {
        r.push(v[i].clone());
        proof {
            assert(v@.take(i + 1) =~= v@.take(i as int).push(v@[i as int]));
        }
    }
    proof {
        assert(v@.take(n as int) =~= v@);
    }
    r
}

/// Keeps, in order, the matches that have a known result: the trainable
/// subset.
pub fn filter_results(data_set: &[Match]) -> (r: Vec<Match>)
    ensures
        r@ == data_set@.filter(|m: Match| m.result is Some),
{
    let mut r: Vec<Match> = Vec::new();
    let n = data_set.len();
    proof {
        reveal(Seq::filter);
        assert(data_set@.take(0) =~= Seq::<Match>::empty());
    }
    for i in 0..n
        invariant
            n == data_set@.len(),
            r@ == data_set@.take(i as int).filter(|m: Match| m.result is Some),
    {
        if data_set[i].result.is_some() {
            r.push(data_set[i].clone());
        }
        proof {
            reveal(Seq::filter);
            assert(data_set@.take(i + 1).drop_last() =~= data_set@.take(i as int));
            assert(data_set@.take(i + 1).last() == data_set@[i as int]);
        }
    }
    proof {
        assert(data_set@.take(n as int) =~= data_set@);
    }
    r
}

/// Keeps, in order, the matches without a result: the predict-only
/// subset.
pub fn filter_no_results(data_set: &[Match]) -> (r: Vec<Match>)
    ensures
        r@ == data_set@.filter(|m: Match| m.result is None),
{
    let mut r: Vec<Match> = Vec::new();
    let n = data_set.len();
    proof {
        reveal(Seq::filter);
        assert(data_set@.take(0) =~= Seq::<Match>::empty());
    }
    for i in 0..n
        invariant
            n == data_set@.len(),
            r@ == data_set@.take(i as int).filter(|m: Match| m.result is None),
    {
        if data_set[i].result.is_none() {
            r.push(data_set[i].clone());
        }
        proof {
            reveal(Seq::filter);
            assert(data_set@.take(i + 1).drop_last() =~= data_set@.take(i as int));
            assert(data_set@.take(i + 1).last() == data_set@[i as int]);
        }
    }
    proof {
        assert(data_set@.take(n as int) =~= data_set@);
    }
    r
}

/// Sorts the collection by date, earliest first, keeping exactly the
/// same matches.  Feeding a generator in this order is what makes the
/// ledger's causality guarantee hold.
pub fn sort_by_date(data_set: &mut Vec<Match>)
    ensures
        sorted_by_date(final(data_set)@),
        final(data_set)@.to_multiset() == old(data_set)@.to_multiset(),
{
    let ghost input = data_set@;
    let mut out: Vec<Match> = Vec::new();
    proof {
        broadcast use vstd::seq_lib::group_to_multiset_ensures;

        assert(out@.to_multiset().add(data_set@.to_multiset()) =~= input.to_multiset());
    }
    while data_set.len() > 0
        invariant
            sorted_by_date(out@),
            out@.to_multiset().add(data_set@.to_multiset()) =~= input.to_multiset(),
            forall|i: int, j: int|
                0 <= i < out@.len() && 0 <= j < data_set@.len() ==> out@[i].date
                    <= data_set@[j].date,
        decreases data_set@.len(),
    {
        let n = data_set.len();
        let mut k: usize = 0;
        for t in 1..n
            invariant
                n == data_set@.len(),
                k < n,
                forall|j: int| 0 <= j < t ==> data_set@[k as int].date <= data_set@[j].date,
        {
            if data_set[t].date < data_set[k].date {
                k = t;
            }
        }
        let ghost src0 = data_set@;
        let ghost out0 = out@;
        let x = data_set.remove(k);
        out.push(x);
        proof {
            broadcast use vstd::seq_lib::group_to_multiset_ensures;

            assert(data_set@.to_multiset() =~= src0.to_multiset().remove(x));
            assert(out@.to_multiset() =~= out0.to_multiset().insert(x));
            assert(src0.to_multiset().contains(x));
            assert(out@.to_multiset().add(data_set@.to_multiset()) =~= out0.to_multiset().add(
                src0.to_multiset(),
            ));
            assert forall|j: int| 0 <= j < data_set@.len() implies x.date
                <= data_set@[j].date by {
                if j < k {
                    assert(data_set@[j] == src0[j]);
                } else {
                    assert(data_set@[j] == src0[j + 1]);
                }
            }
            assert forall|i: int, j: int|
                0 <= i < out@.len() && 0 <= j < data_set@.len() implies out@[i].date
                <= data_set@[j].date by {
                if i < out0.len() {
                    assert(out@[i] == out0[i]);
                    if j < k {
                        assert(data_set@[j] == src0[j]);
                    } else {
                        assert(data_set@[j] == src0[j + 1]);
                    }
                } else {
                    assert(out@[i] == x);
                }
            }
            assert forall|i: int, j: int| 0 <= i < j < out@.len() implies out@[i].date
                <= out@[j].date by {
                if j < out0.len() {
                    assert(out0[i].date <= out0[j].date);
                } else {
                    assert(out@[j] == x);
                    assert(out0[i].date <= src0[k as int].date);
                }
            }
        }
    }
    *data_set = out;
}

/// The matches held across a list of subsets, as a multiset.
pub open spec fn chunks_multiset(cs: Seq<Vec<Match>>) -> Multiset<Match>
    decreases cs.len(),
{
    if cs.len() == 0 {
        Multiset::empty()
    } else {
        chunks_multiset(cs.drop_last()).add(cs.last()@.to_multiset())
    }
}

/// Removing one subset removes exactly its matches.
proof fn lemma_chunks_multiset_remove(cs: Seq<Vec<Match>>, i: int)
    requires
        0 <= i < cs.len(),
    ensures
        chunks_multiset(cs) =~= chunks_multiset(cs.remove(i)).add(cs[i]@.to_multiset()),
    decreases cs.len(),
{
    if i == cs.len() - 1 {
        assert(cs.remove(i) =~= cs.drop_last());
    } else {
        lemma_chunks_multiset_remove(cs.drop_last(), i);
        assert(cs.remove(i).drop_last() =~= cs.drop_last().remove(i));
        assert(cs.remove(i).last() == cs.last());
    }
}

/// The multiset of held matches does not depend on the order of the
/// subsets.
proof fn lemma_chunks_multiset_permutation(a: Seq<Vec<Match>>, b: Seq<Vec<Match>>)
    requires
        a.to_multiset() == b.to_multiset(),
    ensures
        chunks_multiset(a) == chunks_multiset(b),
    decreases a.len(),
{
    broadcast use vstd::seq_lib::group_to_multiset_ensures;

    if a.len() == 0 {
        assert(b.to_multiset().len() == 0);
        assert(b.len() == 0);
    } else {
        let x = a.last();
        assert(a.to_multiset().contains(x)) by {
            assert(a[a.len() - 1] == x);
        }
        assert(b.to_multiset().contains(x));
        let i = choose|i: int| 0 <= i < b.len() && b[i] == x;
        assert(a.drop_last().to_multiset() =~= a.to_multiset().remove(x)) by {
            assert(a =~= a.drop_last().push(x));
            assert(a.drop_last().push(x).to_multiset() =~= a.drop_last().to_multiset().insert(x));
        }
        assert(b.remove(i).to_multiset() =~= b.to_multiset().remove(x));
        lemma_chunks_multiset_permutation(a.drop_last(), b.remove(i));
        lemma_chunks_multiset_remove(b, i);
    }
}

#[verifier::external_type_specification]
#[verifier::external_body]
pub struct ExThreadRng(rand::rngs::ThreadRng);

/// Relies on `rand::rng`: a handle to the thread-local random generator.
/// Nothing is promised of the randomness it yields.
#[verifier::external_body]
fn fresh_rng() -> rand::rngs::ThreadRng {
    rand::rng()
}

/// Relies on `SliceRandom::shuffle`: the vector is permuted in place —
/// afterwards it holds exactly the same elements, as a multiset, in an
/// order nothing is promised about.
#[verifier::external_body]
fn shuffle_vec<T>(v: &mut Vec<T>, rng: &mut rand::rngs::ThreadRng)
    ensures
        final(v)@.len() == old(v)@.len(),
        final(v)@.to_multiset() == old(v)@.to_multiset(),
{
    v.shuffle(rng)
}

/// Splits the collection into subsets of `k` matches each, after
/// shuffling it; the `len % k` leftover matches are distributed one each
/// over the first subsets, and the subset list is itself shuffled.  Every
/// match of the collection lands in exactly one subset.  With
/// `original`, a copy of the (shuffled) collection is kept alongside.
pub fn rand_k_split(data_set: &mut Vec<Match>, k: usize, original: bool) -> (r: Sets)
    requires
        k >= 1,
        old(data_set)@.len() as int % (k as int) <= old(data_set)@.len() as int / (k as int),
    ensures
        final(data_set)@.to_multiset() == old(data_set)@.to_multiset(),
        r.data@.len() == old(data_set)@.len() as int / (k as int),
        forall|i: int| 0 <= i < r.data@.len() ==> k <= (#[trigger] r.data@[i])@.len() <= k + 1,
        chunks_multiset(r.data@) == old(data_set)@.to_multiset(),
        original ==> (r.original matches Some(v) && v@ == final(data_set)@),
        !original ==> r.original is None,
{
    let mut rng = fresh_rng();
    shuffle_vec(data_set, &mut rng);
    let n = data_set.len();
    let nchunks = n / k;
    let rem = n % k;
    let mut result: Vec<Vec<Match>> = Vec::new();
    proof {
        assert(data_set@.take(0) =~= Seq::<Match>::empty());
        broadcast use vstd::seq_lib::group_to_multiset_ensures;

        assert(chunks_multiset(result@) =~= data_set@.take(0).to_multiset());
    }
    for i in 0..nchunks
        invariant
            n == data_set@.len(),
            k >= 1,
            nchunks == n as int / k as int,
            result@.len() == i,
            forall|j: int| 0 <= j < i ==> (#[trigger] result@[j])@.len() == k,
            chunks_multiset(result@) == data_set@.take(i * k).to_multiset(),
    {
        proof {
            assert(i * k + k <= n) by (nonlinear_arith)
                requires
                    0 <= i < nchunks,
                    k >= 1,
                    nchunks == n as int / k as int,
                    n >= 0,
            {
            }
        }
        let base = i * k;
        let mut chunk: Vec<Match> = Vec::new();
        for j in 0..k
            invariant
                n == data_set@.len(),
                base == i * k,
                base + k <= n,
                chunk@ == data_set@.subrange(base as int, base + j),
        {
            chunk.push(data_set[base + j].clone());
            proof {
                assert(data_set@.subrange(base as int, base + j + 1) =~= data_set@.subrange(
                    base as int,
                    base + j,
                ).push(data_set@[base + j]));
            }
        }
        let ghost pre_result = result@;
        result.push(chunk);
        proof {
            broadcast use vstd::seq_lib::group_to_multiset_ensures;

            assert(result@.drop_last() =~= pre_result);
            assert(result@.last() == chunk);
            assert(chunks_multiset(result@) == chunks_multiset(pre_result).add(
                chunk@.to_multiset(),
            ));
            assert(data_set@.take(i * k + k) =~= data_set@.take(i * k) + data_set@.subrange(
                i * k,
                i * k + k,
            ));
            vstd::seq_lib::lemma_multiset_commutative(
                data_set@.take(i * k),
                data_set@.subrange(i * k, i * k + k),
            );
            assert((i + 1) * k == i * k + k) by (nonlinear_arith);
            assert(chunks_multiset(result@) == data_set@.take((i + 1) * k).to_multiset());
        }
    }
    proof {
        assert(nchunks * k + rem == n) by (nonlinear_arith)
            requires
                k >= 1,
                n >= 0,
                nchunks == n as int / k as int,
                rem == n as int % k as int,
        {
        }
    }
    for t in 0..rem
        invariant
            n == data_set@.len(),
            k >= 1,
            rem < k,
            rem <= nchunks,
            nchunks * k + rem == n,
            result@.len() == nchunks,
            forall|j: int|
                0 <= j < nchunks ==> (#[trigger] result@[j])@.len() == k + (if j < t {
                    1int
                } else {
                    0int
                }),
            chunks_multiset(result@) == data_set@.take(nchunks * k + t).to_multiset(),
    {
        let m = data_set[nchunks * k + t].clone();
        let ghost pre_result = result@;
        let slot = &mut result[t];
        slot.push(m);
        proof {
            broadcast use vstd::seq_lib::group_to_multiset_ensures;

            lemma_chunks_multiset_push_at(pre_result, result@, t as int, data_set@[nchunks * k
                + t]);
            assert(data_set@.take(nchunks * k + t + 1) =~= data_set@.take(nchunks * k
                + t).push(data_set@[nchunks * k + t]));
        }
    }
    let ghost pre_shuffle = result@;
    shuffle_vec(&mut result, &mut rng);
    proof {
        lemma_chunks_multiset_permutation(result@, pre_shuffle);
        assert(data_set@.take(n as int) =~= data_set@);
        assert forall|i: int| 0 <= i < result@.len() implies k <= (#[trigger] result@[i])@.len()
            <= k + 1 by {
            broadcast use vstd::seq_lib::group_to_multiset_ensures;

            assert(result@.to_multiset().contains(result@[i]));
            assert(pre_shuffle.to_multiset().contains(result@[i]));
            let j = choose|j: int| 0 <= j < pre_shuffle.len() && pre_shuffle[j] == result@[i];
            assert(k <= pre_shuffle[j]@.len() <= k + 1);
        }
    }
    if original {
        let copy = clone_matches(data_set);
        Sets::new(Some(copy), result)
    } else {
        Sets::new(None, result)
    }
}

/// Appending one match to one subset adds exactly that match.
proof fn lemma_chunks_multiset_push_at(
    pre: Seq<Vec<Match>>,
    post: Seq<Vec<Match>>,
    t: int,
    m: Match,
)
    requires
        0 <= t < pre.len(),
        post.len() == pre.len(),
        forall|j: int| 0 <= j < pre.len() && j != t ==> post[j] == pre[j],
        post[t]@ == pre[t]@.push(m),
    ensures
        chunks_multiset(post) =~= chunks_multiset(pre).insert(m),
    decreases pre.len(),
{
    broadcast use vstd::seq_lib::group_to_multiset_ensures;

    if t == pre.len() - 1 {
        assert(post.drop_last() =~= pre.drop_last());
        assert(post.last()@.to_multiset() =~= pre.last()@.to_multiset().insert(m));
    } else {
        lemma_chunks_multiset_push_at(pre.drop_last(), post.drop_last(), t, m);
        assert(post.last() == pre.last());
    }
}

} // verus!
