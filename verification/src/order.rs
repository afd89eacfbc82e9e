//! Ordering of scored candidates for display: a stable sort by descending
//! score. A candidate carries an integer order key monotone in its score;
//! a score that does not compare (not a number) is marked instead, and such
//! a candidate compares equal to everything, so it never moves.

use vstd::prelude::*;
use vstd::seq_lib::lemma_multiset_commutative;
use vstd::multiset::Multiset;

verus! {

broadcast use vstd::seq_lib::group_to_multiset_ensures;

/// A reranked candidate ready for display. `key` orders candidates: for
/// two candidates with comparable scores, the higher score has the higher
/// key. `score_text` is the score as it will be printed.
pub struct ScoredDoc {
    pub id: String,
    pub text: String,
    pub score_text: String,
    pub key: u32,
    pub nan: bool,
}

/// `a` standing before `b` violates descending order: both compare, and
/// `a`'s key is smaller.
pub open spec fn key_violation(a: ScoredDoc, b: ScoredDoc) -> bool {
    !a.nan && !b.nan && a.key < b.key
}

/// No adjacent pair violates descending order.
pub open spec fn adjacent_ordered(s: Seq<ScoredDoc>) -> bool {
    forall|i: int| 0 <= i && i + 1 < s.len() ==> !key_violation(#[trigger] s[i], s[i + 1])
}

/// The comparable candidates with key `kk`, in order.
pub open spec fn key_filter(s: Seq<ScoredDoc>, kk: u32) -> Seq<ScoredDoc> {
    s.filter(|d: ScoredDoc| d.key == kk && !d.nan)
}

proof fn lemma_filter_singleton(d: ScoredDoc, pred: spec_fn(ScoredDoc) -> bool)
    ensures
        seq![d].filter(pred) == if pred(d) {
            seq![d]
        } else {
            Seq::<ScoredDoc>::empty()
        },
{
    reveal_with_fuel(Seq::<ScoredDoc>::filter, 2);
    assert(seq![d].drop_last() =~= Seq::<ScoredDoc>::empty());
    assert(seq![d].last() == d);
    assert(Seq::<ScoredDoc>::empty().filter(pred) == Seq::<ScoredDoc>::empty());
    if pred(d) {
        assert(Seq::<ScoredDoc>::empty().push(d) =~= seq![d]);
    }
}

/// Swapping an adjacent violating pair preserves the candidates, the
/// per-key subsequences of comparable candidates, and every non-comparable
/// candidate's place.
proof fn lemma_swap_adjacent(s: Seq<ScoredDoc>, k: int)
    requires
        1 <= k < s.len(),
        key_violation(s[k - 1], s[k]),
    ensures
        ({
            let t = s.update(k - 1, s[k]).update(k, s[k - 1]);
            &&& t.to_multiset() == s.to_multiset()
            &&& forall|kk: u32| #[trigger] key_filter(t, kk) == key_filter(s, kk)
            &&& forall|i: int| 0 <= i < s.len() ==> (#[trigger] t[i]).nan == s[i].nan
            &&& forall|i: int| 0 <= i < s.len() && s[i].nan ==> #[trigger] t[i] == s[i]
        }),
{
    let x = s[k - 1];
    let y = s[k];
    let t = s.update(k - 1, y).update(k, x);
    let p = s.subrange(0, k - 1);
    let q = s.subrange(k + 1, s.len() as int);
    assert(s =~= ((p + seq![x]) + seq![y]) + q);
    assert(t =~= ((p + seq![y]) + seq![x]) + q);
    assert(seq![x].to_multiset() =~= Multiset::<ScoredDoc>::empty().insert(x));
    assert(seq![y].to_multiset() =~= Multiset::<ScoredDoc>::empty().insert(y));
    lemma_multiset_commutative((p + seq![x]) + seq![y], q);
    lemma_multiset_commutative(p + seq![x], seq![y]);
    lemma_multiset_commutative(p, seq![x]);
    lemma_multiset_commutative((p + seq![y]) + seq![x], q);
    lemma_multiset_commutative(p + seq![y], seq![x]);
    lemma_multiset_commutative(p, seq![y]);
    assert(t.to_multiset() =~= s.to_multiset());
    assert forall|kk: u32| #[trigger] key_filter(t, kk) == key_filter(s, kk) by {
        let pred = |d: ScoredDoc| d.key == kk && !d.nan;
        Seq::<ScoredDoc>::filter_distributes_over_add((p + seq![x]) + seq![y], q, pred);
        Seq::<ScoredDoc>::filter_distributes_over_add(p + seq![x], seq![y], pred);
        Seq::<ScoredDoc>::filter_distributes_over_add(p, seq![x], pred);
        Seq::<ScoredDoc>::filter_distributes_over_add((p + seq![y]) + seq![x], q, pred);
        Seq::<ScoredDoc>::filter_distributes_over_add(p + seq![y], seq![x], pred);
        Seq::<ScoredDoc>::filter_distributes_over_add(p, seq![y], pred);
        lemma_filter_singleton(x, pred);
        lemma_filter_singleton(y, pred);
        assert(!(pred(x) && pred(y)));
        assert(seq![x].filter(pred) + seq![y].filter(pred) =~= seq![y].filter(pred) + seq![
            x,
        ].filter(pred));
        assert(t.filter(pred) =~= s.filter(pred));
    }
}

/// `key_violation`, decided on borrowed candidates.
fn is_violation(a: &ScoredDoc, b: &ScoredDoc) -> (r: bool)
    ensures
        r == key_violation(*a, *b),
{
    !a.nan && !b.nan && a.key < b.key
}

/// Stable insertion sort by descending key. Candidates whose scores do not
/// compare stay exactly where retrieval put them; comparable candidates
/// with equal keys keep their relative order.
pub fn sort_candidates(v: &mut Vec<ScoredDoc>)
    ensures
        final(v)@.len() == old(v)@.len(),
        adjacent_ordered(final(v)@),
        forall|i: int| 0 <= i < final(v)@.len() ==> (#[trigger] final(v)@[i]).nan == old(v)@[i].nan,
        forall|i: int|
            0 <= i < final(v)@.len() && old(v)@[i].nan ==> #[trigger] final(v)@[i] == old(v)@[i],
        forall|kk: u32| #[trigger] key_filter(final(v)@, kk) == key_filter(old(v)@, kk),
        final(v)@.to_multiset() == old(v)@.to_multiset(),
{
    let ghost orig = old(v)@;
    let n = v.len();
    let mut j: usize = 1;
    while j < n
        invariant
            n == v@.len(),
            orig.len() == n,
            1 <= j,
            n > 0 ==> j <= n,
            forall|i: int| 0 <= i && i + 1 < j ==> !key_violation(#[trigger] v@[i], v@[i + 1]),
            forall|i: int| 0 <= i < n ==> (#[trigger] v@[i]).nan == orig[i].nan,
            forall|i: int| 0 <= i < n && orig[i].nan ==> #[trigger] v@[i] == orig[i],
            forall|kk: u32| #[trigger] key_filter(v@, kk) == key_filter(orig, kk),
            v@.to_multiset() == orig.to_multiset(),
        decreases n - j,
    {
        let mut k: usize = j;
        while k > 0 && is_violation(&v[k - 1], &v[k])
            invariant
                n == v@.len(),
                orig.len() == n,
                j < n,
                k <= j,
                forall|i: int| 0 <= i && i + 1 < k ==> !key_violation(#[trigger] v@[i], v@[i + 1]),
                forall|i: int| k <= i && i + 1 <= j ==> !key_violation(#[trigger] v@[i], v@[i + 1]),
                k >= 1 && k + 1 <= j ==> !key_violation(v@[k - 1], v@[k + 1]),
                forall|i: int| 0 <= i < n ==> (#[trigger] v@[i]).nan == orig[i].nan,
                forall|i: int| 0 <= i < n && orig[i].nan ==> #[trigger] v@[i] == orig[i],
                forall|kk: u32| #[trigger] key_filter(v@, kk) == key_filter(orig, kk),
                v@.to_multiset() == orig.to_multiset(),
            decreases k,
        {
            let ghost s = v@;
            let x = v.remove(k);
            v.insert(k - 1, x);
            proof {
                let t = s.update(k - 1, s[k as int]).update(k as int, s[k - 1]);
                assert(v@ =~= t);
                lemma_swap_adjacent(s, k as int);
            }
            k -= 1;
        }
        proof {
            assert(forall|i: int| 0 <= i && i + 1 <= j ==> !key_violation(#[trigger] v@[i], v@[i + 1]));
        }
        j += 1;
    }
}

/// The first `top_n` candidates (all of them when fewer), in order.
pub fn take_top(v: Vec<ScoredDoc>, top_n: usize) -> (r: Vec<ScoredDoc>)
    ensures
        r@ == v@.subrange(0, if top_n <= v@.len() {
            top_n as int
        } else {
            v@.len() as int
        }),
{
    let ghost given = v@;
    let mut v = v;
    let m = if top_n <= v.len() {
        top_n
    } else {
        v.len()
    };
    v.truncate(m);
    proof {
        assert(v@ =~= given.subrange(0, m as int));
    }
    v
}

proof fn lemma_key_chain(s: Seq<ScoredDoc>, i: int, j: int)
    requires
        adjacent_ordered(s),
        forall|p: int| 0 <= p < s.len() ==> !(#[trigger] s[p]).nan,
        0 <= i <= j < s.len(),
    ensures
        s[i].key >= s[j].key,
    decreases j - i,
{
    if i < j {
        lemma_key_chain(s, i, j - 1);
        assert(!key_violation(s[j - 1], s[j]));
    }
}

/// Law: when every score compares, a sorted candidate list is globally
/// non-increasing in score from top to bottom, not only between
/// neighbours.
pub proof fn lemma_sorted_desc(s: Seq<ScoredDoc>)
    requires
        adjacent_ordered(s),
        forall|p: int| 0 <= p < s.len() ==> !(#[trigger] s[p]).nan,
    ensures
        forall|i: int, j: int|
            0 <= i <= j < s.len() ==> (#[trigger] s[i]).key >= (#[trigger] s[j]).key,
{
    assert forall|i: int, j: int|
        0 <= i <= j < s.len() implies (#[trigger] s[i]).key >= (#[trigger] s[j]).key by {
        lemma_key_chain(s, i, j);
    }
}

} // verus!
