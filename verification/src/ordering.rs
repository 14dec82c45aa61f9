//! Finding the first match in a sequence, keeping what matches, and ranking by points.

use vstd::prelude::*;

verus! {

/// `i` is the first place in `s` where `pred` holds.
pub open spec fn is_first<A>(s: Seq<A>, pred: spec_fn(A) -> bool, i: int) -> bool {
    &&& 0 <= i < s.len()
    &&& pred(s[i])
    &&& forall|j: int| 0 <= j < i ==> !pred(#[trigger] s[j])
}

/// The first place in `s` where `pred` holds, if there is one.
pub open spec fn first<A>(s: Seq<A>, pred: spec_fn(A) -> bool) -> Option<int> {
    if exists|i: int| is_first(s, pred, i) {
        Some(choose|i: int| is_first(s, pred, i))
    } else {
        None
    }
}

pub proof fn lemma_first<A>(s: Seq<A>, pred: spec_fn(A) -> bool, i: int)
    requires
        is_first(s, pred, i),
    ensures
        first(s, pred) == Some(i),
{
    let c = choose|i: int| is_first(s, pred, i);
    if c < i {
        assert(!pred(s[c]));
    } else if i < c {
        assert(!pred(s[i]));
    }
}

pub proof fn lemma_first_none<A>(s: Seq<A>, pred: spec_fn(A) -> bool)
    requires
        forall|j: int| 0 <= j < s.len() ==> !pred(#[trigger] s[j]),
    ensures
        first(s, pred) == None::<int>,
{
}

/// Keeps what passes a test, in order.
pub(crate) fn kept<T: Copy>(
    all: &Vec<T>,
    passes: impl Fn(T) -> bool,
    Ghost(pred): Ghost<spec_fn(T) -> bool>,
) -> (r: Vec<T>)
    requires
        forall|t: T| #[trigger] call_requires(passes, (t,)),
        forall|t: T, b: bool| #[trigger] call_ensures(passes, (t,), b) ==> b == pred(t),
    ensures
        r@ == all@.filter(pred),
{
    let mut r: Vec<T> = Vec::new();
    let mut i: usize = 0;
    assert(all@.take(0).filter(pred) =~= Seq::empty()) by {
        reveal(Seq::filter);
    }
    while i < all.len()
        invariant
            i <= all.len(),
            forall|t: T| #[trigger] call_requires(passes, (t,)),
            forall|t: T, b: bool| #[trigger] call_ensures(passes, (t,), b) ==> b == pred(t),
            r@ == all@.take(i as int).filter(pred),
        decreases all.len() - i,
    {
        proof {
            reveal(Seq::filter);
            assert(all@.take(i + 1).drop_last() =~= all@.take(i as int));
        }
        if passes(all[i]) {
            r.push(all[i]);
        }
        i += 1;
    }
    assert(all@.take(i as int) =~= all@);
    r
}

/// Nothing is left out where everything passes.
pub(crate) proof fn lemma_filter_all<A>(s: Seq<A>, pred: spec_fn(A) -> bool)
    requires
        forall|i: int| 0 <= i < s.len() ==> pred(#[trigger] s[i]),
    ensures
        s.filter(pred) == s,
    decreases s.len(),
{
    reveal(Seq::filter);
    if s.len() > 0 {
        assert forall|i: int| 0 <= i < s.drop_last().len() implies pred(
            #[trigger] s.drop_last()[i],
        ) by {
            assert(s.drop_last()[i] == s[i]);
        }
        lemma_filter_all(s.drop_last(), pred);
        assert(s.drop_last().push(s.last()) =~= s);
    }
}

/// Where something matches, there is a first match, and it is no later.
pub proof fn lemma_first_exists<A>(s: Seq<A>, pred: spec_fn(A) -> bool, k: int)
    requires
        0 <= k < s.len(),
        pred(s[k]),
    ensures
        first(s, pred) is Some,
        0 <= first(s, pred)->0 <= k,
        is_first(s, pred, first(s, pred)->0),
    decreases k,
{
    if forall|j: int| 0 <= j < k ==> !pred(#[trigger] s[j]) {
        assert(is_first(s, pred, k));
        lemma_first(s, pred, k);
    } else {
        let j = choose|j: int| 0 <= j < k && pred(#[trigger] s[j]);
        lemma_first_exists(s, pred, j);
    }
}

/// Where something worth `points` goes in a ranking: before the first entry worth
/// less, or at the end.
pub open spec fn place<A>(ranking: Seq<A>, worth: spec_fn(A) -> int, points: int) -> int {
    match first(ranking, |a: A| worth(a) < points) {
        Some(i) => i,
        None => ranking.len() as int,
    }
}

/// The entries of `s` from the one worth most to the one worth least. Entries worth
/// the same stay in the order they came in.
pub open spec fn ranked<A>(s: Seq<A>, worth: spec_fn(A) -> int) -> Seq<A>
    decreases s.len(),
{
    if s.len() == 0 {
        s
    } else {
        let others = ranked(s.drop_last(), worth);
        others.insert(place(others, worth, worth(s.last())), s.last())
    }
}

pub proof fn lemma_place<A>(ranking: Seq<A>, worth: spec_fn(A) -> int, points: int, at: int)
    requires
        0 <= at <= ranking.len(),
        forall|j: int| 0 <= j < at ==> worth(#[trigger] ranking[j]) >= points,
        at < ranking.len() ==> worth(ranking[at]) < points,
    ensures
        place(ranking, worth, points) == at,
{
    let pred = |a: A| worth(a) < points;
    if at < ranking.len() {
        lemma_first(ranking, pred, at);
    } else {
        lemma_first_none(ranking, pred);
    }
}

proof fn lemma_place_bounds<A>(ranking: Seq<A>, worth: spec_fn(A) -> int, points: int)
    ensures
        0 <= place(ranking, worth, points) <= ranking.len(),
        forall|j: int|
            0 <= j < place(ranking, worth, points) ==> worth(#[trigger] ranking[j]) >= points,
        place(ranking, worth, points) < ranking.len() ==> worth(
            ranking[place(ranking, worth, points)],
        ) < points,
{
    let pred = |a: A| worth(a) < points;
    if exists|i: int| is_first(ranking, pred, i) {
        let i = choose|i: int| is_first(ranking, pred, i);
        assert forall|j: int| 0 <= j < i implies worth(#[trigger] ranking[j]) >= points by {
            assert(!pred(ranking[j]));
        }
    } else {
        assert forall|j: int| 0 <= j < ranking.len() implies worth(#[trigger] ranking[j])
            >= points by {
            if pred(ranking[j]) {
                lemma_first_exists(ranking, pred, j);
            }
        }
    }
}

/// A ranking holds exactly the entries ranked, from most to least.
pub proof fn law_ranked_is_sorted<A>(s: Seq<A>, worth: spec_fn(A) -> int)
    ensures
        ranked(s, worth).len() == s.len(),
        ranked(s, worth).to_multiset() == s.to_multiset(),
        forall|i: int, j: int|
            0 <= i <= j < s.len() ==> worth(#[trigger] ranked(s, worth)[i]) >= worth(
                #[trigger] ranked(s, worth)[j],
            ),
    decreases s.len(),
{
    broadcast use vstd::seq_lib::group_to_multiset_ensures;

    if s.len() > 0 {
        let others = ranked(s.drop_last(), worth);
        law_ranked_is_sorted(s.drop_last(), worth);
        lemma_place_bounds(others, worth, worth(s.last()));
        let at = place(others, worth, worth(s.last()));
        let r = others.insert(at, s.last());
        assert(s =~= s.drop_last().push(s.last()));
        assert forall|i: int, j: int| 0 <= i <= j < s.len() implies worth(#[trigger] r[i]) >= worth(
            #[trigger] r[j],
        ) by {
            if i < at && j > at {
                assert(r[i] == others[i] && r[j] == others[j - 1]);
            } else if i == at && j > at {
                assert(r[j] == others[j - 1]);
                assert(worth(others[at]) >= worth(others[j - 1]));
            } else if i > at {
                assert(r[i] == others[i - 1] && r[j] == others[j - 1]);
            } else if j < at {
                assert(r[i] == others[i] && r[j] == others[j]);
            } else if i < at {
                assert(r[i] == others[i]);
            }
        }
    }
}

/// Whether an entry is worth exactly `points`.
pub open spec fn is_worth<A>(worth: spec_fn(A) -> int, points: int) -> spec_fn(A) -> bool {
    |a: A| worth(a) == points
}

/// The entries worth exactly `points`, in order.
pub open spec fn worth_exactly<A>(s: Seq<A>, worth: spec_fn(A) -> int, points: int) -> Seq<A> {
    s.filter(is_worth(worth, points))
}

pub proof fn lemma_filter_concat<A>(a: Seq<A>, b: Seq<A>, pred: spec_fn(A) -> bool)
    ensures
        (a + b).filter(pred) == a.filter(pred) + b.filter(pred),
    decreases b.len(),
{
    reveal(Seq::filter);
    if b.len() == 0 {
        assert(a + b =~= a);
        assert(b.filter(pred) =~= Seq::<A>::empty());
        assert(a.filter(pred) + b.filter(pred) =~= a.filter(pred));
    } else {
        lemma_filter_concat(a, b.drop_last(), pred);
        assert((a + b).drop_last() =~= a + b.drop_last());
        assert((a + b).filter(pred) =~= a.filter(pred) + b.filter(pred));
    }
}

proof fn lemma_filter_none<A>(a: Seq<A>, pred: spec_fn(A) -> bool)
    requires
        forall|i: int| 0 <= i < a.len() ==> !pred(#[trigger] a[i]),
    ensures
        a.filter(pred) == Seq::<A>::empty(),
    decreases a.len(),
{
    reveal(Seq::filter);
    if a.len() > 0 {
        assert forall|i: int| 0 <= i < a.drop_last().len() implies !pred(
            #[trigger] a.drop_last()[i],
        ) by {
            assert(a.drop_last()[i] == a[i]);
        }
        lemma_filter_none(a.drop_last(), pred);
        assert(!pred(a[a.len() - 1]));
    }
}

/// A filter keeps only what was there, and all of it only where everything passes.
pub proof fn lemma_filter_keeps<A>(s: Seq<A>, pred: spec_fn(A) -> bool)
    ensures
        s.filter(pred).len() <= s.len(),
        s.filter(pred).len() == s.len() ==> s.filter(pred) == s,
        forall|i: int|
            0 <= i < s.filter(pred).len() ==> s.contains(#[trigger] s.filter(pred)[i]) && pred(
                s.filter(pred)[i],
            ),
    decreases s.len(),
{
    reveal(Seq::filter);
    if s.len() > 0 {
        let fewer = s.drop_last();
        lemma_filter_keeps(fewer, pred);
        let kept = s.filter(pred);
        assert forall|i: int| 0 <= i < kept.len() implies s.contains(#[trigger] kept[i]) && pred(
            kept[i],
        ) by {
            if i < fewer.filter(pred).len() {
                assert(kept[i] == fewer.filter(pred)[i]);
                let j = choose|j: int| 0 <= j < fewer.len() && fewer[j] == kept[i];
                assert(s[j] == kept[i]);
            } else {
                assert(kept[i] == s[s.len() - 1]);
            }
        }
        if kept.len() == s.len() {
            assert(kept =~= s);
        }
    }
}

/// The first match survives a filter that lets every match pass.
pub proof fn lemma_filter_keeps_first<A>(
    s: Seq<A>,
    keep: spec_fn(A) -> bool,
    pred: spec_fn(A) -> bool,
    i: int,
)
    requires
        is_first(s, pred, i),
        forall|a: A| pred(a) ==> #[trigger] keep(a),
    ensures
        exists|j: int| is_first(s.filter(keep), pred, j) && s.filter(keep)[j] == s[i],
    decreases s.len(),
{
    reveal(Seq::filter);
    let fewer = s.drop_last();
    let kept = fewer.filter(keep);
    let all = s.filter(keep);
    if i < s.len() - 1 {
        assert forall|j: int| 0 <= j < i implies !pred(#[trigger] fewer[j]) by {
            assert(!pred(s[j]));
        }
        lemma_filter_keeps_first(fewer, keep, pred, i);
        let j = choose|j: int| is_first(kept, pred, j) && kept[j] == fewer[i];
        assert forall|k: int| 0 <= k < j implies !pred(#[trigger] all[k]) by {
            assert(!pred(kept[k]));
        }
        assert(is_first(all, pred, j) && all[j] == s[i]);
    } else {
        let j = kept.len() as int;
        lemma_filter_keeps(fewer, keep);
        assert(all =~= kept.push(s[i]));
        assert forall|k: int| 0 <= k < j implies !pred(#[trigger] all[k]) by {
            assert(all[k] == kept[k]);
            assert(fewer.contains(kept[k]));
            let m = choose|m: int| 0 <= m < fewer.len() && fewer[m] == kept[k];
            assert(!pred(s[m]));
        }
        assert(is_first(all, pred, j) && all[j] == s[i]);
    }
}

/// What is first and passes a filter stays first.
pub proof fn lemma_filter_keeps_front<A>(s: Seq<A>, pred: spec_fn(A) -> bool)
    requires
        s.len() > 0,
    ensures
        pred(s[0]) ==> s.filter(pred).len() > 0 && s.filter(pred)[0] == s[0],
    decreases s.len(),
{
    reveal(Seq::filter);
    if s.len() > 1 {
        lemma_filter_keeps_front(s.drop_last(), pred);
    }
}

/// What holds of every earlier and later item still does after a filter.
pub proof fn lemma_filter_keeps_pairs<A>(
    s: Seq<A>,
    keep: spec_fn(A) -> bool,
    rel: spec_fn(A, A) -> bool,
)
    requires
        forall|i: int, j: int| 0 <= i < j < s.len() ==> rel(#[trigger] s[i], #[trigger] s[j]),
    ensures
        forall|i: int, j: int|
            0 <= i < j < s.filter(keep).len() ==> rel(
                #[trigger] s.filter(keep)[i],
                #[trigger] s.filter(keep)[j],
            ),
    decreases s.len(),
{
    reveal(Seq::filter);
    if s.len() > 0 {
        let fewer = s.drop_last();
        assert forall|i: int, j: int| 0 <= i < j < fewer.len() implies rel(
            #[trigger] fewer[i],
            #[trigger] fewer[j],
        ) by {
            assert(rel(s[i], s[j]));
        }
        lemma_filter_keeps_pairs(fewer, keep, rel);
        lemma_filter_keeps(fewer, keep);
        let all = s.filter(keep);
        let kept = fewer.filter(keep);
        assert forall|i: int, j: int| 0 <= i < j < all.len() implies rel(
            #[trigger] all[i],
            #[trigger] all[j],
        ) by {
            assert(all[i] == kept[i]);
            if j < kept.len() {
                assert(all[j] == kept[j]);
            } else {
                assert(fewer.contains(kept[i]));
                let m = choose|m: int| 0 <= m < fewer.len() && fewer[m] == kept[i];
                assert(rel(s[m], s[s.len() - 1]));
            }
        }
    }
}

/// Entries worth the same keep the order they came in.
pub proof fn law_ranked_is_stable<A>(s: Seq<A>, worth: spec_fn(A) -> int, points: int)
    ensures
        worth_exactly(ranked(s, worth), worth, points) == worth_exactly(s, worth, points),
    decreases s.len(),
{
    reveal(Seq::filter);
    if s.len() > 0 {
        let pred = is_worth(worth, points);
        let others = ranked(s.drop_last(), worth);
        let e = s.last();
        law_ranked_is_stable(s.drop_last(), worth, points);
        law_ranked_is_sorted(s.drop_last(), worth);
        lemma_place_bounds(others, worth, worth(e));
        let at = place(others, worth, worth(e));
        let front = others.take(at);
        let back = others.skip(at);
        assert(others =~= front + back);
        assert(others.insert(at, e) =~= front.push(e) + back);
        lemma_filter_concat(front, back, pred);
        lemma_filter_concat(front.push(e), back, pred);
        assert(front.push(e).drop_last() =~= front);
        assert(s.filter(pred) =~= if pred(e) {
            s.drop_last().filter(pred).push(e)
        } else {
            s.drop_last().filter(pred)
        });
        if pred(e) {
            assert forall|i: int| 0 <= i < back.len() implies !pred(#[trigger] back[i]) by {
                assert(back[i] == others[at + i]);
                assert(worth(others[at]) >= worth(others[at + i]));
            }
            lemma_filter_none(back, pred);
            assert(front.filter(pred).push(e) + Seq::<A>::empty() =~= (front.filter(pred)
                + Seq::<A>::empty()).push(e));
        }
    }
}

} // verus!
