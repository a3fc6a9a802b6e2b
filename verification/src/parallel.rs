//! The bookkeeping of an ordered parallel map.
//!
//! The scan spends nearly all of its time in independent `git` subprocesses,
//! one batch per branch, so it parallelises almost perfectly. Whoever runs
//! the workers asks here how many to start, and gets their results back in
//! the order of the work.

use vstd::prelude::*;

use crate::list;

verus! {

/// How many workers are started for a number of items: as many as asked for,
/// at least one, and no more than there is work.
pub open spec fn worker_count(jobs: usize, items: usize) -> usize {
    let wanted = if jobs < 1 {
        1
    } else {
        jobs
    };
    if wanted < items {
        wanted
    } else {
        items
    }
}

/// How many workers are started for a number of items.
pub fn workers(jobs: usize, items: usize) -> (n: usize)
    ensures
        n == worker_count(jobs, items),
        items > 0 ==> n > 0,
{
    let wanted: usize = if jobs < 1 {
        1
    } else {
        jobs
    };
    if wanted < items {
        wanted
    } else {
        items
    }
}

/// The place of `i` among the claimed numbers.
pub open spec fn claimed_at<R>(s: Seq<(usize, R)>, i: int, k: int) -> bool {
    0 <= k < s.len() && s[k].0 == i
}

/// The number `i` was claimed.
pub open spec fn is_claimed<R>(s: Seq<(usize, R)>, i: int) -> bool {
    exists|k: int| claimed_at(s, i, k)
}

/// Every number from `from` to `to` was claimed, once, and no other.
pub open spec fn claimed_once<R>(s: Seq<(usize, R)>, from: int, to: int) -> bool {
    &&& s.len() == to - from
    &&& forall|i: int| from <= i < to ==> #[trigger] is_claimed(s, i)
    &&& forall|k: int| 0 <= k < s.len() ==> from <= (#[trigger] s[k]).0 < to
    &&& forall|j: int, k: int|
        0 <= j < k < s.len() ==> (#[trigger] s[j]).0 != (#[trigger] s[k]).0
}

/// `s` with `x` behind every result whose number is not higher.
pub open spec fn with_result<R>(s: Seq<(usize, R)>, x: (usize, R)) -> Seq<(usize, R)>
    decreases s.len(),
{
    if s.len() > 0 && x.0 < s.last().0 {
        with_result(s.drop_last(), x).push(s.last())
    } else {
        s.push(x)
    }
}

/// The results by their numbers; those of one number keep their order.
pub open spec fn by_number<R>(s: Seq<(usize, R)>) -> Seq<(usize, R)>
    decreases s.len(),
{
    if s.len() == 0 {
        Seq::empty()
    } else {
        with_result(by_number(s.drop_last()), s.last())
    }
}

/// Puts a result at its place.
fn place<R>(v: &mut Vec<(usize, R)>, x: (usize, R))
    ensures
        final(v)@ == with_result(old(v)@, x),
{
    let ghost start = v@;
    let mut j: usize = v.len();
    assert(start.take(j as int) =~= start);
    assert(with_result(start, x) + start.skip(j as int) =~= with_result(start, x));
    while j > 0 && x.0 < v[j - 1].0
        invariant
            j <= v@.len(),
            v@ == start,
            with_result(start, x) == with_result(start.take(j as int), x) + start.skip(j as int),
        decreases j,
    {
        let ghost head = start.take(j as int);
        assert(head.drop_last() =~= start.take(j - 1));
        assert(head.last() == start[j - 1]);
        assert(with_result(start.take(j - 1), x).push(start[j - 1]) + start.skip(j as int)
            =~= with_result(start.take(j - 1), x) + start.skip(j - 1));
        j -= 1;
    }
    assert(j > 0 ==> start.take(j as int).last() == start[j - 1]);
    assert(start.take(j as int).push(x) + start.skip(j as int) =~= start.insert(j as int, x));
    v.insert(j, x);
}

/// Puts results that carry the number of their item back into the order of
/// the items. Order matters: it is what candidate listings are sorted from,
/// and it must not depend on which worker finished first.
pub fn in_input_order<R>(collected: Vec<(usize, R)>) -> (r: Vec<R>)
    ensures
        r@ == by_number(collected@).map_values(|p: (usize, R)| p.1),
{
    let ghost all = collected@;
    let mut rest = list::reversed(collected);
    let mut sorted: Vec<(usize, R)> = Vec::new();
    let ghost mut n: int = 0;
    assert(all.skip(0) =~= all);
    assert(all.take(0) =~= Seq::<(usize, R)>::empty());
    while rest.len() > 0
        invariant
            0 <= n <= all.len(),
            rest@ =~= all.skip(n).reverse(),
            sorted@ == by_number(all.take(n)),
        decreases rest@.len(),
    {
        if let Some(x) = rest.pop() {
            assert(x == all[n]);
            assert(all.take(n + 1).drop_last() =~= all.take(n));
            assert(all.take(n + 1).last() == x);
            place(&mut sorted, x);
        }
        proof {
            assert(rest@ =~= all.skip(n + 1).reverse());
            n = n + 1;
        }
    }
    assert(all.take(n) =~= all);
    let ghost numbered = sorted@;
    let mut waiting = list::reversed(sorted);
    let mut r: Vec<R> = Vec::new();
    let ghost mut k: int = 0;
    assert(numbered.skip(0) =~= numbered);
    while waiting.len() > 0
        invariant
            0 <= k <= numbered.len(),
            waiting@ =~= numbered.skip(k).reverse(),
            r@ =~= numbered.take(k).map_values(|p: (usize, R)| p.1),
        decreases waiting@.len(),
    {
        if let Some((index, item)) = waiting.pop() {
            assert((index, item) == numbered[k]);
            r.push(item);
        }
        proof {
            assert(waiting@ =~= numbered.skip(k + 1).reverse());
            k = k + 1;
        }
    }
    assert(numbered.take(k) =~= numbered);
    r
}

/// Each number is higher than the one before.
spec fn rises<R>(s: Seq<(usize, R)>) -> bool {
    forall|i: int, j: int| 0 <= i < j < s.len() ==> (#[trigger] s[i]).0 < (#[trigger] s[j]).0
}

proof fn lemma_with_result<R>(s: Seq<(usize, R)>, x: (usize, R))
    requires
        rises(s),
        forall|i: int| 0 <= i < s.len() ==> (#[trigger] s[i]).0 != x.0,
    ensures
        rises(with_result(s, x)),
        with_result(s, x).len() == s.len() + 1,
        forall|y: (usize, R)| #[trigger] with_result(s, x).contains(y) <==> s.contains(y) || y == x,
    decreases s.len(),
{
    let r = with_result(s, x);
    if s.len() > 0 && x.0 < s.last().0 {
        let rest = s.drop_last();
        let placed = with_result(rest, x);
        assert forall|i: int, j: int| 0 <= i < j < rest.len() implies (#[trigger] rest[i]).0 < (
        #[trigger] rest[j]).0 by {
            assert(rest[i] == s[i] && rest[j] == s[j]);
        }
        assert forall|i: int| 0 <= i < rest.len() implies (#[trigger] rest[i]).0 != x.0 by {
            assert(rest[i] == s[i]);
        }
        lemma_with_result(rest, x);
        assert forall|y: (usize, R)| #[trigger] r.contains(y) <==> s.contains(y) || y == x by {
            list::lemma_last_or_before(r, y);
            list::lemma_last_or_before(s, y);
            assert(r.drop_last() =~= placed);
            assert(placed.contains(y) <==> rest.contains(y) || y == x);
        }
        assert forall|i: int, j: int| 0 <= i < j < r.len() implies (#[trigger] r[i]).0 < (
        #[trigger] r[j]).0 by {
            if j == placed.len() {
                assert(placed.contains(placed[i]));
                if placed[i] != x {
                    let k = choose|k: int| 0 <= k < rest.len() && rest[k] == placed[i];
                    assert(s[k].0 < s[s.len() - 1].0);
                }
            } else {
                assert(r[i] == placed[i] && r[j] == placed[j]);
            }
        }
    } else {
        assert forall|y: (usize, R)| #[trigger] r.contains(y) <==> s.contains(y) || y == x by {
            list::lemma_last_or_before(r, y);
            assert(r.drop_last() =~= s);
        }
        assert forall|i: int, j: int| 0 <= i < j < r.len() implies (#[trigger] r[i]).0 < (
        #[trigger] r[j]).0 by {
            if j == s.len() {
                assert(s[i].0 != x.0);
                if i < s.len() - 1 {
                    assert(s[i].0 < s[s.len() - 1].0);
                }
                assert(s[s.len() - 1].0 != x.0);
            }
        }
    }
}

/// Results with different numbers are put in order, and none is lost.
proof fn lemma_by_number<R>(s: Seq<(usize, R)>)
    requires
        forall|j: int, k: int|
            0 <= j < k < s.len() ==> (#[trigger] s[j]).0 != (#[trigger] s[k]).0,
    ensures
        rises(by_number(s)),
        by_number(s).len() == s.len(),
        forall|y: (usize, R)| #[trigger] by_number(s).contains(y) <==> s.contains(y),
    decreases s.len(),
{
    if s.len() > 0 {
        let rest = s.drop_last();
        let x = s.last();
        assert forall|j: int, k: int| 0 <= j < k < rest.len() implies (#[trigger] rest[j]).0 != (
        #[trigger] rest[k]).0 by {
            assert(rest[j] == s[j] && rest[k] == s[k]);
        }
        lemma_by_number(rest);
        let placed = by_number(rest);
        assert forall|i: int| 0 <= i < placed.len() implies (#[trigger] placed[i]).0 != x.0 by {
            assert(placed.contains(placed[i]));
            let k = choose|k: int| 0 <= k < rest.len() && rest[k] == placed[i];
            assert(s[k].0 != s[s.len() - 1].0);
        }
        lemma_with_result(placed, x);
        assert forall|y: (usize, R)| #[trigger] by_number(s).contains(y) <==> s.contains(y) by {
            list::lemma_last_or_before(s, y);
            assert(placed.contains(y) <==> rest.contains(y));
        }
    }
}

/// Rising numbers below `n`, as many as there are, are all of them.
proof fn lemma_all_numbers<R>(s: Seq<(usize, R)>, i: int)
    requires
        rises(s),
        forall|k: int| 0 <= k < s.len() ==> (#[trigger] s[k]).0 < s.len(),
        0 <= i < s.len(),
    ensures
        s[i].0 == i,
{
    lemma_at_least(s, i);
    lemma_at_most(s, i);
}

proof fn lemma_at_least<R>(s: Seq<(usize, R)>, i: int)
    requires
        rises(s),
        0 <= i < s.len(),
    ensures
        s[i].0 >= i,
    decreases i,
{
    if i > 0 {
        lemma_at_least(s, i - 1);
        assert(s[i - 1].0 < s[i].0);
    }
}

proof fn lemma_at_most<R>(s: Seq<(usize, R)>, i: int)
    requires
        rises(s),
        forall|k: int| 0 <= k < s.len() ==> (#[trigger] s[k]).0 < s.len(),
        0 <= i < s.len(),
    ensures
        s[i].0 <= i,
    decreases s.len() - i,
{
    if i < s.len() - 1 {
        lemma_at_most(s, i + 1);
        assert(s[i].0 < s[i + 1].0);
    }
}

/// When every item was claimed once, whoever claimed it and whenever its work
/// was done, the result of the item numbered `i` comes back at `i`.
pub proof fn law_results_follow_the_work<R>(collected: Seq<(usize, R)>)
    requires
        claimed_once(collected, 0, collected.len() as int),
    ensures
        by_number(collected).len() == collected.len(),
        forall|k: int|
            0 <= k < collected.len() ==> by_number(collected)[(#[trigger] collected[k]).0 as int]
                == collected[k],
{
    let r = by_number(collected);
    lemma_by_number(collected);
    assert forall|m: int| 0 <= m < r.len() implies (#[trigger] r[m]).0 < r.len() by {
        assert(r.contains(r[m]));
        let k = choose|k: int| 0 <= k < collected.len() && collected[k] == r[m];
        assert(collected[k].0 < collected.len());
    }
    assert forall|k: int| 0 <= k < collected.len() implies r[(#[trigger] collected[k]).0 as int]
        == collected[k] by {
        assert(collected.contains(collected[k]));
        assert(r.contains(collected[k]));
        let m = choose|m: int| 0 <= m < r.len() && r[m] == collected[k];
        lemma_all_numbers(r, m);
    }
}

/// As many workers are started as were asked for, but no more than there is
/// work, and where there is work at least one.
pub proof fn law_workers_for_the_work(jobs: usize, items: usize)
    ensures
        worker_count(jobs, items) <= items,
        items > 0 ==> worker_count(jobs, items) >= 1,
        jobs >= 1 ==> worker_count(jobs, items) <= jobs,
        1 <= jobs <= items ==> worker_count(jobs, items) == jobs,
        jobs > items ==> worker_count(jobs, items) == items,
        jobs == 0 && items > 0 ==> worker_count(jobs, items) == 1,
{
}

} // verus!
