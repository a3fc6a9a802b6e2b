//! The orders that a scan keeps: fork points once each, and candidates by
//! scope, confidence and name.

use vstd::prelude::*;

use crate::scan::{Candidate, CandidateScope, CandidateView, MergeKind};
use crate::text;

verus! {

/// `s` with `x` at its place, unless it is there already.
pub open spec fn with_place(s: Seq<Seq<char>>, x: Seq<char>) -> Seq<Seq<char>>
    decreases s.len(),
{
    if s.len() == 0 {
        seq![x]
    } else if s[0] == x {
        s
    } else if text::before(x, s[0]) {
        seq![x] + s
    } else {
        seq![s[0]] + with_place(s.drop_first(), x)
    }
}

/// Puts `x` at its place, unless it is there already.
pub fn place(v: &mut Vec<String>, x: String)
    ensures
        final(v).deep_view() == with_place(old(v).deep_view(), x@),
{
    let mut i: usize = 0;
    let ghost start = v.deep_view();
    assert(start.skip(0) =~= start);
    while i < v.len() && !text::same(v[i].as_str(), x.as_str()) && !text::comes_before(
        x.as_str(),
        v[i].as_str(),
    )
        invariant
            i <= v@.len(),
            start == v.deep_view(),
            with_place(start, x@) =~= start.take(i as int) + with_place(start.skip(i as int), x@),
        decreases v@.len() - i,
    {
        assert(start.skip(i as int)[0] == v@[i as int]@);
        assert(start.skip(i as int).drop_first() =~= start.skip(i + 1));
        assert(start.take(i as int) + (seq![start[i as int]] + with_place(start.skip(i + 1), x@))
            =~= start.take(i + 1) + with_place(start.skip(i + 1), x@));
        i += 1;
    }
    let ghost rest = start.skip(i as int);
    if i < v.len() {
        assert(rest[0] == v@[i as int]@);
        if text::same(v[i].as_str(), x.as_str()) {
            assert(start.take(i as int) + rest =~= start);
            return;
        }
    }
    assert(with_place(rest, x@) =~= seq![x@] + rest);
    let ghost item = x@;
    v.insert(i, x);
    assert(v.deep_view() =~= start.take(i as int) + (seq![item] + rest));
}

/// Every entry is before all that follow it: sorted, and nothing twice.
pub open spec fn ascending(s: Seq<Seq<char>>) -> bool {
    forall|i: int, j: int| 0 <= i < j < s.len() ==> text::before(#[trigger] s[i], #[trigger] s[j])
}

/// Placing keeps the list in order, adds the new entry and drops none.
pub proof fn lemma_with_place(s: Seq<Seq<char>>, x: Seq<char>)
    requires
        ascending(s),
    ensures
        ascending(with_place(s, x)),
        forall|y: Seq<char>| #[trigger] with_place(s, x).contains(y) <==> (s.contains(y) || y == x),
    decreases s.len(),
{
    let r = with_place(s, x);
    if s.len() == 0 {
        assert(r[0] == x);
    } else if s[0] == x {
        assert(s.contains(x));
    } else if text::before(x, s[0]) {
        assert(r[0] == x);
        assert forall|i: int, j: int| 0 <= i < j < r.len() implies text::before(
            #[trigger] r[i],
            #[trigger] r[j],
        ) by {
            if i == 0 && j > 1 {
                text::lemma_before_transitive(x, s[0], s[j - 1]);
            }
        }
        assert forall|y: Seq<char>| s.contains(y) implies #[trigger] r.contains(y) by {
            let k = choose|k: int| 0 <= k < s.len() && s[k] == y;
            assert(r[k + 1] == y);
        }
    } else {
        let tail = s.drop_first();
        lemma_with_place(tail, x);
        let placed = with_place(tail, x);
        text::lemma_before_total(x, s[0]);
        assert forall|i: int, j: int| 0 <= i < j < r.len() implies text::before(
            #[trigger] r[i],
            #[trigger] r[j],
        ) by {
            if i == 0 {
                assert(placed.contains(placed[j - 1]));
                if tail.contains(placed[j - 1]) {
                    let k = choose|k: int| 0 <= k < tail.len() && tail[k] == placed[j - 1];
                    assert(s[k + 1] == placed[j - 1]);
                }
            } else {
                assert(text::before(placed[i - 1], placed[j - 1]));
            }
        }
        assert forall|y: Seq<char>| #[trigger] r.contains(y) <==> (s.contains(y) || y == x) by {
            if r.contains(y) {
                let k = choose|k: int| 0 <= k < r.len() && r[k] == y;
                if k == 0 {
                    assert(s[0] == y);
                } else {
                    assert(placed[k - 1] == y);
                    assert(placed.contains(y));
                    if tail.contains(y) {
                        let m = choose|m: int| 0 <= m < tail.len() && tail[m] == y;
                        assert(s[m + 1] == y);
                    }
                }
            }
            if s.contains(y) || y == x {
                if y == s[0] {
                    assert(r[0] == y);
                } else {
                    if s.contains(y) {
                        let k = choose|k: int| 0 <= k < s.len() && s[k] == y;
                        assert(tail[k - 1] == y);
                        assert(tail.contains(y));
                    }
                    assert(placed.contains(y));
                    let m = choose|m: int| 0 <= m < placed.len() && placed[m] == y;
                    assert(r[m + 1] == y);
                }
            }
        }
    }
}

/// Scopes in the order they are listed in.
pub open spec fn scope_rank(scope: CandidateScope) -> int {
    match scope {
        CandidateScope::Local => 0,
        CandidateScope::RemoteOnly => 1,
    }
}

/// Kinds by confidence.
pub open spec fn kind_rank(kind: MergeKind) -> int {
    match kind {
        MergeKind::Merged => 0,
        MergeKind::Squash => 1,
        MergeKind::Rebase => 2,
        MergeKind::Gone => 3,
    }
}

/// `a` is listed before `b`: by scope, and then by kind, and then by name.
pub open spec fn precedes(a: CandidateView, b: CandidateView) -> bool {
    ||| scope_rank(a.scope) < scope_rank(b.scope)
    ||| {
        &&& a.scope == b.scope
        &&& {
            ||| kind_rank(a.kind) < kind_rank(b.kind)
            ||| a.kind == b.kind && text::before(a.name, b.name)
        }
    }
}

/// `s` with `c` behind everything it does not precede.
pub open spec fn with_candidate(s: Seq<CandidateView>, c: CandidateView) -> Seq<CandidateView>
    decreases s.len(),
{
    if s.len() > 0 && precedes(c, s.last()) {
        with_candidate(s.drop_last(), c).push(s.last())
    } else {
        s.push(c)
    }
}

/// The candidates in the order they are listed in; equals keep their order.
pub open spec fn listed_order(s: Seq<CandidateView>) -> Seq<CandidateView>
    decreases s.len(),
{
    if s.len() == 0 {
        Seq::empty()
    } else {
        with_candidate(listed_order(s.drop_last()), s.last())
    }
}

fn rank_of_scope(scope: CandidateScope) -> (r: u8)
    ensures
        r == scope_rank(scope),
{
    match scope {
        CandidateScope::Local => 0,
        CandidateScope::RemoteOnly => 1,
    }
}

fn rank_of_kind(kind: MergeKind) -> (r: u8)
    ensures
        r == kind_rank(kind),
{
    match kind {
        MergeKind::Merged => 0,
        MergeKind::Squash => 1,
        MergeKind::Rebase => 2,
        MergeKind::Gone => 3,
    }
}

/// Whether `a` is listed before `b`.
fn goes_before(a: &Candidate, b: &Candidate) -> (r: bool)
    ensures
        r == precedes(a@, b@),
{
    let (sa, sb): (u8, u8) = (rank_of_scope(a.scope), rank_of_scope(b.scope));
    let (ka, kb): (u8, u8) = (rank_of_kind(a.kind), rank_of_kind(b.kind));
    sa < sb || (sa == sb && (ka < kb || (ka == kb && text::comes_before(
        a.name.as_str(),
        b.name.as_str(),
    ))))
}

/// Puts a candidate behind everything it does not precede.
fn place_candidate(v: &mut Vec<Candidate>, c: Candidate)
    ensures
        final(v).deep_view() == with_candidate(old(v).deep_view(), c@),
{
    let mut i: usize = v.len();
    let ghost start = v.deep_view();
    assert(start.take(i as int) =~= start);
    assert(with_candidate(start, c@) =~= with_candidate(start, c@) + start.skip(i as int));
    while 0 < i && goes_before(&c, &v[i - 1])
        invariant
            i <= v@.len(),
            start == v.deep_view(),
            with_candidate(start, c@) =~= with_candidate(start.take(i as int), c@) + start.skip(
                i as int,
            ),
        decreases i,
    {
        let ghost head = start.take(i as int);
        assert(head.last() == v@[i - 1]@);
        assert(head.drop_last() =~= start.take(i - 1));
        assert(with_candidate(start.take(i - 1), c@).push(head.last()) + start.skip(i as int)
            =~= with_candidate(start.take(i - 1), c@) + start.skip(i - 1));
        i -= 1;
    }
    let ghost item = c@;
    proof {
        if i > 0 {
            assert(start.take(i as int).last() == v@[i - 1]@);
        }
    }
    v.insert(i, c);
    assert(v.deep_view() =~= start.take(i as int).push(item) + start.skip(i as int));
}

/// Puts the candidates in the order they are listed in.
pub fn in_listed_order(v: &Vec<Candidate>) -> (r: Vec<Candidate>)
    ensures
        r.deep_view() == listed_order(v.deep_view()),
{
    let mut r: Vec<Candidate> = Vec::new();
    let mut i: usize = 0;
    let ghost all = v.deep_view();
    assert(all.take(0) =~= Seq::<CandidateView>::empty());
    assert(r.deep_view() =~= Seq::<CandidateView>::empty());
    while i < v.len()
        invariant
            i <= v@.len(),
            all == v.deep_view(),
            r.deep_view() == listed_order(all.take(i as int)),
        decreases v@.len() - i,
    {
        assert(all.take(i + 1).drop_last() =~= all.take(i as int));
        assert(all.take(i + 1).last() == v@[i as int]@);
        place_candidate(&mut r, v[i].clone());
        i += 1;
    }
    assert(all.take(i as int) =~= all);
    r
}

/// Nothing is listed after something it precedes.
pub open spec fn is_listed(s: Seq<CandidateView>) -> bool {
    forall|i: int, j: int| 0 <= i < j < s.len() ==> !precedes(#[trigger] s[j], #[trigger] s[i])
}

/// The order of candidates runs one way and leaves no gaps.
proof fn lemma_precedes(a: CandidateView, b: CandidateView, c: CandidateView)
    ensures
        precedes(a, b) ==> !precedes(b, a),
        precedes(a, b) && !precedes(c, b) ==> precedes(a, c),
{
    text::lemma_before_total(a.name, b.name);
    text::lemma_before_total(b.name, c.name);
    if text::before(a.name, b.name) && text::before(b.name, c.name) {
        text::lemma_before_transitive(a.name, b.name, c.name);
    }
    if text::before(a.name, b.name) && text::before(b.name, a.name) {
        text::lemma_before_transitive(a.name, b.name, a.name);
        text::lemma_before_irreflexive(a.name);
    }
}

proof fn lemma_with_candidate(s: Seq<CandidateView>, c: CandidateView)
    requires
        is_listed(s),
    ensures
        is_listed(with_candidate(s, c)),
        with_candidate(s, c).to_multiset() =~= s.to_multiset().insert(c),
    decreases s.len(),
{
    broadcast use vstd::seq_lib::group_to_multiset_ensures;

    let r = with_candidate(s, c);
    if s.len() > 0 && precedes(c, s.last()) {
        let head = s.drop_last();
        lemma_with_candidate(head, c);
        let placed = with_candidate(head, c);
        assert(s =~= head.push(s.last()));
        assert(placed.to_multiset().insert(s.last()) =~= s.to_multiset().insert(c));
        assert forall|i: int, j: int| 0 <= i < j < r.len() implies !precedes(
            #[trigger] r[j],
            #[trigger] r[i],
        ) by {
            if j < placed.len() {
                assert(!precedes(placed[j], placed[i]));
            } else {
                assert(placed.to_multiset().contains(placed[i]));
                if placed[i] == c {
                    lemma_precedes(c, s.last(), c);
                } else {
                    assert(head.to_multiset().contains(placed[i]));
                    assert(head.contains(placed[i]));
                    let k = choose|k: int| 0 <= k < head.len() && head[k] == placed[i];
                    assert(s[k] == placed[i]);
                    assert(!precedes(s[s.len() - 1], s[k]));
                }
            }
        }
    } else {
        assert forall|i: int, j: int| 0 <= i < j < r.len() implies !precedes(
            #[trigger] r[j],
            #[trigger] r[i],
        ) by {
            if j < s.len() {
                assert(!precedes(s[j], s[i]));
            } else if i < s.len() - 1 {
                if precedes(c, s[i]) {
                    lemma_precedes(c, s[i], s.last());
                    assert(!precedes(s[s.len() - 1], s[i]));
                }
            }
        }
    }
}

/// What is listed is the same candidates, none lost and none twice, in order
/// of scope, kind and name.
pub proof fn law_listing_is_sorted(s: Seq<CandidateView>)
    ensures
        is_listed(listed_order(s)),
        listed_order(s).to_multiset() == s.to_multiset(),
        listed_order(s).len() == s.len(),
    decreases s.len(),
{
    broadcast use vstd::seq_lib::group_to_multiset_ensures;

    if s.len() > 0 {
        law_listing_is_sorted(s.drop_last());
        lemma_with_candidate(listed_order(s.drop_last()), s.last());
        assert(s =~= s.drop_last().push(s.last()));
    }
    assert(listed_order(s).to_multiset() =~= s.to_multiset());
    assert(listed_order(s).to_multiset().len() == listed_order(s).len());
    assert(s.to_multiset().len() == s.len());
}

} // verus!
