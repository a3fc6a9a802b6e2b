//! From unmerged branches to verdicts: fork points, the cache, the walks of
//! the base, the probes, and what all of them amount to.

use vstd::hash_map::StringHashMap;
use vstd::hash_set::StringHashSet;
use vstd::prelude::*;

use crate::cache::{self, Cache, CacheView, Key};
use crate::git::{self, clone_option, Error, ErrorView, Exchange, Git, Reading, Stretch};
use crate::scan::order::{self, in_listed_order, place};
use crate::scan::probe::{self, merge_base, probe_branch, upstream_patch_ids};
use crate::scan::refs::{RawBranch, RawBranchView};
use crate::scan::survey::{Survey, SurveyView};
use crate::scan::{Base, Candidate, CandidateView, MergeKind, Scan, ScanView};
use crate::text;

verus! {

/// Where a branch parted from the base: a commit, nowhere, or unknown.
pub type ForkView = Result<Option<Seq<char>>, ErrorView>;

/// A branch that awaits its verdict, and where it parted from the base.
pub struct Pending {
    pub branch: RawBranch,
    pub fork: Result<Option<String>, Error>,
}

/// What a [`Pending`] holds.
pub struct PendingView {
    pub branch: RawBranchView,
    pub fork: ForkView,
}

impl View for Pending {
    type V = PendingView;

    open spec fn view(&self) -> PendingView {
        PendingView { branch: self.branch@, fork: probe::fork_result(self.fork) }
    }
}

impl DeepView for Pending {
    type V = PendingView;

    open spec fn deep_view(&self) -> PendingView {
        self@
    }
}

impl Clone for Pending {
    fn clone(&self) -> (p: Pending)
        ensures
            p@ == self@,
    {
        Pending {
            branch: self.branch.clone(),
            fork: match &self.fork {
                Ok(o) => Ok(clone_option(o)),
                Err(e) => Err(e.clone()),
            },
        }
    }
}

/// The patch-ids the base gained since a fork point, or why they are unknown.
pub struct Walk {
    pub fork: String,
    pub ids: Result<StringHashSet, Error>,
}

/// What a [`Walk`] holds.
pub struct WalkView {
    pub fork: Seq<char>,
    pub ids: Result<Set<Seq<char>>, ErrorView>,
}

impl View for Walk {
    type V = WalkView;

    open spec fn view(&self) -> WalkView {
        WalkView { fork: self.fork@, ids: probe::set_result(self.ids) }
    }
}

impl DeepView for Walk {
    type V = WalkView;

    open spec fn deep_view(&self) -> WalkView {
        self@
    }
}

/// A branch and what its probe found.
pub struct Probed {
    pub pending: Pending,
    pub outcome: Result<Option<MergeKind>, Error>,
}

/// What a [`Probed`] holds.
pub struct ProbedView {
    pub pending: PendingView,
    pub outcome: Result<Option<MergeKind>, ErrorView>,
}

impl View for Probed {
    type V = ProbedView;

    open spec fn view(&self) -> ProbedView {
        ProbedView { pending: self.pending@, outcome: probe::verdict_result(self.outcome) }
    }
}

impl DeepView for Probed {
    type V = ProbedView;

    open spec fn deep_view(&self) -> ProbedView {
        self@
    }
}

/// Verdicts by ref.
pub type Verdicts = Map<Seq<char>, MergeKind>;

/// The verdicts with one more, if it is one.
pub open spec fn record(known: Verdicts, refname: Seq<char>, verdict: Option<MergeKind>) -> Verdicts {
    match verdict {
        Some(kind) => known.insert(refname, kind),
        None => known,
    }
}

// ---------------------------------------------------------------------------
// Which branches are probed.

/// The branches that ancestry does not answer.
pub open spec fn unmerged(branches: Seq<RawBranchView>, merged: Set<Seq<char>>) -> Seq<
    RawBranchView,
>
    decreases branches.len(),
{
    if branches.len() == 0 {
        Seq::empty()
    } else {
        let earlier = unmerged(branches.drop_last(), merged);
        if merged.contains(branches.last().refname) {
            earlier
        } else {
            earlier.push(branches.last())
        }
    }
}

/// The branches that need patch-id probing, which is where the time goes —
/// except on a shallow clone, where there is no history to probe.
pub open spec fn to_probe(s: SurveyView) -> Seq<RawBranchView> {
    if s.shallow {
        Seq::empty()
    } else {
        unmerged(s.examinable, s.merged)
    }
}

/// The branches that need probing.
pub fn branches_to_probe(s: &Survey) -> (r: Vec<RawBranch>)
    ensures
        r.deep_view() == to_probe(s@),
        r@.len() <= s.examinable@.len(),
{
    let mut r: Vec<RawBranch> = Vec::new();
    assert(r.deep_view() =~= Seq::<RawBranchView>::empty());
    if s.shallow {
        return r;
    }
    let mut i: usize = 0;
    let ghost all = s.examinable.deep_view();
    assert(all.take(0) =~= Seq::<RawBranchView>::empty());
    while i < s.examinable.len()
        invariant
            i <= s.examinable@.len(),
            all == s.examinable.deep_view(),
            r@.len() <= i,
            r.deep_view() == unmerged(all.take(i as int), s.merged@),
        decreases s.examinable@.len() - i,
    {
        let ghost earlier = r.deep_view();
        assert(all.take(i + 1).drop_last() =~= all.take(i as int));
        assert(all.take(i + 1).last() == s.examinable@[i as int]@);
        if !s.merged.contains(s.examinable[i].refname.as_str()) {
            r.push(s.examinable[i].clone());
            assert(r.deep_view() =~= earlier.push(s.examinable@[i as int]@));
        }
        i += 1;
    }
    assert(all.take(i as int) =~= all);
    r
}

// ---------------------------------------------------------------------------
// Fork points. One cheap call per branch; needed even for cache hits, because
// the fork point is part of the key that decides whether a hit is still valid.

/// From `p` on, one question per branch: where it parted from the base.
pub open spec fn forks_fit(
    h: Seq<Exchange>,
    p: int,
    base: Seq<char>,
    branches: Seq<RawBranchView>,
) -> bool {
    forall|i: int|
        0 <= i < branches.len() ==> git::is_ask(
            h,
            p + i,
            probe::merge_base_args(base, (#[trigger] branches[i]).sha),
        )
}

/// The branches with the fork points that were answered from `p` on.
pub open spec fn with_forks(
    h: Seq<Exchange>,
    p: int,
    base: Seq<char>,
    branches: Seq<RawBranchView>,
) -> Seq<PendingView> {
    Seq::new(
        branches.len(),
        |i: int|
            PendingView {
                branch: branches[i],
                fork: probe::read_merge_base(h, p + i, base, branches[i].sha).value,
            },
    )
}

/// What follows a stretch of history does not change its reading.
pub proof fn lemma_forks_stay(
    h: Seq<Exchange>,
    later: Seq<Exchange>,
    p: int,
    base: Seq<char>,
    branches: Seq<RawBranchView>,
)
    requires
        git::extends(h, later),
        0 <= p,
        p + branches.len() <= h.len(),
        forks_fit(h, p, base, branches),
    ensures
        forks_fit(later, p, base, branches),
        with_forks(later, p, base, branches) == with_forks(h, p, base, branches),
{
    assert forall|i: int| 0 <= i < branches.len() implies git::is_ask(
        later,
        p + i,
        probe::merge_base_args(base, (#[trigger] branches[i]).sha),
    ) by {
        assert(later[p + i] == h[p + i]);
    }
    assert forall|i: int| 0 <= i < branches.len() implies with_forks(later, p, base, branches)[i]
        == with_forks(h, p, base, branches)[i] by {
        assert(later[p + i] == h[p + i]);
    }
    assert(with_forks(later, p, base, branches) =~= with_forks(h, p, base, branches));
}

/// Asks where each branch parted from the base.
pub fn fork_points<G: Git>(git: &mut G, base: &Base, branches: &Vec<RawBranch>) -> (r: Vec<Pending>)
    ensures
        git::extends(old(git).history(), final(git).history()),
        final(git).history().len() == old(git).history().len() + branches@.len(),
        forks_fit(
            final(git).history(),
            old(git).history().len() as int,
            base.sha@,
            branches.deep_view(),
        ),
        r.deep_view() == with_forks(
            final(git).history(),
            old(git).history().len() as int,
            base.sha@,
            branches.deep_view(),
        ),
{
    let mut r: Vec<Pending> = Vec::new();
    let mut i: usize = 0;
    let ghost start = git.history();
    let ghost p = start.len() as int;
    let ghost all = branches.deep_view();
    while i < branches.len()
        invariant
            i <= branches@.len(),
            all == branches.deep_view(),
            start == old(git).history(),
            p == start.len(),
            git::extends(start, git.history()),
            git.history().len() == p + i,
            forks_fit(git.history(), p, base.sha@, all.take(i as int)),
            r.deep_view() =~= with_forks(git.history(), p, base.sha@, all.take(i as int)),
        decreases branches@.len() - i,
    {
        let ghost before = git.history();
        let ghost earlier = r.deep_view();
        let fork = merge_base(git, base, branches[i].sha.as_str());
        let ghost now = git.history();
        let pending = Pending { branch: branches[i].clone(), fork };
        let ghost v = pending@;
        r.push(pending);
        proof {
            assert(r.deep_view() =~= earlier.push(v));
            assert(all.take(i + 1)[i as int] == branches@[i as int]@);
            assert forall|k: int| 0 <= k < i + 1 implies git::is_ask(
                now,
                p + k,
                probe::merge_base_args(base.sha@, (#[trigger] all.take(i + 1)[k]).sha),
            ) by {
                if k < i {
                    assert(all.take(i as int)[k] == all.take(i + 1)[k]);
                    assert(now[p + k] == before[p + k]);
                }
            }
            assert forall|k: int| 0 <= k < i implies with_forks(
                now,
                p,
                base.sha@,
                all.take(i + 1),
            )[k] == earlier[k] by {
                assert(all.take(i as int)[k] == all.take(i + 1)[k]);
                assert(git::is_ask(
                    before,
                    p + k,
                    probe::merge_base_args(base.sha@, all.take(i as int)[k].sha),
                ));
                assert(now[p + k] == before[p + k]);
            }
        }
        i += 1;
    }
    assert(all.take(i as int) =~= all);
    r
}

// ---------------------------------------------------------------------------
// The cache. Anything already resolved by an earlier run with all three shas
// unchanged is taken as it is; only the rest costs anything.

/// What the cache makes of the pending branches: what it has become, the
/// verdicts it gave, and the branches it does not know.
pub struct ConsultedView {
    pub cache: CacheView,
    pub known: Verdicts,
    pub to_walk: Seq<PendingView>,
}

/// Looks every pending branch up in turn.
pub open spec fn consulted(
    pending: Seq<PendingView>,
    base: Seq<char>,
    cache: CacheView,
) -> ConsultedView
    decreases pending.len(),
{
    if pending.len() == 0 {
        ConsultedView { cache, known: Map::empty(), to_walk: Seq::empty() }
    } else {
        let c = consulted(pending.drop_last(), base, cache);
        let b = pending.last();
        match b.fork {
            Ok(Some(fork)) => {
                let key = cache::key_of(base, fork, b.branch.sha);
                match c.cache.lookup(key) {
                    Some(verdict) => ConsultedView {
                        cache: c.cache.after_lookup(key),
                        known: record(c.known, b.branch.refname, verdict),
                        to_walk: c.to_walk,
                    },
                    None => ConsultedView { to_walk: c.to_walk.push(b), ..c },
                }
            },
            // No common history, or the call failed: nothing is cached.
            _ => ConsultedView { to_walk: c.to_walk.push(b), ..c },
        }
    }
}

/// The verdicts the cache gave, and the branches it does not know.
pub struct Consulted {
    pub known: StringHashMap<MergeKind>,
    pub to_walk: Vec<Pending>,
}

/// Looks the pending branches up in the cache.
pub fn consult(pending: &Vec<Pending>, base: &Base, cache: &mut Cache) -> (r: Consulted)
    ensures
        final(cache)@ == consulted(pending.deep_view(), base.sha@, old(cache)@).cache,
        r.known@ == consulted(pending.deep_view(), base.sha@, old(cache)@).known,
        r.to_walk.deep_view() == consulted(pending.deep_view(), base.sha@, old(cache)@).to_walk,
        r.to_walk@.len() <= pending@.len(),
{
    let ghost start = cache@;
    let mut known: StringHashMap<MergeKind> = StringHashMap::new();
    let mut to_walk: Vec<Pending> = Vec::new();
    let mut i: usize = 0;
    let ghost all = pending.deep_view();
    assert(all.take(0) =~= Seq::<PendingView>::empty());
    assert(to_walk.deep_view() =~= Seq::<PendingView>::empty());
    while i < pending.len()
        invariant
            i <= pending@.len(),
            all == pending.deep_view(),
            to_walk@.len() <= i,
            cache@ == consulted(all.take(i as int), base.sha@, start).cache,
            known@ == consulted(all.take(i as int), base.sha@, start).known,
            to_walk.deep_view() == consulted(all.take(i as int), base.sha@, start).to_walk,
        decreases pending@.len() - i,
    {
        let ghost earlier = to_walk.deep_view();
        let b = &pending[i];
        assert(all.take(i + 1).drop_last() =~= all.take(i as int));
        assert(all.take(i + 1).last() == b@);
        let hit = match &b.fork {
            Ok(Some(fork)) => cache.get(
                &Key::new(base.sha.as_str(), fork.as_str(), b.branch.sha.as_str()),
            ),
            _ => None,
        };
        match hit {
            Some(Some(kind)) => {
                known.insert(b.branch.refname.clone(), kind);
            },
            Some(None) => {},
            None => {
                to_walk.push(b.clone());
                assert(to_walk.deep_view() =~= earlier.push(b@));
            },
        }
        i += 1;
    }
    assert(all.take(i as int) =~= all);
    Consulted { known, to_walk }
}

// ---------------------------------------------------------------------------
// The expensive upstream walk, once per DISTINCT fork point, and only for fork
// points a cache miss actually needs. Branches cut from the same commit share
// one walk.

/// The fork points to walk from, in order and once each.
pub open spec fn distinct_forks_of(to_walk: Seq<PendingView>) -> Seq<Seq<char>>
    decreases to_walk.len(),
{
    if to_walk.len() == 0 {
        Seq::empty()
    } else {
        let earlier = distinct_forks_of(to_walk.drop_last());
        match to_walk.last().fork {
            Ok(Some(fork)) => order::with_place(earlier, fork),
            _ => earlier,
        }
    }
}

/// The fork points to walk from, in order and once each.
pub fn distinct_forks(to_walk: &Vec<Pending>) -> (r: Vec<String>)
    ensures
        r.deep_view() == distinct_forks_of(to_walk.deep_view()),
{
    let mut r: Vec<String> = Vec::new();
    let mut i: usize = 0;
    let ghost all = to_walk.deep_view();
    assert(all.take(0) =~= Seq::<PendingView>::empty());
    assert(r.deep_view() =~= Seq::<Seq<char>>::empty());
    while i < to_walk.len()
        invariant
            i <= to_walk@.len(),
            all == to_walk.deep_view(),
            r.deep_view() == distinct_forks_of(all.take(i as int)),
        decreases to_walk@.len() - i,
    {
        assert(all.take(i + 1).drop_last() =~= all.take(i as int));
        assert(all.take(i + 1).last() == to_walk@[i as int]@);
        if let Ok(Some(fork)) = &to_walk[i].fork {
            place(&mut r, fork.clone());
        }
        i += 1;
    }
    assert(all.take(i as int) =~= all);
    r
}

/// The fork points are sorted, stand there once each, and are exactly those
/// of the branches.
pub proof fn law_forks_once_each(to_walk: Seq<PendingView>)
    ensures
        order::ascending(distinct_forks_of(to_walk)),
        forall|fork: Seq<char>| #[trigger]
            distinct_forks_of(to_walk).contains(fork) <==> exists|i: int|
                0 <= i < to_walk.len() && (#[trigger] to_walk[i]).fork == Ok::<_, ErrorView>(
                    Some(fork),
                ),
    decreases to_walk.len(),
{
    if to_walk.len() > 0 {
        let rest = to_walk.drop_last();
        let last = to_walk.last();
        law_forks_once_each(rest);
        if let Ok(Some(fork)) = last.fork {
            order::lemma_with_place(distinct_forks_of(rest), fork);
        }
        assert forall|fork: Seq<char>| #[trigger]
            distinct_forks_of(to_walk).contains(fork) <==> exists|i: int|
                0 <= i < to_walk.len() && (#[trigger] to_walk[i]).fork == Ok::<_, ErrorView>(
                    Some(fork),
                ) by {
            if distinct_forks_of(rest).contains(fork) {
                let i = choose|i: int|
                    0 <= i < rest.len() && (#[trigger] rest[i]).fork == Ok::<_, ErrorView>(
                        Some(fork),
                    );
                assert(to_walk[i].fork == Ok::<_, ErrorView>(Some(fork)));
            }
            if last.fork == Ok::<_, ErrorView>(Some(fork)) {
                assert(to_walk[to_walk.len() - 1].fork == Ok::<_, ErrorView>(Some(fork)));
            }
            if exists|i: int|
                0 <= i < to_walk.len() && (#[trigger] to_walk[i]).fork == Ok::<_, ErrorView>(
                    Some(fork),
                ) {
                let i = choose|i: int|
                    0 <= i < to_walk.len() && (#[trigger] to_walk[i]).fork == Ok::<_, ErrorView>(
                        Some(fork),
                    );
                if i < rest.len() {
                    assert(rest[i].fork == Ok::<_, ErrorView>(Some(fork)));
                }
            }
        }
    }
}

/// [`walk_base`].
pub open spec fn read_walks(
    h: Seq<Exchange>,
    p: int,
    base: Seq<char>,
    forks: Seq<Seq<char>>,
) -> Stretch<WalkView>
    decreases forks.len(),
{
    if forks.len() == 0 {
        Stretch::empty(p)
    } else {
        let earlier = read_walks(h, p, base, forks.drop_last());
        let run = probe::read_upstream(h, earlier.end, base, forks.last());
        earlier.and(run, WalkView { fork: forks.last(), ids: run.value })
    }
}

/// What follows a stretch of history does not change its reading.
pub proof fn lemma_walks_stay(
    h: Seq<Exchange>,
    later: Seq<Exchange>,
    p: int,
    base: Seq<char>,
    forks: Seq<Seq<char>>,
)
    requires
        git::extends(h, later),
        0 <= p,
        read_walks(h, p, base, forks).fits,
        read_walks(h, p, base, forks).end <= h.len(),
    ensures
        read_walks(later, p, base, forks) == read_walks(h, p, base, forks),
        p <= read_walks(h, p, base, forks).end,
    decreases forks.len(),
{
    if forks.len() > 0 {
        let earlier = read_walks(h, p, base, forks.drop_last());
        let run = probe::read_upstream(h, earlier.end, base, forks.last());
        assert(earlier.end <= run.end);
        lemma_walks_stay(h, later, p, base, forks.drop_last());
    }
}

/// Walks the base from each fork point.
pub fn walk_base<G: Git>(git: &mut G, base: &Base, forks: &Vec<String>) -> (r: Vec<Walk>)
    ensures
        git::extends(old(git).history(), final(git).history()),
        ({
            let s = read_walks(
                final(git).history(),
                old(git).history().len() as int,
                base.sha@,
                forks.deep_view(),
            );
            s.fits && s.end == final(git).history().len() && s.items == r.deep_view()
        }),
{
    let mut r: Vec<Walk> = Vec::new();
    let mut i: usize = 0;
    let ghost start = git.history();
    let ghost p = start.len() as int;
    let ghost all = forks.deep_view();
    assert(all.take(0) =~= Seq::<Seq<char>>::empty());
    assert(r.deep_view() =~= Seq::<WalkView>::empty());
    while i < forks.len()
        invariant
            i <= forks@.len(),
            all == forks.deep_view(),
            start == old(git).history(),
            p == start.len(),
            git::extends(start, git.history()),
            read_walks(git.history(), p, base.sha@, all.take(i as int)).fits,
            read_walks(git.history(), p, base.sha@, all.take(i as int)).end == git.history().len(),
            read_walks(git.history(), p, base.sha@, all.take(i as int)).items == r.deep_view(),
        decreases forks@.len() - i,
    {
        let ghost before = git.history();
        let ghost earlier = r.deep_view();
        let ids = upstream_patch_ids(git, base, forks[i].as_str());
        let walk = Walk { fork: forks[i].clone(), ids };
        let ghost v = walk@;
        r.push(walk);
        proof {
            lemma_walks_stay(before, git.history(), p, base.sha@, all.take(i as int));
            assert(r.deep_view() =~= earlier.push(v));
            assert(all.take(i + 1).drop_last() =~= all.take(i as int));
            assert(all.take(i + 1).last() == forks@[i as int]@);
        }
        i += 1;
    }
    assert(all.take(i as int) =~= all);
    r
}

// ---------------------------------------------------------------------------
// The per-branch probe, against the finished walks.

/// The patch-ids the base gained since a fork point, if that walk succeeded.
pub open spec fn ids_since(walks: Seq<WalkView>, fork: Seq<char>) -> Option<Set<Seq<char>>>
    decreases walks.len(),
{
    if walks.len() == 0 {
        None
    } else {
        match walks.last().ids {
            Ok(ids) if walks.last().fork == fork => Some(ids),
            _ => ids_since(walks.drop_last(), fork),
        }
    }
}

/// [`probe_pending`]: a branch whose walk failed, or that shares no history
/// with the base, has no verdict; one whose fork point could not be asked for
/// has that error.
pub open spec fn read_pending(
    h: Seq<Exchange>,
    p: int,
    b: PendingView,
    walks: Seq<WalkView>,
) -> Reading<Option<MergeKind>> {
    match b.fork {
        Ok(Some(fork)) => match ids_since(walks, fork) {
            Some(ids) => probe::read_probe(h, p, b.branch.sha, fork, ids),
            None => Reading::settled(p, None),
        },
        Ok(None) => Reading::settled(p, None),
        Err(e) => Reading { fits: true, end: p, value: Err(e) },
    }
}

/// [`probe_all`].
pub open spec fn read_probes(
    h: Seq<Exchange>,
    p: int,
    to_walk: Seq<PendingView>,
    walks: Seq<WalkView>,
) -> Stretch<ProbedView>
    decreases to_walk.len(),
{
    if to_walk.len() == 0 {
        Stretch::empty(p)
    } else {
        let earlier = read_probes(h, p, to_walk.drop_last(), walks);
        let run = read_pending(h, earlier.end, to_walk.last(), walks);
        earlier.and(run, ProbedView { pending: to_walk.last(), outcome: run.value })
    }
}

/// What follows a stretch of history does not change its reading.
pub proof fn lemma_probes_stay(
    h: Seq<Exchange>,
    later: Seq<Exchange>,
    p: int,
    to_walk: Seq<PendingView>,
    walks: Seq<WalkView>,
)
    requires
        git::extends(h, later),
        0 <= p,
        read_probes(h, p, to_walk, walks).fits,
        read_probes(h, p, to_walk, walks).end <= h.len(),
    ensures
        read_probes(later, p, to_walk, walks) == read_probes(h, p, to_walk, walks),
        p <= read_probes(h, p, to_walk, walks).end,
    decreases to_walk.len(),
{
    if to_walk.len() > 0 {
        let earlier = read_probes(h, p, to_walk.drop_last(), walks);
        let run = read_pending(h, earlier.end, to_walk.last(), walks);
        assert(earlier.end <= run.end);
        lemma_probes_stay(h, later, p, to_walk.drop_last(), walks);
    }
}

/// The patch-ids the base gained since a fork point, if that walk succeeded.
fn ids_of<'a>(walks: &'a Vec<Walk>, fork: &str) -> (r: Option<&'a StringHashSet>)
    ensures
        match r {
            Some(ids) => ids_since(walks.deep_view(), fork@) == Some(ids@),
            None => ids_since(walks.deep_view(), fork@) is None,
        },
{
    let mut i: usize = walks.len();
    let ghost all = walks.deep_view();
    assert(all.take(i as int) =~= all);
    while 0 < i
        invariant
            i <= walks@.len(),
            all == walks.deep_view(),
            ids_since(all, fork@) == ids_since(all.take(i as int), fork@),
        decreases i,
    {
        assert(all.take(i as int).last() == walks@[i - 1]@);
        assert(all.take(i as int).drop_last() =~= all.take(i - 1));
        if let Ok(ids) = &walks[i - 1].ids {
            if text::same(walks[i - 1].fork.as_str(), fork) {
                return Some(ids);
            }
        }
        i -= 1;
    }
    None
}

/// Probes one pending branch against the finished walks.
pub fn probe_pending<G: Git>(git: &mut G, b: &Pending, walks: &Vec<Walk>) -> (r: Result<
    Option<MergeKind>,
    Error,
>)
    ensures
        read_pending(
            final(git).history(),
            old(git).history().len() as int,
            b@,
            walks.deep_view(),
        ).is_told(old(git).history(), final(git).history(), probe::verdict_result(r)),
{
    match &b.fork {
        Ok(Some(fork)) => match ids_of(walks, fork.as_str()) {
            Some(ids) => probe_branch(git, b.branch.sha.as_str(), fork.as_str(), ids),
            None => Ok(None),  // its walk failed; warned of elsewhere
        },
        Ok(None) => Ok(None),  // no common history
        Err(e) => Err(e.clone()),
    }
}

// ---------------------------------------------------------------------------
// What all of it amounts to.

/// What is said of a branch that could not be judged.
pub open spec fn probe_warning(name: Seq<char>, e: ErrorView) -> Seq<char> {
    name + ": merge probe failed: "@ + e.chain()
}

/// The branches that a failed walk cost. A fork point is a bare sha and means
/// nothing to the user, so the warning names every one of them.
pub open spec fn cost_of_walk(
    to_walk: Seq<PendingView>,
    fork: Seq<char>,
    e: ErrorView,
) -> Seq<Seq<char>>
    decreases to_walk.len(),
{
    if to_walk.len() == 0 {
        Seq::empty()
    } else {
        let earlier = cost_of_walk(to_walk.drop_last(), fork, e);
        if to_walk.last().fork == Ok::<_, ErrorView>(Some(fork)) {
            earlier.push(probe_warning(to_walk.last().branch.name, e))
        } else {
            earlier
        }
    }
}

/// The warnings of the failed walks, in the order of the walks.
pub open spec fn walk_warnings(walks: Seq<WalkView>, to_walk: Seq<PendingView>) -> Seq<Seq<char>>
    decreases walks.len(),
{
    if walks.len() == 0 {
        Seq::empty()
    } else {
        let earlier = walk_warnings(walks.drop_last(), to_walk);
        match walks.last().ids {
            Ok(_) => earlier,
            Err(e) => earlier + cost_of_walk(to_walk, walks.last().fork, e),
        }
    }
}

/// The warnings of the failed probes: one odd branch must not abort the scan.
pub open spec fn probe_warnings(probed: Seq<ProbedView>) -> Seq<Seq<char>>
    decreases probed.len(),
{
    if probed.len() == 0 {
        Seq::empty()
    } else {
        let earlier = probe_warnings(probed.drop_last());
        match probed.last().outcome {
            Ok(_) => earlier,
            Err(e) => earlier.push(probe_warning(probed.last().pending.branch.name, e)),
        }
    }
}

/// The verdicts, with those of the probes added.
pub open spec fn all_verdicts(known: Verdicts, probed: Seq<ProbedView>) -> Verdicts
    decreases probed.len(),
{
    if probed.len() == 0 {
        known
    } else {
        let earlier = all_verdicts(known, probed.drop_last());
        match probed.last().outcome {
            Ok(verdict) => record(earlier, probed.last().pending.branch.refname, verdict),
            Err(_) => earlier,
        }
    }
}

/// The cache, with the verdicts of the probes added. Only a verdict computed
/// against a known fork point can be keyed, and only a successful walk
/// produced one.
pub open spec fn remembered(
    cache: CacheView,
    base: Seq<char>,
    probed: Seq<ProbedView>,
    walks: Seq<WalkView>,
) -> CacheView
    decreases probed.len(),
{
    if probed.len() == 0 {
        cache
    } else {
        let earlier = remembered(cache, base, probed.drop_last(), walks);
        let b = probed.last();
        match (b.outcome, b.pending.fork) {
            (Ok(verdict), Ok(Some(fork))) if ids_since(walks, fork) is Some => earlier.with(
                cache::key_of(base, fork, b.pending.branch.sha),
                verdict,
            ),
            _ => earlier,
        }
    }
}

/// What a branch is, if it is a candidate: ancestry first, then the verdict
/// of a probe, then the missing upstream.
pub open spec fn classify(b: RawBranchView, merged: Set<Seq<char>>, known: Verdicts) -> Option<
    MergeKind,
> {
    if merged.contains(b.refname) {
        Some(MergeKind::Merged)
    } else if known.dom().contains(b.refname) {
        Some(known[b.refname])
    } else if b.upstream_gone {
        Some(MergeKind::Gone)
    } else {
        None
    }
}

/// The candidates among the branches, in the order of the branches.
pub open spec fn candidates_of(
    branches: Seq<RawBranchView>,
    merged: Set<Seq<char>>,
    known: Verdicts,
) -> Seq<CandidateView>
    decreases branches.len(),
{
    if branches.len() == 0 {
        Seq::empty()
    } else {
        let earlier = candidates_of(branches.drop_last(), merged, known);
        match classify(branches.last(), merged, known) {
            Some(kind) => earlier.push(branches.last().candidate(kind)),
            None => earlier,
        }
    }
}

/// What is said of a shallow clone.
pub open spec fn depth_warnings(shallow: bool) -> Seq<Seq<char>> {
    if shallow {
        seq!["shallow repository: squash/rebase detection is disabled"@]
    } else {
        Seq::empty()
    }
}

/// The scan that a survey and its verdicts amount to.
pub open spec fn concluded(
    s: SurveyView,
    known: Verdicts,
    to_walk: Seq<PendingView>,
    walks: Seq<WalkView>,
    probed: Seq<ProbedView>,
) -> ScanView {
    ScanView {
        base: s.base,
        candidates: order::listed_order(
            candidates_of(s.examinable, s.merged, all_verdicts(known, probed)),
        ),
        warnings: depth_warnings(s.shallow) + walk_warnings(walks, to_walk) + probe_warnings(
            probed,
        ),
    }
}

/// The warning for a branch that could not be judged.
fn warning_of(name: &str, e: &Error) -> (r: String)
    ensures
        r@ == probe_warning(name@, e@),
{
    name.to_owned().concat(": merge probe failed: ").concat(e.chain().as_str())
}

/// Adds a warning for each branch that a failed walk cost.
fn add_cost_of_walk(warnings: &mut Vec<String>, to_walk: &Vec<Pending>, fork: &str, e: &Error)
    ensures
        final(warnings).deep_view() == old(warnings).deep_view() + cost_of_walk(
            to_walk.deep_view(),
            fork@,
            e@,
        ),
{
    let mut i: usize = 0;
    let ghost start = warnings.deep_view();
    let ghost all = to_walk.deep_view();
    assert(all.take(0) =~= Seq::<PendingView>::empty());
    assert(start + Seq::<Seq<char>>::empty() =~= start);
    while i < to_walk.len()
        invariant
            i <= to_walk@.len(),
            all == to_walk.deep_view(),
            warnings.deep_view() == start + cost_of_walk(all.take(i as int), fork@, e@),
        decreases to_walk@.len() - i,
    {
        let ghost earlier = cost_of_walk(all.take(i as int), fork@, e@);
        let ghost before = warnings.deep_view();
        assert(all.take(i + 1).drop_last() =~= all.take(i as int));
        assert(all.take(i + 1).last() == to_walk@[i as int]@);
        if let Ok(Some(f)) = &to_walk[i].fork {
            if text::same(f.as_str(), fork) {
                let w = warning_of(to_walk[i].branch.name.as_str(), e);
                let ghost v = w@;
                warnings.push(w);
                assert(warnings.deep_view() =~= before.push(v));
                assert(start + earlier.push(v) =~= (start + earlier).push(v));
            }
        }
        i += 1;
    }
    assert(all.take(i as int) =~= all);
}

/// Adds the warnings of the failed walks.
fn add_walk_warnings(warnings: &mut Vec<String>, walks: &Vec<Walk>, to_walk: &Vec<Pending>)
    ensures
        final(warnings).deep_view() == old(warnings).deep_view() + walk_warnings(
            walks.deep_view(),
            to_walk.deep_view(),
        ),
{
    let mut i: usize = 0;
    let ghost start = warnings.deep_view();
    let ghost all = walks.deep_view();
    assert(all.take(0) =~= Seq::<WalkView>::empty());
    assert(start + Seq::<Seq<char>>::empty() =~= start);
    while i < walks.len()
        invariant
            i <= walks@.len(),
            all == walks.deep_view(),
            warnings.deep_view() == start + walk_warnings(
                all.take(i as int),
                to_walk.deep_view(),
            ),
        decreases walks@.len() - i,
    {
        let ghost earlier = walk_warnings(all.take(i as int), to_walk.deep_view());
        assert(all.take(i + 1).drop_last() =~= all.take(i as int));
        assert(all.take(i + 1).last() == walks@[i as int]@);
        if let Err(e) = &walks[i].ids {
            add_cost_of_walk(warnings, to_walk, walks[i].fork.as_str(), e);
            assert(start + earlier + cost_of_walk(to_walk.deep_view(), walks@[i as int].fork@, e@)
                =~= start + (earlier + cost_of_walk(
                to_walk.deep_view(),
                walks@[i as int].fork@,
                e@,
            )));
        }
        i += 1;
    }
    assert(all.take(i as int) =~= all);
}

/// Adds the warnings of the failed probes.
fn add_probe_warnings(warnings: &mut Vec<String>, probed: &Vec<Probed>)
    ensures
        final(warnings).deep_view() == old(warnings).deep_view() + probe_warnings(
            probed.deep_view(),
        ),
{
    let mut i: usize = 0;
    let ghost start = warnings.deep_view();
    let ghost all = probed.deep_view();
    assert(all.take(0) =~= Seq::<ProbedView>::empty());
    assert(start + Seq::<Seq<char>>::empty() =~= start);
    while i < probed.len()
        invariant
            i <= probed@.len(),
            all == probed.deep_view(),
            warnings.deep_view() == start + probe_warnings(all.take(i as int)),
        decreases probed@.len() - i,
    {
        let ghost earlier = probe_warnings(all.take(i as int));
        let ghost before = warnings.deep_view();
        assert(all.take(i + 1).drop_last() =~= all.take(i as int));
        assert(all.take(i + 1).last() == probed@[i as int]@);
        if let Err(e) = &probed[i].outcome {
            let w = warning_of(probed[i].pending.branch.name.as_str(), e);
            let ghost v = w@;
            warnings.push(w);
            assert(warnings.deep_view() =~= before.push(v));
            assert(start + earlier.push(v) =~= (start + earlier).push(v));
        }
        i += 1;
    }
    assert(all.take(i as int) =~= all);
}

/// Adds the verdicts of the probes to those known, and to the cache.
fn keep_verdicts(
    known: &mut StringHashMap<MergeKind>,
    cache: &mut Cache,
    base: &Base,
    probed: &Vec<Probed>,
    walks: &Vec<Walk>,
)
    ensures
        final(known)@ == all_verdicts(old(known)@, probed.deep_view()),
        final(cache)@ == remembered(
            old(cache)@,
            base.sha@,
            probed.deep_view(),
            walks.deep_view(),
        ),
{
    let mut i: usize = 0;
    let ghost start = known@;
    let ghost first = cache@;
    let ghost all = probed.deep_view();
    assert(all.take(0) =~= Seq::<ProbedView>::empty());
    while i < probed.len()
        invariant
            i <= probed@.len(),
            all == probed.deep_view(),
            known@ == all_verdicts(start, all.take(i as int)),
            cache@ == remembered(first, base.sha@, all.take(i as int), walks.deep_view()),
        decreases probed@.len() - i,
    {
        assert(all.take(i + 1).drop_last() =~= all.take(i as int));
        assert(all.take(i + 1).last() == probed@[i as int]@);
        let b = &probed[i].pending;
        if let Ok(verdict) = &probed[i].outcome {
            if let Some(kind) = verdict {
                known.insert(b.branch.refname.clone(), *kind);
            }
            if let Ok(Some(fork)) = &b.fork {
                if ids_of(walks, fork.as_str()).is_some() {
                    cache.insert(
                        Key::new(base.sha.as_str(), fork.as_str(), b.branch.sha.as_str()),
                        *verdict,
                    );
                }
            }
        }
        i += 1;
    }
    assert(all.take(i as int) =~= all);
}

/// The candidates among the branches, in the order of the branches.
fn find_candidates(
    branches: &Vec<RawBranch>,
    merged: &StringHashSet,
    known: &StringHashMap<MergeKind>,
) -> (r: Vec<Candidate>)
    ensures
        r.deep_view() == candidates_of(branches.deep_view(), merged@, known@),
{
    let mut r: Vec<Candidate> = Vec::new();
    let mut i: usize = 0;
    let ghost all = branches.deep_view();
    assert(all.take(0) =~= Seq::<RawBranchView>::empty());
    assert(r.deep_view() =~= Seq::<CandidateView>::empty());
    while i < branches.len()
        invariant
            i <= branches@.len(),
            all == branches.deep_view(),
            r.deep_view() == candidates_of(all.take(i as int), merged@, known@),
        decreases branches@.len() - i,
    {
        let ghost earlier = r.deep_view();
        let b = &branches[i];
        assert(all.take(i + 1).drop_last() =~= all.take(i as int));
        assert(all.take(i + 1).last() == b@);
        let kind = if merged.contains(b.refname.as_str()) {
            Some(MergeKind::Merged)
        } else {
            match known.get(b.refname.as_str()) {
                Some(kind) => Some(*kind),
                None => if b.upstream_gone {
                    Some(MergeKind::Gone)
                } else {
                    None
                },
            }
        };
        if let Some(kind) = kind {
            r.push(b.candidate(kind));
            assert(r.deep_view() =~= earlier.push(b@.candidate(kind)));
        }
        i += 1;
    }
    assert(all.take(i as int) =~= all);
    r
}

/// Turns a survey and its verdicts into the scan, and remembers what the
/// probes found.
pub fn conclude(
    s: &Survey,
    c: Consulted,
    walks: &Vec<Walk>,
    probed: &Vec<Probed>,
    cache: &mut Cache,
) -> (r: Scan)
    ensures
        r@ == concluded(
            s@,
            c.known@,
            c.to_walk.deep_view(),
            walks.deep_view(),
            probed.deep_view(),
        ),
        final(cache)@ == remembered(
            old(cache)@,
            s.base.sha@,
            probed.deep_view(),
            walks.deep_view(),
        ),
{
    let mut warnings: Vec<String> = Vec::new();
    if s.shallow {
        warnings.push("shallow repository: squash/rebase detection is disabled".to_owned());
    }
    assert(warnings.deep_view() =~= depth_warnings(s.shallow));
    add_walk_warnings(&mut warnings, walks, &c.to_walk);
    add_probe_warnings(&mut warnings, probed);
    let mut known = c.known;
    keep_verdicts(&mut known, cache, &s.base, probed, walks);
    let found = find_candidates(&s.examinable, &s.merged, &known);
    Scan { base: s.base.clone(), candidates: in_listed_order(&found), warnings }
}

} // verus!
