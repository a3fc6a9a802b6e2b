//! A scan behind its survey, one batch of questions at a time.
//!
//! The questions of a batch are independent of each other, so that whoever
//! asks them can hand them out to several workers. Each stage says what to
//! ask and takes the answers, in the order of the questions.

use vstd::hash_set::StringHashSet;
use vstd::prelude::*;

use crate::cache::{Cache, CacheView};
use crate::git::{Error, ErrorView, Exchange, Stretch};
use crate::list;
use crate::scan::probe;
use crate::scan::refs::{RawBranch, RawBranchView};
use crate::scan::survey::{Survey, SurveyView};
use crate::scan::verdicts::{
    self, branches_to_probe, conclude, consult, distinct_forks, Consulted, ConsultedView,
    ForkView, Pending, PendingView, Probed, ProbedView, Verdicts, Walk, WalkView,
};
use crate::scan::{self, Base, MergeKind, Scan, ScanOutcome, ScanView};

verus! {

/// The branches with their fork points.
pub open spec fn with_answers(branches: Seq<RawBranchView>, forks: Seq<ForkView>) -> Seq<
    PendingView,
> {
    Seq::new(branches.len(), |i: int| PendingView { branch: branches[i], fork: forks[i] })
}

/// The fork points with what the walks from them found.
pub open spec fn walks_with(
    forks: Seq<Seq<char>>,
    ids: Seq<Result<Set<Seq<char>>, ErrorView>>,
) -> Seq<WalkView> {
    Seq::new(forks.len(), |i: int| WalkView { fork: forks[i], ids: ids[i] })
}

/// The branches with what their probes found.
pub open spec fn probes_with(
    to_walk: Seq<PendingView>,
    outcomes: Seq<Result<Option<MergeKind>, ErrorView>>,
) -> Seq<ProbedView> {
    Seq::new(
        to_walk.len(),
        |i: int| ProbedView { pending: to_walk[i], outcome: outcomes[i] },
    )
}

/// What the cache makes of the branches, given their fork points.
pub open spec fn consulted_with(
    s: SurveyView,
    cache: CacheView,
    forks: Seq<ForkView>,
) -> ConsultedView {
    verdicts::consulted(with_answers(verdicts::to_probe(s), forks), s.base.sha, cache)
}

/// The scan that the answers amount to, and the cache that it leaves.
pub open spec fn amounts_to(
    s: SurveyView,
    cache: CacheView,
    forks: Seq<ForkView>,
    ids: Seq<Result<Set<Seq<char>>, ErrorView>>,
    outcomes: Seq<Result<Option<MergeKind>, ErrorView>>,
) -> (ScanView, CacheView) {
    let c = consulted_with(s, cache, forks);
    let walks = walks_with(verdicts::distinct_forks_of(c.to_walk), ids);
    let probed = probes_with(c.to_walk, outcomes);
    (
        verdicts::concluded(s, c.known, c.to_walk, walks, probed),
        verdicts::remembered(c.cache, s.base.sha, probed, walks),
    )
}

/// Answers about fork points, seen from outside.
pub open spec fn fork_answers(v: Seq<Result<Option<String>, Error>>) -> Seq<ForkView> {
    v.map_values(|r: Result<Option<String>, Error>| probe::fork_result(r))
}

/// Answers of walks, seen from outside.
pub open spec fn walk_answers(v: Seq<Result<StringHashSet, Error>>) -> Seq<
    Result<Set<Seq<char>>, ErrorView>,
> {
    v.map_values(|r: Result<StringHashSet, Error>| probe::set_result(r))
}

/// Answers of probes, seen from outside.
pub open spec fn probe_answers(v: Seq<Result<Option<MergeKind>, Error>>) -> Seq<
    Result<Option<MergeKind>, ErrorView>,
> {
    v.map_values(|r: Result<Option<MergeKind>, Error>| probe::verdict_result(r))
}

/// The first stage: where did each branch part from the base?
pub struct Forking {
    survey: Survey,
    branches: Vec<RawBranch>,
}

impl View for Forking {
    type V = SurveyView;

    /// The survey that this follows.
    closed spec fn view(&self) -> SurveyView {
        self.survey@
    }
}

impl Forking {
    #[verifier::type_invariant]
    spec fn asks_what_the_survey_calls_for(self) -> bool {
        &&& self.branches.deep_view() == verdicts::to_probe(self.survey@)
        &&& self.branches@.len() <= self.survey.examinable@.len()
    }

    /// The scan that follows a survey.
    pub fn begin(survey: Survey) -> (c: Forking)
        ensures
            c@ == survey@,
    {
        let branches = branches_to_probe(&survey);
        Forking { survey, branches }
    }

    /// What the branches are compared against.
    pub fn base(&self) -> (b: &Base)
        ensures
            b@ == self@.base,
    {
        &self.survey.base
    }

    /// The branches to ask about.
    pub fn branches(&self) -> (r: &Vec<RawBranch>)
        ensures
            r.deep_view() == verdicts::to_probe(self@),
    {
        proof {
            use_type_invariant(self);
        }
        &self.branches
    }

    /// How many branches are examined in all.
    pub fn total(&self) -> (n: usize)
        ensures
            n == self@.examinable.len(),
    {
        self.survey.examinable.len()
    }

    /// How many of them need no question: ancestry already answered them, or
    /// there is no history to probe them by.
    pub fn settled(&self) -> (n: usize)
        ensures
            n + verdicts::to_probe(self@).len() == self@.examinable.len(),
    {
        proof {
            use_type_invariant(self);
        }
        assert(self.branches.deep_view().len() == self.branches@.len());
        self.survey.examinable.len() - self.branches.len()
    }

    /// Takes the answers and consults the cache.
    pub fn answered(self, forks: Vec<Result<Option<String>, Error>>, cache: &mut Cache) -> (c:
        Walking)
        requires
            forks@.len() == verdicts::to_probe(self@).len(),
        ensures
            ({
                let found = consulted_with(self@, old(cache)@, fork_answers(forks@));
                &&& c@ == (WalkingView {
                    survey: self@,
                    known: found.known,
                    to_walk: found.to_walk,
                })
                &&& final(cache)@ == found.cache
            }),
    {
        proof {
            use_type_invariant(&self);
        }
        let Forking { survey, branches } = self;
        let ghost all = forks@;
        let ghost asked = branches.deep_view();
        let mut rest = list::reversed(forks);
        let mut pending: Vec<Pending> = Vec::new();
        let mut i: usize = 0;
        while i < branches.len()
            invariant
                i <= branches@.len(),
                asked == branches.deep_view(),
                all.len() == branches@.len(),
                rest@ =~= all.skip(i as int).reverse(),
                pending@.len() == i,
                forall|k: int|
                    0 <= k < i ==> (#[trigger] pending@[k])@ == (PendingView {
                        branch: asked[k],
                        fork: probe::fork_result(all[k]),
                    }),
            decreases branches@.len() - i,
        {
            if let Some(fork) = rest.pop() {
                assert(fork == all[i as int]);
                pending.push(Pending { branch: branches[i].clone(), fork });
            }
            assert(rest@ =~= all.skip(i + 1).reverse());
            i += 1;
        }
        assert(pending.deep_view() =~= with_answers(asked, fork_answers(all)));
        let known = consult(&pending, &survey.base, cache);
        let forks = distinct_forks(&known.to_walk);
        Walking { survey, known, forks }
    }
}

/// The second stage: which patches has the base gained since each fork point?
pub struct Walking {
    survey: Survey,
    known: Consulted,
    forks: Vec<String>,
}

/// What a [`Walking`] holds.
pub struct WalkingView {
    pub survey: SurveyView,
    /// The verdicts that the cache gave.
    pub known: Verdicts,
    /// The branches that it does not know.
    pub to_walk: Seq<PendingView>,
}

impl View for Walking {
    type V = WalkingView;

    closed spec fn view(&self) -> WalkingView {
        WalkingView {
            survey: self.survey@,
            known: self.known.known@,
            to_walk: self.known.to_walk.deep_view(),
        }
    }
}

impl Walking {
    #[verifier::type_invariant]
    spec fn asks_what_the_cache_does_not_know(self) -> bool {
        &&& self.forks.deep_view() == verdicts::distinct_forks_of(self.known.to_walk.deep_view())
        &&& self.known.to_walk@.len() <= self.survey.examinable@.len()
    }

    /// What is walked.
    pub fn base(&self) -> (b: &Base)
        ensures
            b@ == self@.survey.base,
    {
        &self.survey.base
    }

    /// The fork points to walk from.
    pub fn forks(&self) -> (r: &Vec<String>)
        ensures
            r.deep_view() == verdicts::distinct_forks_of(self@.to_walk),
    {
        proof {
            use_type_invariant(self);
        }
        &self.forks
    }

    /// How many of the examined branches need no further question: those of
    /// the stage before, and those that the cache knows.
    pub fn settled(&self) -> (n: usize)
        ensures
            n + self@.to_walk.len() == self@.survey.examinable.len(),
    {
        proof {
            use_type_invariant(self);
        }
        self.survey.examinable.len() - self.known.to_walk.len()
    }

    /// Takes the answers.
    pub fn answered(self, ids: Vec<Result<StringHashSet, Error>>) -> (c: Probing)
        requires
            ids@.len() == verdicts::distinct_forks_of(self@.to_walk).len(),
        ensures
            c@ == (ProbingView {
                survey: self@.survey,
                known: self@.known,
                to_walk: self@.to_walk,
                walks: walks_with(
                    verdicts::distinct_forks_of(self@.to_walk),
                    walk_answers(ids@),
                ),
            }),
    {
        proof {
            use_type_invariant(&self);
        }
        let Walking { survey, known, forks } = self;
        let ghost all = ids@;
        let ghost asked = forks.deep_view();
        let mut rest = list::reversed(ids);
        let mut walks: Vec<Walk> = Vec::new();
        let mut i: usize = 0;
        while i < forks.len()
            invariant
                i <= forks@.len(),
                asked == forks.deep_view(),
                all.len() == forks@.len(),
                rest@ =~= all.skip(i as int).reverse(),
                walks@.len() == i,
                forall|k: int|
                    0 <= k < i ==> (#[trigger] walks@[k])@ == (WalkView {
                        fork: asked[k],
                        ids: probe::set_result(all[k]),
                    }),
            decreases forks@.len() - i,
        {
            if let Some(found) = rest.pop() {
                assert(found == all[i as int]);
                walks.push(Walk { fork: forks[i].clone(), ids: found });
            }
            assert(rest@ =~= all.skip(i + 1).reverse());
            i += 1;
        }
        assert(walks.deep_view() =~= walks_with(asked, walk_answers(all)));
        Probing { survey, known, walks }
    }
}

/// The third stage: is each branch among the patches of the base?
pub struct Probing {
    survey: Survey,
    known: Consulted,
    walks: Vec<Walk>,
}

/// What a [`Probing`] holds.
pub struct ProbingView {
    pub survey: SurveyView,
    /// The verdicts that the cache gave.
    pub known: Verdicts,
    /// The branches that it does not know.
    pub to_walk: Seq<PendingView>,
    /// The walks from their fork points.
    pub walks: Seq<WalkView>,
}

impl View for Probing {
    type V = ProbingView;

    closed spec fn view(&self) -> ProbingView {
        ProbingView {
            survey: self.survey@,
            known: self.known.known@,
            to_walk: self.known.to_walk.deep_view(),
            walks: self.walks.deep_view(),
        }
    }
}

impl Probing {
    /// The branches to probe: those that the cache does not know.
    pub fn branches(&self) -> (r: &Vec<Pending>)
        ensures
            r.deep_view() == self@.to_walk,
    {
        &self.known.to_walk
    }

    /// What they are probed against.
    pub fn walks(&self) -> (r: &Vec<Walk>)
        ensures
            r.deep_view() == self@.walks,
    {
        &self.walks
    }

    /// Takes the answers, remembers them, and concludes the scan.
    pub fn answered(self, outcomes: Vec<Result<Option<MergeKind>, Error>>, cache: &mut Cache) -> (r:
        Scan)
        requires
            outcomes@.len() == self@.to_walk.len(),
        ensures
            ({
                let probed = probes_with(self@.to_walk, probe_answers(outcomes@));
                let v = self@;
                &&& r@ == verdicts::concluded(v.survey, v.known, v.to_walk, v.walks, probed)
                &&& final(cache)@ == verdicts::remembered(
                    old(cache)@,
                    v.survey.base.sha,
                    probed,
                    v.walks,
                )
            }),
    {
        let Probing { survey, known, walks } = self;
        let ghost all = outcomes@;
        let ghost to_walk = known.to_walk.deep_view();
        let mut rest = list::reversed(outcomes);
        let mut probed: Vec<Probed> = Vec::new();
        let mut i: usize = 0;
        while i < known.to_walk.len()
            invariant
                i <= known.to_walk@.len(),
                to_walk == known.to_walk.deep_view(),
                all.len() == known.to_walk@.len(),
                rest@ =~= all.skip(i as int).reverse(),
                probed@.len() == i,
                forall|k: int|
                    0 <= k < i ==> (#[trigger] probed@[k])@ == (ProbedView {
                        pending: to_walk[k],
                        outcome: probe::verdict_result(all[k]),
                    }),
            decreases known.to_walk@.len() - i,
        {
            if let Some(outcome) = rest.pop() {
                assert(outcome == all[i as int]);
                probed.push(Probed { pending: known.to_walk[i].clone(), outcome });
            }
            assert(rest@ =~= all.skip(i + 1).reverse());
            i += 1;
        }
        assert(probed.deep_view() =~= probes_with(to_walk, probe_answers(all)));
        conclude(&survey, known, &walks, &probed, cache)
    }
}

/// The stages of a scan behind its survey.
pub struct Stages {
    /// The branches that await their verdict, and where each parted from the
    /// base.
    pub pending: Seq<PendingView>,
    /// What the cache made of them.
    pub asked: ConsultedView,
    /// The walks of the base, for those it does not know.
    pub walks: Stretch<WalkView>,
    /// The probes of those.
    pub probes: Stretch<ProbedView>,
}

/// The stages that are read from `p` on.
pub open spec fn stages(h: Seq<Exchange>, p: int, s: SurveyView, cache: CacheView) -> Stages {
    let base = s.base.sha;
    let branches = verdicts::to_probe(s);
    let pending = verdicts::with_forks(h, p, base, branches);
    let asked = verdicts::consulted(pending, base, cache);
    let walks = verdicts::read_walks(
        h,
        p + branches.len(),
        base,
        verdicts::distinct_forks_of(asked.to_walk),
    );
    Stages {
        pending,
        asked,
        walks,
        probes: verdicts::read_probes(h, walks.end, asked.to_walk, walks.items),
    }
}

/// Whoever asks the questions, and in whatever order: answers that are those
/// of a scan that asked them one at a time amount to what that scan found and
/// left in its cache.
pub proof fn law_workers_find_what_one_finds(
    h: Seq<Exchange>,
    p: int,
    s: SurveyView,
    cache: CacheView,
    outcome: ScanOutcome,
)
    requires
        scan::read_verdicts(h, p, s, cache).value == Ok::<_, ErrorView>(outcome),
    ensures
        ({
            let t = stages(h, p, s, cache);
            amounts_to(
                s,
                cache,
                t.pending.map_values(|b: PendingView| b.fork),
                t.walks.items.map_values(|w: WalkView| w.ids),
                t.probes.items.map_values(|b: ProbedView| b.outcome),
            ) == (outcome.found, outcome.cache)
        }),
{
    reveal(scan::read_verdicts);
    let t = stages(h, p, s, cache);
    let branches = verdicts::to_probe(s);
    let forks = t.pending.map_values(|b: PendingView| b.fork);
    let ids = t.walks.items.map_values(|w: WalkView| w.ids);
    let outcomes = t.probes.items.map_values(|b: ProbedView| b.outcome);
    assert(with_answers(branches, forks) =~= t.pending);
    let places = verdicts::distinct_forks_of(t.asked.to_walk);
    lemma_walk_items(h, p + branches.len(), s.base.sha, places);
    assert(walks_with(places, ids) =~= t.walks.items);
    lemma_probe_items(h, t.walks.end, t.asked.to_walk, t.walks.items);
    assert(probes_with(t.asked.to_walk, outcomes) =~= t.probes.items);
}

/// One walk per fork point, in order.
proof fn lemma_walk_items(h: Seq<Exchange>, p: int, base: Seq<char>, forks: Seq<Seq<char>>)
    ensures
        verdicts::read_walks(h, p, base, forks).items.len() == forks.len(),
        forall|i: int|
            0 <= i < forks.len() ==> (#[trigger] verdicts::read_walks(
                h,
                p,
                base,
                forks,
            ).items[i]).fork == forks[i],
    decreases forks.len(),
{
    if forks.len() > 0 {
        lemma_walk_items(h, p, base, forks.drop_last());
        let earlier = verdicts::read_walks(h, p, base, forks.drop_last());
        let all = verdicts::read_walks(h, p, base, forks);
        assert forall|i: int| 0 <= i < forks.len() implies (#[trigger] all.items[i]).fork
            == forks[i] by {
            if i < earlier.items.len() {
                assert(all.items[i] == earlier.items[i]);
                assert(forks.drop_last()[i] == forks[i]);
            }
        }
    }
}

/// One probe per branch, in order.
proof fn lemma_probe_items(
    h: Seq<Exchange>,
    p: int,
    to_walk: Seq<PendingView>,
    walks: Seq<WalkView>,
)
    ensures
        verdicts::read_probes(h, p, to_walk, walks).items.len() == to_walk.len(),
        forall|i: int|
            0 <= i < to_walk.len() ==> (#[trigger] verdicts::read_probes(
                h,
                p,
                to_walk,
                walks,
            ).items[i]).pending == to_walk[i],
    decreases to_walk.len(),
{
    if to_walk.len() > 0 {
        lemma_probe_items(h, p, to_walk.drop_last(), walks);
        let earlier = verdicts::read_probes(h, p, to_walk.drop_last(), walks);
        let all = verdicts::read_probes(h, p, to_walk, walks);
        assert forall|i: int| 0 <= i < to_walk.len() implies (#[trigger] all.items[i]).pending
            == to_walk[i] by {
            if i < earlier.items.len() {
                assert(all.items[i] == earlier.items[i]);
                assert(to_walk.drop_last()[i] == to_walk[i]);
            }
        }
    }
}

} // verus!
