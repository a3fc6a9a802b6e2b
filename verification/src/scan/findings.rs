//! What a scan makes of what it learned: kinds, candidates, warnings, order.

use vstd::prelude::*;

use crate::cache::{Cache, CacheView};
use crate::git::ErrorView;
use crate::list;
use crate::progress::Event;
use crate::scan::laws;
use crate::scan::order;
use crate::scan::refs::RawBranchView;
use crate::scan::repeat;
use crate::scan::survey::{Survey, SurveyView};
use crate::scan::verdicts::{
    self, Consulted, PendingView, Probed, ProbedView, Verdicts, Walk, WalkView,
};
use crate::scan::{
    self, BaseView, Candidate, CandidateScope, CandidateView, MergeKind, Scan,
};
use crate::text;

verus! {

/// What a kind means for the user: everything but a gone branch is verified
/// and selected, and only a branch that git itself calls merged goes without
/// force.
pub proof fn law_kinds_and_their_treatment(c: CandidateView)
    ensures
        c.kind == MergeKind::Merged ==> c.selected_by_default() && !c.needs_force(),
        c.kind == MergeKind::Squash ==> c.selected_by_default() && c.needs_force(),
        c.kind == MergeKind::Rebase ==> c.selected_by_default() && c.needs_force(),
        c.kind == MergeKind::Gone ==> !c.selected_by_default() && c.needs_force(),
{
}

/// A base is handed to git by its full name where it has one, and by the name
/// it was given otherwise.
pub proof fn law_base_is_named_in_full(b: BaseView)
    ensures
        b.refname is Some ==> b.rev() == b.refname->Some_0,
        b.refname is None ==> b.rev() == b.name,
{
}

/// A candidate says of its branch what the listing said, all of it, and why it
/// is one.
pub open spec fn is_candidate(c: CandidateView, b: RawBranchView, kind: MergeKind) -> bool {
    &&& c.kind == kind
    &&& c.name == b.name
    &&& c.refname == b.refname
    &&& c.sha == b.sha
    &&& c.scope == b.scope
    &&& c.upstream == b.upstream
    &&& c.upstream_ref == b.upstream_ref
    &&& c.upstream_gone == b.upstream_gone
    &&& c.remote_name == b.remote_name
    &&& c.last_commit_unix == b.last_commit_unix
    &&& c.subject == b.subject
}

proof fn lemma_branch_is_a_candidate(
    branches: Seq<RawBranchView>,
    merged: Set<Seq<char>>,
    known: Verdicts,
    j: int,
)
    requires
        0 <= j < branches.len(),
        verdicts::classify(branches[j], merged, known) is Some,
    ensures
        verdicts::candidates_of(branches, merged, known).contains(
            branches[j].candidate(verdicts::classify(branches[j], merged, known)->Some_0),
        ),
    decreases branches.len(),
{
    let all = verdicts::candidates_of(branches, merged, known);
    let earlier = verdicts::candidates_of(branches.drop_last(), merged, known);
    let c = branches[j].candidate(verdicts::classify(branches[j], merged, known)->Some_0);
    if j < branches.len() - 1 {
        assert(branches.drop_last()[j] == branches[j]);
        lemma_branch_is_a_candidate(branches.drop_last(), merged, known, j);
        let k = choose|k: int| 0 <= k < earlier.len() && earlier[k] == c;
        assert(all[k] == c);
    } else {
        assert(all[all.len() - 1] == c);
    }
}

proof fn lemma_listed_too(s: Seq<CandidateView>, c: CandidateView)
    requires
        s.contains(c),
    ensures
        order::listed_order(s).contains(c),
{
    broadcast use vstd::seq_lib::group_to_multiset_ensures;

    order::law_listing_is_sorted(s);
    assert(s.to_multiset().contains(c));
    assert(order::listed_order(s).to_multiset().contains(c));
}

/// Every branch is listed for the best reason there is. An ancestor of the
/// base is merged, whatever else is known of it. Of the others, one with a
/// verdict, probed or remembered, has that verdict for its kind, whether or
/// not its upstream is gone; one without a verdict is gone if its upstream is,
/// and otherwise it is left alone.
pub proof fn law_the_best_reason_counts(
    s: SurveyView,
    known: Verdicts,
    to_walk: Seq<PendingView>,
    walks: Seq<WalkView>,
    probed: Seq<ProbedView>,
    j: int,
)
    requires
        0 <= j < s.examinable.len(),
    ensures
        ({
            let b = s.examinable[j];
            let found = verdicts::concluded(s, known, to_walk, walks, probed).candidates;
            let all = verdicts::all_verdicts(known, probed);
            &&& s.merged.contains(b.refname) ==> exists|c: CandidateView|
                found.contains(c) && is_candidate(c, b, MergeKind::Merged)
            &&& !s.merged.contains(b.refname) && all.dom().contains(b.refname) ==> exists|
                c: CandidateView,
            |
                found.contains(c) && is_candidate(c, b, all[b.refname])
            &&& !s.merged.contains(b.refname) && !all.dom().contains(b.refname) && b.upstream_gone
                ==> exists|c: CandidateView|
                found.contains(c) && is_candidate(c, b, MergeKind::Gone)
            &&& !s.merged.contains(b.refname) && !all.dom().contains(b.refname) && !b.upstream_gone
                && repeat::refs_once(s.examinable) ==> forall|c: CandidateView|
                found.contains(c) ==> c.refname != b.refname
        }),
{
    let b = s.examinable[j];
    let found = verdicts::concluded(s, known, to_walk, walks, probed).candidates;
    let all = verdicts::all_verdicts(known, probed);
    let plain = verdicts::candidates_of(s.examinable, s.merged, all);
    match verdicts::classify(b, s.merged, all) {
        Some(kind) => {
            lemma_branch_is_a_candidate(s.examinable, s.merged, all, j);
            let c = b.candidate(kind);
            lemma_listed_too(plain, c);
            assert(found.contains(c) && is_candidate(c, b, kind));
        },
        None => {
            assert forall|c: CandidateView|
                found.contains(c) && repeat::refs_once(s.examinable) implies c.refname
                != b.refname by {
                laws::lemma_listed(plain, c);
                let i = laws::lemma_candidate_is_a_branch(s.examinable, s.merged, all, c);
                if i < j {
                    assert(s.examinable[i].refname != s.examinable[j].refname);
                } else if j < i {
                    assert(s.examinable[j].refname != s.examinable[i].refname);
                }
            }
        },
    }
}

/// A candidate is one of the examined branches, for a reason that holds: a
/// merged one is an ancestor of the base or has that for its verdict, a
/// squashed or rebased one has it for its verdict, and a gone one has lost its
/// upstream and has no better verdict.
pub proof fn law_no_candidate_without_a_reason(
    s: SurveyView,
    known: Verdicts,
    to_walk: Seq<PendingView>,
    walks: Seq<WalkView>,
    probed: Seq<ProbedView>,
    c: CandidateView,
) -> (j: int)
    requires
        verdicts::concluded(s, known, to_walk, walks, probed).candidates.contains(c),
    ensures
        0 <= j < s.examinable.len(),
        is_candidate(c, s.examinable[j], c.kind),
        s.merged.contains(c.refname) ==> c.kind == MergeKind::Merged,
        !s.merged.contains(c.refname) && verdicts::all_verdicts(known, probed).dom().contains(
            c.refname,
        ) ==> c.kind == verdicts::all_verdicts(known, probed)[c.refname],
        !s.merged.contains(c.refname) && !verdicts::all_verdicts(known, probed).dom().contains(
            c.refname,
        ) ==> c.kind == MergeKind::Gone && s.examinable[j].upstream_gone,
{
    let all = verdicts::all_verdicts(known, probed);
    laws::lemma_listed(verdicts::candidates_of(s.examinable, s.merged, all), c);
    laws::lemma_candidate_is_a_branch(s.examinable, s.merged, all, c)
}

/// No branch is listed twice: two lists of branches have the candidates of the
/// one and then those of the other, and a single branch has one at most.
pub proof fn law_one_candidate_per_branch(
    first: Seq<RawBranchView>,
    second: Seq<RawBranchView>,
    merged: Set<Seq<char>>,
    known: Verdicts,
)
    ensures
        verdicts::candidates_of(first + second, merged, known) == verdicts::candidates_of(
            first,
            merged,
            known,
        ) + verdicts::candidates_of(second, merged, known),
        first.len() == 1 ==> verdicts::candidates_of(first, merged, known).len() <= 1,
        first.len() == 0 ==> verdicts::candidates_of(first, merged, known).len() == 0,
    decreases second.len(),
{
    let all = first + second;
    if second.len() == 0 {
        assert(all =~= first);
        assert(verdicts::candidates_of(first, merged, known) + verdicts::candidates_of(
            second,
            merged,
            known,
        ) =~= verdicts::candidates_of(first, merged, known));
    } else {
        law_one_candidate_per_branch(first, second.drop_last(), merged, known);
        assert(all.drop_last() =~= first + second.drop_last());
        assert(all.last() == second.last());
        assert(verdicts::candidates_of(all, merged, known) =~= verdicts::candidates_of(
            first,
            merged,
            known,
        ) + verdicts::candidates_of(second, merged, known));
    }
    if first.len() == 1 {
        assert(verdicts::candidates_of(first.drop_last(), merged, known).len() == 0);
    }
}

/// The verdict of a ref is the last that a probe found for it; without one it
/// is the one that was known before, and a probe that found nothing or failed
/// changes nothing.
pub proof fn law_probes_have_the_last_word(
    known: Verdicts,
    probed: Seq<ProbedView>,
    refname: Seq<char>,
)
    ensures
        (forall|m: int|
            0 <= m < probed.len() && (#[trigger] probed[m]).pending.branch.refname == refname
                ==> probed[m].outcome is Err || probed[m].outcome->Ok_0 is None) ==> (
        verdicts::all_verdicts(known, probed).dom().contains(refname) <==> known.dom().contains(
            refname,
        )) && (known.dom().contains(refname) ==> verdicts::all_verdicts(known, probed)[refname]
            == known[refname]),
        forall|m: int|
            0 <= m < probed.len() && (#[trigger] probed[m]).pending.branch.refname == refname
                && probed[m].outcome is Ok && probed[m].outcome->Ok_0 is Some && (forall|i: int|
                m < i < probed.len() && (#[trigger] probed[i]).pending.branch.refname == refname
                    ==> probed[i].outcome is Err || probed[i].outcome->Ok_0 is None)
                ==> verdicts::all_verdicts(known, probed).contains_pair(
                refname,
                probed[m].outcome->Ok_0->Some_0,
            ),
    decreases probed.len(),
{
    if probed.len() > 0 {
        let rest = probed.drop_last();
        let last = probed.last();
        assert(probed[probed.len() - 1] == last);
        law_probes_have_the_last_word(known, rest, refname);
        if forall|m: int|
            0 <= m < probed.len() && (#[trigger] probed[m]).pending.branch.refname == refname
                ==> probed[m].outcome is Err || probed[m].outcome->Ok_0 is None {
            assert forall|m: int|
                0 <= m < rest.len() && (#[trigger] rest[m]).pending.branch.refname == refname
                implies rest[m].outcome is Err || rest[m].outcome->Ok_0 is None by {
                assert(probed[m] == rest[m]);
            }
        }
        assert forall|m: int|
            0 <= m < probed.len() && (#[trigger] probed[m]).pending.branch.refname == refname
                && probed[m].outcome is Ok && probed[m].outcome->Ok_0 is Some && (forall|i: int|
                m < i < probed.len() && (#[trigger] probed[i]).pending.branch.refname == refname
                    ==> probed[i].outcome is Err || probed[i].outcome->Ok_0 is None) implies
            verdicts::all_verdicts(known, probed).contains_pair(
            refname,
            probed[m].outcome->Ok_0->Some_0,
        ) by {
            if m < rest.len() {
                assert(rest[m] == probed[m]);
                assert forall|i: int|
                    m < i < rest.len() && (#[trigger] rest[i]).pending.branch.refname == refname
                    implies rest[i].outcome is Err || rest[i].outcome->Ok_0 is None by {
                    assert(probed[i] == rest[i]);
                }
            }
        }
    }
}

/// Which branches are probed at all: those that may be examined and are no
/// ancestors of the base, all of them and in order, and on a shallow clone
/// none.
pub proof fn law_who_is_probed(s: SurveyView, b: RawBranchView)
    ensures
        verdicts::to_probe(s).contains(b) <==> !s.shallow && s.examinable.contains(b)
            && !s.merged.contains(b.refname),
{
    lemma_unmerged(s.examinable, s.merged, b);
}

proof fn lemma_unmerged(branches: Seq<RawBranchView>, merged: Set<Seq<char>>, b: RawBranchView)
    ensures
        verdicts::unmerged(branches, merged).contains(b) <==> branches.contains(b)
            && !merged.contains(b.refname),
    decreases branches.len(),
{
    let all = verdicts::unmerged(branches, merged);
    if branches.len() > 0 {
        lemma_unmerged(branches.drop_last(), merged, b);
        list::lemma_last_or_before(branches, b);
        if !merged.contains(branches.last().refname) {
            list::lemma_last_or_before(all, b);
            assert(all.drop_last() =~= verdicts::unmerged(branches.drop_last(), merged));
        }
    }
}

/// Whether the cache has a verdict for a branch: its fork point must be known,
/// and the verdict must have been stored for the base, that fork point and the
/// branch's tip, spelled with colons between them.
pub open spec fn is_cached(b: PendingView, base: Seq<char>, cache: CacheView) -> bool {
    b.fork is Ok && b.fork->Ok_0 is Some && cache.entries.dom().contains(
        base + ":"@ + b.fork->Ok_0->Some_0 + ":"@ + b.branch.sha,
    )
}

/// What the cache decides: a branch that it has a verdict for is not probed,
/// every other one is; what it says of a ref is what was stored for the last
/// branch of that ref that it knows, and where that is "not merged" nothing is
/// known. No verdict changes by being looked up, and those that were are
/// marked as in use.
pub proof fn law_the_cache_spares_probes(
    pending: Seq<PendingView>,
    base: Seq<char>,
    cache: CacheView,
    k: int,
)
    requires
        0 <= k < pending.len(),
    ensures
        ({
            let c = verdicts::consulted(pending, base, cache);
            let b = pending[k];
            let key = base + ":"@ + b.fork->Ok_0->Some_0 + ":"@ + b.branch.sha;
            &&& c.to_walk.contains(b) <==> !is_cached(b, base, cache)
            &&& forall|x: PendingView| #[trigger] c.to_walk.contains(x) ==> pending.contains(x)
            &&& is_cached(b, base, cache) && cache.entries[key] is Some && (forall|i: int|
                k < i < pending.len() ==> (#[trigger] pending[i]).branch.refname
                    != b.branch.refname) ==> c.known.contains_pair(
                b.branch.refname,
                cache.entries[key]->Some_0,
            )
            &&& is_cached(b, base, cache) ==> c.cache.live.contains(key)
            &&& c.cache.entries == cache.entries
        }),
    decreases pending.len(),
{
    let rest = pending.drop_last();
    let last = pending.last();
    let c = verdicts::consulted(pending, base, cache);
    let earlier = verdicts::consulted(rest, base, cache);
    laws::lemma_lookups_keep_entries(pending, base, cache);
    laws::lemma_lookups_keep_entries(rest, base, cache);
    let b = pending[k];
    lemma_walked_or_cached(pending, base, cache);
    if k < rest.len() {
        assert(rest[k] == b);
        law_the_cache_spares_probes(rest, base, cache, k);
        if forall|i: int|
            k < i < pending.len() ==> (#[trigger] pending[i]).branch.refname != b.branch.refname {
            assert(pending[pending.len() - 1].branch.refname != b.branch.refname);
            assert forall|i: int| k < i < rest.len() implies (#[trigger] rest[i]).branch.refname
                != b.branch.refname by {
                assert(pending[i] == rest[i]);
            }
        }
    }
    assert(pending.contains(b));
}

proof fn lemma_walked_or_cached(pending: Seq<PendingView>, base: Seq<char>, cache: CacheView)
    ensures
        forall|x: PendingView| #[trigger]
            verdicts::consulted(pending, base, cache).to_walk.contains(x) <==> pending.contains(x)
                && !is_cached(x, base, cache),
    decreases pending.len(),
{
    let c = verdicts::consulted(pending, base, cache);
    if pending.len() > 0 {
        let rest = pending.drop_last();
        let earlier = verdicts::consulted(rest, base, cache);
        lemma_walked_or_cached(rest, base, cache);
        laws::lemma_lookups_keep_entries(rest, base, cache);
        assert forall|x: PendingView| #[trigger] c.to_walk.contains(x) <==> pending.contains(x)
            && !is_cached(x, base, cache) by {
            list::lemma_last_or_before(pending, x);
            assert(earlier.to_walk.contains(x) <==> rest.contains(x) && !is_cached(
                x,
                base,
                cache,
            ));
            if !is_cached(pending.last(), base, cache) {
                list::lemma_last_or_before(c.to_walk, x);
                assert(c.to_walk.drop_last() =~= earlier.to_walk);
            }
        }
    }
}

/// What is remembered: the verdict of every branch that was judged, "not
/// merged" included, under its three shas. A branch whose probe or walk
/// failed, or whose fork point is unknown, leaves no trace.
pub proof fn law_what_is_remembered(
    cache: CacheView,
    base: Seq<char>,
    probed: Seq<ProbedView>,
    walks: Seq<WalkView>,
    m: int,
)
    requires
        0 <= m < probed.len(),
    ensures
        ({
            let b = probed[m];
            let key = base + ":"@ + b.pending.fork->Ok_0->Some_0 + ":"@ + b.pending.branch.sha;
            let now = verdicts::remembered(cache, base, probed, walks);
            &&& repeat::is_judged(b, walks) ==> now.entries.dom().contains(key)
                && now.live.contains(key)
            &&& repeat::is_judged(b, walks) && (forall|i: int|
                m < i < probed.len() && repeat::is_judged(#[trigger] probed[i], walks) ==> base
                    + ":"@ + probed[i].pending.fork->Ok_0->Some_0 + ":"@
                    + probed[i].pending.branch.sha != key) ==> now.entries[key] == b.outcome->Ok_0
        }),
        (forall|i: int| 0 <= i < probed.len() ==> !repeat::is_judged(#[trigger] probed[i], walks))
            ==> verdicts::remembered(cache, base, probed, walks) == cache,
    decreases probed.len(),
{
    let rest = probed.drop_last();
    let last = probed.last();
    assert(probed[probed.len() - 1] == last);
    if m < rest.len() {
        assert(rest[m] == probed[m]);
        law_what_is_remembered(cache, base, rest, walks, m);
        let b = probed[m];
        let key = base + ":"@ + b.pending.fork->Ok_0->Some_0 + ":"@ + b.pending.branch.sha;
        if forall|i: int|
            m < i < probed.len() && repeat::is_judged(#[trigger] probed[i], walks) ==> base + ":"@
                + probed[i].pending.fork->Ok_0->Some_0 + ":"@ + probed[i].pending.branch.sha
                != key {
            assert forall|i: int|
                m < i < rest.len() && repeat::is_judged(#[trigger] rest[i], walks) implies base
                + ":"@ + rest[i].pending.fork->Ok_0->Some_0 + ":"@ + rest[i].pending.branch.sha
                != key by {
                assert(probed[i] == rest[i]);
            }
        }
    }
    if forall|i: int| 0 <= i < probed.len() ==> !repeat::is_judged(#[trigger] probed[i], walks) {
        lemma_nothing_judged(cache, base, probed, walks);
    }
}

proof fn lemma_nothing_judged(
    cache: CacheView,
    base: Seq<char>,
    probed: Seq<ProbedView>,
    walks: Seq<WalkView>,
)
    requires
        forall|i: int| 0 <= i < probed.len() ==> !repeat::is_judged(#[trigger] probed[i], walks),
    ensures
        verdicts::remembered(cache, base, probed, walks) == cache,
    decreases probed.len(),
{
    if probed.len() > 0 {
        let rest = probed.drop_last();
        assert(!repeat::is_judged(probed[probed.len() - 1], walks));
        assert forall|i: int| 0 <= i < rest.len() implies !repeat::is_judged(
            #[trigger] rest[i],
            walks,
        ) by {
            assert(rest[i] == probed[i]);
        }
        lemma_nothing_judged(cache, base, rest, walks);
    }
}

/// What a warning about a branch says: its name, that the probe failed, and
/// why, in git's own words.
pub open spec fn tells_of(w: Seq<char>, name: Seq<char>, e: ErrorView) -> bool {
    w == name + ": merge probe failed: "@ + e.message + match e.cause {
        Some(cause) => ": "@ + cause,
        None => Seq::empty(),
    }
}

proof fn lemma_tells_of(name: Seq<char>, e: ErrorView)
    ensures
        tells_of(verdicts::probe_warning(name, e), name, e),
{
    match e.cause {
        Some(cause) => {
            assert(verdicts::probe_warning(name, e) =~= name + ": merge probe failed: "@ + e.message
                + (": "@ + cause));
        },
        None => {
            assert(verdicts::probe_warning(name, e) =~= name + ": merge probe failed: "@ + e.message
                + Seq::<char>::empty());
        },
    }
}

/// Nothing that could not be judged is passed over in silence: a shallow clone
/// is warned of first, every branch of a fork point whose walk failed is named
/// with that failure, and every branch whose probe failed is named with its
/// own.
pub proof fn law_every_failure_is_warned_of(
    s: SurveyView,
    known: Verdicts,
    to_walk: Seq<PendingView>,
    walks: Seq<WalkView>,
    probed: Seq<ProbedView>,
)
    ensures
        ({
            let told = verdicts::concluded(s, known, to_walk, walks, probed).warnings;
            &&& s.shallow ==> told.len() > 0 && told[0]
                == "shallow repository: squash/rebase detection is disabled"@
            &&& forall|k: int, m: int|
                0 <= k < walks.len() && 0 <= m < to_walk.len() && (#[trigger] walks[k]).ids is Err
                    && (#[trigger] to_walk[m]).fork == Ok::<_, ErrorView>(Some(walks[k].fork))
                    ==> exists|w: Seq<char>|
                    told.contains(w) && tells_of(w, to_walk[m].branch.name, walks[k].ids->Err_0)
            &&& forall|m: int|
                0 <= m < probed.len() && (#[trigger] probed[m]).outcome is Err ==> exists|
                    w: Seq<char>,
                |
                    told.contains(w) && tells_of(
                        w,
                        probed[m].pending.branch.name,
                        probed[m].outcome->Err_0,
                    )
        }),
{
    let told = verdicts::concluded(s, known, to_walk, walks, probed).warnings;
    let depth = verdicts::depth_warnings(s.shallow);
    let of_walks = verdicts::walk_warnings(walks, to_walk);
    let of_probes = verdicts::probe_warnings(probed);
    assert(told == depth + of_walks + of_probes);
    assert forall|k: int, m: int|
        0 <= k < walks.len() && 0 <= m < to_walk.len() && (#[trigger] walks[k]).ids is Err && (
        #[trigger] to_walk[m]).fork == Ok::<_, ErrorView>(Some(walks[k].fork)) implies exists|
        w: Seq<char>,
    |
        told.contains(w) && tells_of(w, to_walk[m].branch.name, walks[k].ids->Err_0) by {
        let e = walks[k].ids->Err_0;
        let w = verdicts::probe_warning(to_walk[m].branch.name, e);
        lemma_cost_names_all(to_walk, walks[k].fork, e, m);
        lemma_walks_warn(walks, to_walk, k, w);
        lemma_tells_of(to_walk[m].branch.name, e);
        let i = choose|i: int| 0 <= i < of_walks.len() && of_walks[i] == w;
        assert(told[depth.len() + i] == w);
        assert(told.contains(w));
    }
    assert forall|m: int| 0 <= m < probed.len() && (#[trigger] probed[m]).outcome is Err implies
        exists|w: Seq<char>|
        told.contains(w) && tells_of(w, probed[m].pending.branch.name, probed[m].outcome->Err_0) by {
        let e = probed[m].outcome->Err_0;
        let name = probed[m].pending.branch.name;
        let w = verdicts::probe_warning(name, e);
        lemma_probes_warn(probed, m);
        lemma_tells_of(name, e);
        let i = choose|i: int| 0 <= i < of_probes.len() && of_probes[i] == w;
        assert(told[depth.len() + of_walks.len() + i] == w);
        assert(told.contains(w));
    }
}

proof fn lemma_cost_names_all(to_walk: Seq<PendingView>, fork: Seq<char>, e: ErrorView, m: int)
    requires
        0 <= m < to_walk.len(),
        to_walk[m].fork == Ok::<_, ErrorView>(Some(fork)),
    ensures
        verdicts::cost_of_walk(to_walk, fork, e).contains(
            verdicts::probe_warning(to_walk[m].branch.name, e),
        ),
    decreases to_walk.len(),
{
    let all = verdicts::cost_of_walk(to_walk, fork, e);
    let rest = to_walk.drop_last();
    let earlier = verdicts::cost_of_walk(rest, fork, e);
    let w = verdicts::probe_warning(to_walk[m].branch.name, e);
    if m < rest.len() {
        assert(rest[m] == to_walk[m]);
        lemma_cost_names_all(rest, fork, e, m);
        let i = choose|i: int| 0 <= i < earlier.len() && earlier[i] == w;
        assert(all[i] == w);
    } else {
        assert(all[all.len() - 1] == w);
    }
}

proof fn lemma_walks_warn(
    walks: Seq<WalkView>,
    to_walk: Seq<PendingView>,
    k: int,
    w: Seq<char>,
)
    requires
        0 <= k < walks.len(),
        walks[k].ids is Err,
        verdicts::cost_of_walk(to_walk, walks[k].fork, walks[k].ids->Err_0).contains(w),
    ensures
        verdicts::walk_warnings(walks, to_walk).contains(w),
    decreases walks.len(),
{
    let all = verdicts::walk_warnings(walks, to_walk);
    let rest = walks.drop_last();
    let earlier = verdicts::walk_warnings(rest, to_walk);
    if k < rest.len() {
        assert(rest[k] == walks[k]);
        lemma_walks_warn(rest, to_walk, k, w);
        let i = choose|i: int| 0 <= i < earlier.len() && earlier[i] == w;
        assert(all[i] == w);
    } else {
        let cost = verdicts::cost_of_walk(to_walk, walks[k].fork, walks[k].ids->Err_0);
        let i = choose|i: int| 0 <= i < cost.len() && cost[i] == w;
        assert(all[earlier.len() + i] == w);
    }
}

proof fn lemma_probes_warn(probed: Seq<ProbedView>, m: int)
    requires
        0 <= m < probed.len(),
        probed[m].outcome is Err,
    ensures
        verdicts::probe_warnings(probed).contains(
            verdicts::probe_warning(probed[m].pending.branch.name, probed[m].outcome->Err_0),
        ),
    decreases probed.len(),
{
    let all = verdicts::probe_warnings(probed);
    let rest = probed.drop_last();
    let earlier = verdicts::probe_warnings(rest);
    let w = verdicts::probe_warning(probed[m].pending.branch.name, probed[m].outcome->Err_0);
    if m < rest.len() {
        assert(rest[m] == probed[m]);
        lemma_probes_warn(rest, m);
        let i = choose|i: int| 0 <= i < earlier.len() && earlier[i] == w;
        assert(all[i] == w);
    } else {
        assert(all[all.len() - 1] == w);
    }
}

/// Where nothing failed there is nothing to warn of.
pub proof fn law_no_failure_no_warning(
    s: SurveyView,
    known: Verdicts,
    to_walk: Seq<PendingView>,
    walks: Seq<WalkView>,
    probed: Seq<ProbedView>,
)
    requires
        !s.shallow,
        forall|k: int| 0 <= k < walks.len() ==> (#[trigger] walks[k]).ids is Ok,
        forall|m: int| 0 <= m < probed.len() ==> (#[trigger] probed[m]).outcome is Ok,
    ensures
        verdicts::concluded(s, known, to_walk, walks, probed).warnings.len() == 0,
{
    lemma_quiet_walks(walks, to_walk);
    lemma_quiet_probes(probed);
}

proof fn lemma_quiet_walks(walks: Seq<WalkView>, to_walk: Seq<PendingView>)
    requires
        forall|k: int| 0 <= k < walks.len() ==> (#[trigger] walks[k]).ids is Ok,
    ensures
        verdicts::walk_warnings(walks, to_walk).len() == 0,
    decreases walks.len(),
{
    if walks.len() > 0 {
        assert(walks[walks.len() - 1].ids is Ok);
        let rest = walks.drop_last();
        assert forall|k: int| 0 <= k < rest.len() implies (#[trigger] rest[k]).ids is Ok by {
            assert(rest[k] == walks[k]);
        }
        lemma_quiet_walks(rest, to_walk);
    }
}

proof fn lemma_quiet_probes(probed: Seq<ProbedView>)
    requires
        forall|m: int| 0 <= m < probed.len() ==> (#[trigger] probed[m]).outcome is Ok,
    ensures
        verdicts::probe_warnings(probed).len() == 0,
    decreases probed.len(),
{
    if probed.len() > 0 {
        assert(probed[probed.len() - 1].outcome is Ok);
        let rest = probed.drop_last();
        assert forall|k: int| 0 <= k < rest.len() implies (#[trigger] rest[k]).outcome is Ok by {
            assert(rest[k] == probed[k]);
        }
        lemma_quiet_probes(rest);
    }
}

/// The order of the listing: local branches before those that only a remote
/// has, then merged, squash, rebase, gone, and then by name.
pub proof fn law_what_comes_first(a: CandidateView, b: CandidateView)
    ensures
        a.scope == CandidateScope::Local && b.scope == CandidateScope::RemoteOnly
            ==> order::precedes(a, b) && !order::precedes(b, a),
        a.scope == b.scope && a.kind == MergeKind::Merged && b.kind != MergeKind::Merged
            ==> order::precedes(a, b) && !order::precedes(b, a),
        a.scope == b.scope && a.kind == MergeKind::Squash && (b.kind == MergeKind::Rebase || b.kind
            == MergeKind::Gone) ==> order::precedes(a, b) && !order::precedes(b, a),
        a.scope == b.scope && a.kind == MergeKind::Rebase && b.kind == MergeKind::Gone
            ==> order::precedes(a, b) && !order::precedes(b, a),
        a.scope == b.scope && a.kind == b.kind ==> (order::precedes(a, b) <==> text::before(
            a.name,
            b.name,
        )),
{
}

/// The counter counts every examined branch, from the first to the last.
pub proof fn law_every_branch_is_counted(n: nat, i: int)
    requires
        n <= usize::MAX,
        0 <= i < n,
    ensures
        scan::ticks(0, n, n).len() == n,
        scan::ticks(0, n, n)[i] == Event::Tick((i + 1) as usize, n as usize),
{
}

/// Branches are probed in the order in which they were examined, none twice.
pub proof fn law_probing_keeps_the_order(
    branches: Seq<RawBranchView>,
    merged: Set<Seq<char>>,
    b: RawBranchView,
)
    ensures
        verdicts::unmerged(branches.push(b), merged) == if merged.contains(b.refname) {
            verdicts::unmerged(branches, merged)
        } else {
            verdicts::unmerged(branches, merged).push(b)
        },
        verdicts::unmerged(Seq::empty(), merged).len() == 0,
{
    assert(branches.push(b).drop_last() =~= branches);
}

/// The cache is asked branch by branch: one that it does not know is to be
/// walked, behind those before it, and changes nothing else; one that it knows
/// is not, and changes what is known to what was stored.
pub proof fn law_the_cache_is_asked_in_order(
    pending: Seq<PendingView>,
    base: Seq<char>,
    cache: CacheView,
    b: PendingView,
)
    ensures
        ({
            let before = verdicts::consulted(pending, base, cache);
            let after = verdicts::consulted(pending.push(b), base, cache);
            let key = base + ":"@ + b.fork->Ok_0->Some_0 + ":"@ + b.branch.sha;
            &&& !is_cached(b, base, cache) ==> after.to_walk == before.to_walk.push(b)
                && after.known == before.known && after.cache == before.cache
            &&& is_cached(b, base, cache) ==> after.to_walk == before.to_walk
                && after.cache.live == before.cache.live.insert(key)
            &&& is_cached(b, base, cache) && cache.entries[key] is None ==> after.known
                == before.known
            &&& is_cached(b, base, cache) && cache.entries[key] is Some ==> after.known
                == before.known.insert(b.branch.refname, cache.entries[key]->Some_0)
        }),
        ({
            let none = verdicts::consulted(Seq::empty(), base, cache);
            &&& none.to_walk.len() == 0
            &&& none.known.dom() =~= Set::<Seq<char>>::empty()
            &&& none.cache == cache
        }),
{
    assert(pending.push(b).drop_last() =~= pending);
    laws::lemma_lookups_keep_entries(pending, base, cache);
}

/// The probes are remembered one by one: a judged one under its three shas,
/// and another not at all; no probe changes what stands under another key.
pub proof fn law_probes_are_remembered_in_order(
    cache: CacheView,
    base: Seq<char>,
    probed: Seq<ProbedView>,
    walks: Seq<WalkView>,
    b: ProbedView,
    other: Seq<char>,
)
    ensures
        ({
            let before = verdicts::remembered(cache, base, probed, walks);
            let after = verdicts::remembered(cache, base, probed.push(b), walks);
            let fork = b.pending.fork->Ok_0->Some_0;
            let key = base + ":"@ + fork + ":"@ + b.pending.branch.sha;
            let judged = b.outcome is Ok && b.pending.fork is Ok && b.pending.fork->Ok_0 is Some
                && exists|k: int|
                0 <= k < walks.len() && (#[trigger] walks[k]).fork == fork && walks[k].ids is Ok;
            &&& !judged ==> after == before
            &&& judged ==> after.entries.contains_pair(key, b.outcome->Ok_0) && after.live.contains(
                key,
            )
            &&& judged && other != key ==> (after.entries.dom().contains(other)
                <==> before.entries.dom().contains(other)) && after.entries[other]
                == before.entries[other] && (after.live.contains(other) <==> before.live.contains(
                other,
            ))
        }),
{
    assert(probed.push(b).drop_last() =~= probed);
    if b.pending.fork is Ok && b.pending.fork->Ok_0 is Some {
        lemma_walked(walks, b.pending.fork->Ok_0->Some_0);
    }
}

proof fn lemma_walked(walks: Seq<WalkView>, fork: Seq<char>)
    ensures
        verdicts::ids_since(walks, fork) is Some <==> exists|k: int|
            0 <= k < walks.len() && (#[trigger] walks[k]).fork == fork && walks[k].ids is Ok,
    decreases walks.len(),
{
    if walks.len() > 0 {
        let rest = walks.drop_last();
        lemma_walked(rest, fork);
        assert(walks[walks.len() - 1] == walks.last());
        if exists|k: int|
            0 <= k < rest.len() && (#[trigger] rest[k]).fork == fork && rest[k].ids is Ok {
            let k = choose|k: int|
                0 <= k < rest.len() && (#[trigger] rest[k]).fork == fork && rest[k].ids is Ok;
            assert(walks[k] == rest[k]);
        }
        if exists|k: int|
            0 <= k < walks.len() && (#[trigger] walks[k]).fork == fork && walks[k].ids is Ok {
            let k = choose|k: int|
                0 <= k < walks.len() && (#[trigger] walks[k]).fork == fork && walks[k].ids is Ok;
            if k < rest.len() {
                assert(rest[k] == walks[k]);
            }
        }
    }
}

/// Each failure is warned of once, in order: the branches of a failed walk as
/// they were to be probed, and a failed probe where its turn was. What did not
/// fail adds nothing.
pub proof fn law_each_failure_is_warned_of_once(
    to_walk: Seq<PendingView>,
    b: PendingView,
    walks: Seq<WalkView>,
    w: WalkView,
    probed: Seq<ProbedView>,
    x: ProbedView,
    fork: Seq<char>,
    e: ErrorView,
)
    ensures
        ({
            let before = verdicts::cost_of_walk(to_walk, fork, e);
            let after = verdicts::cost_of_walk(to_walk.push(b), fork, e);
            &&& b.fork != Ok::<_, ErrorView>(Some(fork)) ==> after == before
            &&& b.fork == Ok::<_, ErrorView>(Some(fork)) ==> after.len() == before.len() + 1
                && after.drop_last() == before && tells_of(after.last(), b.branch.name, e)
        }),
        ({
            let before = verdicts::walk_warnings(walks, to_walk);
            let after = verdicts::walk_warnings(walks.push(w), to_walk);
            &&& w.ids is Ok ==> after == before
            &&& w.ids is Err ==> after == before + verdicts::cost_of_walk(
                to_walk,
                w.fork,
                w.ids->Err_0,
            )
        }),
        ({
            let before = verdicts::probe_warnings(probed);
            let after = verdicts::probe_warnings(probed.push(x));
            &&& x.outcome is Ok ==> after == before
            &&& x.outcome is Err ==> after.len() == before.len() + 1 && after.drop_last() == before
                && tells_of(after.last(), x.pending.branch.name, x.outcome->Err_0)
        }),
        verdicts::cost_of_walk(Seq::empty(), fork, e).len() == 0,
        verdicts::walk_warnings(Seq::empty(), to_walk).len() == 0,
        verdicts::probe_warnings(Seq::empty()).len() == 0,
{
    assert(to_walk.push(b).drop_last() =~= to_walk);
    assert(walks.push(w).drop_last() =~= walks);
    assert(probed.push(x).drop_last() =~= probed);
    lemma_tells_of(b.branch.name, e);
    assert(verdicts::cost_of_walk(to_walk, fork, e).push(
        verdicts::probe_warning(b.branch.name, e),
    ).drop_last() =~= verdicts::cost_of_walk(to_walk, fork, e));
    if let Err(err) = x.outcome {
        lemma_tells_of(x.pending.branch.name, err);
        assert(verdicts::probe_warnings(probed).push(
            verdicts::probe_warning(x.pending.branch.name, err),
        ).drop_last() =~= verdicts::probe_warnings(probed));
    }
}

/// The warnings of a scan stand in one order: that of a shallow clone, those
/// of the walks, and those of the probes. What is reported of it otherwise are
/// the base of the survey and the candidates, no one before another that
/// comes first.
pub proof fn law_what_a_scan_reports(
    s: SurveyView,
    known: Verdicts,
    to_walk: Seq<PendingView>,
    walks: Seq<WalkView>,
    probed: Seq<ProbedView>,
    i: int,
    j: int,
)
    ensures
        ({
            let r = verdicts::concluded(s, known, to_walk, walks, probed);
            let behind = verdicts::walk_warnings(walks, to_walk) + verdicts::probe_warnings(probed);
            &&& r.base == s.base
            &&& s.shallow ==> r.warnings == seq![
                "shallow repository: squash/rebase detection is disabled"@,
            ] + behind
            &&& !s.shallow ==> r.warnings == behind
            &&& 0 <= i < j < r.candidates.len() ==> !order::precedes(
                r.candidates[j],
                r.candidates[i],
            )
            &&& r.candidates.to_multiset() == verdicts::candidates_of(
                s.examinable,
                s.merged,
                verdicts::all_verdicts(known, probed),
            ).to_multiset()
        }),
{
    let plain = verdicts::candidates_of(
        s.examinable,
        s.merged,
        verdicts::all_verdicts(known, probed),
    );
    order::law_listing_is_sorted(plain);
    let r = verdicts::concluded(s, known, to_walk, walks, probed);
    let behind = verdicts::walk_warnings(walks, to_walk) + verdicts::probe_warnings(probed);
    if s.shallow {
        assert(r.warnings =~= seq!["shallow repository: squash/rebase detection is disabled"@]
            + behind);
    } else {
        assert(r.warnings =~= behind);
    }
}

/// What `conclude` hands back: every examined branch that is no ancestor of
/// the base and was judged by its last probe is a candidate of the kind that
/// the probe found, whether or not its upstream is gone.
pub proof fn law_a_judged_branch_is_listed(
    s: &Survey,
    c: Consulted,
    walks: &Vec<Walk>,
    probed: &Vec<Probed>,
    cache: &mut Cache,
    r: Scan,
    j: int,
    m: int,
)
    requires
        call_ensures(verdicts::conclude, (s, c, walks, probed, cache), r),
        0 <= j < s@.examinable.len(),
        !s@.merged.contains(s@.examinable[j].refname),
        0 <= m < probed.deep_view().len(),
        probed.deep_view()[m].pending.branch.refname == s@.examinable[j].refname,
        probed.deep_view()[m].outcome is Ok,
        probed.deep_view()[m].outcome->Ok_0 is Some,
        forall|i: int|
            m < i < probed.deep_view().len() ==> (
            #[trigger] probed.deep_view()[i]).pending.branch.refname != s@.examinable[j].refname,
    ensures
        exists|x: CandidateView|
            r@.candidates.contains(x) && is_candidate(
                x,
                s@.examinable[j],
                probed.deep_view()[m].outcome->Ok_0->Some_0,
            ),
{
    law_the_best_reason_counts(
        s@,
        c.known@,
        c.to_walk.deep_view(),
        walks.deep_view(),
        probed.deep_view(),
        j,
    );
    law_probes_have_the_last_word(c.known@, probed.deep_view(), s@.examinable[j].refname);
}

/// What a candidate, a base and a scan say is what they hold.
pub proof fn law_candidates_are_seen_as_they_are(c: Candidate, s: Scan)
    ensures
        c@.name == c.name@ && c@.refname == c.refname@ && c@.sha == c.sha@,
        c@.kind == c.kind && c@.scope == c.scope,
        c@.upstream == c.upstream.deep_view() && c@.remote_name == c.remote_name.deep_view(),
        c@.upstream_ref == c.upstream_ref.deep_view() && c@.upstream_gone == c.upstream_gone,
        c@.last_commit_unix == c.last_commit_unix && c@.subject == c.subject@,
        s@.base.name == s.base.name@ && s@.base.sha == s.base.sha@ && s@.base.refname
            == s.base.refname.deep_view(),
        s@.warnings == s.warnings.deep_view(),
        s@.candidates.len() == s.candidates@.len(),
        forall|i: int|
            0 <= i < s.candidates@.len() ==> s@.candidates[i] == (#[trigger] s.candidates@[i])@,
{
}

} // verus!
