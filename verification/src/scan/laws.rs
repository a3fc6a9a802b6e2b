//! What holds of every scan, whatever git replies.

use vstd::prelude::*;

use crate::cache::{self, CacheView};
use crate::git::{self, ErrorView, Exchange};
use crate::scan::base;
use crate::scan::order;
use crate::scan::probe;
use crate::scan::protect;
use crate::scan::refs::{self, RawBranchView};
use crate::scan::survey::{self, GroundView, SurveyView};
use crate::scan::verdicts::{self, PendingView, ProbedView, Verdicts, WalkView};
use crate::scan::{self, CandidateScope, CandidateView, MergeKind, OptionsView, ScanOutcome};
use crate::text;

verus! {

/// Every branch that a local listing leaves over is local and not excluded.
proof fn lemma_local_branches(
    lines: Seq<Seq<char>>,
    g: GroundView,
    twin: Option<Seq<char>>,
    k: int,
)
    requires
        0 <= k < survey::local_branches(lines, g, twin).len(),
    ensures
        survey::local_branches(lines, g, twin)[k].scope == CandidateScope::Local,
        !survey::local_excluded(g, twin, survey::local_branches(lines, g, twin)[k]),
    decreases lines.len(),
{
    if lines.len() > 0 {
        let earlier = survey::local_branches(lines.drop_last(), g, twin);
        if k < earlier.len() {
            lemma_local_branches(lines.drop_last(), g, twin, k);
        }
    }
}

/// Every branch that a remote listing leaves over is remote and not excluded.
proof fn lemma_remote_branches(
    lines: Seq<Seq<char>>,
    g: GroundView,
    local: Set<Seq<char>>,
    k: int,
)
    requires
        0 <= k < survey::remote_branches(lines, g, local).len(),
    ensures
        survey::remote_branches(lines, g, local)[k].scope == CandidateScope::RemoteOnly,
        !survey::remote_excluded(g, local, survey::remote_branches(lines, g, local)[k]),
        !survey::remote_branches(lines, g, local)[k].upstream_gone,
    decreases lines.len(),
{
    if lines.len() > 0 {
        let earlier = survey::remote_branches(lines.drop_last(), g, local);
        if k < earlier.len() {
            lemma_remote_branches(lines.drop_last(), g, local, k);
        }
    }
}

/// A candidate is one of the branches, with the kind that the branch has.
pub(crate) proof fn lemma_candidate_is_a_branch(
    branches: Seq<RawBranchView>,
    merged: Set<Seq<char>>,
    known: Verdicts,
    c: CandidateView,
) -> (j: int)
    requires
        verdicts::candidates_of(branches, merged, known).contains(c),
    ensures
        0 <= j < branches.len(),
        verdicts::classify(branches[j], merged, known) == Some(c.kind),
        branches[j].candidate(c.kind) == c,
    decreases branches.len(),
{
    let all = verdicts::candidates_of(branches, merged, known);
    let k = choose|k: int| 0 <= k < all.len() && all[k] == c;
    let earlier = verdicts::candidates_of(branches.drop_last(), merged, known);
    if k < earlier.len() {
        assert(earlier[k] == c);
        assert(earlier.contains(c));
        let j = lemma_candidate_is_a_branch(branches.drop_last(), merged, known, c);
        assert(branches.drop_last()[j] == branches[j]);
        j
    } else {
        branches.len() - 1
    }
}

/// What is listed was there before it was put in order.
pub(crate) proof fn lemma_listed(s: Seq<CandidateView>, c: CandidateView)
    requires
        order::listed_order(s).contains(c),
    ensures
        s.contains(c),
{
    broadcast use vstd::seq_lib::group_to_multiset_ensures;

    order::law_listing_is_sorted(s);
    assert(order::listed_order(s).to_multiset().contains(c));
    assert(s.to_multiset().contains(c));
}

/// Why a branch is a candidate: it is an ancestor of the base, or a probe (of
/// this run or an earlier one) gave it its kind, or its upstream is gone.
pub proof fn law_every_kind_is_justified(
    s: SurveyView,
    known: Verdicts,
    to_walk: Seq<PendingView>,
    walks: Seq<WalkView>,
    probed: Seq<ProbedView>,
    c: CandidateView,
)
    requires
        verdicts::concluded(s, known, to_walk, walks, probed).candidates.contains(c),
    ensures
        exists|j: int|
            0 <= j < s.examinable.len() && (#[trigger] s.examinable[j]).candidate(c.kind) == c,
        c.kind == MergeKind::Merged ==> s.merged.contains(c.refname)
            || verdicts::all_verdicts(known, probed).contains_pair(c.refname, c.kind),
        c.kind == MergeKind::Squash || c.kind == MergeKind::Rebase ==> !s.merged.contains(
            c.refname,
        ) && verdicts::all_verdicts(known, probed).contains_pair(c.refname, c.kind),
        c.kind == MergeKind::Gone ==> !s.merged.contains(c.refname) && (c.upstream_gone
            || verdicts::all_verdicts(known, probed).contains_pair(c.refname, c.kind)),
{
    let all = verdicts::all_verdicts(known, probed);
    lemma_listed(verdicts::candidates_of(s.examinable, s.merged, all), c);
    let j = lemma_candidate_is_a_branch(s.examinable, s.merged, all, c);
    assert(s.examinable[j].candidate(c.kind) == c);
}

/// On a shallow clone nothing is asked beyond the survey, and no branch is
/// taken for squashed or rebased.
pub proof fn law_shallow_disables_probing(
    h: Seq<Exchange>,
    p: int,
    s: SurveyView,
    cache: CacheView,
    outcome: ScanOutcome,
    c: CandidateView,
)
    requires
        s.shallow,
        scan::read_verdicts(h, p, s, cache).value == Ok::<_, ErrorView>(outcome),
        outcome.found.candidates.contains(c),
    ensures
        scan::read_verdicts(h, p, s, cache).end == p,
        outcome.cache == cache,
        c.kind == MergeKind::Merged || c.kind == MergeKind::Gone,
        outcome.found.warnings == seq!["shallow repository: squash/rebase detection is disabled"@],
{
    reveal(scan::read_verdicts);
    let forks = verdicts::with_forks(h, p, s.base.sha, verdicts::to_probe(s));
    assert(forks =~= Seq::<PendingView>::empty());
    let none = Seq::<PendingView>::empty();
    assert(verdicts::distinct_forks_of(none) =~= Seq::<Seq<char>>::empty());
    law_every_kind_is_justified(
        s,
        Map::empty(),
        none,
        Seq::<WalkView>::empty(),
        Seq::<ProbedView>::empty(),
        c,
    );
    assert(verdicts::depth_warnings(true) + Seq::<Seq<char>>::empty() + Seq::<Seq<char>>::empty()
        =~= verdicts::depth_warnings(true));
}

/// One branch that cannot be judged never aborts a scan: past the survey
/// there is always a result.
pub proof fn law_no_branch_aborts_a_scan(
    h: Seq<Exchange>,
    p: int,
    s: SurveyView,
    cache: CacheView,
)
    ensures
        scan::read_verdicts(h, p, s, cache).value is Ok,
{
    reveal(scan::read_verdicts);
}

/// The current branch, the base, its local twin, branches checked out in any
/// worktree and protected names are never candidates; neither is a remote's
/// `HEAD`.
pub proof fn law_untouchable_branches_are_no_candidates(
    h: Seq<Exchange>,
    p: int,
    opts: OptionsView,
    cache: CacheView,
    g: GroundView,
    outcome: ScanOutcome,
    c: CandidateView,
)
    requires
        survey::read_ground(h, p, opts).value == Ok::<_, ErrorView>(g),
        scan::read_scan(h, p, opts, cache).value == Ok::<_, ErrorView>(outcome),
        outcome.found.candidates.contains(c),
    ensures
        outcome.found.base == g.base,
        g.base.refname != Some(c.refname),
        !protect::protected(g.protected, c.name),
        c.scope == CandidateScope::Local ==> {
            &&& !g.held.contains(c.refname)
            &&& g.current != Some(c.name)
            &&& base::read_counterpart(
                h,
                survey::read_ground(h, p, opts).end + 1,
                g.base,
            ).value != Ok::<_, ErrorView>(Some(c.refname))
        },
        c.scope == CandidateScope::RemoteOnly ==> {
            &&& opts.include_remote_only
            &&& refs::on_remote(c.name) != "HEAD"@
            &&& !protect::protected(g.protected, refs::on_remote(c.name))
            &&& !c.upstream_gone
        },
{
    reveal(survey::read_survey);
    reveal(scan::read_verdicts);
    let known = survey::read_survey(h, p, opts);
    let s = known.value->Ok_0;
    let branches = verdicts::to_probe(s);
    let asked = verdicts::consulted(
        verdicts::with_forks(h, known.end, s.base.sha, branches),
        s.base.sha,
        cache,
    );
    let walks = verdicts::read_walks(
        h,
        known.end + branches.len(),
        s.base.sha,
        verdicts::distinct_forks_of(asked.to_walk),
    );
    let probes = verdicts::read_probes(h, walks.end, asked.to_walk, walks.items);
    law_every_kind_is_justified(s, asked.known, asked.to_walk, walks.items, probes.items, c);
    let j = choose|j: int|
        0 <= j < s.examinable.len() && (#[trigger] s.examinable[j]).candidate(c.kind) == c;
    let b = s.examinable[j];
    let end = survey::read_ground(h, p, opts).end;
    let locals = survey::read_locals(h, end, g, opts.include_remote_only);
    let twin = base::read_counterpart(h, end + 1, g.base).value->Ok_0;
    let listing = git::read_output(
        h,
        base::read_counterpart(h, end + 1, g.base).end,
        survey::heads_args(),
    );
    let raw = text::lines(listing.value->Ok_0);
    let mine = survey::local_branches(raw, g, twin);
    if j < mine.len() {
        lemma_local_branches(raw, g, twin, j);
        assert(b == mine[j]);
    } else {
        let names = git::read_output(h, locals.end, survey::names_args());
        let far = git::read_output(h, names.end, survey::remotes_args());
        let lines = text::lines(far.value->Ok_0);
        let local = text::lines(names.value->Ok_0).to_set();
        let theirs = survey::remote_branches(lines, g, local);
        assert(b == theirs[j - mine.len()]);
        lemma_remote_branches(lines, g, local, j - mine.len());
    }
}

/// The candidates of a scan are sorted by scope, kind and name.
pub proof fn law_candidates_are_sorted(
    h: Seq<Exchange>,
    p: int,
    opts: OptionsView,
    cache: CacheView,
    outcome: ScanOutcome,
)
    requires
        scan::read_scan(h, p, opts, cache).value == Ok::<_, ErrorView>(outcome),
    ensures
        order::is_listed(outcome.found.candidates),
{
    reveal(survey::read_survey);
    reveal(scan::read_verdicts);
    let known = survey::read_survey(h, p, opts);
    let s = known.value->Ok_0;
    let branches = verdicts::to_probe(s);
    let asked = verdicts::consulted(
        verdicts::with_forks(h, known.end, s.base.sha, branches),
        s.base.sha,
        cache,
    );
    let walks = verdicts::read_walks(
        h,
        known.end + branches.len(),
        s.base.sha,
        verdicts::distinct_forks_of(asked.to_walk),
    );
    let probes = verdicts::read_probes(h, walks.end, asked.to_walk, walks.items);
    order::law_listing_is_sorted(
        verdicts::candidates_of(
            s.examinable,
            s.merged,
            verdicts::all_verdicts(asked.known, probes.items),
        ),
    );
}

/// The cache holds this verdict for exactly this base, and this branch's fork
/// point and tip.
pub open spec fn stored_for(
    b: PendingView,
    base: Seq<char>,
    cache: CacheView,
    verdict: MergeKind,
) -> bool {
    match b.fork {
        Ok(Some(fork)) => cache.lookup(cache::key_of(base, fork, b.branch.sha)) == Some(
            Some(verdict),
        ),
        _ => false,
    }
}

/// A verdict taken from the cache was stored for exactly this base, this fork
/// point and this branch tip.
pub proof fn law_cache_never_widens(
    pending: Seq<PendingView>,
    base: Seq<char>,
    cache: CacheView,
    refname: Seq<char>,
)
    requires
        verdicts::consulted(pending, base, cache).known.dom().contains(refname),
    ensures
        exists|i: int|
            0 <= i < pending.len() && (#[trigger] pending[i]).branch.refname == refname
                && stored_for(
                pending[i],
                base,
                cache,
                verdicts::consulted(pending, base, cache).known[refname],
            ),
    decreases pending.len(),
{
    if pending.len() > 0 {
        let rest = pending.drop_last();
        let earlier = verdicts::consulted(rest, base, cache);
        let now = verdicts::consulted(pending, base, cache);
        let last = pending.len() - 1;
        lemma_lookups_keep_entries(rest, base, cache);
        if earlier.known.dom().contains(refname) && now.known[refname] == earlier.known[refname] {
            law_cache_never_widens(rest, base, cache, refname);
            let i = choose|i: int|
                0 <= i < rest.len() && (#[trigger] rest[i]).branch.refname == refname
                    && stored_for(rest[i], base, cache, earlier.known[refname]);
            assert(pending[i] == rest[i]);
        } else {
            assert(pending[last].branch.refname == refname);
            assert(stored_for(pending[last], base, cache, now.known[refname]));
        }
    }
}

/// Looking things up changes no verdict.
pub(crate) proof fn lemma_lookups_keep_entries(pending: Seq<PendingView>, base: Seq<char>, cache: CacheView)
    ensures
        verdicts::consulted(pending, base, cache).cache.entries == cache.entries,
    decreases pending.len(),
{
    if pending.len() > 0 {
        lemma_lookups_keep_entries(pending.drop_last(), base, cache);
    }
}

/// This is what the probe of the branch found, under the key of the base and
/// the branch's fork point and tip.
pub open spec fn found_for(
    b: ProbedView,
    base: Seq<char>,
    key: Seq<char>,
    verdict: Option<Option<MergeKind>>,
) -> bool {
    match (b.pending.fork, b.outcome) {
        (Ok(Some(fork)), Ok(found)) => key == cache::key_of(base, fork, b.pending.branch.sha)
            && verdict == Some(found),
        _ => false,
    }
}

/// What a scan adds to the cache is what a probe of this run found, stored
/// under the base, fork point and branch tip that it was found for.
pub proof fn law_cache_remembers_only_probes(
    cache: CacheView,
    base: Seq<char>,
    probed: Seq<ProbedView>,
    walks: Seq<WalkView>,
    key: Seq<char>,
)
    requires
        verdicts::remembered(cache, base, probed, walks).lookup(key) != cache.lookup(key),
    ensures
        exists|i: int|
            0 <= i < probed.len() && found_for(
                #[trigger] probed[i],
                base,
                key,
                verdicts::remembered(cache, base, probed, walks).lookup(key),
            ),
    decreases probed.len(),
{
    if probed.len() > 0 {
        let rest = probed.drop_last();
        let last = probed.len() - 1;
        let earlier = verdicts::remembered(cache, base, rest, walks);
        let now = verdicts::remembered(cache, base, probed, walks);
        if now.lookup(key) == earlier.lookup(key) {
            law_cache_remembers_only_probes(cache, base, rest, walks, key);
            let i = choose|i: int|
                0 <= i < rest.len() && found_for(
                    #[trigger] rest[i],
                    base,
                    key,
                    earlier.lookup(key),
                );
            assert(probed[i] == rest[i]);
        } else {
            assert(found_for(probed[last], base, key, now.lookup(key)));
        }
    }
}

/// The command is one of those that a survey asks.
pub open spec fn surveys(x: Exchange) -> bool {
    ||| x.args == base::remote_args()
    ||| x.args == base::origin_head_args()
    ||| x.args == base::current_args()
    ||| x.args == base::worktree_args()
    ||| x.args == protect::protect_args()
    ||| x.args.len() > 1 && {
        ||| x.args[0] == "rev-parse"@
        ||| x.args[0] == "for-each-ref"@
    }
}

/// The command only reads: it lists, resolves, compares or prints.
pub open spec fn only_reads(x: Exchange) -> bool {
    ||| surveys(x)
    ||| x.args.len() > 1 && {
        ||| x.args[0] == "merge-base"@
        ||| x.args[0] == "log"@
        ||| x.args[0] == "diff-tree"@
        ||| x.args[0] == "rev-list"@
        ||| x.args[0] == "patch-id"@
    }
}

proof fn lemma_usual_base_reads(h: Seq<Exchange>, p: int, k: int, i: int)
    requires
        base::read_usual_base(h, p, k).fits,
        p <= i < base::read_usual_base(h, p, k).end,
    ensures
        surveys(h[i]),
    decreases base::usual_bases().len() - k,
{
    if 0 <= k < base::usual_bases().len() {
        let commit = base::read_commit(h, p, base::usual_bases()[k].1);
        if i >= commit.end {
            lemma_usual_base_reads(h, commit.end, k + 1, i);
        }
    }
}

proof fn lemma_base_reads(h: Seq<Exchange>, p: int, flag: Option<Seq<char>>, i: int)
    requires
        base::read_base(h, p, flag).fits,
        p <= i < base::read_base(h, p, flag).end,
    ensures
        surveys(h[i]),
{
    if flag is None && i > p {
        let head = git::read_attempt(h, p, base::origin_head_args());
        if let Ok((ok, out)) = head.value {
            let full = text::trim(out);
            if ok && text::strip_prefix(full, "refs/remotes/"@) is Some {
                if i > p + 1 {
                    lemma_usual_base_reads(h, p + 2, 0, i);
                }
            } else {
                lemma_usual_base_reads(h, p + 1, 0, i);
            }
        }
    }
}

/// A survey asks nothing else.
pub(crate) proof fn lemma_survey_reads(h: Seq<Exchange>, p: int, opts: OptionsView, i: int)
    requires
        survey::read_survey(h, p, opts).fits,
        p <= i < survey::read_survey(h, p, opts).end,
    ensures
        surveys(h[i]),
{
    reveal(survey::read_survey);
    let first = base::read_base(h, p, opts.base);
    if i < first.end {
        lemma_base_reads(h, p, opts.base, i);
    } else {
        let known = survey::read_ground(h, p, opts);
        if i < known.end {
            let b = first.value->Ok_0;
            let rest = survey::read_rest_of_ground(h, first.end, opts, b);
            assert(rest.fits);
        } else {
            let g = known.value->Ok_0;
            let locals = survey::read_locals(h, known.end, g, opts.include_remote_only);
            assert(locals.fits);
            if i >= locals.end {
                assert(survey::read_remotes(h, locals.end, g).fits);
            }
        }
    }
}

/// The command is about the shas resolved at scan start: the base tip, the
/// branch's tip, and the fork point of the two.
pub open spec fn is_pinned(x: Exchange, base: Seq<char>, b: PendingView) -> bool {
    ||| x.args == probe::merge_base_args(base, b.branch.sha)
    ||| b.fork is Ok && b.fork->Ok_0 is Some && {
        let fork = b.fork->Ok_0->Some_0;
        ||| x.args == probe::log_args(fork, base)
        ||| x.args == probe::squash_args(fork, b.branch.sha)
        ||| x.args == probe::merge_count_args(fork, b.branch.sha)
        ||| x.args == probe::log_args(fork, b.branch.sha)
        ||| x.args == probe::commit_count_args(fork, b.branch.sha)
        ||| x.args == probe::patch_id_args()
    }
}

pub(crate) proof fn lemma_walks_pinned(
    h: Seq<Exchange>,
    p: int,
    base: Seq<char>,
    forks: Seq<Seq<char>>,
    i: int,
) -> (m: int)
    requires
        verdicts::read_walks(h, p, base, forks).fits,
        p <= i < verdicts::read_walks(h, p, base, forks).end,
    ensures
        0 <= m < forks.len(),
        h[i].args == probe::log_args(forks[m], base) || h[i].args == probe::patch_id_args(),
    decreases forks.len(),
{
    let earlier = verdicts::read_walks(h, p, base, forks.drop_last());
    if i < earlier.end {
        let m = lemma_walks_pinned(h, p, base, forks.drop_last(), i);
        assert(forks.drop_last()[m] == forks[m]);
        m
    } else {
        assert(probe::read_upstream(h, earlier.end, base, forks.last()).fits);
        forks.len() - 1
    }
}

proof fn lemma_probe_pinned(
    h: Seq<Exchange>,
    p: int,
    base: Seq<char>,
    b: PendingView,
    walks: Seq<WalkView>,
    i: int,
)
    requires
        verdicts::read_pending(h, p, b, walks).fits,
        p <= i < verdicts::read_pending(h, p, b, walks).end,
    ensures
        is_pinned(h[i], base, b),
{
    let fork = b.fork->Ok_0->Some_0;
    let ids = verdicts::ids_since(walks, fork)->Some_0;
    let patch = probe::read_printed_ids(h, p, probe::squash_args(fork, b.branch.sha));
    if i >= patch.end {
        let rest = probe::read_rebase_probe(h, patch.end, b.branch.sha, fork, ids);
        assert(rest.fits);
    }
}

pub(crate) proof fn lemma_probes_pinned(
    h: Seq<Exchange>,
    p: int,
    base: Seq<char>,
    to_walk: Seq<PendingView>,
    walks: Seq<WalkView>,
    i: int,
) -> (m: int)
    requires
        verdicts::read_probes(h, p, to_walk, walks).fits,
        p <= i < verdicts::read_probes(h, p, to_walk, walks).end,
    ensures
        0 <= m < to_walk.len(),
        is_pinned(h[i], base, to_walk[m]),
    decreases to_walk.len(),
{
    let earlier = verdicts::read_probes(h, p, to_walk.drop_last(), walks);
    if i < earlier.end {
        let m = lemma_probes_pinned(h, p, base, to_walk.drop_last(), walks, i);
        assert(to_walk.drop_last()[m] == to_walk[m]);
        m
    } else {
        lemma_probe_pinned(h, earlier.end, base, to_walk.last(), walks, i);
        to_walk.len() - 1
    }
}

/// The branches that the cache does not know are among those it was asked
/// for.
proof fn lemma_to_walk_is_pending(
    pending: Seq<PendingView>,
    base: Seq<char>,
    cache: CacheView,
    m: int,
) -> (k: int)
    requires
        0 <= m < verdicts::consulted(pending, base, cache).to_walk.len(),
    ensures
        0 <= k < pending.len(),
        pending[k] == verdicts::consulted(pending, base, cache).to_walk[m],
    decreases pending.len(),
{
    let earlier = verdicts::consulted(pending.drop_last(), base, cache);
    if m < earlier.to_walk.len() {
        let k = lemma_to_walk_is_pending(pending.drop_last(), base, cache, m);
        assert(pending.drop_last()[k] == pending[k]);
        k
    } else {
        pending.len() - 1
    }
}

/// Every probe is pinned to the shas resolved at scan start: whatever is
/// asked past the survey names the base tip, a branch's tip and their fork
/// point, never a ref that could move mid-scan.
pub proof fn law_probes_are_pinned(
    h: Seq<Exchange>,
    p: int,
    s: SurveyView,
    cache: CacheView,
    i: int,
)
    requires
        scan::read_verdicts(h, p, s, cache).fits,
        p <= i < scan::read_verdicts(h, p, s, cache).end,
    ensures
        exists|k: int|
            0 <= k < verdicts::to_probe(s).len() && is_pinned(
                h[i],
                s.base.sha,
                #[trigger] verdicts::with_forks(h, p, s.base.sha, verdicts::to_probe(s))[k],
            ),
{
    reveal(scan::read_verdicts);
    let base = s.base.sha;
    let branches = verdicts::to_probe(s);
    let pending = verdicts::with_forks(h, p, base, branches);
    let c = verdicts::consulted(pending, base, cache);
    let forks = verdicts::distinct_forks_of(c.to_walk);
    let walks = verdicts::read_walks(h, p + branches.len(), base, forks);
    if i < p + branches.len() {
        let k = i - p;
        assert(git::is_ask(h, p + k, probe::merge_base_args(base, branches[k].sha)));
        assert(is_pinned(h[i], base, pending[k]));
    } else if i < walks.end {
        let m = lemma_walks_pinned(h, p + branches.len(), base, forks, i);
        verdicts::law_forks_once_each(c.to_walk);
        assert(forks.contains(forks[m]));
        let w = choose|w: int|
            0 <= w < c.to_walk.len() && (#[trigger] c.to_walk[w]).fork == Ok::<_, ErrorView>(
                Some(forks[m]),
            );
        let k = lemma_to_walk_is_pending(pending, base, cache, w);
        assert(is_pinned(h[i], base, pending[k]));
    } else {
        let w = lemma_probes_pinned(h, walks.end, base, c.to_walk, walks.items, i);
        let k = lemma_to_walk_is_pending(pending, base, cache, w);
        assert(is_pinned(h[i], base, pending[k]));
    }
}

/// Scanning is pure reads: no command of a scan writes anything, here or on a
/// remote.
pub proof fn law_scan_only_reads(
    h: Seq<Exchange>,
    p: int,
    opts: OptionsView,
    cache: CacheView,
    i: int,
)
    requires
        scan::read_scan(h, p, opts, cache).fits,
        p <= i < scan::read_scan(h, p, opts, cache).end,
    ensures
        only_reads(h[i]),
{
    let known = survey::read_survey(h, p, opts);
    if i < known.end {
        lemma_survey_reads(h, p, opts, i);
    } else {
        let s = known.value->Ok_0;
        law_probes_are_pinned(h, known.end, s, cache, i);
        let k = choose|k: int|
            0 <= k < verdicts::to_probe(s).len() && is_pinned(
                h[i],
                s.base.sha,
                #[trigger] verdicts::with_forks(
                    h,
                    known.end,
                    s.base.sha,
                    verdicts::to_probe(s),
                )[k],
            );
        let b = verdicts::with_forks(h, known.end, s.base.sha, verdicts::to_probe(s))[k];
        assert(is_pinned(h[i], s.base.sha, b));
    }
}

/// Every verdict of the cache is one that a probe can reach.
pub open spec fn is_sound(cache: CacheView) -> bool {
    forall|k: Seq<char>|
        cache.entries.dom().contains(k) ==> cache::producible(#[trigger] cache.entries[k])
}

/// Every verdict is of a merge that rewrote history.
pub open spec fn are_rewrites(known: Verdicts) -> bool {
    forall|r: Seq<char>|
        known.dom().contains(r) ==> (#[trigger] known[r] == MergeKind::Squash || known[r]
            == MergeKind::Rebase)
}

/// What a probe can find: squashed, rebased, or neither.
pub proof fn law_probes_find_rewrites_only(
    h: Seq<Exchange>,
    p: int,
    b: PendingView,
    walks: Seq<WalkView>,
)
    ensures
        verdicts::read_pending(h, p, b, walks).value matches Ok(v) ==> cache::producible(v),
{
}

/// The branch's outcome is one that a probe can reach.
spec fn is_reachable(b: ProbedView) -> bool {
    match b.outcome {
        Ok(v) => cache::producible(v),
        Err(_) => true,
    }
}

/// Probed items carry what a probe can find.
proof fn lemma_probed_items(
    h: Seq<Exchange>,
    p: int,
    to_walk: Seq<PendingView>,
    walks: Seq<WalkView>,
)
    ensures
        forall|i: int|
            0 <= i < verdicts::read_probes(h, p, to_walk, walks).items.len() ==> is_reachable(
                #[trigger] verdicts::read_probes(h, p, to_walk, walks).items[i],
            ),
    decreases to_walk.len(),
{
    if to_walk.len() > 0 {
        lemma_probed_items(h, p, to_walk.drop_last(), walks);
        let earlier = verdicts::read_probes(h, p, to_walk.drop_last(), walks);
        let all = verdicts::read_probes(h, p, to_walk, walks);
        law_probes_find_rewrites_only(h, earlier.end, to_walk.last(), walks);
        assert forall|i: int| 0 <= i < all.items.len() implies is_reachable(
            #[trigger] all.items[i],
        ) by {
            if i < earlier.items.len() {
                assert(all.items[i] == earlier.items[i]);
            }
        }
    }
}

/// A sound cache gives rewrites only, and stays sound.
proof fn lemma_consulted_rewrites(pending: Seq<PendingView>, base: Seq<char>, cache: CacheView)
    requires
        is_sound(cache),
    ensures
        are_rewrites(verdicts::consulted(pending, base, cache).known),
        is_sound(verdicts::consulted(pending, base, cache).cache),
    decreases pending.len(),
{
    if pending.len() > 0 {
        let rest = pending.drop_last();
        lemma_consulted_rewrites(rest, base, cache);
        lemma_lookups_keep_entries(rest, base, cache);
        let earlier = verdicts::consulted(rest, base, cache);
        if let Ok(Some(fork)) = pending.last().fork {
            let key = cache::key_of(base, fork, pending.last().branch.sha);
            if earlier.cache.entries.dom().contains(key) {
                assert(cache::producible(earlier.cache.entries[key]));
            }
        }
    }
}

/// What the probes add are rewrites, and keeps the cache sound.
proof fn lemma_probes_add_rewrites(
    known: Verdicts,
    cache: CacheView,
    base: Seq<char>,
    probed: Seq<ProbedView>,
    walks: Seq<WalkView>,
)
    requires
        are_rewrites(known),
        is_sound(cache),
        forall|i: int|
            0 <= i < probed.len() ==> is_reachable(#[trigger] probed[i]),
    ensures
        are_rewrites(verdicts::all_verdicts(known, probed)),
        is_sound(verdicts::remembered(cache, base, probed, walks)),
    decreases probed.len(),
{
    if probed.len() > 0 {
        let rest = probed.drop_last();
        assert forall|i: int| 0 <= i < rest.len() implies is_reachable(#[trigger] rest[i]) by {
            assert(rest[i] == probed[i]);
        }
        lemma_probes_add_rewrites(known, cache, base, rest, walks);
        assert(probed[probed.len() - 1] == probed.last());
    }
}

/// A cache that holds what probes can find still does after a scan, so that
/// everything a scan used is found again by the next one.
pub proof fn law_cache_stays_sound(
    h: Seq<Exchange>,
    p: int,
    s: SurveyView,
    cache: CacheView,
    outcome: ScanOutcome,
)
    requires
        is_sound(cache),
        scan::read_verdicts(h, p, s, cache).value == Ok::<_, ErrorView>(outcome),
    ensures
        is_sound(outcome.cache),
        forall|key: Seq<char>|
            outcome.cache.live.contains(key) ==> #[trigger] CacheView::loaded(
                cache::VERSION,
                outcome.cache.saved(),
            ).lookup(key) == outcome.cache.lookup(key),
{
    reveal(scan::read_verdicts);
    let base = s.base.sha;
    let branches = verdicts::to_probe(s);
    let pending = verdicts::with_forks(h, p, base, branches);
    let c = verdicts::consulted(pending, base, cache);
    let walks = verdicts::read_walks(
        h,
        p + branches.len(),
        base,
        verdicts::distinct_forks_of(c.to_walk),
    );
    let probes = verdicts::read_probes(h, walks.end, c.to_walk, walks.items);
    lemma_consulted_rewrites(pending, base, cache);
    lemma_probed_items(h, walks.end, c.to_walk, walks.items);
    lemma_probes_add_rewrites(c.known, c.cache, base, probes.items, walks.items);
}

/// With such a cache the kinds mean what they say: merged is an ancestor of
/// the base and nothing else is, squash and rebase come from probes, and gone
/// is a branch whose upstream is gone.
pub proof fn law_kinds_mean_what_they_say(
    h: Seq<Exchange>,
    p: int,
    s: SurveyView,
    cache: CacheView,
    outcome: ScanOutcome,
    c: CandidateView,
)
    requires
        is_sound(cache),
        scan::read_verdicts(h, p, s, cache).value == Ok::<_, ErrorView>(outcome),
        outcome.found.candidates.contains(c),
    ensures
        c.kind == MergeKind::Merged <==> s.merged.contains(c.refname),
        c.kind == MergeKind::Gone ==> c.upstream_gone,
{
    reveal(scan::read_verdicts);
    let base = s.base.sha;
    let branches = verdicts::to_probe(s);
    let pending = verdicts::with_forks(h, p, base, branches);
    let asked = verdicts::consulted(pending, base, cache);
    let walks = verdicts::read_walks(
        h,
        p + branches.len(),
        base,
        verdicts::distinct_forks_of(asked.to_walk),
    );
    let probes = verdicts::read_probes(h, walks.end, asked.to_walk, walks.items);
    lemma_consulted_rewrites(pending, base, cache);
    lemma_probed_items(h, walks.end, asked.to_walk, walks.items);
    lemma_probes_add_rewrites(asked.known, asked.cache, base, probes.items, walks.items);
    let all = verdicts::all_verdicts(asked.known, probes.items);
    lemma_listed(verdicts::candidates_of(s.examinable, s.merged, all), c);
    let j = lemma_candidate_is_a_branch(s.examinable, s.merged, all, c);
    if all.dom().contains(c.refname) {
        assert(all[c.refname] == MergeKind::Squash || all[c.refname] == MergeKind::Rebase);
    }
}

/// With such a cache a branch that only a remote has is never taken for gone:
/// it is merged, squashed or rebased.
pub proof fn law_remote_only_is_never_gone(
    h: Seq<Exchange>,
    p: int,
    opts: OptionsView,
    cache: CacheView,
    outcome: ScanOutcome,
    c: CandidateView,
)
    requires
        is_sound(cache),
        scan::read_scan(h, p, opts, cache).value == Ok::<_, ErrorView>(outcome),
        outcome.found.candidates.contains(c),
        c.scope == CandidateScope::RemoteOnly,
    ensures
        c.kind != MergeKind::Gone,
{
    let known = survey::read_survey(h, p, opts);
    let s = known.value->Ok_0;
    law_kinds_mean_what_they_say(h, known.end, s, cache, outcome, c);
    assert(survey::read_ground(h, p, opts).value is Ok) by {
        reveal(survey::read_survey);
    }
    let g = survey::read_ground(h, p, opts).value->Ok_0;
    law_untouchable_branches_are_no_candidates(h, p, opts, cache, g, outcome, c);
}

/// The more patches the base is known to have, the more a probe finds among
/// them: a branch that has a verdict keeps one.
pub proof fn law_more_patches_lose_no_verdict(
    h: Seq<Exchange>,
    p: int,
    branch: Seq<char>,
    fork: Seq<char>,
    few: Set<Seq<char>>,
    many: Set<Seq<char>>,
)
    requires
        few.subset_of(many),
        probe::read_probe(h, p, branch, fork, few).value is Ok,
        probe::read_probe(h, p, branch, fork, few).value->Ok_0 is Some,
    ensures
        probe::read_probe(h, p, branch, fork, many).value is Ok,
        probe::read_probe(h, p, branch, fork, many).value->Ok_0 is Some,
{
    let x = choose|x: Seq<char>| few.contains(x);
    assert(few.contains(x)) by {
        if forall|y: Seq<char>| !few.contains(y) {
            assert(few =~= Set::empty());
        }
    }
    assert(many.contains(x));
    assert(!many.is_empty());
}

} // verus!
