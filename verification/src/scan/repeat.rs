//! What a second scan finds of a repository that has not changed.

use vstd::prelude::*;

use crate::cache::{self, CacheView};
use crate::git::{self, Answers, ErrorView, Exchange, Reading};
use crate::list;
use crate::scan::base;
use crate::scan::course;
use crate::scan::laws;
use crate::scan::order;
use crate::scan::probe;
use crate::scan::refs::RawBranchView;
use crate::scan::survey::{self, SurveyView};
use crate::scan::verdicts::{self, PendingView, ProbedView, Verdicts, WalkView};
use crate::scan::{self, MergeKind, OptionsView, ScanOutcome};
use crate::text;

verus! {

/// The stretch from `p` on is a whole run, and its replies are those that
/// `answers` gives.
spec fn heard<T>(h: Seq<Exchange>, p: int, run: Reading<T>, answers: Answers) -> bool {
    run.fits && git::answered(h, p, run.end, answers)
}

/// Two runs, from `p` and from `q` on, have the same length and outcome.
spec fn alike<T>(p: int, run: Reading<T>, q: int, again: Reading<T>) -> bool {
    run.value == again.value && run.end - p == again.end - q
}

// ---------------------------------------------------------------------------
// The survey.

/// A run ends no earlier than it starts.
proof fn lemma_usual_base_ends(h: Seq<Exchange>, p: int, k: int)
    ensures
        p <= base::read_usual_base(h, p, k).end,
        0 <= k < base::usual_bases().len() ==> p < base::read_usual_base(h, p, k).end,
    decreases base::usual_bases().len() - k,
{
    if 0 <= k < base::usual_bases().len() {
        lemma_usual_base_ends(h, p + 1, k + 1);
    }
}

proof fn lemma_usual_base_repeats(
    h: Seq<Exchange>,
    p: int,
    g: Seq<Exchange>,
    q: int,
    k: int,
    answers: Answers,
)
    requires
        heard(h, p, base::read_usual_base(h, p, k), answers),
        heard(g, q, base::read_usual_base(g, q, k), answers),
    ensures
        alike(p, base::read_usual_base(h, p, k), q, base::read_usual_base(g, q, k)),
    decreases base::usual_bases().len() - k,
{
    if 0 <= k < base::usual_bases().len() {
        lemma_usual_base_ends(h, p, k);
        lemma_usual_base_ends(g, q, k);
        assert(h[p].reply == g[q].reply);
        if base::read_commit(h, p, base::usual_bases()[k].1).value == Ok::<_, ErrorView>(
            None::<Seq<char>>,
        ) {
            lemma_usual_base_repeats(h, p + 1, g, q + 1, k + 1, answers);
        }
    }
}

proof fn lemma_base_repeats(
    h: Seq<Exchange>,
    p: int,
    g: Seq<Exchange>,
    q: int,
    flag: Option<Seq<char>>,
    answers: Answers,
)
    requires
        heard(h, p, base::read_base(h, p, flag), answers),
        heard(g, q, base::read_base(g, q, flag), answers),
    ensures
        alike(p, base::read_base(h, p, flag), q, base::read_base(g, q, flag)),
        p < base::read_base(h, p, flag).end,
        q < base::read_base(g, q, flag).end,
{
    lemma_usual_base_ends(h, p + 1, 0);
    lemma_usual_base_ends(h, p + 2, 0);
    lemma_usual_base_ends(g, q + 1, 0);
    lemma_usual_base_ends(g, q + 2, 0);
    assert(h[p].reply == g[q].reply);
    match flag {
        Some(name) => {
            if base::read_flag_base(h, p, name).end == p + 2 {
                assert(h[p + 1].reply == g[q + 1].reply);
            }
        },
        None => {
            if let Ok((ok, out)) = h[p].reply {
                let full = text::trim(out);
                if ok && text::strip_prefix(full, "refs/remotes/"@) is Some {
                    assert(h[p + 1].reply == g[q + 1].reply);
                    if base::read_commit(h, p + 1, full).value == Ok::<_, ErrorView>(
                        None::<Seq<char>>,
                    ) {
                        lemma_usual_base_repeats(h, p + 2, g, q + 2, 0, answers);
                    }
                } else {
                    lemma_usual_base_repeats(h, p + 1, g, q + 1, 0, answers);
                }
            }
        },
    }
}

proof fn lemma_ground_repeats(
    h: Seq<Exchange>,
    p: int,
    g: Seq<Exchange>,
    q: int,
    opts: OptionsView,
    answers: Answers,
)
    requires
        heard(h, p, survey::read_ground(h, p, opts), answers),
        heard(g, q, survey::read_ground(g, q, opts), answers),
    ensures
        alike(p, survey::read_ground(h, p, opts), q, survey::read_ground(g, q, opts)),
        p < survey::read_ground(h, p, opts).end,
        q < survey::read_ground(g, q, opts).end,
{
    let one = base::read_base(h, p, opts.base);
    let other = base::read_base(g, q, opts.base);
    if one.value is Ok {
        assert(one.end <= survey::read_ground(h, p, opts).end);
    }
    if other.value is Ok {
        assert(other.end <= survey::read_ground(g, q, opts).end);
    }
    lemma_base_repeats(h, p, g, q, opts.base, answers);
    if let Ok(b) = one.value {
        let m = one.end;
        let n = other.end;
        assert(h[m].reply == g[n].reply);
        if h[m].reply is Ok {
            assert(h[m + 1].reply == g[n + 1].reply);
            if h[m + 1].reply is Ok {
                assert(h[m + 2].reply == g[n + 2].reply);
                if h[m + 2].reply is Ok {
                    assert(h[m + 3].reply == g[n + 3].reply);
                }
            }
        }
    }
}

proof fn lemma_locals_repeat(
    h: Seq<Exchange>,
    p: int,
    g: Seq<Exchange>,
    q: int,
    known: survey::GroundView,
    remotes: bool,
    answers: Answers,
)
    requires
        heard(h, p, survey::read_locals(h, p, known, remotes), answers),
        heard(g, q, survey::read_locals(g, q, known, remotes), answers),
    ensures
        alike(
            p,
            survey::read_locals(h, p, known, remotes),
            q,
            survey::read_locals(g, q, known, remotes),
        ),
        p < survey::read_locals(h, p, known, remotes).end,
        q < survey::read_locals(g, q, known, remotes).end,
{
    assert(h[p].reply == g[q].reply);
    if h[p].reply is Ok {
        assert(h[p + 1].reply == g[q + 1].reply);
        if base::read_counterpart(h, p + 1, known.base).end == p + 2 && h[p + 1].reply is Ok {
            assert(h[p + 2].reply == g[q + 2].reply);
        }
    }
}

proof fn lemma_remotes_repeat(
    h: Seq<Exchange>,
    p: int,
    g: Seq<Exchange>,
    q: int,
    known: survey::GroundView,
    answers: Answers,
)
    requires
        heard(h, p, survey::read_remotes(h, p, known), answers),
        heard(g, q, survey::read_remotes(g, q, known), answers),
    ensures
        alike(p, survey::read_remotes(h, p, known), q, survey::read_remotes(g, q, known)),
        p < survey::read_remotes(h, p, known).end,
        q < survey::read_remotes(g, q, known).end,
{
    assert(h[p].reply == g[q].reply);
    if h[p].reply is Ok {
        assert(h[p + 1].reply == g[q + 1].reply);
    }
}

proof fn lemma_survey_repeats(
    h: Seq<Exchange>,
    p: int,
    g: Seq<Exchange>,
    q: int,
    opts: OptionsView,
    answers: Answers,
)
    requires
        heard(h, p, survey::read_survey(h, p, opts), answers),
        heard(g, q, survey::read_survey(g, q, opts), answers),
    ensures
        alike(p, survey::read_survey(h, p, opts), q, survey::read_survey(g, q, opts)),
        p < survey::read_survey(h, p, opts).end,
        q < survey::read_survey(g, q, opts).end,
{
    reveal(survey::read_survey);
    let one = survey::read_ground(h, p, opts);
    let other = survey::read_ground(g, q, opts);
    assert(one.end <= survey::read_survey(h, p, opts).end);
    assert(other.end <= survey::read_survey(g, q, opts).end);
    lemma_ground_repeats(h, p, g, q, opts, answers);
    if let Ok(known) = one.value {
        let remotes = opts.include_remote_only;
        let mine = survey::read_locals(h, one.end, known, remotes);
        let theirs = survey::read_locals(g, other.end, known, remotes);
        assert(mine.end <= survey::read_survey(h, p, opts).end);
        assert(theirs.end <= survey::read_survey(g, q, opts).end);
        lemma_locals_repeat(h, one.end, g, other.end, known, remotes, answers);
        if mine.value is Ok && remotes {
            lemma_remotes_repeat(h, mine.end, g, theirs.end, known, answers);
        }
    }
}

// ---------------------------------------------------------------------------
// The walks and the probes.

proof fn lemma_printed_ids_repeat(
    h: Seq<Exchange>,
    p: int,
    g: Seq<Exchange>,
    q: int,
    args: Seq<Seq<char>>,
    answers: Answers,
)
    requires
        heard(h, p, probe::read_printed_ids(h, p, args), answers),
        heard(g, q, probe::read_printed_ids(g, q, args), answers),
    ensures
        alike(p, probe::read_printed_ids(h, p, args), q, probe::read_printed_ids(g, q, args)),
        p < probe::read_printed_ids(h, p, args).end,
        q < probe::read_printed_ids(g, q, args).end,
{
    assert(h[p].reply == g[q].reply);
    if let Ok((_, patches)) = h[p].reply {
        if !text::blank(patches) {
            assert(h[p + 1].reply == g[q + 1].reply);
        }
    }
}

/// Somewhere the base was walked from the fork point.
spec fn walk_heard(
    at: (Seq<Exchange>, int),
    base: Seq<char>,
    fork: Seq<char>,
    answers: Answers,
) -> bool {
    heard(at.0, at.1, probe::read_upstream(at.0, at.1, base, fork), answers)
}

/// What every walk of the base from the fork point finds.
spec fn walk_outcome(base: Seq<char>, fork: Seq<char>, answers: Answers) -> Result<
    Set<Seq<char>>,
    ErrorView,
> {
    let at = choose|at: (Seq<Exchange>, int)| walk_heard(at, base, fork, answers);
    probe::read_upstream(at.0, at.1, base, fork).value
}

proof fn lemma_walk_outcome(
    h: Seq<Exchange>,
    p: int,
    base: Seq<char>,
    fork: Seq<char>,
    answers: Answers,
)
    requires
        heard(h, p, probe::read_upstream(h, p, base, fork), answers),
    ensures
        probe::read_upstream(h, p, base, fork).value == walk_outcome(base, fork, answers),
        p < probe::read_upstream(h, p, base, fork).end,
{
    assert(walk_heard((h, p), base, fork, answers));
    let at = choose|at: (Seq<Exchange>, int)| walk_heard(at, base, fork, answers);
    lemma_printed_ids_repeat(h, p, at.0, at.1, probe::log_args(fork, base), answers);
}

/// Somewhere the branch was probed.
spec fn probe_heard(
    at: (Seq<Exchange>, int),
    branch: Seq<char>,
    fork: Seq<char>,
    ids: Set<Seq<char>>,
    answers: Answers,
) -> bool {
    heard(at.0, at.1, probe::read_probe(at.0, at.1, branch, fork, ids), answers)
}

/// What every probe of the branch finds.
spec fn probe_outcome(
    branch: Seq<char>,
    fork: Seq<char>,
    ids: Set<Seq<char>>,
    answers: Answers,
) -> Result<Option<MergeKind>, ErrorView> {
    let at = choose|at: (Seq<Exchange>, int)| probe_heard(at, branch, fork, ids, answers);
    probe::read_probe(at.0, at.1, branch, fork, ids).value
}

proof fn lemma_rebase_probe_repeats(
    h: Seq<Exchange>,
    p: int,
    g: Seq<Exchange>,
    q: int,
    branch: Seq<char>,
    fork: Seq<char>,
    ids: Set<Seq<char>>,
    answers: Answers,
)
    requires
        heard(h, p, probe::read_rebase_probe(h, p, branch, fork, ids), answers),
        heard(g, q, probe::read_rebase_probe(g, q, branch, fork, ids), answers),
    ensures
        probe::read_rebase_probe(h, p, branch, fork, ids).value == probe::read_rebase_probe(
            g,
            q,
            branch,
            fork,
            ids,
        ).value,
{
    assert(h[p].reply == g[q].reply);
    if let Ok((_, count)) = h[p].reply {
        if text::trim(count) == "0"@ {
            let one = probe::read_printed_ids(h, p + 1, probe::log_args(fork, branch));
            let other = probe::read_printed_ids(g, q + 1, probe::log_args(fork, branch));
            lemma_printed_ids_repeat(
                h,
                p + 1,
                g,
                q + 1,
                probe::log_args(fork, branch),
                answers,
            );
            if one.value is Ok {
                assert(h[one.end].reply == g[other.end].reply);
            }
        }
    }
}

proof fn lemma_probe_outcome(
    h: Seq<Exchange>,
    p: int,
    branch: Seq<char>,
    fork: Seq<char>,
    ids: Set<Seq<char>>,
    answers: Answers,
)
    requires
        heard(h, p, probe::read_probe(h, p, branch, fork, ids), answers),
    ensures
        probe::read_probe(h, p, branch, fork, ids).value == probe_outcome(
            branch,
            fork,
            ids,
            answers,
        ),
        p <= probe::read_probe(h, p, branch, fork, ids).end,
{
    assert(probe_heard((h, p), branch, fork, ids, answers));
    let at = choose|at: (Seq<Exchange>, int)| probe_heard(at, branch, fork, ids, answers);
    let (g, q) = at;
    if !ids.is_empty() {
        let args = probe::squash_args(fork, branch);
        let one = probe::read_printed_ids(h, p, args);
        let other = probe::read_printed_ids(g, q, args);
        assert(one.end <= probe::read_probe(h, p, branch, fork, ids).end);
        assert(other.end <= probe::read_probe(g, q, branch, fork, ids).end);
        lemma_printed_ids_repeat(h, p, g, q, args, answers);
        if let Ok(found) = one.value {
            if !probe::is_squashed(found, ids) {
                lemma_rebase_probe_repeats(
                    h,
                    one.end,
                    g,
                    other.end,
                    branch,
                    fork,
                    ids,
                    answers,
                );
            }
        }
    }
}

/// The walks from the fork points.
spec fn walked(base: Seq<char>, forks: Seq<Seq<char>>, answers: Answers) -> Seq<WalkView> {
    Seq::new(
        forks.len(),
        |k: int| WalkView { fork: forks[k], ids: walk_outcome(base, forks[k], answers) },
    )
}

proof fn lemma_walked(
    h: Seq<Exchange>,
    p: int,
    base: Seq<char>,
    forks: Seq<Seq<char>>,
    answers: Answers,
)
    requires
        verdicts::read_walks(h, p, base, forks).fits,
        git::answered(h, p, verdicts::read_walks(h, p, base, forks).end, answers),
    ensures
        verdicts::read_walks(h, p, base, forks).items == walked(base, forks, answers),
        p <= verdicts::read_walks(h, p, base, forks).end,
    decreases forks.len(),
{
    if forks.len() > 0 {
        let rest = forks.drop_last();
        let earlier = verdicts::read_walks(h, p, base, rest);
        let run = probe::read_upstream(h, earlier.end, base, forks.last());
        assert(earlier.end <= run.end);
        lemma_walked(h, p, base, rest, answers);
        lemma_walk_outcome(h, earlier.end, base, forks.last(), answers);
        assert(walked(base, forks, answers) =~= walked(base, rest, answers).push(
            WalkView { fork: forks.last(), ids: run.value },
        ));
    } else {
        assert(walked(base, forks, answers) =~= Seq::empty());
    }
}

/// The walk from a fork point is found if it was made and succeeded.
proof fn lemma_ids_of_walk(
    base: Seq<char>,
    forks: Seq<Seq<char>>,
    answers: Answers,
    fork: Seq<char>,
)
    ensures
        verdicts::ids_since(walked(base, forks, answers), fork) == match walk_outcome(
            base,
            fork,
            answers,
        ) {
            Ok(ids) if forks.contains(fork) => Some(ids),
            _ => None,
        },
    decreases forks.len(),
{
    let walks = walked(base, forks, answers);
    if forks.len() > 0 {
        let rest = forks.drop_last();
        lemma_ids_of_walk(base, rest, answers, fork);
        assert(walks.drop_last() =~= walked(base, rest, answers));
        assert(forks =~= rest.push(forks.last()));
        assert(forks.contains(fork) <==> rest.contains(fork) || fork == forks.last()) by {
            if rest.contains(fork) {
                let k = choose|k: int| 0 <= k < rest.len() && rest[k] == fork;
                assert(forks[k] == fork);
            }
            if fork == forks.last() {
                assert(forks[forks.len() - 1] == fork);
            }
            if forks.contains(fork) && fork != forks.last() {
                let k = choose|k: int| 0 <= k < forks.len() && forks[k] == fork;
                assert(rest[k] == fork);
            }
        }
    }
}

/// What every run finds of the branch.
spec fn outcome_of(b: PendingView, base: Seq<char>, answers: Answers) -> Result<
    Option<MergeKind>,
    ErrorView,
> {
    match b.fork {
        Ok(Some(fork)) => match walk_outcome(base, fork, answers) {
            Ok(ids) => probe_outcome(b.branch.sha, fork, ids, answers),
            Err(_) => Ok(None),
        },
        Ok(None) => Ok(None),
        Err(e) => Err(e),
    }
}

/// The branches with what every run finds of them.
spec fn probed(list: Seq<PendingView>, base: Seq<char>, answers: Answers) -> Seq<ProbedView> {
    Seq::new(
        list.len(),
        |m: int| ProbedView { pending: list[m], outcome: outcome_of(list[m], base, answers) },
    )
}

/// Every fork point of the branches is among `forks`.
spec fn forks_cover(forks: Seq<Seq<char>>, list: Seq<PendingView>) -> bool {
    forall|m: int|
        0 <= m < list.len() ==> match (#[trigger] list[m]).fork {
            Ok(Some(fork)) => forks.contains(fork),
            _ => true,
        }
}

proof fn lemma_probed(
    h: Seq<Exchange>,
    p: int,
    base: Seq<char>,
    forks: Seq<Seq<char>>,
    list: Seq<PendingView>,
    answers: Answers,
)
    requires
        verdicts::read_probes(h, p, list, walked(base, forks, answers)).fits,
        git::answered(
            h,
            p,
            verdicts::read_probes(h, p, list, walked(base, forks, answers)).end,
            answers,
        ),
        forks_cover(forks, list),
    ensures
        verdicts::read_probes(h, p, list, walked(base, forks, answers)).items == probed(
            list,
            base,
            answers,
        ),
        p <= verdicts::read_probes(h, p, list, walked(base, forks, answers)).end,
    decreases list.len(),
{
    let walks = walked(base, forks, answers);
    if list.len() > 0 {
        let rest = list.drop_last();
        let b = list.last();
        let earlier = verdicts::read_probes(h, p, rest, walks);
        let run = verdicts::read_pending(h, earlier.end, b, walks);
        assert(list[list.len() - 1] == b);
        assert forall|m: int| 0 <= m < rest.len() implies match (#[trigger] rest[m]).fork {
            Ok(Some(fork)) => forks.contains(fork),
            _ => true,
        } by {
            assert(list[m] == rest[m]);
        }
        assert(earlier.end <= run.end);
        lemma_probed(h, p, base, forks, rest, answers);
        if let Ok(Some(fork)) = b.fork {
            lemma_ids_of_walk(base, forks, answers, fork);
            if let Ok(ids) = walk_outcome(base, fork, answers) {
                lemma_probe_outcome(h, earlier.end, b.branch.sha, fork, ids, answers);
            }
        }
        assert(probed(list, base, answers) =~= probed(rest, base, answers).push(
            ProbedView { pending: b, outcome: run.value },
        ));
    } else {
        assert(probed(list, base, answers) =~= Seq::empty());
    }
}

// ---------------------------------------------------------------------------
// What the cache knows afterwards.

/// The key of a branch whose fork point is known.
pub open spec fn key_for(b: PendingView, base: Seq<char>) -> Seq<char> {
    cache::key_of(base, b.fork->Ok_0->Some_0, b.branch.sha)
}

/// The branch has a fork point.
pub open spec fn is_forked(b: PendingView) -> bool {
    b.fork matches Ok(o) && o is Some
}

/// The cache does not know the branch.
pub open spec fn is_missed(b: PendingView, base: Seq<char>, cache: CacheView) -> bool {
    is_forked(b) ==> cache.lookup(key_for(b, base)) is None
}

/// Branches with one key have one fork point and one tip, as they do wherever
/// the shas hold no colon.
pub open spec fn keys_tell_apart(list: Seq<PendingView>, base: Seq<char>) -> bool {
    forall|i: int, j: int|
        #![trigger list[i], list[j]]
        0 <= i < list.len() && 0 <= j < list.len() && is_forked(list[i]) && is_forked(list[j])
            && key_for(list[i], base) == key_for(list[j], base) ==> list[i].fork == list[j].fork
            && list[i].branch.sha == list[j].branch.sha
}

/// Keys of shas without a colon tell the branches apart.
pub proof fn law_colon_free_shas_tell_apart(list: Seq<PendingView>, base: Seq<char>)
    requires
        !base.contains(':'),
        forall|i: int|
            0 <= i < list.len() && is_forked(#[trigger] list[i])
                ==> !list[i].fork->Ok_0->Some_0.contains(':'),
    ensures
        keys_tell_apart(list, base),
{
    assert forall|i: int, j: int|
        #![trigger list[i], list[j]]
        0 <= i < list.len() && 0 <= j < list.len() && is_forked(list[i]) && is_forked(list[j])
            && key_for(list[i], base) == key_for(list[j], base) implies list[i].fork
        == list[j].fork && list[i].branch.sha == list[j].branch.sha by {
        cache::law_key_names_the_triple(
            base,
            list[i].fork->Ok_0->Some_0,
            list[i].branch.sha,
            base,
            list[j].fork->Ok_0->Some_0,
            list[j].branch.sha,
        );
    }
}

/// The branches that the cache does not know.
spec fn misses(list: Seq<PendingView>, base: Seq<char>, cache: CacheView) -> Seq<PendingView>
    decreases list.len(),
{
    if list.len() == 0 {
        Seq::empty()
    } else {
        let earlier = misses(list.drop_last(), base, cache);
        if is_missed(list.last(), base, cache) {
            earlier.push(list.last())
        } else {
            earlier
        }
    }
}

/// The verdicts that the cache has for the branches.
spec fn hits(list: Seq<PendingView>, base: Seq<char>, cache: CacheView) -> Verdicts
    decreases list.len(),
{
    if list.len() == 0 {
        Map::empty()
    } else {
        let earlier = hits(list.drop_last(), base, cache);
        let b = list.last();
        if is_missed(b, base, cache) {
            earlier
        } else {
            verdicts::record(
                earlier,
                b.branch.refname,
                cache.lookup(key_for(b, base))->Some_0,
            )
        }
    }
}

proof fn lemma_consulted(list: Seq<PendingView>, base: Seq<char>, cache: CacheView)
    ensures
        verdicts::consulted(list, base, cache).cache.entries == cache.entries,
        verdicts::consulted(list, base, cache).to_walk == misses(list, base, cache),
        verdicts::consulted(list, base, cache).known == hits(list, base, cache),
    decreases list.len(),
{
    if list.len() > 0 {
        lemma_consulted(list.drop_last(), base, cache);
    }
}

/// What is not known was asked for, and what was asked for and is not known
/// is among the misses.
proof fn lemma_misses(list: Seq<PendingView>, base: Seq<char>, cache: CacheView)
    ensures
        forall|b: PendingView| #[trigger]
            misses(list, base, cache).contains(b) <==> list.contains(b) && is_missed(
                b,
                base,
                cache,
            ),
    decreases list.len(),
{
    let all = misses(list, base, cache);
    if list.len() > 0 {
        let rest = list.drop_last();
        let last = list.last();
        let earlier = misses(rest, base, cache);
        lemma_misses(rest, base, cache);
        assert forall|b: PendingView| #[trigger] all.contains(b) <==> list.contains(b) && is_missed(
            b,
            base,
            cache,
        ) by {
            list::lemma_last_or_before(list, b);
            if is_missed(last, base, cache) {
                list::lemma_last_or_before(all, b);
                assert(all.drop_last() =~= earlier);
            }
        }
    }
}

/// Every run judges the branch, so that its verdict is kept.
spec fn is_kept(b: PendingView, base: Seq<char>, answers: Answers) -> bool {
    is_forked(b) && walk_outcome(base, b.fork->Ok_0->Some_0, answers) is Ok && outcome_of(
        b,
        base,
        answers,
    ) is Ok
}

/// What a run remembers: the verdicts of the branches it judged, each under
/// its key, and nothing else.
proof fn lemma_remembered(
    cache: CacheView,
    base: Seq<char>,
    list: Seq<PendingView>,
    forks: Seq<Seq<char>>,
    answers: Answers,
)
    requires
        forks_cover(forks, list),
        keys_tell_apart(list, base),
    ensures
        forall|m: int|
            0 <= m < list.len() && is_kept(#[trigger] list[m], base, answers)
                ==> verdicts::remembered(
                cache,
                base,
                probed(list, base, answers),
                walked(base, forks, answers),
            ).lookup(key_for(list[m], base)) == Some(outcome_of(list[m], base, answers)->Ok_0),
        forall|key: Seq<char>|
            #[trigger] verdicts::remembered(
                cache,
                base,
                probed(list, base, answers),
                walked(base, forks, answers),
            ).lookup(key) != cache.lookup(key) ==> exists|m: int|
                0 <= m < list.len() && is_kept(#[trigger] list[m], base, answers) && key == key_for(
                    list[m],
                    base,
                ),
    decreases list.len(),
{
    if list.len() > 0 {
        let rest = list.drop_last();
        let b = list.last();
        let n = list.len() - 1;
        let walks = walked(base, forks, answers);
        let earlier = verdicts::remembered(cache, base, probed(rest, base, answers), walks);
        let now = verdicts::remembered(cache, base, probed(list, base, answers), walks);
        assert(list[n] == b);
        assert forall|m: int| 0 <= m < rest.len() implies #[trigger] rest[m] == list[m] by {}
        assert(forks_cover(forks, rest));
        assert(keys_tell_apart(rest, base)) by {
            assert forall|i: int, j: int|
                #![trigger rest[i], rest[j]]
                0 <= i < rest.len() && 0 <= j < rest.len() && is_forked(rest[i]) && is_forked(
                    rest[j],
                ) && key_for(rest[i], base) == key_for(rest[j], base) implies rest[i].fork
                == rest[j].fork && rest[i].branch.sha == rest[j].branch.sha by {
                assert(list[i] == rest[i] && list[j] == rest[j]);
            }
        }
        lemma_remembered(cache, base, rest, forks, answers);
        assert(probed(list, base, answers).drop_last() =~= probed(rest, base, answers));
        if is_forked(b) {
            lemma_ids_of_walk(base, forks, answers, b.fork->Ok_0->Some_0);
        }
        assert(now == if is_kept(b, base, answers) {
            earlier.with(key_for(b, base), outcome_of(b, base, answers)->Ok_0)
        } else {
            earlier
        });
        assert forall|m: int| 0 <= m < list.len() && is_kept(#[trigger] list[m], base, answers)
            implies now.lookup(key_for(list[m], base)) == Some(
            outcome_of(list[m], base, answers)->Ok_0,
        ) by {
            if m < n {
                assert(rest[m] == list[m]);
            }
            if is_kept(b, base, answers) && key_for(list[m], base) == key_for(b, base) {
                assert(list[m].fork == list[n].fork && list[m].branch.sha == list[n].branch.sha);
            }
        }
        assert forall|key: Seq<char>| #[trigger]
            now.lookup(key) != cache.lookup(key) implies exists|m: int|
            0 <= m < list.len() && is_kept(#[trigger] list[m], base, answers) && key == key_for(
                list[m],
                base,
            ) by {
            if earlier.lookup(key) != cache.lookup(key) {
                let m = choose|m: int|
                    0 <= m < rest.len() && is_kept(#[trigger] rest[m], base, answers) && key
                        == key_for(rest[m], base);
                assert(list[m] == rest[m]);
            } else {
                assert(is_kept(list[n], base, answers) && key == key_for(list[n], base));
            }
        }
    } else {
        assert(probed(list, base, answers) =~= Seq::empty());
    }
}

/// What a later cache knows of the branches: what the earlier one did, and the
/// verdicts of those that were judged in between.
spec fn is_settled(
    list: Seq<PendingView>,
    base: Seq<char>,
    cache: CacheView,
    later: CacheView,
    answers: Answers,
) -> bool {
    forall|k: int|
        0 <= k < list.len() ==> is_settled_for(#[trigger] list[k], base, cache, later, answers)
}

spec fn is_settled_for(
    b: PendingView,
    base: Seq<char>,
    cache: CacheView,
    later: CacheView,
    answers: Answers,
) -> bool {
    &&& is_missed(b, base, later) <==> is_missed(b, base, cache) && !is_kept(b, base, answers)
    &&& !is_missed(b, base, cache) ==> later.lookup(key_for(b, base)) == cache.lookup(
        key_for(b, base),
    )
    &&& is_missed(b, base, cache) && is_kept(b, base, answers) ==> later.lookup(key_for(b, base))
        == Some(outcome_of(b, base, answers)->Ok_0)
}

/// `later` gives for every branch what `cache` gives.
pub open spec fn same_lookups(
    list: Seq<PendingView>,
    base: Seq<char>,
    cache: CacheView,
    later: CacheView,
) -> bool {
    forall|k: int|
        0 <= k < list.len() && is_forked(#[trigger] list[k]) ==> later.lookup(
            key_for(list[k], base),
        ) == cache.lookup(key_for(list[k], base))
}

proof fn lemma_settled(
    list: Seq<PendingView>,
    base: Seq<char>,
    cache: CacheView,
    forks: Seq<Seq<char>>,
    later: CacheView,
    answers: Answers,
)
    requires
        keys_tell_apart(list, base),
        forks_cover(forks, misses(list, base, cache)),
        same_lookups(
            list,
            base,
            verdicts::remembered(
                verdicts::consulted(list, base, cache).cache,
                base,
                probed(misses(list, base, cache), base, answers),
                walked(base, forks, answers),
            ),
            later,
        ),
    ensures
        is_settled(list, base, cache, later, answers),
{
    let first = verdicts::consulted(list, base, cache).cache;
    let open = misses(list, base, cache);
    let now = verdicts::remembered(
        first,
        base,
        probed(open, base, answers),
        walked(base, forks, answers),
    );
    lemma_consulted(list, base, cache);
    lemma_misses(list, base, cache);
    assert forall|m: int| 0 <= m < open.len() implies list.contains(#[trigger] open[m])
        && is_missed(open[m], base, cache) by {
        assert(open.contains(open[m]));
    }
    assert(keys_tell_apart(open, base)) by {
        assert forall|i: int, j: int|
            #![trigger open[i], open[j]]
            0 <= i < open.len() && 0 <= j < open.len() && is_forked(open[i]) && is_forked(open[j])
                && key_for(open[i], base) == key_for(open[j], base) implies open[i].fork
            == open[j].fork && open[i].branch.sha == open[j].branch.sha by {
            let x = choose|x: int| 0 <= x < list.len() && list[x] == open[i];
            let y = choose|y: int| 0 <= y < list.len() && list[y] == open[j];
            assert(list[x] == open[i] && list[y] == open[j]);
        }
    }
    lemma_remembered(first, base, open, forks, answers);
    assert forall|k: int| 0 <= k < list.len() implies is_settled_for(
        #[trigger] list[k],
        base,
        cache,
        later,
        answers,
    ) by {
        let b = list[k];
        assert(list.contains(b));
        if is_forked(b) {
            let key = key_for(b, base);
            assert(first.lookup(key) == cache.lookup(key));
            if is_missed(b, base, cache) {
                assert(open.contains(b));
                let m = choose|m: int| 0 <= m < open.len() && open[m] == b;
                assert(open[m] == b);
            }
            if now.lookup(key) != first.lookup(key) {
                let m = choose|m: int|
                    0 <= m < open.len() && is_kept(#[trigger] open[m], base, answers) && key
                        == key_for(open[m], base);
                assert(is_missed(open[m], base, cache));
                let x = choose|x: int| 0 <= x < list.len() && list[x] == open[m];
                assert(list[x].fork == list[k].fork && list[x].branch.sha == list[k].branch.sha);
            }
        }
    }
}

// ---------------------------------------------------------------------------
// What the second run makes of it.

/// The branches that no run judges.
spec fn unkept(list: Seq<PendingView>, base: Seq<char>, answers: Answers) -> Seq<PendingView>
    decreases list.len(),
{
    if list.len() == 0 {
        Seq::empty()
    } else {
        let earlier = unkept(list.drop_last(), base, answers);
        if is_kept(list.last(), base, answers) {
            earlier
        } else {
            earlier.push(list.last())
        }
    }
}

proof fn lemma_unkept(list: Seq<PendingView>, base: Seq<char>, answers: Answers)
    ensures
        forall|b: PendingView| #[trigger]
            unkept(list, base, answers).contains(b) <==> list.contains(b) && !is_kept(
                b,
                base,
                answers,
            ),
    decreases list.len(),
{
    let all = unkept(list, base, answers);
    if list.len() > 0 {
        let rest = list.drop_last();
        let last = list.last();
        lemma_unkept(rest, base, answers);
        assert forall|b: PendingView| #[trigger] all.contains(b) <==> list.contains(b) && !is_kept(
            b,
            base,
            answers,
        ) by {
            list::lemma_last_or_before(list, b);
            let earlier = unkept(rest, base, answers);
            assert(earlier.contains(b) <==> rest.contains(b) && !is_kept(b, base, answers));
            if !is_kept(last, base, answers) {
                list::lemma_last_or_before(all, b);
                assert(all.drop_last() =~= earlier);
            }
        }
    }
}

proof fn lemma_settled_before(
    list: Seq<PendingView>,
    base: Seq<char>,
    cache: CacheView,
    later: CacheView,
    answers: Answers,
)
    requires
        list.len() > 0,
        is_settled(list, base, cache, later, answers),
    ensures
        is_settled(list.drop_last(), base, cache, later, answers),
        is_settled_for(list.last(), base, cache, later, answers),
{
    assert(is_settled_for(list[list.len() - 1], base, cache, later, answers));
    assert forall|k: int| 0 <= k < list.drop_last().len() implies is_settled_for(
        #[trigger] list.drop_last()[k],
        base,
        cache,
        later,
        answers,
    ) by {
        assert(list.drop_last()[k] == list[k]);
    }
}

/// The second run looks again at what no run judges, and at nothing else.
proof fn lemma_misses_again(
    list: Seq<PendingView>,
    base: Seq<char>,
    cache: CacheView,
    later: CacheView,
    answers: Answers,
)
    requires
        is_settled(list, base, cache, later, answers),
    ensures
        misses(list, base, later) == unkept(misses(list, base, cache), base, answers),
    decreases list.len(),
{
    if list.len() > 0 {
        let rest = list.drop_last();
        let b = list.last();
        lemma_settled_before(list, base, cache, later, answers);
        lemma_misses_again(rest, base, cache, later, answers);
        if is_missed(b, base, cache) {
            assert(misses(list, base, cache).drop_last() =~= misses(rest, base, cache));
        }
    }
}

/// What no run judges has no verdict.
proof fn lemma_no_verdicts(
    known: Verdicts,
    list: Seq<PendingView>,
    base: Seq<char>,
    answers: Answers,
)
    requires
        forall|m: int| 0 <= m < list.len() ==> !is_kept(#[trigger] list[m], base, answers),
    ensures
        verdicts::all_verdicts(known, probed(list, base, answers)) == known,
    decreases list.len(),
{
    if list.len() > 0 {
        let rest = list.drop_last();
        assert(!is_kept(list[list.len() - 1], base, answers));
        assert forall|m: int| 0 <= m < rest.len() implies !is_kept(
            #[trigger] rest[m],
            base,
            answers,
        ) by {
            assert(rest[m] == list[m]);
        }
        lemma_no_verdicts(known, rest, base, answers);
        assert(probed(list, base, answers).drop_last() =~= probed(rest, base, answers));
    } else {
        assert(probed(list, base, answers) =~= Seq::empty());
    }
}

/// A verdict for a ref that no probe is about can be recorded before or after
/// the probes.
proof fn lemma_record_first_or_last(
    known: Verdicts,
    items: Seq<ProbedView>,
    refname: Seq<char>,
    verdict: Option<MergeKind>,
)
    requires
        forall|m: int|
            0 <= m < items.len() ==> (#[trigger] items[m]).pending.branch.refname != refname,
    ensures
        verdicts::all_verdicts(verdicts::record(known, refname, verdict), items)
            == verdicts::record(verdicts::all_verdicts(known, items), refname, verdict),
    decreases items.len(),
{
    if items.len() > 0 {
        let rest = items.drop_last();
        assert(items[items.len() - 1].pending.branch.refname != refname);
        assert forall|m: int| 0 <= m < rest.len() implies (#[trigger] rest[m]).pending.branch.refname
            != refname by {
            assert(rest[m] == items[m]);
        }
        lemma_record_first_or_last(known, rest, refname, verdict);
        if let (Some(v), Ok(Some(found))) = (verdict, items.last().outcome) {
            let r = items.last().pending.branch.refname;
            let before = verdicts::all_verdicts(known, rest);
            assert(before.insert(refname, v).insert(r, found) =~= before.insert(r, found).insert(
                refname,
                v,
            ));
        }
    }
}

/// Each ref is listed once.
pub open spec fn refs_once(list: Seq<RawBranchView>) -> bool {
    forall|i: int, j: int|
        0 <= i < j < list.len() ==> (#[trigger] list[i]).refname != (#[trigger] list[j]).refname
}

/// Each ref awaits its verdict once.
spec fn pending_once(list: Seq<PendingView>) -> bool {
    forall|i: int, j: int|
        0 <= i < j < list.len() ==> (#[trigger] list[i]).branch.refname != (
        #[trigger] list[j]).branch.refname
}

/// The verdicts of the first run are those that the cache gives to the second.
proof fn lemma_verdicts_again(
    list: Seq<PendingView>,
    base: Seq<char>,
    cache: CacheView,
    later: CacheView,
    answers: Answers,
)
    requires
        is_settled(list, base, cache, later, answers),
        pending_once(list) || misses(list, base, cache) == list,
    ensures
        verdicts::all_verdicts(
            hits(list, base, cache),
            probed(misses(list, base, cache), base, answers),
        ) == hits(list, base, later),
    decreases list.len(),
{
    let open = misses(list, base, cache);
    if list.len() > 0 {
        let rest = list.drop_last();
        let b = list.last();
        let before = misses(rest, base, cache);
        lemma_settled_before(list, base, cache, later, answers);
        lemma_misses_len(rest, base, cache);
        if open == list {
            assert(is_missed(b, base, cache));
            assert(open.drop_last() =~= before);
        } else {
            assert forall|i: int, j: int| 0 <= i < j < rest.len() implies (
            #[trigger] rest[i]).branch.refname != (#[trigger] rest[j]).branch.refname by {
                assert(rest[i] == list[i] && rest[j] == list[j]);
            }
        }
        lemma_verdicts_again(rest, base, cache, later, answers);
        if is_missed(b, base, cache) {
            assert(open.drop_last() =~= before);
            assert(probed(open, base, answers).drop_last() =~= probed(before, base, answers));
            assert(probed(open, base, answers).last().outcome == outcome_of(b, base, answers));
        } else {
            lemma_misses(rest, base, cache);
            let items = probed(before, base, answers);
            assert forall|m: int| 0 <= m < items.len() implies (
            #[trigger] items[m]).pending.branch.refname != b.branch.refname by {
                assert(before.contains(before[m]));
                let k = choose|k: int| 0 <= k < rest.len() && rest[k] == before[m];
                assert(list[k] == before[m] && list[list.len() - 1] == b);
            }
            lemma_record_first_or_last(
                hits(rest, base, cache),
                items,
                b.branch.refname,
                cache.lookup(key_for(b, base))->Some_0,
            );
        }
    } else {
        assert(probed(open, base, answers) =~= Seq::empty());
    }
}

proof fn lemma_misses_len(list: Seq<PendingView>, base: Seq<char>, cache: CacheView)
    ensures
        misses(list, base, cache).len() <= list.len(),
    decreases list.len(),
{
    if list.len() > 0 {
        lemma_misses_len(list.drop_last(), base, cache);
    }
}

/// Only what no run judges is warned of by a probe.
proof fn lemma_probe_warnings_again(list: Seq<PendingView>, base: Seq<char>, answers: Answers)
    ensures
        verdicts::probe_warnings(probed(list, base, answers)) == verdicts::probe_warnings(
            probed(unkept(list, base, answers), base, answers),
        ),
    decreases list.len(),
{
    let few = unkept(list, base, answers);
    if list.len() > 0 {
        let rest = list.drop_last();
        lemma_probe_warnings_again(rest, base, answers);
        assert(probed(list, base, answers).drop_last() =~= probed(rest, base, answers));
        if !is_kept(list.last(), base, answers) {
            assert(few.drop_last() =~= unkept(rest, base, answers));
            assert(probed(few, base, answers).drop_last() =~= probed(
                few.drop_last(),
                base,
                answers,
            ));
        }
    } else {
        assert(probed(few, base, answers) =~= probed(list, base, answers));
    }
}

/// A failed walk costs only what no run judges.
proof fn lemma_cost_again(
    list: Seq<PendingView>,
    base: Seq<char>,
    answers: Answers,
    fork: Seq<char>,
    e: ErrorView,
)
    requires
        walk_outcome(base, fork, answers) is Err,
    ensures
        verdicts::cost_of_walk(list, fork, e) == verdicts::cost_of_walk(
            unkept(list, base, answers),
            fork,
            e,
        ),
    decreases list.len(),
{
    if list.len() > 0 {
        let rest = list.drop_last();
        lemma_cost_again(rest, base, answers, fork, e);
        if !is_kept(list.last(), base, answers) {
            assert(unkept(list, base, answers).drop_last() =~= unkept(rest, base, answers));
        }
    }
}

/// The fork points from which the walk fails.
spec fn failed(forks: Seq<Seq<char>>, base: Seq<char>, answers: Answers) -> Seq<Seq<char>>
    decreases forks.len(),
{
    if forks.len() == 0 {
        Seq::empty()
    } else {
        let earlier = failed(forks.drop_last(), base, answers);
        if walk_outcome(base, forks.last(), answers) is Err {
            earlier.push(forks.last())
        } else {
            earlier
        }
    }
}

proof fn lemma_failed(forks: Seq<Seq<char>>, base: Seq<char>, answers: Answers)
    requires
        order::ascending(forks),
    ensures
        order::ascending(failed(forks, base, answers)),
        forall|f: Seq<char>| #[trigger]
            failed(forks, base, answers).contains(f) <==> forks.contains(f) && walk_outcome(
                base,
                f,
                answers,
            ) is Err,
    decreases forks.len(),
{
    let all = failed(forks, base, answers);
    if forks.len() > 0 {
        let rest = forks.drop_last();
        let last = forks.last();
        let earlier = failed(rest, base, answers);
        assert forall|i: int, j: int| 0 <= i < j < rest.len() implies text::before(
            #[trigger] rest[i],
            #[trigger] rest[j],
        ) by {
            assert(rest[i] == forks[i] && rest[j] == forks[j]);
        }
        lemma_failed(rest, base, answers);
        assert forall|f: Seq<char>| #[trigger] all.contains(f) <==> forks.contains(f)
            && walk_outcome(base, f, answers) is Err by {
            list::lemma_last_or_before(forks, f);
            assert(earlier.contains(f) <==> rest.contains(f) && walk_outcome(base, f, answers)
                is Err);
            if walk_outcome(base, last, answers) is Err {
                list::lemma_last_or_before(all, f);
                assert(all.drop_last() =~= earlier);
            }
        }
        assert forall|i: int, j: int| 0 <= i < j < all.len() implies text::before(
            #[trigger] all[i],
            #[trigger] all[j],
        ) by {
            if j == earlier.len() {
                assert(earlier.contains(earlier[i]));
                let k = choose|k: int| 0 <= k < rest.len() && rest[k] == earlier[i];
                assert(text::before(forks[k], forks[forks.len() - 1]));
            } else {
                assert(all[i] == earlier[i] && all[j] == earlier[j]);
            }
        }
    }
}

/// Only failed walks are warned of.
proof fn lemma_walk_warnings(
    forks: Seq<Seq<char>>,
    list: Seq<PendingView>,
    base: Seq<char>,
    answers: Answers,
)
    ensures
        verdicts::walk_warnings(walked(base, forks, answers), list) == verdicts::walk_warnings(
            walked(base, failed(forks, base, answers), answers),
            list,
        ),
    decreases forks.len(),
{
    let few = failed(forks, base, answers);
    if forks.len() > 0 {
        let rest = forks.drop_last();
        lemma_walk_warnings(rest, list, base, answers);
        assert(walked(base, forks, answers).drop_last() =~= walked(base, rest, answers));
        if walk_outcome(base, forks.last(), answers) is Err {
            assert(few.drop_last() =~= failed(rest, base, answers));
            assert(walked(base, few, answers).drop_last() =~= walked(
                base,
                few.drop_last(),
                answers,
            ));
        }
    } else {
        assert(walked(base, few, answers) =~= walked(base, forks, answers));
    }
}

/// The warnings of failed walks name only what no run judges.
proof fn lemma_walk_warnings_shrink(
    forks: Seq<Seq<char>>,
    list: Seq<PendingView>,
    base: Seq<char>,
    answers: Answers,
)
    ensures
        verdicts::walk_warnings(walked(base, forks, answers), list) == verdicts::walk_warnings(
            walked(base, forks, answers),
            unkept(list, base, answers),
        ),
    decreases forks.len(),
{
    if forks.len() > 0 {
        let rest = forks.drop_last();
        lemma_walk_warnings_shrink(rest, list, base, answers);
        assert(walked(base, forks, answers).drop_last() =~= walked(base, rest, answers));
        if let Err(e) = walk_outcome(base, forks.last(), answers) {
            lemma_cost_again(list, base, answers, forks.last(), e);
        }
    }
}

/// A sorted list is known by its entries.
proof fn lemma_sorted_alike(s: Seq<Seq<char>>, t: Seq<Seq<char>>)
    requires
        order::ascending(s),
        order::ascending(t),
        forall|x: Seq<char>| #[trigger] s.contains(x) <==> t.contains(x),
    ensures
        s == t,
    decreases s.len(),
{
    if s.len() == 0 {
        if t.len() > 0 {
            assert(t.contains(t[0]));
            assert(s.contains(t[0]));
        }
        assert(s =~= t);
    } else {
        let a = s.last();
        assert(s.contains(s[s.len() - 1]));
        assert(t.contains(a));
        let b = t.last();
        assert(t.contains(t[t.len() - 1]));
        assert(s.contains(b));
        let i = choose|i: int| 0 <= i < s.len() && s[i] == b;
        let j = choose|j: int| 0 <= j < t.len() && t[j] == a;
        if a != b {
            assert(text::before(s[i], s[s.len() - 1]));
            assert(text::before(t[j], t[t.len() - 1]));
            text::lemma_before_transitive(a, b, a);
            text::lemma_before_irreflexive(a);
        }
        let s0 = s.drop_last();
        let t0 = t.drop_last();
        assert forall|m: int, n: int| 0 <= m < n < s0.len() implies text::before(
            #[trigger] s0[m],
            #[trigger] s0[n],
        ) by {
            assert(s0[m] == s[m] && s0[n] == s[n]);
        }
        assert forall|m: int, n: int| 0 <= m < n < t0.len() implies text::before(
            #[trigger] t0[m],
            #[trigger] t0[n],
        ) by {
            assert(t0[m] == t[m] && t0[n] == t[n]);
        }
        assert forall|x: Seq<char>| #[trigger] s0.contains(x) <==> t0.contains(x) by {
            list::lemma_last_or_before(s, x);
            list::lemma_last_or_before(t, x);
            assert(s.contains(x) <==> t.contains(x));
            text::lemma_before_irreflexive(a);
            if s0.contains(x) {
                let m = choose|m: int| 0 <= m < s0.len() && s0[m] == x;
                assert(text::before(s[m], s[s.len() - 1]));
            }
            if t0.contains(x) {
                let m = choose|m: int| 0 <= m < t0.len() && t0[m] == x;
                assert(text::before(t[m], t[t.len() - 1]));
            }
        }
        lemma_sorted_alike(s0, t0);
        assert(s =~= s0.push(a));
        assert(t =~= t0.push(a));
    }
}

/// The second run warns of the same failed walks.
proof fn lemma_walk_warnings_again(list: Seq<PendingView>, base: Seq<char>, answers: Answers)
    ensures
        ({
            let few = unkept(list, base, answers);
            verdicts::walk_warnings(
                walked(base, verdicts::distinct_forks_of(list), answers),
                list,
            ) == verdicts::walk_warnings(
                walked(base, verdicts::distinct_forks_of(few), answers),
                few,
            )
        }),
{
    let few = unkept(list, base, answers);
    let forks = verdicts::distinct_forks_of(list);
    let fewer = verdicts::distinct_forks_of(few);
    verdicts::law_forks_once_each(list);
    verdicts::law_forks_once_each(few);
    lemma_unkept(list, base, answers);
    lemma_failed(forks, base, answers);
    lemma_failed(fewer, base, answers);
    assert forall|f: Seq<char>| #[trigger]
        failed(forks, base, answers).contains(f) <==> failed(fewer, base, answers).contains(f) by {
        if forks.contains(f) && walk_outcome(base, f, answers) is Err {
            let i = choose|i: int|
                0 <= i < list.len() && (#[trigger] list[i]).fork == Ok::<_, ErrorView>(Some(f));
            assert(list.contains(list[i]));
            assert(few.contains(list[i]));
            let k = choose|k: int| 0 <= k < few.len() && few[k] == list[i];
            assert(few[k].fork == Ok::<_, ErrorView>(Some(f)));
            assert(fewer.contains(f));
        }
        if fewer.contains(f) {
            let i = choose|i: int|
                0 <= i < few.len() && (#[trigger] few[i]).fork == Ok::<_, ErrorView>(Some(f));
            assert(few.contains(few[i]));
            let k = choose|k: int| 0 <= k < list.len() && list[k] == few[i];
            assert(list[k].fork == Ok::<_, ErrorView>(Some(f)));
            assert(forks.contains(f));
        }
    }
    lemma_sorted_alike(failed(forks, base, answers), failed(fewer, base, answers));
    lemma_walk_warnings(forks, list, base, answers);
    lemma_walk_warnings_shrink(failed(forks, base, answers), list, base, answers);
    lemma_walk_warnings(fewer, few, base, answers);
}

// ---------------------------------------------------------------------------
// Both runs.

proof fn lemma_probes_end(
    h: Seq<Exchange>,
    p: int,
    list: Seq<PendingView>,
    walks: Seq<WalkView>,
)
    ensures
        p <= verdicts::read_probes(h, p, list, walks).end,
    decreases list.len(),
{
    if list.len() > 0 {
        lemma_probes_end(h, p, list.drop_last(), walks);
    }
}

proof fn lemma_walks_end(h: Seq<Exchange>, p: int, base: Seq<char>, forks: Seq<Seq<char>>)
    ensures
        p <= verdicts::read_walks(h, p, base, forks).end,
    decreases forks.len(),
{
    if forks.len() > 0 {
        lemma_walks_end(h, p, base, forks.drop_last());
    }
}

/// A scan ends no earlier than its survey.
proof fn lemma_verdicts_end(h: Seq<Exchange>, p: int, s: SurveyView, cache: CacheView)
    ensures
        p <= scan::read_verdicts(h, p, s, cache).end,
{
    reveal(scan::read_verdicts);
    let t = course::stages(h, p, s, cache);
    lemma_walks_end(
        h,
        p + verdicts::to_probe(s).len(),
        s.base.sha,
        verdicts::distinct_forks_of(t.asked.to_walk),
    );
    lemma_probes_end(h, t.walks.end, t.asked.to_walk, t.walks.items);
}

/// What the stages hold, given how git answers.
proof fn lemma_stages(
    h: Seq<Exchange>,
    p: int,
    s: SurveyView,
    cache: CacheView,
    answers: Answers,
)
    requires
        heard(h, p, scan::read_verdicts(h, p, s, cache), answers),
    ensures
        ({
            let base = s.base.sha;
            let t = course::stages(h, p, s, cache);
            let open = misses(t.pending, base, cache);
            let forks = verdicts::distinct_forks_of(open);
            &&& t.asked.to_walk == open
            &&& t.asked.known == hits(t.pending, base, cache)
            &&& forks_cover(forks, open)
            &&& t.walks.items == walked(base, forks, answers)
            &&& t.probes.items == probed(open, base, answers)
            &&& verdicts::forks_fit(h, p, base, verdicts::to_probe(s))
            &&& p + verdicts::to_probe(s).len() <= t.walks.end <= t.probes.end
            &&& t.walks.fits && t.probes.fits
            &&& t.probes.end == scan::read_verdicts(h, p, s, cache).end
            &&& scan::read_verdicts(h, p, s, cache).value == Ok::<_, ErrorView>(
                ScanOutcome {
                    found: verdicts::concluded(
                        s,
                        t.asked.known,
                        open,
                        t.walks.items,
                        t.probes.items,
                    ),
                    cache: verdicts::remembered(
                        t.asked.cache,
                        base,
                        t.probes.items,
                        t.walks.items,
                    ),
                    examined: s.examinable.len(),
                },
            )
        }),
{
    reveal(scan::read_verdicts);
    let base = s.base.sha;
    let t = course::stages(h, p, s, cache);
    let open = misses(t.pending, base, cache);
    let forks = verdicts::distinct_forks_of(open);
    lemma_consulted(t.pending, base, cache);
    lemma_probes_end(h, t.walks.end, t.asked.to_walk, t.walks.items);
    lemma_walked(h, p + verdicts::to_probe(s).len(), base, forks, answers);
    verdicts::law_forks_once_each(open);
    assert(forks_cover(forks, open)) by {
        assert forall|m: int| 0 <= m < open.len() implies match (#[trigger] open[m]).fork {
            Ok(Some(fork)) => forks.contains(fork),
            _ => true,
        } by {
            if let Ok(Some(fork)) = open[m].fork {
                assert(open[m].fork == Ok::<_, ErrorView>(Some(fork)));
                assert(forks.contains(fork));
            }
        }
    }
    lemma_probed(h, t.walks.end, base, forks, open, answers);
}

/// The same branches parted at the same points.
proof fn lemma_forks_again(
    h: Seq<Exchange>,
    p: int,
    g: Seq<Exchange>,
    q: int,
    base: Seq<char>,
    branches: Seq<RawBranchView>,
    answers: Answers,
)
    requires
        verdicts::forks_fit(h, p, base, branches),
        verdicts::forks_fit(g, q, base, branches),
        git::answered(h, p, p + branches.len(), answers),
        git::answered(g, q, q + branches.len(), answers),
    ensures
        verdicts::with_forks(h, p, base, branches) == verdicts::with_forks(g, q, base, branches),
{
    let one = verdicts::with_forks(h, p, base, branches);
    let other = verdicts::with_forks(g, q, base, branches);
    assert forall|i: int| 0 <= i < branches.len() implies one[i] == other[i] by {
        let b = branches[i];
        assert(h[p + i].reply == g[q + i].reply);
    }
    assert(one =~= other);
}

/// What is left of a list without duplicates has none either.
proof fn lemma_unmerged_once(branches: Seq<RawBranchView>, merged: Set<Seq<char>>)
    requires
        refs_once(branches),
    ensures
        refs_once(verdicts::unmerged(branches, merged)),
        forall|b: RawBranchView| #[trigger]
            verdicts::unmerged(branches, merged).contains(b) ==> branches.contains(b),
    decreases branches.len(),
{
    let all = verdicts::unmerged(branches, merged);
    if branches.len() > 0 {
        let rest = branches.drop_last();
        let earlier = verdicts::unmerged(rest, merged);
        assert forall|i: int, j: int| 0 <= i < j < rest.len() implies (#[trigger] rest[i]).refname
            != (#[trigger] rest[j]).refname by {
            assert(rest[i] == branches[i] && rest[j] == branches[j]);
        }
        lemma_unmerged_once(rest, merged);
        assert forall|b: RawBranchView| #[trigger] all.contains(b) implies branches.contains(b) by {
            list::lemma_last_or_before(branches, b);
            if !merged.contains(branches.last().refname) {
                list::lemma_last_or_before(all, b);
                assert(all.drop_last() =~= earlier);
            }
            assert(earlier.contains(b) ==> rest.contains(b));
        }
        assert forall|i: int, j: int| 0 <= i < j < all.len() implies (#[trigger] all[i]).refname != (
        #[trigger] all[j]).refname by {
            if j == earlier.len() {
                assert(earlier.contains(earlier[i]));
                let k = choose|k: int| 0 <= k < rest.len() && rest[k] == earlier[i];
                assert(branches[k].refname != branches[branches.len() - 1].refname);
            } else {
                assert(all[i] == earlier[i] && all[j] == earlier[j]);
            }
        }
    }
}

/// A cache that knows nothing misses everything.
proof fn lemma_all_missed(list: Seq<PendingView>, base: Seq<char>)
    ensures
        misses(list, base, CacheView::empty()) == list,
    decreases list.len(),
{
    if list.len() > 0 {
        lemma_all_missed(list.drop_last(), base);
        assert(list =~= list.drop_last().push(list.last()));
    } else {
        assert(list =~= Seq::empty());
    }
}

/// Two scans of one repository that git answers for in the same way: the first
/// from `h[p]` on with `cache`, the second from `g[q]` on with `later`, which
/// has for every branch the verdict that the first left in its cache. (Both
/// may stand in one history.)
pub open spec fn scanned_twice(
    h: Seq<Exchange>,
    p: int,
    cache: CacheView,
    g: Seq<Exchange>,
    q: int,
    later: CacheView,
    opts: OptionsView,
    answers: Answers,
    s: SurveyView,
    first: ScanOutcome,
) -> bool {
    let one = scan::read_scan(h, p, opts, cache);
    let other = scan::read_scan(g, q, opts, later);
    &&& survey::read_survey(h, p, opts).value == Ok::<_, ErrorView>(s)
    &&& one.fits && one.value == Ok::<_, ErrorView>(first)
    &&& other.fits
    &&& git::answered(h, p, one.end, answers)
    &&& git::answered(g, q, other.end, answers)
    &&& same_lookups(
        course::stages(h, survey::read_survey(h, p, opts).end, s, cache).pending,
        s.base.sha,
        first.cache,
        later,
    )
}

/// Git lists each ref once, or nothing was known; and no two branches share a
/// key without sharing both shas.
pub open spec fn is_listed_well(
    s: SurveyView,
    pending: Seq<PendingView>,
    cache: CacheView,
) -> bool {
    &&& refs_once(s.examinable) || cache == CacheView::empty()
    &&& keys_tell_apart(pending, s.base.sha)
}

/// Both surveys are the same, and what follows them was answered alike.
proof fn lemma_survey_starts(
    h: Seq<Exchange>,
    p: int,
    g: Seq<Exchange>,
    q: int,
    opts: OptionsView,
    cache: CacheView,
    later: CacheView,
    answers: Answers,
    s: SurveyView,
)
    requires
        survey::read_survey(h, p, opts).value == Ok::<_, ErrorView>(s),
        heard(h, p, scan::read_scan(h, p, opts, cache), answers),
        heard(g, q, scan::read_scan(g, q, opts, later), answers),
    ensures
        survey::read_survey(g, q, opts).value == Ok::<_, ErrorView>(s),
        survey::read_survey(g, q, opts).fits,
        q < survey::read_survey(g, q, opts).end,
        heard(
            h,
            survey::read_survey(h, p, opts).end,
            scan::read_verdicts(h, survey::read_survey(h, p, opts).end, s, cache),
            answers,
        ),
        heard(
            g,
            survey::read_survey(g, q, opts).end,
            scan::read_verdicts(g, survey::read_survey(g, q, opts).end, s, later),
            answers,
        ),
{
    let one = survey::read_survey(h, p, opts);
    let other = survey::read_survey(g, q, opts);
    lemma_verdicts_end(h, one.end, s, cache);
    if let Ok(t) = other.value {
        lemma_verdicts_end(g, other.end, t, later);
    }
    lemma_survey_repeats(h, p, g, q, opts, answers);
}

/// The command that asks for the patch of a branch as a whole is no other
/// command of a scan, and names the branch and its fork point.
proof fn lemma_squash_args(fork: Seq<char>, branch: Seq<char>)
    ensures
        probe::squash_args(fork, branch).len() == 18,
        probe::squash_args(fork, branch)[0] == "diff-tree"@,
        probe::squash_args(fork, branch)[16] == fork,
        probe::squash_args(fork, branch)[17] == branch,
        "diff-tree"@ != "merge-base"@,
        "diff-tree"@ != "log"@,
        "diff-tree"@ != "rev-list"@,
        "diff-tree"@ != "patch-id"@,
        "diff-tree"@ != "rev-parse"@,
        "diff-tree"@ != "for-each-ref"@,
{
    reveal_strlit("diff-tree");
    reveal_strlit("merge-base");
    reveal_strlit("log");
    reveal_strlit("rev-list");
    reveal_strlit("patch-id");
    reveal_strlit("rev-parse");
    reveal_strlit("for-each-ref");
    assert("diff-tree"@[0] == 'd');
    assert("rev-parse"@[0] == 'r');
}

/// Where a scan asks for the patch of a branch as a whole, a branch with that
/// fork point and that tip is being probed.
proof fn lemma_patch_is_of_a_probe(
    g: Seq<Exchange>,
    q: int,
    cache: CacheView,
    opts: OptionsView,
    s: SurveyView,
    b: PendingView,
    answers: Answers,
    i: int,
) -> (c: PendingView)
    requires
        survey::read_survey(g, q, opts).value == Ok::<_, ErrorView>(s),
        survey::read_survey(g, q, opts).fits,
        heard(
            g,
            survey::read_survey(g, q, opts).end,
            scan::read_verdicts(g, survey::read_survey(g, q, opts).end, s, cache),
            answers,
        ),
        is_forked(b),
        q <= i < scan::read_scan(g, q, opts, cache).end,
        g[i].args == probe::squash_args(b.fork->Ok_0->Some_0, b.branch.sha),
    ensures
        course::stages(g, survey::read_survey(g, q, opts).end, s, cache).asked.to_walk.contains(c),
        c.fork == b.fork,
        c.branch.sha == b.branch.sha,
{
    let base = s.base.sha;
    let n = survey::read_survey(g, q, opts).end;
    let t = course::stages(g, n, s, cache);
    let branches = verdicts::to_probe(s);
    let forks = verdicts::distinct_forks_of(t.asked.to_walk);
    lemma_stages(g, n, s, cache, answers);
    lemma_squash_args(b.fork->Ok_0->Some_0, b.branch.sha);
    if i < n {
        laws::lemma_survey_reads(g, q, opts, i);
        assert(false);
        b
    } else if i < n + branches.len() {
        let k = i - n;
        assert(git::is_ask(g, n + k, probe::merge_base_args(base, branches[k].sha)));
        assert(g[i].args[0] == "merge-base"@);
        b
    } else if i < t.walks.end {
        let w = laws::lemma_walks_pinned(g, n + branches.len(), base, forks, i);
        assert(g[i].args[0] == "log"@ || g[i].args[0] == "patch-id"@);
        b
    } else {
        let w = laws::lemma_probes_pinned(
            g,
            t.walks.end,
            base,
            t.asked.to_walk,
            t.walks.items,
            i,
        );
        let c = t.asked.to_walk[w];
        assert(t.asked.to_walk.contains(c));
        assert(laws::is_pinned(g[i], base, c));
        let fork = c.fork->Ok_0->Some_0;
        lemma_squash_args(fork, c.branch.sha);
        assert(probe::merge_base_args(base, c.branch.sha)[0] == "merge-base"@);
        assert(probe::log_args(fork, base)[0] == "log"@);
        assert(probe::log_args(fork, c.branch.sha)[0] == "log"@);
        assert(probe::merge_count_args(fork, c.branch.sha)[0] == "rev-list"@);
        assert(probe::commit_count_args(fork, c.branch.sha)[0] == "rev-list"@);
        assert(probe::patch_id_args()[0] == "patch-id"@);
        c
    }
}

/// What the second scan is made of.
proof fn lemma_scanned_twice(
    h: Seq<Exchange>,
    p: int,
    cache: CacheView,
    g: Seq<Exchange>,
    q: int,
    later: CacheView,
    opts: OptionsView,
    answers: Answers,
    s: SurveyView,
    first: ScanOutcome,
)
    requires
        scanned_twice(h, p, cache, g, q, later, opts, answers, s, first),
        keys_tell_apart(
            course::stages(h, survey::read_survey(h, p, opts).end, s, cache).pending,
            s.base.sha,
        ),
    ensures
        survey::read_survey(g, q, opts).value == Ok::<_, ErrorView>(s),
        survey::read_survey(g, q, opts).fits,
        q < survey::read_survey(g, q, opts).end,
        heard(
            h,
            survey::read_survey(h, p, opts).end,
            scan::read_verdicts(h, survey::read_survey(h, p, opts).end, s, cache),
            answers,
        ),
        heard(
            g,
            survey::read_survey(g, q, opts).end,
            scan::read_verdicts(g, survey::read_survey(g, q, opts).end, s, later),
            answers,
        ),
        ({
            let one = course::stages(h, survey::read_survey(h, p, opts).end, s, cache);
            let other = course::stages(g, survey::read_survey(g, q, opts).end, s, later);
            &&& one.pending == other.pending
            &&& is_settled(one.pending, s.base.sha, cache, later, answers)
            &&& other.asked.to_walk == unkept(one.asked.to_walk, s.base.sha, answers)
        }),
{
    let base = s.base.sha;
    let m = survey::read_survey(h, p, opts).end;
    let n = survey::read_survey(g, q, opts).end;
    let one = course::stages(h, m, s, cache);
    lemma_survey_starts(h, p, g, q, opts, cache, later, answers, s);
    lemma_stages(h, m, s, cache, answers);
    lemma_stages(g, n, s, later, answers);
    lemma_forks_again(h, m, g, n, base, verdicts::to_probe(s), answers);
    let forks = verdicts::distinct_forks_of(misses(one.pending, base, cache));
    lemma_settled(one.pending, base, cache, forks, later, answers);
    lemma_misses_again(one.pending, base, cache, later, answers);
}

// ---------------------------------------------------------------------------
// What holds of them.

/// A second scan of a repository that has not changed finds exactly what the
/// first one found, and warns of exactly what the first one warned of, though
/// it takes from the cache whatever the first one judged.
pub proof fn law_second_scan_finds_the_same(
    h: Seq<Exchange>,
    p: int,
    cache: CacheView,
    g: Seq<Exchange>,
    q: int,
    later: CacheView,
    opts: OptionsView,
    answers: Answers,
    s: SurveyView,
    first: ScanOutcome,
)
    requires
        scanned_twice(h, p, cache, g, q, later, opts, answers, s, first),
        is_listed_well(
            s,
            course::stages(h, survey::read_survey(h, p, opts).end, s, cache).pending,
            cache,
        ),
    ensures
        scan::read_scan(g, q, opts, later).value is Ok,
        scan::read_scan(g, q, opts, later).value->Ok_0.found == first.found,
{
    let base = s.base.sha;
    let m = survey::read_survey(h, p, opts).end;
    let n = survey::read_survey(g, q, opts).end;
    let one = course::stages(h, m, s, cache);
    lemma_scanned_twice(h, p, cache, g, q, later, opts, answers, s, first);
    lemma_stages(h, m, s, cache, answers);
    lemma_stages(g, n, s, later, answers);
    let open = misses(one.pending, base, cache);
    let few = unkept(open, base, answers);
    if cache == CacheView::empty() {
        lemma_all_missed(one.pending, base);
    } else {
        let branches = verdicts::to_probe(s);
        lemma_unmerged_once(s.examinable, s.merged);
        assert forall|i: int, j: int| 0 <= i < j < one.pending.len() implies (
        #[trigger] one.pending[i]).branch.refname != (
        #[trigger] one.pending[j]).branch.refname by {
            assert(branches[i].refname != branches[j].refname);
        }
    }
    lemma_verdicts_again(one.pending, base, cache, later, answers);
    lemma_unkept(open, base, answers);
    assert forall|k: int| 0 <= k < few.len() implies !is_kept(#[trigger] few[k], base, answers) by {
        assert(few.contains(few[k]));
    }
    lemma_no_verdicts(hits(one.pending, base, later), few, base, answers);
    lemma_probe_warnings_again(open, base, answers);
    lemma_walk_warnings_again(open, base, answers);
}

/// The probe gave the branch a verdict, or showed that it has none: its fork
/// point is known, the base was walked from there, and nothing failed.
pub open spec fn is_judged(b: ProbedView, walks: Seq<WalkView>) -> bool {
    b.outcome is Ok && is_forked(b.pending) && verdicts::ids_since(
        walks,
        b.pending.fork->Ok_0->Some_0,
    ) is Some
}

/// The second scan looks again at exactly those branches that the first one
/// could not judge, and what failed of them fails again. For a branch that the
/// first scan judged, or found judged, it asks for no patch.
pub proof fn law_second_scan_probes_what_was_not_judged(
    h: Seq<Exchange>,
    p: int,
    cache: CacheView,
    g: Seq<Exchange>,
    q: int,
    later: CacheView,
    opts: OptionsView,
    answers: Answers,
    s: SurveyView,
    first: ScanOutcome,
)
    requires
        scanned_twice(h, p, cache, g, q, later, opts, answers, s, first),
        keys_tell_apart(
            course::stages(h, survey::read_survey(h, p, opts).end, s, cache).pending,
            s.base.sha,
        ),
    ensures
        survey::read_survey(g, q, opts).value == Ok::<_, ErrorView>(s),
        ({
            let one = course::stages(h, survey::read_survey(h, p, opts).end, s, cache);
            let other = course::stages(g, survey::read_survey(g, q, opts).end, s, later);
            &&& other.pending == one.pending
            &&& forall|b: PendingView| #[trigger]
                other.asked.to_walk.contains(b) ==> one.asked.to_walk.contains(b)
            &&& forall|k: int|
                0 <= k < one.probes.items.len() ==> (is_judged(
                    #[trigger] one.probes.items[k],
                    one.walks.items,
                ) <==> !other.asked.to_walk.contains(one.probes.items[k].pending))
            &&& forall|k: int|
                0 <= k < one.probes.items.len() && (#[trigger] one.probes.items[k]).outcome is Err
                    ==> other.probes.items.contains(one.probes.items[k])
            &&& forall|k: int, i: int|
                0 <= k < one.pending.len() && is_forked(#[trigger] one.pending[k])
                    && !other.asked.to_walk.contains(one.pending[k]) && q <= i < scan::read_scan(
                    g,
                    q,
                    opts,
                    later,
                ).end ==> (#[trigger] g[i]).args != probe::squash_args(
                    one.pending[k].fork->Ok_0->Some_0,
                    one.pending[k].branch.sha,
                )
        }),
{
    let base = s.base.sha;
    let m = survey::read_survey(h, p, opts).end;
    let n = survey::read_survey(g, q, opts).end;
    let one = course::stages(h, m, s, cache);
    let other = course::stages(g, n, s, later);
    lemma_scanned_twice(h, p, cache, g, q, later, opts, answers, s, first);
    lemma_stages(h, m, s, cache, answers);
    lemma_stages(g, n, s, later, answers);
    let open = misses(one.pending, base, cache);
    let few = unkept(open, base, answers);
    lemma_unkept(open, base, answers);
    assert(forall|b: PendingView| #[trigger]
        other.asked.to_walk.contains(b) ==> one.asked.to_walk.contains(b));
    assert forall|k: int| 0 <= k < one.probes.items.len() implies (is_judged(
        #[trigger] one.probes.items[k],
        one.walks.items,
    ) <==> !other.asked.to_walk.contains(one.probes.items[k].pending)) by {
        let b = open[k];
        assert(one.probes.items[k].pending == b);
        assert(open.contains(b));
        assert(few.contains(b) <==> open.contains(b) && !is_kept(b, base, answers));
        if is_forked(b) {
            lemma_ids_of_walk(
                base,
                verdicts::distinct_forks_of(open),
                answers,
                b.fork->Ok_0->Some_0,
            );
        }
    }
    assert forall|k: int| 0 <= k < one.probes.items.len() && (
    #[trigger] one.probes.items[k]).outcome is Err implies other.probes.items.contains(
        one.probes.items[k],
    ) by {
        let b = open[k];
        assert(open.contains(b));
        assert(few.contains(b));
        let j = choose|j: int| 0 <= j < few.len() && few[j] == b;
        assert(other.probes.items[j] == one.probes.items[k]);
    }
    assert forall|k: int, i: int|
        0 <= k < one.pending.len() && is_forked(#[trigger] one.pending[k])
            && !other.asked.to_walk.contains(one.pending[k]) && q <= i < scan::read_scan(
            g,
            q,
            opts,
            later,
        ).end implies (#[trigger] g[i]).args != probe::squash_args(
        one.pending[k].fork->Ok_0->Some_0,
        one.pending[k].branch.sha,
    ) by {
        let b = one.pending[k];
        if g[i].args == probe::squash_args(b.fork->Ok_0->Some_0, b.branch.sha) {
            let c = lemma_patch_is_of_a_probe(g, q, later, opts, s, b, answers, i);
            lemma_misses(one.pending, base, later);
            lemma_consulted(one.pending, base, later);
            assert(other.asked.to_walk.contains(c));
            assert(is_missed(c, base, later));
            assert(key_for(c, base) == key_for(b, base));
            assert(one.pending.contains(b)) by {
                assert(one.pending[k] == b);
            }
            assert(other.asked.to_walk.contains(b));
        }
    }
}

/// Whatever a lookup finds is marked as used.
proof fn lemma_hits_are_live(list: Seq<PendingView>, base: Seq<char>, cache: CacheView)
    ensures
        forall|k: int|
            0 <= k < list.len() && !is_missed(#[trigger] list[k], base, cache)
                ==> verdicts::consulted(list, base, cache).cache.live.contains(
                key_for(list[k], base),
            ),
    decreases list.len(),
{
    if list.len() > 0 {
        let rest = list.drop_last();
        lemma_hits_are_live(rest, base, cache);
        lemma_consulted(rest, base, cache);
        assert forall|k: int|
            0 <= k < list.len() && !is_missed(#[trigger] list[k], base, cache) implies
            verdicts::consulted(list, base, cache).cache.live.contains(
            key_for(list[k], base),
        ) by {
            if k < rest.len() {
                assert(rest[k] == list[k]);
            }
        }
    }
}

/// Whatever is added is marked as used.
proof fn lemma_remembered_is_live(
    cache: CacheView,
    base: Seq<char>,
    items: Seq<ProbedView>,
    walks: Seq<WalkView>,
)
    ensures
        forall|key: Seq<char>|
            cache.live.contains(key) || #[trigger] verdicts::remembered(
                cache,
                base,
                items,
                walks,
            ).lookup(key) != cache.lookup(key) ==> verdicts::remembered(
                cache,
                base,
                items,
                walks,
            ).live.contains(key),
    decreases items.len(),
{
    if items.len() > 0 {
        let rest = items.drop_last();
        lemma_remembered_is_live(cache, base, rest, walks);
        let earlier = verdicts::remembered(cache, base, rest, walks);
        let now = verdicts::remembered(cache, base, items, walks);
        assert forall|key: Seq<char>|
            cache.live.contains(key) || #[trigger] now.lookup(key) != cache.lookup(
                key,
            ) implies now.live.contains(key) by {
            assert(earlier.lookup(key) != cache.lookup(key) || cache.live.contains(key)
                ==> earlier.live.contains(key));
        }
    }
}

/// What a scan leaves in its cache survives to the next run of the program:
/// the table that is written back gives, when it is loaded again, the same
/// verdict for every branch. The laws of a second scan hold across runs, then.
pub proof fn law_next_run_starts_where_this_one_ended(
    h: Seq<Exchange>,
    p: int,
    s: SurveyView,
    cache: CacheView,
    first: ScanOutcome,
)
    requires
        laws::is_sound(cache),
        scan::read_verdicts(h, p, s, cache).value == Ok::<_, ErrorView>(first),
    ensures
        same_lookups(
            course::stages(h, p, s, cache).pending,
            s.base.sha,
            first.cache,
            CacheView::loaded(cache::VERSION, first.cache.saved()),
        ),
{
    let base = s.base.sha;
    let t = course::stages(h, p, s, cache);
    laws::law_cache_stays_sound(h, p, s, cache, first);
    reveal(scan::read_verdicts);
    lemma_consulted(t.pending, base, cache);
    lemma_hits_are_live(t.pending, base, cache);
    lemma_remembered_is_live(t.asked.cache, base, t.probes.items, t.walks.items);
    assert forall|k: int| 0 <= k < t.pending.len() && is_forked(#[trigger] t.pending[k]) implies
        CacheView::loaded(cache::VERSION, first.cache.saved()).lookup(key_for(t.pending[k], base))
        == first.cache.lookup(key_for(t.pending[k], base)) by {
        let key = key_for(t.pending[k], base);
        assert(t.asked.cache.lookup(key) == cache.lookup(key));
        cache::law_next_run_finds_what_this_one_used(first.cache, key);
    }
}

} // verus!
