//! What a verdict rests on: the commands that were asked, and what git said.

use vstd::hash_set::StringHashSet;
use vstd::prelude::*;

use crate::cache::CacheView;
use crate::git::{self, Error, ErrorView, Exchange, Git};
use crate::scan::probe;
use crate::scan::refs::RawBranchView;
use crate::scan::survey;
use crate::scan::verdicts::{self, PendingView, ProbedView, WalkView};
use crate::scan::{self, MergeKind, OptionsView};
use crate::text;

verus! {

/// `args` begins with `first`, ends with `last`, and between them says how a
/// diff is rendered, every knob of it.
pub open spec fn is_rendered(
    args: Seq<Seq<char>>,
    first: Seq<Seq<char>>,
    last: Seq<Seq<char>>,
) -> bool {
    args == first + seq![
        "--no-color"@,
        "--no-ext-diff"@,
        "--no-textconv"@,
        "--no-renames"@,
        "--no-relative"@,
        "--full-index"@,
        "--diff-algorithm=myers"@,
        "-U3"@,
        "--inter-hunk-context=0"@,
        "--src-prefix=a/"@,
        "--dst-prefix=b/"@,
        "--submodule=short"@,
        "--ignore-submodules=none"@,
    ] + last
}

/// The patches of every single commit that `to` has and `from` has not are
/// asked for at `i`.
pub open spec fn asks_patches(h: Seq<Exchange>, i: int, from: Seq<char>, to: Seq<char>) -> bool {
    &&& git::is_ask(h, i, h[i].args)
    &&& is_rendered(h[i].args, seq!["log"@, "-p"@, "--no-merges"@], seq![from + ".."@ + to])
}

/// Everything between the two commits is asked for as one patch at `i`.
pub open spec fn asks_one_patch(h: Seq<Exchange>, i: int, from: Seq<char>, to: Seq<char>) -> bool {
    &&& git::is_ask(h, i, h[i].args)
    &&& is_rendered(h[i].args, seq!["diff-tree"@, "-p"@, "-r"@], seq![from, to])
}

/// The number of merge commits between the two is asked for at `i`.
pub open spec fn asks_merges(h: Seq<Exchange>, i: int, from: Seq<char>, to: Seq<char>) -> bool {
    git::is_ask(
        h,
        i,
        seq!["rev-list"@, "--min-parents=2"@, "--count"@, from + ".."@ + to],
    )
}

/// The number of other commits between the two is asked for at `i`.
pub open spec fn asks_commits(h: Seq<Exchange>, i: int, from: Seq<char>, to: Seq<char>) -> bool {
    git::is_ask(h, i, seq!["rev-list"@, "--no-merges"@, "--count"@, from + ".."@ + to])
}

/// The output of the command at `i` was piped into `git patch-id` right behind
/// it.
pub open spec fn is_identified(h: Seq<Exchange>, i: int) -> bool {
    &&& h[i].reply is Ok
    &&& git::is_feed(h, i + 1, seq!["patch-id"@, "--stable"@], h[i].reply->Ok_0.1)
    &&& h[i + 1].reply is Ok
}

/// The ids that the `git patch-id` at `i` printed: the first word of each
/// line.
pub open spec fn ids_at(h: Seq<Exchange>, i: int) -> Seq<Seq<char>> {
    probe::first_words(text::lines(h[i].reply->Ok_0.1))
}

/// The ids of what the command at `i` printed: none if that is blank, and
/// otherwise those that the `git patch-id` behind it printed.
pub open spec fn ids_from(h: Seq<Exchange>, i: int) -> Seq<Seq<char>> {
    if text::blank(h[i].reply->Ok_0.1) {
        Seq::empty()
    } else {
        ids_at(h, i + 1)
    }
}

/// The ids of a printed patch list are the first words of its lines, in order,
/// without the blank lines.
pub proof fn law_ids_are_first_words(first: Seq<Seq<char>>, second: Seq<Seq<char>>)
    ensures
        probe::first_words(first + second) == probe::first_words(first) + probe::first_words(
            second,
        ),
        first.len() == 1 ==> probe::first_words(first) == match text::first_word(first[0]) {
            Some(w) => seq![w],
            None => Seq::<Seq<char>>::empty(),
        },
        first.len() == 0 ==> probe::first_words(first).len() == 0,
        forall|i: int|
            0 <= i < first.len() && text::first_word(#[trigger] first[i]) is Some
                ==> probe::first_words(first).contains(text::first_word(first[i])->Some_0),
    decreases first.len() + second.len(),
{
    let all = first + second;
    if second.len() == 0 {
        assert(all =~= first);
        assert(probe::first_words(first) + probe::first_words(second) =~= probe::first_words(first));
        if first.len() > 0 {
            let rest = first.drop_last();
            let none = Seq::<Seq<char>>::empty();
            law_ids_are_first_words(rest, none);
            let words = probe::first_words(first);
            let earlier = probe::first_words(rest);
            if first.len() == 1 {
                assert(earlier =~= none);
                assert(first[0] == first.last());
                match text::first_word(first[0]) {
                    Some(w) => {
                        assert(words =~= seq![w]);
                    },
                    None => {},
                }
            }
            assert forall|i: int|
                0 <= i < first.len() && text::first_word(#[trigger] first[i]) is Some implies
                words.contains(text::first_word(first[i])->Some_0) by {
                let w = text::first_word(first[i])->Some_0;
                if i < rest.len() {
                    assert(rest[i] == first[i]);
                    assert(earlier.contains(w));
                    let k = choose|k: int| 0 <= k < earlier.len() && earlier[k] == w;
                    assert(words[k] == w);
                } else {
                    assert(words.last() == w);
                    assert(words[words.len() - 1] == w);
                }
            }
        }
    } else {
        law_ids_are_first_words(first, second.drop_last());
        assert(all.drop_last() =~= first + second.drop_last());
        assert(all.last() == second.last());
        assert(probe::first_words(all) =~= probe::first_words(first) + probe::first_words(second));
    }
}

/// A branch is taken for rebased only if each of its commits landed: it has no
/// merge commit, at least one other, one patch id for each of those, and every
/// one of these ids, whatever its place, is among those of the base.
pub proof fn law_rebase_needs_every_commit(
    h: Seq<Exchange>,
    p: int,
    branch: Seq<char>,
    fork: Seq<char>,
    upstream: Set<Seq<char>>,
) -> (k: int)
    requires
        probe::read_probe(h, p, branch, fork, upstream).fits,
        probe::read_probe(h, p, branch, fork, upstream).value == Ok::<_, ErrorView>(
            Some(MergeKind::Rebase),
        ),
    ensures
        p < k,
        probe::read_probe(h, p, branch, fork, upstream).end == k + 4,
        asks_merges(h, k, fork, branch),
        h[k].reply is Ok,
        text::trim(h[k].reply->Ok_0.1) == "0"@,
        asks_patches(h, k + 1, fork, branch),
        is_identified(h, k + 1),
        forall|i: int|
            0 <= i < ids_at(h, k + 2).len() ==> upstream.contains(#[trigger] ids_at(h, k + 2)[i]),
        forall|i: int|
            0 <= i < text::lines(h[k + 2].reply->Ok_0.1).len() && text::first_word(
                #[trigger] text::lines(h[k + 2].reply->Ok_0.1)[i],
            ) is Some ==> upstream.contains(
                text::first_word(text::lines(h[k + 2].reply->Ok_0.1)[i])->Some_0,
            ),
        asks_commits(h, k + 3, fork, branch),
        h[k + 3].reply is Ok,
        text::parse_usize(text::trim(h[k + 3].reply->Ok_0.1)) == Some(ids_at(h, k + 2).len() as usize),
        ids_at(h, k + 2).len() > 0,
{
    let patch = probe::read_printed_ids(h, p, probe::squash_args(fork, branch));
    let k = patch.end;
    let lines = text::lines(h[k + 2].reply->Ok_0.1);
    let ids = ids_at(h, k + 2);
    assert(h[k + 1].args =~= probe::log_args(fork, branch));
    law_ids_are_first_words(lines, Seq::empty());
    assert forall|i: int|
        0 <= i < lines.len() && text::first_word(#[trigger] lines[i]) is Some implies
        upstream.contains(text::first_word(lines[i])->Some_0) by {
        let w = text::first_word(lines[i])->Some_0;
        assert(ids.contains(w));
        let j = choose|j: int| 0 <= j < ids.len() && ids[j] == w;
        assert(upstream.contains(ids[j]));
    }
    k
}

/// A branch is taken for squashed only if it landed as a whole: the id of
/// everything since the fork point as one patch is among those of the base.
pub proof fn law_squash_needs_the_whole(
    h: Seq<Exchange>,
    p: int,
    branch: Seq<char>,
    fork: Seq<char>,
    upstream: Set<Seq<char>>,
)
    requires
        probe::read_probe(h, p, branch, fork, upstream).fits,
        probe::read_probe(h, p, branch, fork, upstream).value == Ok::<_, ErrorView>(
            Some(MergeKind::Squash),
        ),
    ensures
        probe::read_probe(h, p, branch, fork, upstream).end == p + 2,
        asks_one_patch(h, p, fork, branch),
        is_identified(h, p),
        ids_at(h, p + 1).len() > 0,
        upstream.contains(ids_at(h, p + 1)[0]),
{
    assert(h[p].args =~= probe::squash_args(fork, branch));
}

/// The other way round: a branch that landed as a whole is found. Against a
/// base that gained no patch nothing is asked; otherwise the branch as one
/// patch is, and it is squashed exactly if the id of that is one of the base.
pub proof fn law_a_landed_whole_is_found(
    h: Seq<Exchange>,
    p: int,
    branch: Seq<char>,
    fork: Seq<char>,
    upstream: Set<Seq<char>>,
)
    requires
        probe::read_probe(h, p, branch, fork, upstream).fits,
        probe::read_probe(h, p, branch, fork, upstream).value is Ok,
    ensures
        ({
            let run = probe::read_probe(h, p, branch, fork, upstream);
            let ids = ids_from(h, p);
            &&& upstream == Set::<Seq<char>>::empty() ==> run.end == p && run.value->Ok_0 is None
            &&& upstream != Set::<Seq<char>>::empty() ==> asks_one_patch(h, p, fork, branch)
                && h[p].reply is Ok && (text::blank(h[p].reply->Ok_0.1) || is_identified(h, p)) && (
            run.value->Ok_0 == Some(MergeKind::Squash) <==> ids.len() > 0 && upstream.contains(
                ids[0],
            ))
        }),
{
    if upstream.is_empty() {
        assert(upstream =~= Set::empty());
    } else {
        assert(h[p].args =~= probe::squash_args(fork, branch));
        let patch = probe::read_printed_ids(h, p, probe::squash_args(fork, branch));
        assert(patch.value == Ok::<_, ErrorView>(ids_from(h, p)));
    }
}

/// And so is one whose commits landed one by one: a branch that was not
/// squashed is rebased unless it has a merge commit, no other commit, a commit
/// without an id, or an id that the base has not.
pub proof fn law_landed_commits_are_found(
    h: Seq<Exchange>,
    p: int,
    branch: Seq<char>,
    fork: Seq<char>,
    upstream: Set<Seq<char>>,
) -> (k: int)
    requires
        probe::read_probe(h, p, branch, fork, upstream).fits,
        probe::read_probe(h, p, branch, fork, upstream).value is Ok,
        probe::read_probe(h, p, branch, fork, upstream).value->Ok_0 != Some(MergeKind::Squash),
        upstream != Set::<Seq<char>>::empty(),
    ensures
        p < k,
        asks_merges(h, k, fork, branch),
        h[k].reply is Ok,
        text::trim(h[k].reply->Ok_0.1) != "0"@ ==> probe::read_probe(
            h,
            p,
            branch,
            fork,
            upstream,
        ).end == k + 1 && probe::read_probe(h, p, branch, fork, upstream).value->Ok_0 is None,
        text::trim(h[k].reply->Ok_0.1) == "0"@ ==> ({
            let run = probe::read_probe(h, p, branch, fork, upstream);
            let n = run.end - 1;
            let ids = ids_from(h, k + 1);
            let commits = text::parse_usize(text::trim(h[n].reply->Ok_0.1));
            let landed = ids.len() > 0 && commits is Some && commits->Some_0 == ids.len() && forall|
                i: int,
            |
                0 <= i < ids.len() ==> upstream.contains(#[trigger] ids[i]);
            &&& asks_patches(h, k + 1, fork, branch)
            &&& h[k + 1].reply is Ok
            &&& text::blank(h[k + 1].reply->Ok_0.1) && n == k + 2 || is_identified(h, k + 1) && n
                == k + 3
            &&& asks_commits(h, n, fork, branch)
            &&& h[n].reply is Ok
            &&& run.value->Ok_0 == if landed {
                Some(MergeKind::Rebase)
            } else {
                None
            }
        }),
{
    let patch = probe::read_printed_ids(h, p, probe::squash_args(fork, branch));
    assert(!upstream.is_empty()) by {
        if upstream.is_empty() {
            assert(upstream =~= Set::empty());
        }
    }
    let k = patch.end;
    let run = probe::read_probe(h, p, branch, fork, upstream);
    if text::trim(h[k].reply->Ok_0.1) == "0"@ {
        assert(h[k + 1].args =~= probe::log_args(fork, branch));
        let ids = probe::read_printed_ids(h, k + 1, probe::log_args(fork, branch));
        assert(ids.value == Ok::<_, ErrorView>(ids_from(h, k + 1)));
        assert(run.end == ids.end + 1);
    }
    k
}

/// A probe fails only where a command of it failed, with the error of that
/// command, and asks nothing behind it.
pub proof fn law_a_failed_probe_has_a_failed_command(
    h: Seq<Exchange>,
    p: int,
    branch: Seq<char>,
    fork: Seq<char>,
    upstream: Set<Seq<char>>,
)
    ensures
        ({
            let run = probe::read_probe(h, p, branch, fork, upstream);
            &&& run.value is Err ==> p < run.end && h[run.end - 1].reply == Err::<
                (bool, Seq<char>),
                _,
            >(run.value->Err_0)
        }),
{
}

/// Where a branch parted from the base is asked of `git merge-base`, about the
/// two shas; a refusal means that they share no history.
pub proof fn law_fork_points_are_merge_bases(
    h: Seq<Exchange>,
    p: int,
    base: Seq<char>,
    branch: Seq<char>,
)
    ensures
        ({
            let run = probe::read_merge_base(h, p, base, branch);
            &&& run.fits <==> git::is_ask(h, p, seq!["merge-base"@, base, branch])
            &&& run.end == p + 1
            &&& run.value == match h[p].reply {
                Ok((true, out)) => Ok(Some(text::trim(out))),
                Ok((false, _)) => Ok(None),
                Err(e) => Err(e),
            }
        }),
{
}

/// The patches of the base are those of every single commit that it gained
/// since the fork point: an id is among them exactly if `git patch-id` printed
/// it for one of them.
pub proof fn law_the_base_is_known_by_its_gains(
    h: Seq<Exchange>,
    p: int,
    base: Seq<char>,
    fork: Seq<char>,
)
    requires
        probe::read_upstream(h, p, base, fork).fits,
    ensures
        asks_patches(h, p, fork, base),
        ({
            let run = probe::read_upstream(h, p, base, fork);
            match h[p].reply {
                Err(e) => run.end == p + 1 && run.value == Err::<Set<Seq<char>>, _>(e),
                Ok((_, out)) => if text::blank(out) {
                    run.end == p + 1 && run.value == Ok::<_, ErrorView>(Set::<Seq<char>>::empty())
                } else {
                    &&& run.end == p + 2
                    &&& git::is_feed(h, p + 1, seq!["patch-id"@, "--stable"@], out)
                    &&& h[p + 1].reply is Err ==> run.value == Err::<Set<Seq<char>>, _>(
                        h[p + 1].reply->Err_0,
                    )
                    &&& h[p + 1].reply is Ok ==> run.value is Ok && forall|id: Seq<char>| #[trigger]
                        run.value->Ok_0.contains(id) <==> ids_at(h, p + 1).contains(id)
                },
            }
        }),
{
    assert(h[p].args =~= probe::log_args(fork, base));
    let run = probe::read_upstream(h, p, base, fork);
    if let Ok((_, out)) = h[p].reply {
        if text::blank(out) {
            assert(Seq::<Seq<char>>::empty().to_set() =~= Set::empty());
        }
    }
}

/// What becomes of a branch that the cache does not know: an unknown fork
/// point is its error, no common history or a walk that failed leaves it
/// without a verdict, and otherwise the probe against the walk from its own
/// fork point decides.
pub proof fn law_each_branch_is_probed_from_its_fork(
    h: Seq<Exchange>,
    p: int,
    b: PendingView,
    walks: Seq<WalkView>,
)
    ensures
        ({
            let run = verdicts::read_pending(h, p, b, walks);
            match b.fork {
                Err(e) => run.fits && run.end == p && run.value == Err::<Option<MergeKind>, _>(e),
                Ok(None) => run.fits && run.end == p && run.value == Ok::<_, ErrorView>(None::<MergeKind>),
                Ok(Some(fork)) => {
                    &&& (forall|k: int|
                        0 <= k < walks.len() && (#[trigger] walks[k]).fork == fork
                            ==> walks[k].ids is Err) ==> run.fits && run.end == p && run.value
                        == Ok::<_, ErrorView>(None::<MergeKind>)
                    &&& forall|k: int|
                        0 <= k < walks.len() && (#[trigger] walks[k]).fork == fork
                            && walks[k].ids is Ok && (forall|j: int|
                            k < j < walks.len() ==> (#[trigger] walks[j]).fork != fork) ==> run
                            == probe::read_probe(
                            h,
                            p,
                            b.branch.sha,
                            fork,
                            walks[k].ids->Ok_0,
                        )
                },
            }
        }),
{
    if let Ok(Some(fork)) = b.fork {
        lemma_ids_since(walks, fork);
    }
}

proof fn lemma_ids_since(walks: Seq<WalkView>, fork: Seq<char>)
    ensures
        (forall|k: int|
            0 <= k < walks.len() && (#[trigger] walks[k]).fork == fork ==> walks[k].ids is Err)
            ==> verdicts::ids_since(walks, fork) is None,
        forall|k: int|
            0 <= k < walks.len() && (#[trigger] walks[k]).fork == fork && walks[k].ids is Ok && (
            forall|j: int| k < j < walks.len() ==> (#[trigger] walks[j]).fork != fork)
                ==> verdicts::ids_since(walks, fork) == Some(walks[k].ids->Ok_0),
    decreases walks.len(),
{
    if walks.len() > 0 {
        let rest = walks.drop_last();
        lemma_ids_since(rest, fork);
        assert(walks[walks.len() - 1] == walks.last());
        if forall|k: int|
            0 <= k < walks.len() && (#[trigger] walks[k]).fork == fork ==> walks[k].ids is Err {
            assert forall|k: int|
                0 <= k < rest.len() && (#[trigger] rest[k]).fork == fork implies rest[k].ids
                is Err by {
                assert(walks[k] == rest[k]);
            }
        }
        assert forall|k: int|
            0 <= k < walks.len() && (#[trigger] walks[k]).fork == fork && walks[k].ids is Ok && (
            forall|j: int| k < j < walks.len() ==> (#[trigger] walks[j]).fork != fork) implies
            verdicts::ids_since(walks, fork) == Some(walks[k].ids->Ok_0) by {
            if k < rest.len() {
                assert(walks[walks.len() - 1].fork != fork);
                assert(rest[k] == walks[k]);
                assert forall|j: int| k < j < rest.len() implies (#[trigger] rest[j]).fork
                    != fork by {
                    assert(walks[j] == rest[j]);
                }
            }
        }
    }
}

/// Every branch that may be probed is asked for where it parted from the base,
/// one after another, and keeps the answer.
pub proof fn law_every_branch_has_its_fork_asked(
    h: Seq<Exchange>,
    p: int,
    base: Seq<char>,
    branches: Seq<RawBranchView>,
    i: int,
)
    requires
        verdicts::forks_fit(h, p, base, branches),
        0 <= i < branches.len(),
    ensures
        git::is_ask(h, p + i, seq!["merge-base"@, base, branches[i].sha]),
        verdicts::with_forks(h, p, base, branches).len() == branches.len(),
        verdicts::with_forks(h, p, base, branches)[i].branch == branches[i],
        verdicts::with_forks(h, p, base, branches)[i].fork == match h[p + i].reply {
            Ok((true, out)) => Ok(Some(text::trim(out))),
            Ok((false, _)) => Ok(None),
            Err(e) => Err(e),
        },
{
    assert(h[p + i].args =~= probe::merge_base_args(base, branches[i].sha));
}

/// The walks are made one after another, each from its own fork point, and
/// each keeps what came of it.
pub proof fn law_a_walk_per_fork(
    h: Seq<Exchange>,
    p: int,
    base: Seq<char>,
    first: Seq<Seq<char>>,
    fork: Seq<char>,
)
    ensures
        ({
            let earlier = verdicts::read_walks(h, p, base, first);
            let all = verdicts::read_walks(h, p, base, first.push(fork));
            let run = probe::read_upstream(h, earlier.end, base, fork);
            &&& all.fits <==> earlier.fits && run.fits
            &&& all.end == run.end
            &&& all.items == earlier.items.push(WalkView { fork, ids: run.value })
        }),
        verdicts::read_walks(h, p, base, Seq::empty()).fits,
        verdicts::read_walks(h, p, base, Seq::empty()).end == p,
        verdicts::read_walks(h, p, base, Seq::empty()).items.len() == 0,
{
    assert(first.push(fork).drop_last() =~= first);
}

/// The branches are probed one after another, each on its own, and each keeps
/// what came of it.
pub proof fn law_a_probe_per_branch(
    h: Seq<Exchange>,
    p: int,
    first: Seq<PendingView>,
    b: PendingView,
    walks: Seq<WalkView>,
)
    ensures
        ({
            let earlier = verdicts::read_probes(h, p, first, walks);
            let all = verdicts::read_probes(h, p, first.push(b), walks);
            let run = verdicts::read_pending(h, earlier.end, b, walks);
            &&& all.fits <==> earlier.fits && run.fits
            &&& all.end == run.end
            &&& all.items == earlier.items.push(ProbedView { pending: b, outcome: run.value })
        }),
        verdicts::read_probes(h, p, Seq::empty(), walks).fits,
        verdicts::read_probes(h, p, Seq::empty(), walks).end == p,
        verdicts::read_probes(h, p, Seq::empty(), walks).items.len() == 0,
{
    assert(first.push(b).drop_last() =~= first);
}

/// A scan from end to end: the survey; where each branch to be probed parted
/// from the base; the walks from the fork points of those that the cache does
/// not know; and their probes. What it reports and what it remembers follow
/// from these and from nothing else, and only the survey can fail it.
pub proof fn law_the_stages_of_a_scan(
    h: Seq<Exchange>,
    p: int,
    opts: OptionsView,
    cache: CacheView,
)
    requires
        scan::read_scan(h, p, opts, cache).fits,
    ensures
        survey::read_survey(h, p, opts).fits,
        survey::read_survey(h, p, opts).value is Err ==> scan::read_scan(h, p, opts, cache).value
            == Err::<scan::ScanOutcome, _>(survey::read_survey(h, p, opts).value->Err_0),
        survey::read_survey(h, p, opts).value is Ok ==> scan::read_scan(h, p, opts, cache).value
            is Ok && ({
            let s = survey::read_survey(h, p, opts).value->Ok_0;
            let q = survey::read_survey(h, p, opts).end;
            let branches = verdicts::to_probe(s);
            let pending = verdicts::with_forks(h, q, s.base.sha, branches);
            let c = verdicts::consulted(pending, s.base.sha, cache);
            let forks = verdicts::distinct_forks_of(c.to_walk);
            let walks = verdicts::read_walks(h, q + branches.len(), s.base.sha, forks);
            let probes = verdicts::read_probes(h, walks.end, c.to_walk, walks.items);
            let out = scan::read_scan(h, p, opts, cache).value->Ok_0;
            &&& verdicts::forks_fit(h, q, s.base.sha, branches) && walks.fits && probes.fits
            &&& scan::read_scan(h, p, opts, cache).end == probes.end
            &&& out.found.base == s.base
            &&& out.found == verdicts::concluded(s, c.known, c.to_walk, walks.items, probes.items)
            &&& out.cache == verdicts::remembered(
                c.cache,
                s.base.sha,
                probes.items,
                walks.items,
            )
            &&& out.examined == s.examinable.len()
        }),
{
    reveal(scan::read_verdicts);
}

/// What `probe_branch` hands back: "rebase" only if every id that git printed
/// for the commits of the branch is one of the base; "squash" only if the id
/// of the branch as one patch is; and never any other kind.
pub proof fn law_a_probe_finds_what_landed<G: Git>(
    git: &mut G,
    branch_sha: &str,
    merge_base: &str,
    upstream_ids: &StringHashSet,
    r: Result<Option<MergeKind>, Error>,
)
    requires
        call_ensures(probe::probe_branch::<G>, (git, branch_sha, merge_base, upstream_ids), r),
    ensures
        ({
            let h = final(git).history();
            let p = old(git).history().len() as int;
            let n = h.len() as int;
            &&& r is Ok && r->Ok_0 == Some(MergeKind::Rebase) ==> {
                &&& n >= p + 4
                &&& asks_patches(h, n - 3, merge_base@, branch_sha@)
                &&& is_identified(h, n - 3)
                &&& ids_at(h, n - 2).len() > 0
                &&& forall|i: int|
                    0 <= i < ids_at(h, n - 2).len() ==> upstream_ids@.contains(
                        #[trigger] ids_at(h, n - 2)[i],
                    )
            }
            &&& r is Ok && r->Ok_0 == Some(MergeKind::Squash) ==> {
                &&& n == p + 2
                &&& asks_one_patch(h, p, merge_base@, branch_sha@)
                &&& is_identified(h, p)
                &&& ids_at(h, p + 1).len() > 0
                &&& upstream_ids@.contains(ids_at(h, p + 1)[0])
            }
            &&& r is Ok && r->Ok_0 is Some ==> r->Ok_0 == Some(MergeKind::Rebase) || r->Ok_0
                == Some(MergeKind::Squash)
        }),
{
    let h = final(git).history();
    let p = old(git).history().len() as int;
    if r is Ok && r->Ok_0 == Some(MergeKind::Rebase) {
        let k = law_rebase_needs_every_commit(h, p, branch_sha@, merge_base@, upstream_ids@);
        assert(k + 4 == h.len());
    }
    if r is Ok && r->Ok_0 == Some(MergeKind::Squash) {
        law_squash_needs_the_whole(h, p, branch_sha@, merge_base@, upstream_ids@);
    }
}

/// What the contracts of the probes say of a result is what it holds: an
/// answer is that answer, and an error is that error.
pub proof fn law_answers_are_seen_as_they_are(
    ids: Result<Vec<String>, Error>,
    verdict: Result<Option<MergeKind>, Error>,
    set: Result<StringHashSet, Error>,
    fork: Result<Option<String>, Error>,
)
    ensures
        ids is Ok ==> probe::ids_result(ids) == Ok::<_, ErrorView>(ids->Ok_0.deep_view()),
        ids is Err ==> probe::ids_result(ids) == Err::<Seq<Seq<char>>, _>(ids->Err_0@),
        verdict is Ok ==> probe::verdict_result(verdict) == Ok::<_, ErrorView>(verdict->Ok_0),
        verdict is Err ==> probe::verdict_result(verdict) == Err::<Option<MergeKind>, _>(
            verdict->Err_0@,
        ),
        set is Ok ==> probe::set_result(set) == Ok::<_, ErrorView>(set->Ok_0@),
        set is Err ==> probe::set_result(set) == Err::<Set<Seq<char>>, _>(set->Err_0@),
        fork is Ok ==> probe::fork_result(fork) == Ok::<_, ErrorView>(fork->Ok_0.deep_view()),
        fork is Err ==> probe::fork_result(fork) == Err::<Option<Seq<char>>, _>(fork->Err_0@),
{
}

} // verus!
