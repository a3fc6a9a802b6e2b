//! What a scan rests on, command by command: the base, what is checked out,
//! what is protected, and which branches may be examined.

use vstd::prelude::*;

use crate::git::{self, Error, ErrorView, Exchange};
use crate::list;
use crate::scan::base;
use crate::scan::protect;
use crate::scan::refs::{self, RawBranchView};
use crate::scan::survey::{self, GroundView, Survey, SurveyView};
use crate::scan::{Base, BaseView, CandidateScope, OptionsView};
use crate::text;

verus! {

/// Git is asked at `i` which commit `rev` names.
pub open spec fn asks_commit(h: Seq<Exchange>, i: int, rev: Seq<char>) -> bool {
    git::is_ask(h, i, seq!["rev-parse"@, "--verify"@, "--quiet"@, rev + "^{commit}"@])
}

/// Git exited well at `i`.
pub open spec fn went_well(h: Seq<Exchange>, i: int) -> bool {
    h[i].reply is Ok && h[i].reply->Ok_0.0
}

/// Git said no at `i`.
pub open spec fn said_no(h: Seq<Exchange>, i: int) -> bool {
    h[i].reply is Ok && !h[i].reply->Ok_0.0
}

/// What git printed at `i`, without the whitespace around it.
pub open spec fn printed(h: Seq<Exchange>, i: int) -> Seq<char> {
    text::trim(h[i].reply->Ok_0.1)
}

/// `--base name` makes `name` the base: under that name, at the commit git
/// says it is, with the full name git gives it if it has one. A name that is
/// no commit is refused, and a git that cannot be asked ends the matter.
pub proof fn law_the_flag_names_the_base(h: Seq<Exchange>, p: int, name: Seq<char>)
    requires
        base::read_base(h, p, Some(name)).fits,
    ensures
        asks_commit(h, p, name),
        ({
            let r = base::read_base(h, p, Some(name));
            &&& h[p].reply is Err ==> r.end == p + 1 && r.value == Err::<BaseView, _>(
                h[p].reply->Err_0,
            )
            &&& said_no(h, p) ==> r.end == p + 1 && r.value == Err::<BaseView, _>(
                ErrorView {
                    message: "--base "@ + name + " does not resolve to a commit"@,
                    cause: None,
                },
            )
            &&& went_well(h, p) ==> {
                &&& r.end == p + 2
                &&& git::is_ask(h, p + 1, seq!["rev-parse"@, "--symbolic-full-name"@, name])
                &&& h[p + 1].reply is Err ==> r.value == Err::<BaseView, _>(h[p + 1].reply->Err_0)
                &&& h[p + 1].reply is Ok ==> r.value is Ok && r.value->Ok_0.name == name
                    && r.value->Ok_0.sha == printed(h, p)
                &&& went_well(h, p + 1) && printed(h, p + 1).len() > 0
                    ==> r.value->Ok_0.refname == Some(printed(h, p + 1))
                &&& said_no(h, p + 1) || (h[p + 1].reply is Ok && printed(h, p + 1).len() == 0)
                    ==> r.value->Ok_0.refname is None
            }
        }),
{
    assert(h[p].args =~= base::commit_args(name));
}

/// Without a flag the remote is asked first, and the branch that `origin/HEAD`
/// points at is the base as long as it is a commit.
pub proof fn law_the_remote_names_the_base(h: Seq<Exchange>, p: int, name: Seq<char>)
    requires
        base::read_base(h, p, None).fits,
    ensures
        git::is_ask(h, p, seq!["symbolic-ref"@, "--quiet"@, "refs/remotes/origin/HEAD"@]),
        ({
            let r = base::read_base(h, p, None);
            &&& h[p].reply is Err ==> r.end == p + 1 && r.value == Err::<BaseView, _>(
                h[p].reply->Err_0,
            )
            &&& went_well(h, p) && printed(h, p) == "refs/remotes/"@ + name ==> {
                &&& asks_commit(h, p + 1, "refs/remotes/"@ + name)
                &&& h[p + 1].reply is Err ==> r.end == p + 2 && r.value == Err::<BaseView, _>(
                    h[p + 1].reply->Err_0,
                )
                &&& went_well(h, p + 1) ==> r.end == p + 2 && r.value == Ok::<_, ErrorView>(
                    BaseView {
                        name,
                        refname: Some("refs/remotes/"@ + name),
                        sha: printed(h, p + 1),
                    },
                )
                &&& said_no(h, p + 1) ==> usual_ones_are_tried(h, p + 2, r.value)
            }
            &&& said_no(h, p) || (h[p].reply is Ok && !"refs/remotes/"@.is_prefix_of(
                printed(h, p),
            )) ==> usual_ones_are_tried(h, p + 1, r.value)
        }),
{
    let r = base::read_base(h, p, None);
    assert(h[p].args =~= base::origin_head_args());
    let pre = "refs/remotes/"@;
    if went_well(h, p) && printed(h, p) == pre + name {
        let full = printed(h, p);
        assert(pre.is_prefix_of(full)) by {
            assert(pre =~= full.subrange(0, pre.len() as int));
        }
        assert(full.skip(pre.len() as int) =~= name);
        assert(text::strip_prefix(full, pre) == Some(name));
        if said_no(h, p + 1) {
            lemma_usual_ones(h, p + 2);
        }
    }
    if said_no(h, p) || (h[p].reply is Ok && !pre.is_prefix_of(printed(h, p))) {
        lemma_usual_ones(h, p + 1);
    }
}

/// The usual bases are tried from `q` on, the remote's before the local ones
/// and `main` before `master`: the first that is a commit is the base, and
/// when none is the user is told what to do.
pub open spec fn usual_ones_are_tried(
    h: Seq<Exchange>,
    q: int,
    value: Result<BaseView, ErrorView>,
) -> bool {
    &&& is_tried(h, q, "origin/main"@, "refs/remotes/origin/main"@, value)
    &&& said_no(h, q) ==> {
        &&& is_tried(h, q + 1, "origin/master"@, "refs/remotes/origin/master"@, value)
        &&& said_no(h, q + 1) ==> {
            &&& is_tried(h, q + 2, "main"@, "refs/heads/main"@, value)
            &&& said_no(h, q + 2) ==> {
                &&& is_tried(h, q + 3, "master"@, "refs/heads/master"@, value)
                &&& said_no(h, q + 3) ==> value == Err::<BaseView, _>(
                    ErrorView {
                        message: "could not determine the base branch; pass --base <branch>, or run `git remote set-head origin --auto`"@,
                        cause: None,
                    },
                )
            }
        }
    }
}

/// `full` is asked for at `i`, and is the base if it is a commit.
pub open spec fn is_tried(
    h: Seq<Exchange>,
    i: int,
    name: Seq<char>,
    full: Seq<char>,
    value: Result<BaseView, ErrorView>,
) -> bool {
    &&& asks_commit(h, i, full)
    &&& went_well(h, i) ==> value == Ok::<_, ErrorView>(
        BaseView { name, refname: Some(full), sha: printed(h, i) },
    )
    &&& h[i].reply is Err ==> value == Err::<BaseView, _>(h[i].reply->Err_0)
}

proof fn lemma_usual_ones(h: Seq<Exchange>, q: int)
    requires
        base::read_usual_base(h, q, 0).fits,
    ensures
        usual_ones_are_tried(h, q, base::read_usual_base(h, q, 0).value),
{
    reveal_with_fuel(base::read_usual_base, 5);
    let u = base::usual_bases();
    assert(u.len() == 4);
    assert(u[0] == ("origin/main"@, "refs/remotes/origin/main"@));
    assert(u[1] == ("origin/master"@, "refs/remotes/origin/master"@));
    assert(u[2] == ("main"@, "refs/heads/main"@));
    assert(u[3] == ("master"@, "refs/heads/master"@));
}

/// The checked-out branch is what git says HEAD is, by its short name; on a
/// detached HEAD there is none.
pub proof fn law_head_is_the_current_branch(h: Seq<Exchange>, p: int)
    requires
        base::read_current(h, p).fits,
    ensures
        git::is_ask(h, p, seq!["symbolic-ref"@, "--quiet"@, "--short"@, "HEAD"@]),
        base::read_current(h, p).end == p + 1,
        went_well(h, p) ==> base::read_current(h, p).value == Ok::<_, ErrorView>(
            Some(printed(h, p)),
        ),
        said_no(h, p) ==> base::read_current(h, p).value == Ok::<_, ErrorView>(
            None::<Seq<char>>,
        ),
        h[p].reply is Err ==> base::read_current(h, p).value == Err::<Option<Seq<char>>, _>(
            h[p].reply->Err_0,
        ),
{
}

/// A ref is held by a worktree if the listing of worktrees has a line
/// `branch` with that ref; a git that cannot list them holds none.
pub proof fn law_worktrees_hold_their_branches(h: Seq<Exchange>, p: int, name: Seq<char>)
    requires
        base::read_held(h, p).fits,
    ensures
        git::is_ask(h, p, seq!["worktree"@, "list"@, "--porcelain"@]),
        base::read_held(h, p).end == p + 1,
        went_well(h, p) ==> base::read_held(h, p).value is Ok && (
        base::read_held(h, p).value->Ok_0.contains(name) <==> exists|k: int|
            0 <= k < text::lines(h[p].reply->Ok_0.1).len() && #[trigger] text::lines(
                h[p].reply->Ok_0.1,
            )[k] == "branch "@ + name),
        said_no(h, p) ==> base::read_held(h, p).value is Ok && !base::read_held(
            h,
            p,
        ).value->Ok_0.contains(name),
        h[p].reply is Err ==> base::read_held(h, p).value == Err::<Set<Seq<char>>, _>(
            h[p].reply->Err_0,
        ),
{
}

/// The local twin of a base on a remote is the branch of the same name: the
/// first remote that the base is on is taken off, and `refs/heads/` put in its
/// place. A base that is on no remote has no twin.
pub proof fn law_twin_has_the_same_name(
    rest: Seq<char>,
    remotes: Seq<Seq<char>>,
    k: int,
    branch: Seq<char>,
)
    ensures
        0 <= k < remotes.len() && rest == remotes[k] + "/"@ + branch && (forall|j: int|
            0 <= j < k ==> !(#[trigger] remotes[j] + "/"@).is_prefix_of(rest))
            ==> base::local_twin(rest, remotes) == Some("refs/heads/"@ + branch),
        (forall|j: int|
            0 <= j < remotes.len() ==> !(#[trigger] remotes[j] + "/"@).is_prefix_of(rest))
            ==> base::local_twin(rest, remotes) is None,
    decreases remotes.len(),
{
    if remotes.len() > 0 {
        let pre = remotes[0] + "/"@;
        let tail = remotes.drop_first();
        law_twin_has_the_same_name(rest, tail, k - 1, branch);
        if 0 <= k < remotes.len() && rest == remotes[k] + "/"@ + branch && (forall|j: int|
            0 <= j < k ==> !(#[trigger] remotes[j] + "/"@).is_prefix_of(rest)) {
            if k == 0 {
                assert(pre =~= rest.subrange(0, pre.len() as int));
                assert(rest.skip(pre.len() as int) =~= branch);
            } else {
                assert(!(remotes[0] + "/"@).is_prefix_of(rest));
                assert(tail[k - 1] == remotes[k]);
                assert forall|j: int| 0 <= j < k - 1 implies !(#[trigger] tail[j]
                    + "/"@).is_prefix_of(rest) by {
                    assert(tail[j] == remotes[j + 1]);
                }
            }
        }
        if forall|j: int|
            0 <= j < remotes.len() ==> !(#[trigger] remotes[j] + "/"@).is_prefix_of(rest) {
            assert(!(remotes[0] + "/"@).is_prefix_of(rest));
            assert forall|j: int| 0 <= j < tail.len() implies !(#[trigger] tail[j]
                + "/"@).is_prefix_of(rest) by {
                assert(tail[j] == remotes[j + 1]);
            }
        }
    }
}

/// The remotes are asked for when the base is on one, and not otherwise.
pub proof fn law_twin_needs_a_remote_base(h: Seq<Exchange>, p: int, b: BaseView, rest: Seq<char>)
    requires
        base::read_counterpart(h, p, b).fits,
    ensures
        b.refname is None ==> base::read_counterpart(h, p, b).end == p && base::read_counterpart(
            h,
            p,
            b,
        ).value == Ok::<_, ErrorView>(None::<Seq<char>>),
        b.refname is Some && !"refs/remotes/"@.is_prefix_of(b.refname->Some_0)
            ==> base::read_counterpart(h, p, b).end == p && base::read_counterpart(h, p, b).value
            == Ok::<_, ErrorView>(None::<Seq<char>>),
        b.refname == Some("refs/remotes/"@ + rest) ==> {
            &&& git::is_ask(h, p, seq!["remote"@])
            &&& base::read_counterpart(h, p, b).end == p + 1
            &&& h[p].reply is Ok ==> base::read_counterpart(h, p, b).value == Ok::<_, ErrorView>(
                base::local_twin(rest, text::lines(h[p].reply->Ok_0.1)),
            )
            &&& h[p].reply is Err ==> base::read_counterpart(h, p, b).value is Err
        },
{
    let pre = "refs/remotes/"@;
    if b.refname == Some(pre + rest) {
        let full = pre + rest;
        assert(pre =~= full.subrange(0, pre.len() as int));
        assert(full.skip(pre.len() as int) =~= rest);
    }
}

/// What a scan asks before it lists a branch, one command after another: the
/// base, HEAD, the protected patterns, whether the clone is shallow, and the
/// worktrees.
pub proof fn law_ground_is_laid_in_order(h: Seq<Exchange>, p: int, opts: OptionsView)
    requires
        survey::read_ground(h, p, opts).fits,
        survey::read_ground(h, p, opts).value is Ok,
    ensures
        ({
            let g = survey::read_ground(h, p, opts).value->Ok_0;
            let b = base::read_base(h, p, opts.base);
            let q = b.end;
            &&& b.fits && b.value == Ok::<_, ErrorView>(g.base)
            &&& survey::read_ground(h, p, opts).end == q + 4
            &&& base::read_current(h, q).fits && base::read_current(h, q).value == Ok::<
                _,
                ErrorView,
            >(g.current)
            &&& git::is_ask(h, q + 1, seq!["config"@, "--get-all"@, "barber.protect"@])
            &&& h[q + 1].reply is Ok && g.protected == protect::patterns_from(
                h[q + 1].reply->Ok_0,
                opts.protect,
            )
            &&& git::is_ask(h, q + 2, seq!["rev-parse"@, "--is-shallow-repository"@])
            &&& g.shallow <==> went_well(h, q + 2) && printed(h, q + 2) == "true"@
            &&& base::read_held(h, q + 3).fits && base::read_held(h, q + 3).value == Ok::<
                _,
                ErrorView,
            >(g.held)
        }),
{
}

/// What a scan lists: the ancestors of the base first, remote-tracking ones
/// only where those are wanted, and then every local branch.
pub proof fn law_locals_are_listed(h: Seq<Exchange>, p: int, g: GroundView, remotes: bool)
    requires
        survey::read_locals(h, p, g, remotes).fits,
        survey::read_locals(h, p, g, remotes).value is Ok,
    ensures
        ({
            let s = survey::read_locals(h, p, g, remotes).value->Ok_0;
            let twin = base::read_counterpart(h, p + 1, g.base);
            &&& git::is_ask(
                h,
                p,
                if remotes {
                    seq![
                        "for-each-ref"@,
                        "refs/heads"@,
                        "refs/remotes"@,
                        "--merged"@,
                        g.base.sha,
                        "--format=%(refname)"@,
                    ]
                } else {
                    seq![
                        "for-each-ref"@,
                        "refs/heads"@,
                        "--merged"@,
                        g.base.sha,
                        "--format=%(refname)"@,
                    ]
                },
            )
            &&& h[p].reply is Ok
            &&& forall|r: Seq<char>| #[trigger]
                s.merged.contains(r) <==> text::lines(h[p].reply->Ok_0.1).contains(r)
            &&& twin.fits && twin.value is Ok
            &&& git::is_ask(
                h,
                twin.end,
                seq![
                    "for-each-ref"@,
                    "refs/heads"@,
                    "--format=%(refname)%00%(objectname)%00%(upstream)%00%(upstream:short)%00%(upstream:track)%00%(upstream:remotename)%00%(committerdate:unix)%00%(contents:subject)"@,
                ],
            )
            &&& h[twin.end].reply is Ok
            &&& s.examinable == survey::local_branches(
                text::lines(h[twin.end].reply->Ok_0.1),
                g,
                twin.value->Ok_0,
            )
            &&& s.base == g.base
            &&& s.shallow == g.shallow
            &&& survey::read_locals(h, p, g, remotes).end == twin.end + 1
        }),
{
    assert(h[p].args =~= if remotes {
        seq![
            "for-each-ref"@,
            "refs/heads"@,
            "refs/remotes"@,
            "--merged"@,
            g.base.sha,
            "--format=%(refname)"@,
        ]
    } else {
        seq![
            "for-each-ref"@,
            "refs/heads"@,
            "--merged"@,
            g.base.sha,
            "--format=%(refname)"@,
        ]
    });
}

/// What is listed of the remotes: the names of all local branches, and the
/// remote-tracking ones.
pub proof fn law_remotes_are_listed(h: Seq<Exchange>, p: int, g: GroundView)
    requires
        survey::read_remotes(h, p, g).fits,
        survey::read_remotes(h, p, g).value is Ok,
    ensures
        git::is_ask(h, p, seq!["for-each-ref"@, "refs/heads"@, "--format=%(refname:short)"@]),
        git::is_ask(
            h,
            p + 1,
            seq![
                "for-each-ref"@,
                "refs/remotes"@,
                "--format=%(refname)%00%(objectname)%00%(upstream)%00%(upstream:short)%00%(upstream:track)%00%(upstream:remotename)%00%(committerdate:unix)%00%(contents:subject)"@,
            ],
        ),
        h[p].reply is Ok && h[p + 1].reply is Ok,
        survey::read_remotes(h, p, g).end == p + 2,
        survey::read_remotes(h, p, g).value->Ok_0 == survey::remote_branches(
            text::lines(h[p + 1].reply->Ok_0.1),
            g,
            text::lines(h[p].reply->Ok_0.1).to_set(),
        ),
{
}

/// Remote-only branches are surveyed when they are wanted, behind the local
/// ones, and otherwise no remote branch is even listed.
pub proof fn law_remotes_follow_the_locals(h: Seq<Exchange>, p: int, opts: OptionsView)
    requires
        survey::read_survey(h, p, opts).fits,
        survey::read_survey(h, p, opts).value is Ok,
    ensures
        ({
            let s = survey::read_survey(h, p, opts);
            let g = survey::read_ground(h, p, opts);
            let l = survey::read_locals(h, g.end, g.value->Ok_0, opts.include_remote_only);
            let r = survey::read_remotes(h, l.end, g.value->Ok_0);
            &&& g.fits && g.value is Ok && l.fits && l.value is Ok
            &&& s.value->Ok_0.base == l.value->Ok_0.base
            &&& s.value->Ok_0.shallow == l.value->Ok_0.shallow
            &&& s.value->Ok_0.merged == l.value->Ok_0.merged
            &&& !opts.include_remote_only ==> s.end == l.end && s.value->Ok_0.examinable
                == l.value->Ok_0.examinable
            &&& opts.include_remote_only ==> r.fits && r.value is Ok && s.end == r.end
                && s.value->Ok_0.examinable == l.value->Ok_0.examinable + r.value->Ok_0
        }),
{
    reveal(survey::read_survey);
}

/// A listed local branch may be examined unless it is checked out somewhere,
/// is the base or its local twin, or has a protected name; for nothing else is
/// it left out.
pub proof fn law_which_locals_are_examined(
    lines: Seq<Seq<char>>,
    g: GroundView,
    twin: Option<Seq<char>>,
    b: RawBranchView,
)
    ensures
        survey::local_branches(lines, g, twin).contains(b) <==> {
            &&& exists|k: int|
                0 <= k < lines.len() && refs::local_line(#[trigger] lines[k]) == Some(b)
            &&& !g.held.contains(b.refname)
            &&& g.current != Some(b.name)
            &&& g.base.refname != Some(b.refname)
            &&& twin != Some(b.refname)
            &&& forall|i: int|
                0 <= i < g.protected.len() ==> !protect::glob(#[trigger] g.protected[i], b.name)
        },
    decreases lines.len(),
{
    if lines.len() > 0 {
        let rest = lines.drop_last();
        let all = survey::local_branches(lines, g, twin);
        let earlier = survey::local_branches(rest, g, twin);
        law_which_locals_are_examined(rest, g, twin, b);
        if exists|k: int| 0 <= k < rest.len() && refs::local_line(#[trigger] rest[k]) == Some(b) {
            let k = choose|k: int|
                0 <= k < rest.len() && refs::local_line(#[trigger] rest[k]) == Some(b);
            assert(lines[k] == rest[k]);
        }
        if exists|k: int| 0 <= k < lines.len() && refs::local_line(#[trigger] lines[k]) == Some(b) {
            let k = choose|k: int|
                0 <= k < lines.len() && refs::local_line(#[trigger] lines[k]) == Some(b);
            if k < rest.len() {
                assert(rest[k] == lines[k]);
            } else {
                assert(lines.last() == lines[k]);
            }
        }
        assert(lines[lines.len() - 1] == lines.last());
        match refs::local_line(lines.last()) {
            Some(x) if !survey::local_excluded(g, twin, x) => {
                list::lemma_last_or_before(all, b);
                assert(all.drop_last() =~= earlier);
            },
            _ => {},
        }
    }
}

/// A listed remote-tracking branch may be examined unless it is the remote's
/// HEAD or the base, has a protected name, with or without its remote, or
/// still has a local branch; for nothing else is it left out.
pub proof fn law_which_remotes_are_examined(
    lines: Seq<Seq<char>>,
    g: GroundView,
    local: Set<Seq<char>>,
    b: RawBranchView,
)
    ensures
        survey::remote_branches(lines, g, local).contains(b) <==> {
            &&& exists|k: int|
                0 <= k < lines.len() && refs::remote_line(#[trigger] lines[k]) == Some(b)
            &&& refs::on_remote(b.name) != "HEAD"@
            &&& g.base.refname != Some(b.refname)
            &&& forall|i: int|
                0 <= i < g.protected.len() ==> !protect::glob(#[trigger] g.protected[i], b.name)
                    && !protect::glob(g.protected[i], refs::on_remote(b.name))
            &&& !local.contains(refs::on_remote(b.name))
        },
    decreases lines.len(),
{
    if lines.len() > 0 {
        let rest = lines.drop_last();
        let all = survey::remote_branches(lines, g, local);
        let earlier = survey::remote_branches(rest, g, local);
        law_which_remotes_are_examined(rest, g, local, b);
        if exists|k: int| 0 <= k < rest.len() && refs::remote_line(#[trigger] rest[k]) == Some(b) {
            let k = choose|k: int|
                0 <= k < rest.len() && refs::remote_line(#[trigger] rest[k]) == Some(b);
            assert(lines[k] == rest[k]);
        }
        if exists|k: int|
            0 <= k < lines.len() && refs::remote_line(#[trigger] lines[k]) == Some(b) {
            let k = choose|k: int|
                0 <= k < lines.len() && refs::remote_line(#[trigger] lines[k]) == Some(b);
            if k < rest.len() {
                assert(rest[k] == lines[k]);
            } else {
                assert(lines.last() == lines[k]);
            }
        }
        assert(lines[lines.len() - 1] == lines.last());
        match refs::remote_line(lines.last()) {
            Some(x) if !survey::remote_excluded(g, local, x) => {
                list::lemma_last_or_before(all, b);
                assert(all.drop_last() =~= earlier);
            },
            _ => {},
        }
    }
}

/// Branches are examined in the order of the listing, each line on its own.
pub proof fn law_listing_keeps_its_order(
    first: Seq<Seq<char>>,
    second: Seq<Seq<char>>,
    g: GroundView,
    twin: Option<Seq<char>>,
    local: Set<Seq<char>>,
)
    ensures
        survey::local_branches(first + second, g, twin) == survey::local_branches(first, g, twin)
            + survey::local_branches(second, g, twin),
        survey::remote_branches(first + second, g, local) == survey::remote_branches(
            first,
            g,
            local,
        ) + survey::remote_branches(second, g, local),
        first.len() == 1 ==> survey::local_branches(first, g, twin).len() <= 1,
        first.len() == 1 ==> survey::remote_branches(first, g, local).len() <= 1,
    decreases second.len(),
{
    let all = first + second;
    if second.len() == 0 {
        assert(all =~= first);
        assert(survey::local_branches(first, g, twin) + survey::local_branches(second, g, twin)
            =~= survey::local_branches(first, g, twin));
        assert(survey::remote_branches(first, g, local) + survey::remote_branches(second, g, local)
            =~= survey::remote_branches(first, g, local));
    } else {
        law_listing_keeps_its_order(first, second.drop_last(), g, twin, local);
        assert(all.drop_last() =~= first + second.drop_last());
        assert(all.last() == second.last());
        assert(survey::local_branches(all, g, twin) =~= survey::local_branches(first, g, twin)
            + survey::local_branches(second, g, twin));
        assert(survey::remote_branches(all, g, local) =~= survey::remote_branches(first, g, local)
            + survey::remote_branches(second, g, local));
    }
    if first.len() == 1 {
        assert(survey::local_branches(first.drop_last(), g, twin).len() == 0);
        assert(survey::remote_branches(first.drop_last(), g, local).len() == 0);
    }
}

/// What an optional field of a listing says: nothing if it is empty.
pub open spec fn says(field: Seq<char>, o: Option<Seq<char>>) -> bool {
    (field.len() == 0 && o is None) || (field.len() > 0 && o == Some(field))
}

/// What a line of the listing says of a local branch, field by field: the full
/// name, the tip, the upstream in full and in short, whether it is gone, its
/// remote, the time and the subject of the last commit. Anything that is no
/// such line says nothing.
pub proof fn law_what_a_local_line_says(line: Seq<char>, f: Seq<Seq<char>>, name: Seq<char>)
    requires
        f == text::split(line, '\0'),
    ensures
        f.len() < 7 || !"refs/heads/"@.is_prefix_of(f[0]) || text::parse_i64(f[6]) is None
            ==> refs::local_line(line) is None,
        f.len() >= 7 && f[0] == "refs/heads/"@ + name && text::parse_i64(f[6]) is Some ==> {
            &&& refs::local_line(line) is Some
            &&& refs::local_line(line)->Some_0.name == name
            &&& refs::local_line(line)->Some_0.refname == f[0]
            &&& refs::local_line(line)->Some_0.sha == f[1]
            &&& refs::local_line(line)->Some_0.scope == CandidateScope::Local
            &&& says(f[2], refs::local_line(line)->Some_0.upstream_ref)
            &&& says(f[3], refs::local_line(line)->Some_0.upstream)
            &&& refs::local_line(line)->Some_0.upstream_gone <==> f[4] == "[gone]"@
            &&& says(f[5], refs::local_line(line)->Some_0.remote_name)
            &&& refs::local_line(line)->Some_0.last_commit_unix == text::parse_i64(f[6])->Some_0
            &&& f.len() > 7 ==> refs::local_line(line)->Some_0.subject == f[7]
            &&& f.len() == 7 ==> refs::local_line(line)->Some_0.subject.len() == 0
        },
{
    let pre = "refs/heads/"@;
    if f[0] == pre + name {
        assert(pre =~= f[0].subrange(0, pre.len() as int));
        assert(f[0].skip(pre.len() as int) =~= name);
    }
}

/// What a line of the listing says of a remote-tracking branch: it is its own
/// upstream, on the remote that its name begins with, and never gone.
pub proof fn law_what_a_remote_line_says(
    line: Seq<char>,
    f: Seq<Seq<char>>,
    remote: Seq<char>,
    branch: Seq<char>,
)
    requires
        f == text::split(line, '\0'),
        !remote.contains('/'),
    ensures
        f.len() < 7 || !"refs/remotes/"@.is_prefix_of(f[0]) || text::parse_i64(f[6]) is None
            ==> refs::remote_line(line) is None,
        f.len() >= 7 && f[0] == "refs/remotes/"@ + remote && text::parse_i64(f[6]) is Some
            ==> refs::remote_line(line) is None,
        f.len() >= 7 && f[0] == "refs/remotes/"@ + (remote + seq!['/'] + branch)
            && text::parse_i64(f[6]) is Some ==> {
            &&& refs::remote_line(line) is Some
            &&& refs::remote_line(line)->Some_0.name == remote + seq!['/'] + branch
            &&& refs::remote_line(line)->Some_0.refname == f[0]
            &&& refs::remote_line(line)->Some_0.sha == f[1]
            &&& refs::remote_line(line)->Some_0.scope == CandidateScope::RemoteOnly
            &&& refs::remote_line(line)->Some_0.upstream == Some(remote + seq!['/'] + branch)
            &&& refs::remote_line(line)->Some_0.upstream_ref == Some(f[0])
            &&& refs::remote_line(line)->Some_0.remote_name == Some(remote)
            &&& !refs::remote_line(line)->Some_0.upstream_gone
            &&& refs::remote_line(line)->Some_0.last_commit_unix == text::parse_i64(f[6])->Some_0
            &&& f.len() > 7 ==> refs::remote_line(line)->Some_0.subject == f[7]
            &&& f.len() == 7 ==> refs::remote_line(line)->Some_0.subject.len() == 0
        },
        refs::on_remote(remote) == remote,
        refs::on_remote(remote + seq!['/'] + branch) == branch,
{
    let pre = "refs/remotes/"@;
    lemma_cut(remote, branch);
    let whole = remote + seq!['/'] + branch;
    if f[0] == pre + whole {
        assert(pre =~= f[0].subrange(0, pre.len() as int));
        assert(f[0].skip(pre.len() as int) =~= whole);
    }
    if f[0] == pre + remote {
        assert(pre =~= f[0].subrange(0, pre.len() as int));
        assert(f[0].skip(pre.len() as int) =~= remote);
    }
}

proof fn lemma_cut(remote: Seq<char>, branch: Seq<char>)
    requires
        !remote.contains('/'),
    ensures
        text::split_once(remote, '/') is None,
        text::split_once(remote + seq!['/'] + branch, '/') == Some((remote, branch)),
    decreases remote.len(),
{
    let whole = remote + seq!['/'] + branch;
    if remote.len() == 0 {
        assert(whole.drop_first() =~= branch);
        assert(whole[0] == '/');
        assert(remote =~= Seq::<char>::empty());
    } else {
        let tail = remote.drop_first();
        assert(remote.contains(remote[0]));
        assert(!tail.contains('/')) by {
            if tail.contains('/') {
                let k = choose|k: int| 0 <= k < tail.len() && tail[k] == '/';
                assert(remote[k + 1] == '/');
            }
        }
        lemma_cut(tail, branch);
        assert(whole.drop_first() =~= tail + seq!['/'] + branch);
        assert(seq![remote[0]] + tail =~= remote);
        assert(whole[0] == remote[0]);
    }
}

/// How a glob is read: piece by piece. A star takes in any text, every other
/// character stands for itself, nothing matches only nothing, and of two
/// pieces one matches the front of a name and the other what is left of it.
pub proof fn law_globs_match_piece_by_piece(x: Seq<char>, y: Seq<char>, name: Seq<char>, c: char)
    ensures
        protect::glob(seq!['*'], name),
        c != '*' ==> (protect::glob(seq![c], name) <==> name == seq![c]),
        protect::glob(Seq::empty(), name) <==> name.len() == 0,
        protect::glob(x + y, name) <==> exists|k: int|
            0 <= k <= name.len() && protect::glob(x, #[trigger] name.take(k)) && protect::glob(
                y,
                name.skip(k),
            ),
{
    lemma_star(name);
    if c != '*' {
        let one = seq![c];
        let none = Seq::<char>::empty();
        assert(one.drop_first() =~= none);
        assert(protect::glob(none, name.drop_first()) <==> name.drop_first().len() == 0);
        if name.len() > 0 && name[0] == c && name.drop_first().len() == 0 {
            assert(name =~= one);
        }
        if name == one {
            assert(name.drop_first() =~= Seq::<char>::empty());
        }
    }
    if protect::glob(x + y, name) {
        let k = lemma_glob_splits(x, y, name);
        assert(protect::glob(x, name.take(k)) && protect::glob(y, name.skip(k)));
    }
    if exists|k: int|
        0 <= k <= name.len() && protect::glob(x, #[trigger] name.take(k)) && protect::glob(
            y,
            name.skip(k),
        ) {
        let k = choose|k: int|
            0 <= k <= name.len() && protect::glob(x, #[trigger] name.take(k)) && protect::glob(
                y,
                name.skip(k),
            );
        lemma_glob_joins(x, y, name.take(k), name.skip(k));
        assert(name.take(k) + name.skip(k) =~= name);
    }
}

proof fn lemma_star(name: Seq<char>)
    ensures
        protect::glob(seq!['*'], name),
    decreases name.len(),
{
    let star = seq!['*'];
    assert(star.drop_first() =~= Seq::<char>::empty());
    if name.len() > 0 {
        lemma_star(name.drop_first());
    } else {
        assert(protect::glob(star.drop_first(), name));
    }
}

proof fn lemma_glob_splits(x: Seq<char>, y: Seq<char>, name: Seq<char>) -> (k: int)
    requires
        protect::glob(x + y, name),
    ensures
        0 <= k <= name.len(),
        protect::glob(x, name.take(k)),
        protect::glob(y, name.skip(k)),
    decreases x.len() + name.len(),
{
    let all = x + y;
    if x.len() == 0 {
        assert(all =~= y);
        assert(name.skip(0) =~= name);
        0
    } else {
        assert(all[0] == x[0]);
        assert(all.drop_first() =~= x.drop_first() + y);
        if x[0] == '*' {
            if protect::glob(all.drop_first(), name) {
                lemma_glob_splits(x.drop_first(), y, name)
            } else {
                let k = lemma_glob_splits(x, y, name.drop_first());
                assert(name.take(k + 1).drop_first() =~= name.drop_first().take(k));
                assert(name.skip(k + 1) =~= name.drop_first().skip(k));
                k + 1
            }
        } else {
            let k = lemma_glob_splits(x.drop_first(), y, name.drop_first());
            assert(name.take(k + 1).drop_first() =~= name.drop_first().take(k));
            assert(name.take(k + 1)[0] == name[0]);
            assert(name.skip(k + 1) =~= name.drop_first().skip(k));
            k + 1
        }
    }
}

proof fn lemma_glob_joins(x: Seq<char>, y: Seq<char>, front: Seq<char>, back: Seq<char>)
    requires
        protect::glob(x, front),
        protect::glob(y, back),
    ensures
        protect::glob(x + y, front + back),
    decreases x.len() + front.len(),
{
    let all = x + y;
    let name = front + back;
    if x.len() == 0 {
        assert(all =~= y);
        assert(name =~= back);
    } else {
        assert(all[0] == x[0]);
        assert(all.drop_first() =~= x.drop_first() + y);
        if x[0] == '*' && protect::glob(x.drop_first(), front) {
            lemma_glob_joins(x.drop_first(), y, front, back);
        } else {
            assert(name.drop_first() =~= front.drop_first() + back);
            assert(name[0] == front[0]);
            if x[0] == '*' {
                lemma_glob_joins(x, y, front.drop_first(), back);
            } else {
                lemma_glob_joins(x.drop_first(), y, front.drop_first(), back);
            }
        }
    }
}

/// `p` is an item of a comma-separated list, without the whitespace around it.
pub open spec fn is_item_of(p: Seq<char>, row: Seq<char>) -> bool {
    exists|j: int|
        0 <= j < text::split(row, ',').len() && p == text::trim(
            #[trigger] text::split(row, ',')[j],
        )
}

/// Which patterns are in force: `main`, `master`, `develop`, every item that
/// the configuration lists where git has one, and whatever the caller adds.
/// Nothing else is, and a blank item is no pattern.
pub proof fn law_which_patterns_are_in_force(
    config: (bool, Seq<char>),
    extra: Seq<Seq<char>>,
    p: Seq<char>,
)
    ensures
        protect::patterns_from(config, extra).contains(p) <==> {
            ||| p == "main"@
            ||| p == "master"@
            ||| p == "develop"@
            ||| p.len() > 0 && config.0 && exists|k: int|
                0 <= k < text::lines(config.1).len() && is_item_of(
                    p,
                    #[trigger] text::lines(config.1)[k],
                )
            ||| p.len() > 0 && exists|k: int|
                0 <= k < extra.len() && p == text::trim(#[trigger] extra[k])
        },
{
    reveal_strlit("main");
    reveal_strlit("master");
    reveal_strlit("develop");
    let rows = text::lines(config.1);
    let configured = if config.0 {
        protect::listed(rows)
    } else {
        Seq::empty()
    };
    let a = protect::default_protected();
    let b = protect::all_trimmed(configured);
    let c = protect::all_trimmed(extra);
    let all = a + b + c;
    lemma_filter(all, p);
    assert(all.contains(p) <==> a.contains(p) || b.contains(p) || c.contains(p)) by {
        if a.contains(p) {
            let i = choose|i: int| 0 <= i < a.len() && a[i] == p;
            assert(all[i] == p);
        }
        if b.contains(p) {
            let i = choose|i: int| 0 <= i < b.len() && b[i] == p;
            assert(all[a.len() + i] == p);
        }
        if c.contains(p) {
            let i = choose|i: int| 0 <= i < c.len() && c[i] == p;
            assert(all[a.len() + b.len() + i] == p);
        }
        if all.contains(p) {
            let i = choose|i: int| 0 <= i < all.len() && all[i] == p;
            if i < a.len() {
                assert(a[i] == p);
            } else if i < a.len() + b.len() {
                assert(b[i - a.len()] == p);
            } else {
                assert(c[i - a.len() - b.len()] == p);
            }
        }
    }
    assert(a[0] == "main"@ && a[1] == "master"@ && a[2] == "develop"@);
    lemma_trimmed(extra, p);
    lemma_trimmed(configured, p);
    if config.0 {
        lemma_listed_items(rows, p);
    }
}

proof fn lemma_filter(s: Seq<Seq<char>>, p: Seq<char>)
    ensures
        s.filter(protect::filled()).contains(p) <==> s.contains(p) && p.len() > 0,
    decreases s.len(),
{
    reveal(Seq::filter);
    let f = protect::filled();
    let all = s.filter(f);
    if s.len() > 0 {
        lemma_filter(s.drop_last(), p);
        list::lemma_last_or_before(s, p);
        if f(s.last()) {
            list::lemma_last_or_before(all, p);
            assert(all.drop_last() =~= s.drop_last().filter(f));
        }
    }
}

proof fn lemma_trimmed(s: Seq<Seq<char>>, p: Seq<char>)
    ensures
        protect::all_trimmed(s).contains(p) <==> exists|k: int|
            0 <= k < s.len() && p == text::trim(#[trigger] s[k]),
{
    let all = protect::all_trimmed(s);
    if all.contains(p) {
        let i = choose|i: int| 0 <= i < all.len() && all[i] == p;
        assert(p == text::trim(s[i]));
    }
    if exists|k: int| 0 <= k < s.len() && p == text::trim(#[trigger] s[k]) {
        let k = choose|k: int| 0 <= k < s.len() && p == text::trim(#[trigger] s[k]);
        assert(all[k] == p);
    }
}

proof fn lemma_listed_items(rows: Seq<Seq<char>>, p: Seq<char>)
    ensures
        (exists|k: int|
            0 <= k < protect::listed(rows).len() && p == text::trim(
                #[trigger] protect::listed(rows)[k],
            )) <==> exists|k: int| 0 <= k < rows.len() && is_item_of(p, #[trigger] rows[k]),
    decreases rows.len(),
{
    let all = protect::listed(rows);
    if rows.len() > 0 {
        let rest = rows.drop_last();
        let earlier = protect::listed(rest);
        let items = text::split(rows.last(), ',');
        lemma_listed_items(rest, p);
        assert(all == earlier + items);
        if exists|k: int| 0 <= k < all.len() && p == text::trim(#[trigger] all[k]) {
            let k = choose|k: int| 0 <= k < all.len() && p == text::trim(#[trigger] all[k]);
            if k < earlier.len() {
                assert(earlier[k] == all[k]);
                let r = choose|r: int| 0 <= r < rest.len() && is_item_of(p, #[trigger] rest[r]);
                assert(rows[r] == rest[r]);
            } else {
                assert(items[k - earlier.len()] == all[k]);
                assert(is_item_of(p, rows[rows.len() - 1]));
            }
        }
        if exists|k: int| 0 <= k < rows.len() && is_item_of(p, #[trigger] rows[k]) {
            let k = choose|k: int| 0 <= k < rows.len() && is_item_of(p, #[trigger] rows[k]);
            if k < rest.len() {
                assert(rest[k] == rows[k]);
                let r = choose|r: int|
                    0 <= r < earlier.len() && p == text::trim(#[trigger] earlier[r]);
                assert(all[r] == earlier[r]);
            } else {
                assert(rows.last() == rows[k]);
                let j = choose|j: int| 0 <= j < items.len() && p == text::trim(#[trigger] items[j]);
                assert(all[earlier.len() + j] == items[j]);
            }
        }
    }
}

/// What the contracts of the survey say of a result is what it holds.
pub proof fn law_outcomes_are_seen_as_they_are(
    b: Result<Base, Error>,
    s: Result<Survey, Error>,
)
    ensures
        b is Ok ==> base::base_result(b) == Ok::<_, ErrorView>(b->Ok_0@),
        b is Err ==> base::base_result(b) == Err::<BaseView, _>(b->Err_0@),
        s is Ok ==> survey::survey_result(s) == Ok::<_, ErrorView>(s->Ok_0@),
        s is Err ==> survey::survey_result(s) == Err::<SurveyView, _>(s->Err_0@),
{
}

} // verus!
