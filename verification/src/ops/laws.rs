//! What holds of every deletion, whatever git replies.

use vstd::prelude::*;

use crate::git::{self, Exchange, Git};
use crate::ops::{
    self, DeletionResult, DeletionView, LocalView, PlanView, PlannedDeletion, RemoteView,
};
use crate::scan::{Base, BaseView, CandidateScope, CandidateView, MergeKind};
use crate::text;

verus! {

/// The command deletes a local branch.
pub open spec fn drops_local(x: Exchange) -> bool {
    x.args.len() > 0 && x.args[0] == "branch"@
}

/// The command writes to a remote.
pub open spec fn writes_remote(x: Exchange) -> bool {
    x.args.len() > 0 && x.args[0] == "push"@
}

/// The words that commands begin with are different words.
proof fn lemma_words()
    ensures
        "rev-parse"@ != "branch"@,
        "rev-parse"@ != "push"@,
        "merge-base"@ != "branch"@,
        "merge-base"@ != "push"@,
        "branch"@ != "push"@,
{
    reveal_strlit("rev-parse");
    reveal_strlit("merge-base");
    reveal_strlit("branch");
    reveal_strlit("push");
    assert("rev-parse"@.len() == 9);
    assert("merge-base"@.len() == 10);
    assert("branch"@.len() == 6);
    assert("push"@.len() == 4);
}

/// Compare-then-delete: nothing is deleted, here or on a remote, unless git
/// was asked first where the branch points and answered the sha of the scan;
/// and never when the branch is checked out or is the base.
pub proof fn law_compare_then_delete(
    h: Seq<Exchange>,
    p: int,
    base: BaseView,
    current: Option<Seq<char>>,
    plan: PlanView,
    i: int,
)
    requires
        ops::read_deletion(h, p, base, current, plan).fits,
        p <= i < ops::read_deletion(h, p, base, current, plan).end,
        drops_local(h[i]) || writes_remote(h[i]),
    ensures
        p < i,
        git::is_ask(h, p, ops::tip_args(plan.candidate.refname)),
        h[p].reply matches Ok((true, out)) && text::trim(out) == plan.candidate.sha,
        !ops::is_current(plan.candidate, current),
        !ops::is_base(plan.candidate, base),
{
    lemma_words();
}

/// The checked-out branch and the base are refused without a single command.
pub proof fn law_current_and_base_are_refused(
    h: Seq<Exchange>,
    p: int,
    base: BaseView,
    current: Option<Seq<char>>,
    plan: PlanView,
)
    requires
        ops::is_current(plan.candidate, current) || ops::is_base(plan.candidate, base),
    ensures
        ops::read_deletion(h, p, base, current, plan).fits,
        ops::read_deletion(h, p, base, current, plan).end == p,
        ops::read_deletion(h, p, base, current, plan).value matches Ok(v) && v.local is Failed
            && v.remote is Skipped && v.undo.len() == 0,
{
}

/// A branch that moved since the scan is left alone: one question, no
/// deletion, nothing to undo.
pub proof fn law_moved_tip_is_left_alone(
    h: Seq<Exchange>,
    p: int,
    base: BaseView,
    current: Option<Seq<char>>,
    plan: PlanView,
    out: Seq<char>,
)
    requires
        ops::read_deletion(h, p, base, current, plan).fits,
        !ops::is_current(plan.candidate, current),
        !ops::is_base(plan.candidate, base),
        h[p].reply == Ok::<_, git::ErrorView>((true, out)),
        text::trim(out) != plan.candidate.sha,
    ensures
        ops::read_deletion(h, p, base, current, plan).end == p + 1,
        ops::read_deletion(h, p, base, current, plan).value matches Ok(v) && v.local
            == LocalView::Failed(ops::moved_message(plan.candidate.sha, text::trim(out)))
            && v.remote is Skipped && v.undo.len() == 0,
{
}

/// Remote deletion is leased: every push names the commit that the tracking
/// ref was just found to point at, deletes the live counterpart and nothing
/// else, and was asked for.
pub proof fn law_remote_deletion_is_leased(
    h: Seq<Exchange>,
    p: int,
    base: BaseView,
    current: Option<Seq<char>>,
    plan: PlanView,
    i: int,
)
    requires
        ops::read_deletion(h, p, base, current, plan).fits,
        p <= i < ops::read_deletion(h, p, base, current, plan).end,
        writes_remote(h[i]),
    ensures
        plan.delete_remote,
        !plan.candidate.upstream_gone,
        plan.candidate.upstream_ref matches Some(upstream_ref) && git::is_ask(
            h,
            i - 1,
            ops::tip_args(upstream_ref),
        ),
        ops::counterpart(plan.candidate) matches Some((remote, branch)) && h[i - 1].reply matches Ok(
            (true, out),
        ) && h[i].args == ops::push_args(remote, branch, text::trim(out)),
{
    lemma_words();
    let local = ops::read_guarded(h, p, base, current, plan.candidate);
    assert(i >= local.end);
    assert(i != local.end);
}

/// A branch whose upstream is gone is never pushed to, and a remote is left
/// alone when the local deletion failed or nobody asked.
pub proof fn law_remote_is_left_alone(
    h: Seq<Exchange>,
    p: int,
    base: BaseView,
    current: Option<Seq<char>>,
    plan: PlanView,
    v: DeletionView,
)
    requires
        ops::read_deletion(h, p, base, current, plan).value == Ok::<_, git::ErrorView>(v),
        plan.candidate.upstream_gone || !plan.delete_remote || v.local is Failed,
    ensures
        v.remote is Skipped,
{
}

/// A forced deletion has its justification: the branch was never merged in
/// git's own sense and the user chose it as squash, rebase or gone, or git
/// refused to delete it gently and just confirmed that the tip is part of the
/// base.
pub proof fn law_force_is_justified(
    h: Seq<Exchange>,
    p: int,
    base: BaseView,
    current: Option<Seq<char>>,
    plan: PlanView,
    i: int,
)
    requires
        ops::read_deletion(h, p, base, current, plan).fits,
        p <= i < ops::read_deletion(h, p, base, current, plan).end,
        h[i].args == ops::force_args(plan.candidate.name),
    ensures
        plan.candidate.kind != MergeKind::Merged || (git::is_ask(
            h,
            i - 1,
            ops::ancestor_args(plan.candidate.sha, base.name),
        ) && h[i - 1].reply matches Ok((true, _))),
        plan.candidate.kind != MergeKind::Merged || (git::is_ask(
            h,
            i - 2,
            ops::gentle_args(plan.candidate.name),
        ) && h[i - 2].reply matches Ok((false, _))),
{
    lemma_words();
    reveal_strlit("-d");
    reveal_strlit("-D");
    assert("-d"@[1] == 'd' && "-D"@[1] == 'D');
    assert(h[i].args[0] == "branch"@ && h[i].args[1] == "-D"@);
}

/// Every deletion comes with a command that undoes it, and nothing else does.
pub proof fn law_every_deletion_has_its_undo(
    h: Seq<Exchange>,
    p: int,
    base: BaseView,
    current: Option<Seq<char>>,
    plan: PlanView,
    v: DeletionView,
)
    requires
        ops::read_deletion(h, p, base, current, plan).value == Ok::<_, git::ErrorView>(v),
    ensures
        v.undo == ops::local_undo(plan.candidate, v.local) + ops::remote_undo(
            plan.candidate,
            v.remote,
        ),
        ops::local_undo(plan.candidate, v.local).len() == (if v.local is Deleted
            || v.local is ForceDeleted {
            1nat
        } else {
            0nat
        }),
        ops::remote_undo(plan.candidate, v.remote).len() == (if v.remote is Deleted {
            1nat
        } else {
            0nat
        }),
{
}

/// A candidate that lives on a remote only costs no local branch.
pub proof fn law_remote_only_drops_no_local_branch(
    h: Seq<Exchange>,
    p: int,
    base: BaseView,
    current: Option<Seq<char>>,
    plan: PlanView,
    i: int,
)
    requires
        ops::read_deletion(h, p, base, current, plan).fits,
        p <= i < ops::read_deletion(h, p, base, current, plan).end,
        plan.candidate.scope == CandidateScope::RemoteOnly,
    ensures
        !drops_local(h[i]),
{
    lemma_words();
}

/// A batch is never aborted: every plan has its own result, in order.
pub proof fn law_every_plan_is_reported(
    h: Seq<Exchange>,
    p: int,
    base: BaseView,
    current: Option<Seq<char>>,
    plans: Seq<PlanView>,
)
    ensures
        ops::read_deletions(h, p, base, current, plans).items.len() == plans.len(),
        forall|k: int|
            0 <= k < plans.len() ==> {
                let v = #[trigger] ops::read_deletions(h, p, base, current, plans).items[k];
                v.name == plans[k].candidate.name && v.sha == plans[k].candidate.sha && v.kind
                    == plans[k].candidate.kind
            },
    decreases plans.len(),
{
    if plans.len() > 0 {
        law_every_plan_is_reported(h, p, base, current, plans.drop_last());
        let earlier = ops::read_deletions(h, p, base, current, plans.drop_last());
        let all = ops::read_deletions(h, p, base, current, plans);
        assert forall|k: int| 0 <= k < plans.len() implies {
            let v = #[trigger] all.items[k];
            v.name == plans[k].candidate.name && v.sha == plans[k].candidate.sha && v.kind
                == plans[k].candidate.kind
        } by {
            if k < plans.len() - 1 {
                assert(all.items[k] == earlier.items[k]);
                assert(plans.drop_last()[k] == plans[k]);
            }
        }
    }
}

// ---------------------------------------------------------------------------
// What each step does, command by command and word by word.

/// The candidate is neither checked out nor the base, under either name.
pub open spec fn may_go(
    base: BaseView,
    current: Option<Seq<char>>,
    c: CandidateView,
) -> bool {
    current != Some(c.name) && c.name != base.name && base.refname != Some(c.refname)
}

/// What is checked out, and what everything is compared against, is never
/// deleted: no command is asked, and the refusal says which of the two it is.
pub proof fn law_refusals_say_why(
    h: Seq<Exchange>,
    p: int,
    base: BaseView,
    current: Option<Seq<char>>,
    plan: PlanView,
)
    ensures
        ({
            let run = ops::read_deletion(h, p, base, current, plan);
            let c = plan.candidate;
            &&& run.value is Ok
            &&& !may_go(base, current, c) <==> run.fits && run.end == p
            &&& current == Some(c.name) ==> run.value->Ok_0.local == LocalView::Failed(
                "refusing to delete the checked-out branch"@,
            )
            &&& current != Some(c.name) && !may_go(base, current, c) ==> run.value->Ok_0.local
                == LocalView::Failed("refusing to delete the base branch"@)
            &&& !may_go(base, current, c) ==> run.value->Ok_0.remote == RemoteView::Skipped
                && run.value->Ok_0.undo == Seq::<Seq<char>>::empty()
        }),
{
    let run = ops::read_deletion(h, p, base, current, plan);
    assert(!may_go(base, current, plan.candidate) ==> run.value->Ok_0.undo =~= Seq::empty());
}

/// The first command of every deletion asks where the branch points now. A
/// branch that is gone, or points elsewhere than at the scan, is left as it
/// is, and the message names both commits.
pub proof fn law_the_tip_decides(
    h: Seq<Exchange>,
    p: int,
    base: BaseView,
    current: Option<Seq<char>>,
    plan: PlanView,
)
    requires
        may_go(base, current, plan.candidate),
        ops::read_deletion(h, p, base, current, plan).fits,
    ensures
        git::is_ask(
            h,
            p,
            seq!["rev-parse"@, "--verify"@, "--quiet"@, plan.candidate.refname],
        ),
        ({
            let run = ops::read_deletion(h, p, base, current, plan);
            let v = run.value->Ok_0;
            let c = plan.candidate;
            match h[p].reply {
                Err(e) => run.end == p + 1 && v.local == LocalView::Failed(e.message),
                Ok((false, _)) => run.end == p + 1 && v.local == LocalView::Failed(
                    "branch no longer exists"@,
                ),
                Ok((true, out)) => {
                    &&& text::trim(out) != c.sha ==> run.end == p + 1 && v.local
                        == LocalView::Failed(
                        "tip moved since scan ("@ + ops::short_sha(c.sha) + " → "@
                            + ops::short_sha(text::trim(out)) + "); rescan before deleting"@,
                    )
                    &&& text::trim(out) == c.sha && c.scope == CandidateScope::RemoteOnly
                        ==> v.local == LocalView::Skipped
                    &&& text::trim(out) == c.sha && c.scope == CandidateScope::Local ==> run.end
                        > p + 1 && !(v.local is Skipped)
                },
            }
        }),
{
}

/// A squashed, rebased or gone branch whose tip is unchanged is deleted by one
/// forced command, which decides the outcome: deleted by force exactly if git
/// did as told, and otherwise failed with git's own words.
pub proof fn law_rewritten_branches_are_forced(
    h: Seq<Exchange>,
    p: int,
    base: BaseView,
    current: Option<Seq<char>>,
    plan: PlanView,
)
    requires
        may_go(base, current, plan.candidate),
        ops::read_deletion(h, p, base, current, plan).fits,
        plan.candidate.scope == CandidateScope::Local,
        plan.candidate.kind == MergeKind::Squash || plan.candidate.kind == MergeKind::Rebase
            || plan.candidate.kind == MergeKind::Gone,
        h[p].reply is Ok,
        h[p].reply->Ok_0.0,
        text::trim(h[p].reply->Ok_0.1) == plan.candidate.sha,
    ensures
        git::is_ask(h, p + 1, seq!["branch"@, "-D"@, "--"@, plan.candidate.name]),
        ops::read_deletion(h, p, base, current, plan).value->Ok_0.local == match h[p + 1].reply {
            Ok((true, _)) => LocalView::ForceDeleted,
            Ok((false, err)) => LocalView::Failed(text::trim(err)),
            Err(e) => LocalView::Failed(e.message),
        },
        !plan.delete_remote ==> ops::read_deletion(h, p, base, current, plan).end == p + 2,
{
}

/// A merged branch whose tip is unchanged is deleted gently first. Where git
/// refuses, it is asked whether the tip is part of the base: if so the branch
/// is deleted by force, and if not the refusal stands in git's own words.
pub proof fn law_merged_branches_go_gently(
    h: Seq<Exchange>,
    p: int,
    base: BaseView,
    current: Option<Seq<char>>,
    plan: PlanView,
)
    requires
        may_go(base, current, plan.candidate),
        ops::read_deletion(h, p, base, current, plan).fits,
        plan.candidate.scope == CandidateScope::Local,
        plan.candidate.kind == MergeKind::Merged,
        h[p].reply is Ok,
        h[p].reply->Ok_0.0,
        text::trim(h[p].reply->Ok_0.1) == plan.candidate.sha,
    ensures
        git::is_ask(h, p + 1, seq!["branch"@, "-d"@, "--"@, plan.candidate.name]),
        ({
            let local = ops::read_deletion(h, p, base, current, plan).value->Ok_0.local;
            let end = ops::read_deletion(h, p, base, current, plan).end;
            let c = plan.candidate;
            match h[p + 1].reply {
                Ok((true, _)) => local == LocalView::Deleted && (!plan.delete_remote ==> end
                    == p + 2),
                Err(e) => local == LocalView::Failed(e.message) && end == p + 2,
                Ok((false, err)) => {
                    &&& git::is_ask(
                        h,
                        p + 2,
                        seq!["merge-base"@, "--is-ancestor"@, c.sha, base.name],
                    )
                    &&& match h[p + 2].reply {
                        Ok((true, _)) => {
                            &&& git::is_ask(h, p + 3, seq!["branch"@, "-D"@, "--"@, c.name])
                            &&& local == match h[p + 3].reply {
                                Ok((true, _)) => LocalView::ForceDeleted,
                                Ok((false, again)) => LocalView::Failed(text::trim(again)),
                                Err(e) => LocalView::Failed(e.message),
                            }
                        },
                        _ => local == LocalView::Failed(text::trim(err)) && end == p + 3,
                    }
                },
            }
        }),
{
}

/// The candidate has a live branch on a remote: `remote`/`branch` is what it
/// tracks, and that still exists as far as the last fetch tells.
pub open spec fn tracks(c: CandidateView, remote: Seq<char>, branch: Seq<char>) -> bool {
    &&& !c.upstream_gone
    &&& c.remote_name == Some(remote)
    &&& c.upstream == Some(remote + "/"@ + branch)
}

/// The counterpart of a candidate is the branch it tracks, and nothing else.
pub proof fn law_counterpart_is_what_is_tracked(
    c: CandidateView,
    remote: Seq<char>,
    branch: Seq<char>,
)
    ensures
        ops::counterpart(c) == Some((remote, branch)) <==> tracks(c, remote, branch),
{
    let full = remote + "/"@ + branch;
    let head = remote + "/"@;
    if tracks(c, remote, branch) {
        assert(head =~= full.subrange(0, head.len() as int));
        assert(full.skip(head.len() as int) =~= branch);
    }
    if ops::counterpart(c) == Some((remote, branch)) {
        let upstream = c.upstream->Some_0;
        assert(upstream =~= head + upstream.skip(head.len() as int));
    }
}

/// Asked to, and with the local branch out of the way, the remote branch is
/// deleted too, whatever kind of candidate it is: the tracking ref is resolved
/// at some point `k`, and the push that follows deletes the tracked branch on
/// condition that it still is where the tracking ref was. It is deleted
/// exactly if that push succeeded; every other reply is reported as a failure,
/// and a lost race in words of its own.
pub proof fn law_remote_branch_goes_when_asked(
    h: Seq<Exchange>,
    p: int,
    base: BaseView,
    current: Option<Seq<char>>,
    plan: PlanView,
    remote: Seq<char>,
    branch: Seq<char>,
) -> (k: int)
    requires
        ops::read_deletion(h, p, base, current, plan).fits,
        plan.delete_remote,
        !(ops::read_deletion(h, p, base, current, plan).value->Ok_0.local is Failed),
        tracks(plan.candidate, remote, branch),
        plan.candidate.upstream_ref is Some,
    ensures
        p < k,
        git::is_ask(
            h,
            k,
            seq!["rev-parse"@, "--verify"@, "--quiet"@, plan.candidate.upstream_ref->Some_0],
        ),
        ({
            let run = ops::read_deletion(h, p, base, current, plan);
            let v = run.value->Ok_0;
            match h[k].reply {
                Ok((true, out)) => {
                    &&& run.end == k + 2
                    &&& git::is_ask(
                        h,
                        k + 1,
                        seq![
                            "push"@,
                            "--force-with-lease=refs/heads/"@ + branch + ":"@ + text::trim(out),
                            remote,
                            ":refs/heads/"@ + branch,
                        ],
                    )
                    &&& v.remote == match h[k + 1].reply {
                        Ok((true, _)) => RemoteView::Deleted {
                            target: remote + "/"@ + branch,
                            sha: text::trim(out),
                        },
                        Ok((false, err)) => if text::occurs(err, "stale info"@) {
                            RemoteView::Failed(
                                remote + "/"@ + branch
                                    + " moved since last fetch; run --fetch and rescan"@,
                            )
                        } else {
                            RemoteView::Failed(text::trim(err))
                        },
                        Err(e) => RemoteView::Failed(e.message),
                    }
                },
                _ => run.end == k + 1 && v.remote == RemoteView::Failed(
                    "cannot resolve "@ + plan.candidate.upstream_ref->Some_0
                        + " for a leased delete"@,
                ),
            }
        }),
{
    law_counterpart_is_what_is_tracked(plan.candidate, remote, branch);
    ops::read_guarded(h, p, base, current, plan.candidate).end
}

/// A remote is skipped for one of four reasons and no other: nobody asked, the
/// local half failed, there is no live branch to delete, or no tracking ref to
/// take the lease from. Skipping asks nothing.
pub proof fn law_remote_is_skipped_for_a_reason(
    h: Seq<Exchange>,
    p: int,
    base: BaseView,
    current: Option<Seq<char>>,
    plan: PlanView,
)
    ensures
        ops::read_deletion(h, p, base, current, plan).value->Ok_0.remote is Skipped <==> {
            ||| !plan.delete_remote
            ||| ops::read_deletion(h, p, base, current, plan).value->Ok_0.local is Failed
            ||| forall|remote: Seq<char>, branch: Seq<char>| !tracks(plan.candidate, remote, branch)
            ||| plan.candidate.upstream_ref is None
        },
{
    let c = plan.candidate;
    let v = ops::read_deletion(h, p, base, current, plan).value->Ok_0;
    match ops::counterpart(c) {
        Some((r, b)) => {
            law_counterpart_is_what_is_tracked(c, r, b);
            assert(tracks(c, r, b));
        },
        None => {
            assert forall|r: Seq<char>, b: Seq<char>| !tracks(c, r, b) by {
                law_counterpart_is_what_is_tracked(c, r, b);
            }
        },
    }
}

/// Every deletion is undone by a command that is given word for word: a local
/// one, gentle or forced, by recreating the name at the sha that went; a
/// remote one by pushing the sha back under its name. The local command comes
/// first, and there is no other.
pub proof fn law_undo_names_what_went(
    h: Seq<Exchange>,
    p: int,
    base: BaseView,
    current: Option<Seq<char>>,
    plan: PlanView,
)
    ensures
        ({
            let v = ops::read_deletion(h, p, base, current, plan).value->Ok_0;
            let c = plan.candidate;
            let gone_here = v.local is Deleted || v.local is ForceDeleted;
            &&& gone_here ==> v.undo.len() > 0 && v.undo[0] == "git branch "@ + c.name + " "@
                + ops::short_sha(c.sha)
            &&& forall|remote: Seq<char>, branch: Seq<char>|
                v.remote is Deleted && #[trigger] tracks(c, remote, branch) ==> v.undo.len() > 0
                    && v.undo.last() == "git push "@ + remote + " "@ + ops::short_sha(
                    v.remote->Deleted_sha,
                ) + ":refs/heads/"@ + branch
            &&& v.undo.len() == (if gone_here {
                1int
            } else {
                0
            }) + (if v.remote is Deleted {
                1int
            } else {
                0
            })
        }),
{
    let v = ops::read_deletion(h, p, base, current, plan).value->Ok_0;
    let c = plan.candidate;
    assert forall|remote: Seq<char>, branch: Seq<char>|
        v.remote is Deleted && #[trigger] tracks(c, remote, branch) implies v.undo.len() > 0
        && v.undo.last() == "git push "@ + remote + " "@ + ops::short_sha(v.remote->Deleted_sha)
        + ":refs/heads/"@ + branch by {
        law_counterpart_is_what_is_tracked(c, remote, branch);
    }
}

/// A sha is shown by its first twelve bytes: for the hexadecimal text that a
/// sha is, its first twelve characters, or all of them if there are fewer.
pub proof fn law_shas_are_shown_by_twelve(sha: Seq<char>)
    requires
        forall|i: int| 0 <= i < sha.len() ==> (#[trigger] sha[i]) <= '\u{7f}',
    ensures
        sha.len() >= 12 ==> ops::short_sha(sha) == sha.take(12),
        sha.len() < 12 ==> ops::short_sha(sha) == sha,
{
    text::laws::law_ascii_bytes_are_characters(sha, 12);
}

/// A batch is the deletions one after another: each plan is carried out from
/// where the one before it ended, against the same base and the same
/// checked-out branch, whatever became of the others.
pub proof fn law_each_plan_is_carried_out(
    h: Seq<Exchange>,
    p: int,
    base: BaseView,
    current: Option<Seq<char>>,
    plans: Seq<PlanView>,
    k: int,
)
    requires
        ops::read_deletions(h, p, base, current, plans).fits,
        0 <= k < plans.len(),
    ensures
        ({
            let at = ops::read_deletions(h, p, base, current, plans.take(k)).end;
            let run = ops::read_deletion(h, at, base, current, plans[k]);
            &&& run.fits
            &&& ops::read_deletions(h, p, base, current, plans.take(k + 1)).end == run.end
            &&& ops::read_deletions(h, p, base, current, plans).items[k] == run.value->Ok_0
        }),
        ops::read_deletions(h, p, base, current, plans.take(0)).end == p,
    decreases plans.len(),
{
    law_every_plan_is_reported(h, p, base, current, plans.drop_last());
    assert(plans.take(0) =~= Seq::<PlanView>::empty());
    if k == plans.len() - 1 {
        assert(plans.take(k) =~= plans.drop_last());
        assert(plans.take(k + 1) =~= plans);
    } else {
        law_each_plan_is_carried_out(h, p, base, current, plans.drop_last(), k);
        assert(plans.drop_last().take(k) =~= plans.take(k));
        assert(plans.drop_last().take(k + 1) =~= plans.take(k + 1));
    }
}

/// A result counts as failed if either half of the deletion failed.
pub proof fn law_either_half_can_fail(v: DeletionView)
    ensures
        v.failed() <==> v.local is Failed || v.remote is Failed,
        !v.failed() <==> (v.local is Deleted || v.local is ForceDeleted || v.local is Skipped) && (
        v.remote is Deleted || v.remote is Skipped),
{
}

/// Which branch is checked out is asked of `HEAD`, and a git that cannot tell
/// leaves it open.
pub proof fn law_head_names_the_current_branch(h: Seq<Exchange>, p: int)
    ensures
        ops::current_args() == seq!["symbolic-ref"@, "--quiet"@, "--short"@, "HEAD"@],
        ops::current_at(h, p) == match h[p].reply {
            Ok((true, out)) => Some(text::trim(out)),
            _ => None,
        },
{
}

/// What a deletion hands back names the branch it was planned for, and if the
/// local branch is gone, deleted or forced, the first of its undo commands
/// makes it again, by its name and at the tip that went.
pub proof fn law_a_deletion_can_be_undone<G: Git>(
    git: &mut G,
    base: &Base,
    current: Option<&str>,
    plan: &PlannedDeletion,
    r: DeletionResult,
)
    requires
        call_ensures(ops::delete_one::<G>, (git, base, current, plan), r),
    ensures
        r@.name == plan@.candidate.name,
        r@.sha == plan@.candidate.sha,
        r@.kind == plan@.candidate.kind,
        r@.local is Deleted || r@.local is ForceDeleted ==> r@.undo.len() > 0 && r@.undo[0]
            == "git branch "@ + plan@.candidate.name + " "@ + ops::short_sha(plan@.candidate.sha),
        r@.local is Failed ==> r@.undo.len() == 0 && r@.remote is Skipped,
{
}

/// The remote branch was asked for at `k`, by its tracking ref, and pushed away
/// under a lease on what that resolved to: it is deleted exactly if the push
/// went well, and otherwise that failed. Nothing is asked behind it.
pub open spec fn goes_under_a_lease(
    h: Seq<Exchange>,
    k: int,
    tracking: Seq<char>,
    remote: Seq<char>,
    branch: Seq<char>,
    outcome: RemoteView,
) -> bool {
    let found = h[k].reply is Ok && h[k].reply->Ok_0.0;
    let sha = text::trim(h[k].reply->Ok_0.1);
    &&& git::is_ask(h, k, seq!["rev-parse"@, "--verify"@, "--quiet"@, tracking])
    &&& !found ==> outcome is Failed && h.len() == k + 1
    &&& found ==> {
        &&& h.len() == k + 2
        &&& git::is_ask(
            h,
            k + 1,
            seq![
                "push"@,
                "--force-with-lease=refs/heads/"@ + branch + ":"@ + sha,
                remote,
                ":refs/heads/"@ + branch,
            ],
        )
        &&& outcome is Deleted <==> h[k + 1].reply is Ok && h[k + 1].reply->Ok_0.0
        &&& outcome is Deleted ==> outcome->target == remote + "/"@ + branch && outcome->sha == sha
        &&& !(outcome is Deleted) ==> outcome is Failed
    }
}

/// What a deletion does to the remote: asked for, behind a local half that did
/// not fail, a live remote branch with a tracking ref goes under a lease,
/// whatever the kind.
pub proof fn law_an_armed_remote_branch_goes<G: Git>(
    git: &mut G,
    base: &Base,
    current: Option<&str>,
    plan: &PlannedDeletion,
    r: DeletionResult,
    remote: Seq<char>,
    branch: Seq<char>,
)
    requires
        call_ensures(ops::delete_one::<G>, (git, base, current, plan), r),
        plan@.delete_remote,
        !(r@.local is Failed),
        tracks(plan@.candidate, remote, branch),
        plan@.candidate.upstream_ref is Some,
    ensures
        exists|k: int|
            old(git).history().len() <= k && #[trigger] goes_under_a_lease(
                final(git).history(),
                k,
                plan@.candidate.upstream_ref->Some_0,
                remote,
                branch,
                r@.remote,
            ),
{
    let h = final(git).history();
    let p = old(git).history().len() as int;
    let k = law_remote_branch_goes_when_asked(
        h,
        p,
        base@,
        current.deep_view(),
        plan@,
        remote,
        branch,
    );
    assert(goes_under_a_lease(
        h,
        k,
        plan@.candidate.upstream_ref->Some_0,
        remote,
        branch,
        r@.remote,
    ));
}

/// A batch asks for the checked-out branch first, and then carries out every
/// plan in order, with a result for each that names its branch.
pub proof fn law_a_batch_has_a_result_per_plan<G: Git>(
    git: &mut G,
    base: &Base,
    plans: &[PlannedDeletion],
    r: Vec<DeletionResult>,
    k: int,
)
    requires
        call_ensures(ops::execute::<G>, (git, base, plans), r),
        0 <= k < plans.deep_view().len(),
    ensures
        git::is_ask(
            final(git).history(),
            old(git).history().len() as int,
            seq!["symbolic-ref"@, "--quiet"@, "--short"@, "HEAD"@],
        ),
        r.deep_view().len() == plans.deep_view().len(),
        r.deep_view()[k].name == plans.deep_view()[k].candidate.name,
        r.deep_view()[k].sha == plans.deep_view()[k].candidate.sha,
        r.deep_view()[k].kind == plans.deep_view()[k].candidate.kind,
{
    let h = final(git).history();
    let p = old(git).history().len() as int;
    let current = ops::current_at(h, p);
    law_every_plan_is_reported(h, p + 1, base@, current, plans.deep_view());
    law_each_plan_is_carried_out(h, p + 1, base@, current, plans.deep_view(), k);
}

/// What a deletion and its plan say is what they hold.
pub proof fn law_deletions_are_seen_as_they_are(r: DeletionResult, plan: PlannedDeletion)
    ensures
        r@.name == r.name@ && r@.sha == r.sha@ && r@.kind == r.kind,
        r@.undo.len() == r.undo@.len(),
        forall|i: int| 0 <= i < r.undo@.len() ==> r@.undo[i] == (#[trigger] r.undo@[i])@,
        r@.local is Deleted <==> r.local is Deleted,
        r@.local is ForceDeleted <==> r.local is ForceDeleted,
        r@.local is Skipped <==> r.local is Skipped,
        r@.remote is Deleted <==> r.remote is Deleted,
        r@.remote is Skipped <==> r.remote is Skipped,
        plan@.candidate == plan.candidate@ && plan@.delete_remote == plan.delete_remote,
{
}

} // verus!
