//! Deletion: what is asked of git to remove a branch, and what came of it.

pub mod laws;

use vstd::prelude::*;

use crate::git::{self, Error, Exchange, Git, Reading, Stretch};
use crate::scan::{Base, BaseView, Candidate, CandidateScope, CandidateView, MergeKind};
use crate::text;

verus! {

/// A branch that is to be deleted.
pub struct PlannedDeletion {
    pub candidate: Candidate,
    pub delete_remote: bool,
}

/// What a [`PlannedDeletion`] holds.
pub struct PlanView {
    pub candidate: CandidateView,
    pub delete_remote: bool,
}

impl View for PlannedDeletion {
    type V = PlanView;

    open spec fn view(&self) -> PlanView {
        PlanView { candidate: self.candidate@, delete_remote: self.delete_remote }
    }
}

impl DeepView for PlannedDeletion {
    type V = PlanView;

    open spec fn deep_view(&self) -> PlanView {
        self@
    }
}

/// What became of a local branch.
#[derive(Debug, PartialEq)]
pub enum LocalOutcome {
    Deleted,
    /// `-D` was needed; we only force after verifying the merge ourselves.
    ForceDeleted,
    /// The candidate lives on a remote only: there is no local branch.
    Skipped,
    Failed(String),
}

/// What a [`LocalOutcome`] says.
pub enum LocalView {
    Deleted,
    ForceDeleted,
    Skipped,
    Failed(Seq<char>),
}

impl View for LocalOutcome {
    type V = LocalView;

    open spec fn view(&self) -> LocalView {
        match *self {
            LocalOutcome::Deleted => LocalView::Deleted,
            LocalOutcome::ForceDeleted => LocalView::ForceDeleted,
            LocalOutcome::Skipped => LocalView::Skipped,
            LocalOutcome::Failed(m) => LocalView::Failed(m@),
        }
    }
}

impl Clone for LocalOutcome {
    fn clone(&self) -> (r: LocalOutcome)
        ensures
            r@ == self@,
    {
        match self {
            LocalOutcome::Deleted => LocalOutcome::Deleted,
            LocalOutcome::ForceDeleted => LocalOutcome::ForceDeleted,
            LocalOutcome::Skipped => LocalOutcome::Skipped,
            LocalOutcome::Failed(m) => LocalOutcome::Failed(m.clone()),
        }
    }
}

/// What became of a remote branch.
#[derive(Debug, PartialEq)]
pub enum RemoteOutcome {
    /// `target` is the ref actually deleted (e.g. "origin/feat") — it can
    /// differ from the local branch name.
    Deleted { target: String, sha: String },
    /// Not requested, or no live upstream to delete.
    Skipped,
    Failed(String),
}

/// What a [`RemoteOutcome`] says.
pub enum RemoteView {
    Deleted { target: Seq<char>, sha: Seq<char> },
    Skipped,
    Failed(Seq<char>),
}

impl View for RemoteOutcome {
    type V = RemoteView;

    open spec fn view(&self) -> RemoteView {
        match *self {
            RemoteOutcome::Deleted { target, sha } => RemoteView::Deleted {
                target: target@,
                sha: sha@,
            },
            RemoteOutcome::Skipped => RemoteView::Skipped,
            RemoteOutcome::Failed(m) => RemoteView::Failed(m@),
        }
    }
}

impl Clone for RemoteOutcome {
    fn clone(&self) -> (r: RemoteOutcome)
        ensures
            r@ == self@,
    {
        match self {
            RemoteOutcome::Deleted { target, sha } => RemoteOutcome::Deleted {
                target: target.clone(),
                sha: sha.clone(),
            },
            RemoteOutcome::Skipped => RemoteOutcome::Skipped,
            RemoteOutcome::Failed(m) => RemoteOutcome::Failed(m.clone()),
        }
    }
}

/// What became of one planned deletion.
#[derive(Debug)]
pub struct DeletionResult {
    pub name: String,
    pub sha: String,
    /// Why the branch was a candidate; a forced deletion is justified by it.
    pub kind: MergeKind,
    pub local: LocalOutcome,
    pub remote: RemoteOutcome,
    /// Copy-pasteable commands that restore what was deleted.
    pub undo: Vec<String>,
}

/// What a [`DeletionResult`] says.
pub struct DeletionView {
    pub name: Seq<char>,
    pub sha: Seq<char>,
    pub kind: MergeKind,
    pub local: LocalView,
    pub remote: RemoteView,
    pub undo: Seq<Seq<char>>,
}

impl View for DeletionResult {
    type V = DeletionView;

    open spec fn view(&self) -> DeletionView {
        DeletionView {
            name: self.name@,
            sha: self.sha@,
            kind: self.kind,
            local: self.local@,
            remote: self.remote@,
            undo: self.undo.deep_view(),
        }
    }
}

impl DeepView for DeletionResult {
    type V = DeletionView;

    open spec fn deep_view(&self) -> DeletionView {
        self@
    }
}

impl DeletionView {
    /// Either half of the deletion failed.
    pub open spec fn failed(self) -> bool {
        self.local is Failed || self.remote is Failed
    }
}

impl DeletionResult {
    pub fn failed(&self) -> (r: bool)
        ensures
            r == self@.failed(),
    {
        let local = match &self.local {
            LocalOutcome::Failed(_) => true,
            _ => false,
        };
        let remote = match &self.remote {
            RemoteOutcome::Failed(_) => true,
            _ => false,
        };
        local || remote
    }
}

// ---------------------------------------------------------------------------
// The commands.

/// Asks which commit a ref points at.
pub open spec fn tip_args(refname: Seq<char>) -> Seq<Seq<char>> {
    seq!["rev-parse"@, "--verify"@, "--quiet"@, refname]
}

/// Deletes a branch if git judges it merged.
pub open spec fn gentle_args(name: Seq<char>) -> Seq<Seq<char>> {
    seq!["branch"@, "-d"@, "--"@, name]
}

/// Deletes a branch whatever git judges.
pub open spec fn force_args(name: Seq<char>) -> Seq<Seq<char>> {
    seq!["branch"@, "-D"@, "--"@, name]
}

/// Asks whether a commit is part of the base.
pub open spec fn ancestor_args(sha: Seq<char>, base: Seq<char>) -> Seq<Seq<char>> {
    seq!["merge-base"@, "--is-ancestor"@, sha, base]
}

/// Deletes a branch on a remote, but only if it still points where it is
/// expected to.
pub open spec fn push_args(
    remote: Seq<char>,
    branch: Seq<char>,
    expected: Seq<char>,
) -> Seq<Seq<char>> {
    seq![
        "push"@,
        "--force-with-lease=refs/heads/"@ + branch + ":"@ + expected,
        remote,
        ":refs/heads/"@ + branch,
    ]
}

/// Asks which branch is checked out.
pub open spec fn current_args() -> Seq<Seq<char>> {
    seq!["symbolic-ref"@, "--quiet"@, "--short"@, "HEAD"@]
}

// ---------------------------------------------------------------------------
// What is made of the replies.

/// A sha as it is shown: its first twelve bytes.
pub open spec fn short_sha(sha: Seq<char>) -> Seq<char> {
    match text::byte_prefix(sha, 12) {
        Some(start) => start,
        None => sha,
    }
}

/// What is said of a branch that advanced between scan and deletion.
pub open spec fn moved_message(sha: Seq<char>, tip: Seq<char>) -> Seq<char> {
    "tip moved since scan ("@ + short_sha(sha) + " → "@ + short_sha(tip)
        + "); rescan before deleting"@
}

/// The live remote counterpart as (remote, branch).
pub open spec fn counterpart(c: CandidateView) -> Option<(Seq<char>, Seq<char>)> {
    match (c.remote_name, c.upstream) {
        (Some(remote), Some(upstream)) if !c.upstream_gone => match text::strip_prefix(
            upstream,
            remote + "/"@,
        ) {
            Some(branch) => Some((remote, branch)),
            None => None,
        },
        _ => None,
    }
}

/// A forced deletion.
pub open spec fn read_force(h: Seq<Exchange>, p: int, c: CandidateView) -> Reading<LocalView> {
    let forced = git::read_attempt(h, p, force_args(c.name));
    match forced.value {
        Ok((true, _)) => forced.with(LocalView::ForceDeleted),
        Ok((false, err)) => forced.with(LocalView::Failed(text::trim(err))),
        Err(e) => forced.with(LocalView::Failed(e.message)),
    }
}

/// A gentle deletion. `-d` judges merged-ness against HEAD/upstream, not our
/// base: if the tip is an ancestor of the base, the deletion is forced after
/// all; otherwise git's refusal stands.
pub open spec fn read_gentle(
    h: Seq<Exchange>,
    p: int,
    base: BaseView,
    c: CandidateView,
) -> Reading<LocalView> {
    let gentle = git::read_attempt(h, p, gentle_args(c.name));
    match gentle.value {
        Ok((true, _)) => gentle.with(LocalView::Deleted),
        Err(e) => gentle.with(LocalView::Failed(e.message)),
        Ok((false, err)) => {
            let merged = git::read_attempt(
                h,
                gentle.end,
                ancestor_args(c.sha, base.name),
            ).behind(gentle);
            match merged.value {
                Ok((true, _)) => read_force(h, merged.end, c).behind(merged),
                _ => merged.with(LocalView::Failed(text::trim(err))),
            }
        },
    }
}

/// The deletion of the local branch. Compare-then-delete: the tip must still
/// be the sha the user consented to.
pub open spec fn read_local(
    h: Seq<Exchange>,
    p: int,
    base: BaseView,
    c: CandidateView,
) -> Reading<LocalView> {
    let tip = git::read_attempt(h, p, tip_args(c.refname));
    match tip.value {
        Err(e) => tip.with(LocalView::Failed(e.message)),
        Ok((false, _)) => tip.with(LocalView::Failed("branch no longer exists"@)),
        Ok((true, out)) => if text::trim(out) != c.sha {
            tip.with(LocalView::Failed(moved_message(c.sha, text::trim(out))))
        } else if c.scope == CandidateScope::RemoteOnly {
            tip.with(LocalView::Skipped)
        } else if c.needs_force() {
            read_force(h, tip.end, c).behind(tip)
        } else {
            read_gentle(h, tip.end, base, c).behind(tip)
        },
    }
}

/// The deletion of the remote branch. Lease: it is deleted only if the remote
/// still points where our tracking ref says, so a colleague's push after our
/// last fetch aborts the deletion.
pub open spec fn read_remote(h: Seq<Exchange>, p: int, c: CandidateView) -> Reading<RemoteView> {
    match (counterpart(c), c.upstream_ref) {
        (Some((remote, branch)), Some(upstream_ref)) => {
            let target = remote + "/"@ + branch;
            let tip = git::read_attempt(h, p, tip_args(upstream_ref));
            match tip.value {
                Ok((true, out)) => {
                    let expected = text::trim(out);
                    let push = git::read_attempt(
                        h,
                        tip.end,
                        push_args(remote, branch, expected),
                    ).behind(tip);
                    match push.value {
                        Ok((true, _)) => push.with(RemoteView::Deleted { target, sha: expected }),
                        Ok((false, err)) => push.with(
                            RemoteView::Failed(
                                if text::occurs(err, "stale info"@) {
                                    target + " moved since last fetch; run --fetch and rescan"@
                                } else {
                                    text::trim(err)
                                },
                            ),
                        ),
                        Err(e) => push.with(RemoteView::Failed(e.message)),
                    }
                },
                _ => tip.with(
                    RemoteView::Failed(
                        "cannot resolve "@ + upstream_ref + " for a leased delete"@,
                    ),
                ),
            }
        },
        // gone or never tracked: nothing to delete
        _ => Reading::settled(p, RemoteView::Skipped),
    }
}

/// The candidate is checked out.
pub open spec fn is_current(c: CandidateView, current: Option<Seq<char>>) -> bool {
    current == Some(c.name)
}

/// The candidate is the base.
pub open spec fn is_base(c: CandidateView, base: BaseView) -> bool {
    c.name == base.name || base.refname == Some(c.refname)
}

/// The local half of [`delete_one`]: the invariants that a scan already
/// enforces are asserted again before destruction.
pub open spec fn read_guarded(
    h: Seq<Exchange>,
    p: int,
    base: BaseView,
    current: Option<Seq<char>>,
    c: CandidateView,
) -> Reading<LocalView> {
    if is_current(c, current) {
        Reading::settled(p, LocalView::Failed("refusing to delete the checked-out branch"@))
    } else if is_base(c, base) {
        Reading::settled(p, LocalView::Failed("refusing to delete the base branch"@))
    } else {
        read_local(h, p, base, c)
    }
}

/// How a deleted local branch is restored.
pub open spec fn local_undo(c: CandidateView, local: LocalView) -> Seq<Seq<char>> {
    match local {
        LocalView::Deleted | LocalView::ForceDeleted => seq![
            "git branch "@ + c.name + " "@ + short_sha(c.sha),
        ],
        _ => Seq::empty(),
    }
}

/// How a deleted remote branch is restored.
pub open spec fn remote_undo(c: CandidateView, remote: RemoteView) -> Seq<Seq<char>> {
    match (remote, counterpart(c)) {
        (RemoteView::Deleted { target: _, sha }, Some((r, b))) => seq![
            "git push "@ + r + " "@ + short_sha(sha) + ":refs/heads/"@ + b,
        ],
        _ => Seq::empty(),
    }
}

/// [`delete_one`]. The remote branch is kept when the local deletion failed;
/// deleting only the remote half would surprise more than it helps.
pub open spec fn read_deletion(
    h: Seq<Exchange>,
    p: int,
    base: BaseView,
    current: Option<Seq<char>>,
    plan: PlanView,
) -> Reading<DeletionView> {
    let c = plan.candidate;
    let local = read_guarded(h, p, base, current, c);
    match local.value {
        Err(e) => local.failing(e),
        Ok(l) => {
            let remote = if !plan.delete_remote || l is Failed {
                local.with(RemoteView::Skipped)
            } else {
                read_remote(h, local.end, c).behind(local)
            };
            match remote.value {
                Err(e) => remote.failing(e),
                Ok(r) => remote.with(
                    DeletionView {
                        name: c.name,
                        sha: c.sha,
                        kind: c.kind,
                        local: l,
                        remote: r,
                        undo: local_undo(c, l) + remote_undo(c, r),
                    },
                ),
            }
        },
    }
}

// ---------------------------------------------------------------------------
// The functions.

/// A sha as it is shown.
pub fn short(sha: &str) -> (r: String)
    ensures
        r@ == short_sha(sha@),
{
    match text::first_bytes(sha, 12) {
        Some(start) => start,
        None => sha.to_owned(),
    }
}

/// The live remote counterpart as (remote, branch), e.g. ("origin", "feat/x").
/// The branch part can differ from the local name — always show this to the
/// user before deleting remotely.
pub fn remote_branch(c: &Candidate) -> (r: Option<(String, String)>)
    ensures
        r.deep_view() == counterpart(c@),
{
    if c.upstream_gone {
        return None;
    }
    match (&c.remote_name, &c.upstream) {
        (Some(remote), Some(upstream)) => {
            let prefix = remote.clone().concat("/");
            match text::after_prefix(upstream.as_str(), prefix.as_str()) {
                Some(branch) => Some((remote.clone(), branch)),
                None => None,
            }
        },
        _ => None,
    }
}

/// The checked-out branch, as far as git can tell.
pub fn current_branch<G: Git>(git: &mut G) -> (r: Option<String>)
    ensures
        git::asked(old(git).history(), final(git).history(), current_args()),
        r.deep_view() == match final(git).history().last().reply {
            Ok((true, out)) => Some(text::trim(out)),
            _ => None,
        },
{
    let reply = git.try_run(&["symbolic-ref", "--quiet", "--short", "HEAD"]);
    assert(git.history().last().args =~= current_args());
    match reply {
        Ok((true, out)) => Some(text::trimmed(out.as_str())),
        _ => None,
    }
}

/// Asks which commit a ref points at.
fn ask_tip<G: Git>(git: &mut G, refname: &str) -> (r: Result<(bool, String), Error>)
    ensures
        git::asked(old(git).history(), final(git).history(), tip_args(refname@)),
        git::try_reply(r) == final(git).history().last().reply,
{
    let r = git.try_run(&["rev-parse", "--verify", "--quiet", refname]);
    assert(git.history().last().args =~= tip_args(refname@));
    r
}

fn force_delete<G: Git>(git: &mut G, c: &Candidate) -> (r: LocalOutcome)
    ensures
        read_force(final(git).history(), old(git).history().len() as int, c@).is_told(
            old(git).history(),
            final(git).history(),
            Ok(r@),
        ),
{
    let reply = git.try_run(&["branch", "-D", "--", c.name.as_str()]);
    assert(git.history().last().args =~= force_args(c.name@));
    match reply {
        Ok((true, _)) => LocalOutcome::ForceDeleted,
        Ok((false, err)) => LocalOutcome::Failed(text::trimmed(err.as_str())),
        Err(e) => LocalOutcome::Failed(e.message),
    }
}

fn gentle_delete<G: Git>(git: &mut G, base: &Base, c: &Candidate) -> (r: LocalOutcome)
    ensures
        read_gentle(final(git).history(), old(git).history().len() as int, base@, c@).is_told(
            old(git).history(),
            final(git).history(),
            Ok(r@),
        ),
{
    let reply = git.try_run(&["branch", "-d", "--", c.name.as_str()]);
    assert(git.history().last().args =~= gentle_args(c.name@));
    match reply {
        Ok((true, _)) => LocalOutcome::Deleted,
        Ok((false, first_err)) => {
            let reply = git.try_run(
                &["merge-base", "--is-ancestor", c.sha.as_str(), base.name.as_str()],
            );
            assert(git.history().last().args =~= ancestor_args(c.sha@, base.name@));
            match reply {
                Ok((true, _)) => force_delete(git, c),
                _ => LocalOutcome::Failed(text::trimmed(first_err.as_str())),
            }
        },
        Err(e) => LocalOutcome::Failed(e.message),
    }
}

fn delete_local<G: Git>(git: &mut G, base: &Base, c: &Candidate) -> (r: LocalOutcome)
    ensures
        read_local(final(git).history(), old(git).history().len() as int, base@, c@).is_told(
            old(git).history(),
            final(git).history(),
            Ok(r@),
        ),
{
    // Compare-then-delete: a branch advanced from another terminal between
    // scan and delete must survive. (The remaining check-to-delete window is
    // milliseconds.)
    let tip = match ask_tip(git, c.refname.as_str()) {
        Ok((true, out)) => text::trimmed(out.as_str()),
        Ok((false, _)) => return LocalOutcome::Failed("branch no longer exists".to_owned()),
        Err(e) => return LocalOutcome::Failed(e.message),
    };
    if !text::same(tip.as_str(), c.sha.as_str()) {
        return LocalOutcome::Failed(
            "tip moved since scan (".to_owned().concat(short(c.sha.as_str()).as_str()).concat(
                " → ",
            ).concat(short(tip.as_str()).as_str()).concat("); rescan before deleting"),
        );
    }
    if c.scope == CandidateScope::RemoteOnly {
        return LocalOutcome::Skipped;
    }
    if c.needs_force() {
        // Squash/rebase/gone are never "merged" in git's ancestry sense; the
        // user consented to force via selection defaults or flags.
        return force_delete(git, c);
    }
    gentle_delete(git, base, c)
}

fn delete_remote<G: Git>(git: &mut G, c: &Candidate) -> (r: RemoteOutcome)
    ensures
        read_remote(final(git).history(), old(git).history().len() as int, c@).is_told(
            old(git).history(),
            final(git).history(),
            Ok(r@),
        ),
{
    let (remote, branch) = match remote_branch(c) {
        Some(pair) => pair,
        None => return RemoteOutcome::Skipped,
    };
    let upstream_ref = match &c.upstream_ref {
        Some(upstream_ref) => upstream_ref,
        None => return RemoteOutcome::Skipped,
    };
    let target = remote.clone().concat("/").concat(branch.as_str());
    let expected = match ask_tip(git, upstream_ref.as_str()) {
        Ok((true, out)) => text::trimmed(out.as_str()),
        _ => return RemoteOutcome::Failed(
            "cannot resolve ".to_owned().concat(upstream_ref.as_str()).concat(
                " for a leased delete",
            ),
        ),
    };
    let lease = "--force-with-lease=refs/heads/".to_owned().concat(branch.as_str()).concat(
        ":",
    ).concat(expected.as_str());
    let gone = ":refs/heads/".to_owned().concat(branch.as_str());
    let reply = git.try_run(&["push", lease.as_str(), remote.as_str(), gone.as_str()]);
    assert(git.history().last().args =~= push_args(remote@, branch@, expected@));
    match reply {
        Ok((true, _)) => RemoteOutcome::Deleted { target, sha: expected },
        Ok((false, err)) => if text::has_part(err.as_str(), "stale info") {
            RemoteOutcome::Failed(
                target.concat(" moved since last fetch; run --fetch and rescan"),
            )
        } else {
            RemoteOutcome::Failed(text::trimmed(err.as_str()))
        },
        Err(e) => RemoteOutcome::Failed(e.message),
    }
}

/// Whether an optional borrowed text is the given one.
fn is_some_text(a: Option<&str>, b: &str) -> (r: bool)
    ensures
        r == (a.deep_view() == Some(b@)),
{
    match a {
        Some(x) => text::same(x, b),
        None => false,
    }
}

/// Delete a single planned branch. `current` is the checked-out branch,
/// re-read at execution time as defense in depth against scan-time bugs.
pub fn delete_one<G: Git>(
    git: &mut G,
    base: &Base,
    current: Option<&str>,
    plan: &PlannedDeletion,
) -> (r: DeletionResult)
    ensures
        read_deletion(
            final(git).history(),
            old(git).history().len() as int,
            base@,
            current.deep_view(),
            plan@,
        ).is_told(old(git).history(), final(git).history(), Ok(r@)),
{
    let c = &plan.candidate;
    let mut undo: Vec<String> = Vec::new();
    let local = if is_some_text(current, c.name.as_str()) {
        LocalOutcome::Failed("refusing to delete the checked-out branch".to_owned())
    } else if text::same(c.name.as_str(), base.name.as_str()) || text::same_as_some(
        &base.refname,
        c.refname.as_str(),
    ) {
        LocalOutcome::Failed("refusing to delete the base branch".to_owned())
    } else {
        delete_local(git, base, c)
    };
    let restorable = match &local {
        LocalOutcome::Deleted | LocalOutcome::ForceDeleted => true,
        _ => false,
    };
    if restorable {
        undo.push(
            "git branch ".to_owned().concat(c.name.as_str()).concat(" ").concat(
                short(c.sha.as_str()).as_str(),
            ),
        );
    }
    assert(undo.deep_view() =~= local_undo(c@, local@));
    let local_failed = match &local {
        LocalOutcome::Failed(_) => true,
        _ => false,
    };
    let remote = if !plan.delete_remote || local_failed {
        RemoteOutcome::Skipped
    } else {
        delete_remote(git, c)
    };
    let ghost first = undo.deep_view();
    if let RemoteOutcome::Deleted { target: _, sha } = &remote {
        if let Some((r, b)) = remote_branch(c) {
            undo.push(
                "git push ".to_owned().concat(r.as_str()).concat(" ").concat(
                    short(sha.as_str()).as_str(),
                ).concat(":refs/heads/").concat(b.as_str()),
            );
        }
    }
    assert(undo.deep_view() =~= first + remote_undo(c@, remote@));
    DeletionResult {
        name: c.name.clone(),
        sha: c.sha.clone(),
        kind: c.kind,
        local,
        remote,
        undo,
    }
}

/// The planned deletions one after another.
pub open spec fn read_deletions(
    h: Seq<Exchange>,
    p: int,
    base: BaseView,
    current: Option<Seq<char>>,
    plans: Seq<PlanView>,
) -> Stretch<DeletionView>
    decreases plans.len(),
{
    if plans.len() == 0 {
        Stretch::empty(p)
    } else {
        let earlier = read_deletions(h, p, base, current, plans.drop_last());
        let run = read_deletion(h, earlier.end, base, current, plans.last());
        earlier.and(run, run.value->Ok_0)
    }
}

/// The checked-out branch, as far as the reply at `p` tells.
pub open spec fn current_at(h: Seq<Exchange>, p: int) -> Option<Seq<char>> {
    match h[p].reply {
        Ok((true, out)) => Some(text::trim(out)),
        _ => None,
    }
}

/// What follows a stretch of history does not change its reading.
pub proof fn lemma_deletion_stays(
    h: Seq<Exchange>,
    later: Seq<Exchange>,
    p: int,
    base: BaseView,
    current: Option<Seq<char>>,
    plan: PlanView,
)
    requires
        git::extends(h, later),
        0 <= p,
        read_deletion(h, p, base, current, plan).fits,
        read_deletion(h, p, base, current, plan).end <= h.len(),
    ensures
        read_deletion(later, p, base, current, plan) == read_deletion(h, p, base, current, plan),
        p <= read_deletion(h, p, base, current, plan).end,
{
    let c = plan.candidate;
    let local = read_guarded(h, p, base, current, c);
    assert(p <= local.end <= h.len());
    assert(read_guarded(later, p, base, current, c) == local);
    if local.value is Ok && plan.delete_remote && !(local.value->Ok_0 is Failed) {
        let remote = read_remote(h, local.end, c);
        assert(remote.fits);
        assert(read_remote(later, local.end, c) == remote);
    }
}

/// What follows a stretch of history does not change its reading.
pub proof fn lemma_deletions_stay(
    h: Seq<Exchange>,
    later: Seq<Exchange>,
    p: int,
    base: BaseView,
    current: Option<Seq<char>>,
    plans: Seq<PlanView>,
)
    requires
        git::extends(h, later),
        0 <= p,
        read_deletions(h, p, base, current, plans).fits,
        read_deletions(h, p, base, current, plans).end <= h.len(),
    ensures
        read_deletions(later, p, base, current, plans) == read_deletions(
            h,
            p,
            base,
            current,
            plans,
        ),
        p <= read_deletions(h, p, base, current, plans).end,
    decreases plans.len(),
{
    if plans.len() > 0 {
        let earlier = read_deletions(h, p, base, current, plans.drop_last());
        lemma_deletion_order(h, earlier.end, base, current, plans.last());
        lemma_deletions_stay(h, later, p, base, current, plans.drop_last());
        lemma_deletion_stays(h, later, earlier.end, base, current, plans.last());
    }
}

/// A deletion ends where it began or later, and it always has an outcome.
proof fn lemma_deletion_order(
    h: Seq<Exchange>,
    p: int,
    base: BaseView,
    current: Option<Seq<char>>,
    plan: PlanView,
)
    ensures
        p <= read_deletion(h, p, base, current, plan).end,
        read_deletion(h, p, base, current, plan).value is Ok,
{
}

/// Delete every planned branch, local first, then (optionally) its remote
/// counterpart. Never aborts mid-batch: each branch reports its own outcome.
pub fn execute<G: Git>(git: &mut G, base: &Base, plans: &[PlannedDeletion]) -> (r: Vec<
    DeletionResult,
>)
    ensures
        git::extends(old(git).history(), final(git).history()),
        git::is_ask(final(git).history(), old(git).history().len() as int, current_args()),
        ({
            let p = old(git).history().len() as int;
            let s = read_deletions(
                final(git).history(),
                p + 1,
                base@,
                current_at(final(git).history(), p),
                plans.deep_view(),
            );
            s.fits && s.end == final(git).history().len() && s.items == r.deep_view()
        }),
{
    let ghost start = git.history();
    let ghost p = start.len() as int;
    let current = current_branch(git);
    let ghost cur = current.deep_view();
    let mut r: Vec<DeletionResult> = Vec::new();
    let mut i: usize = 0;
    let ghost all = plans.deep_view();
    assert(all.take(0) =~= Seq::<PlanView>::empty());
    assert(r.deep_view() =~= Seq::<DeletionView>::empty());
    while i < plans.len()
        invariant
            i <= plans@.len(),
            all == plans.deep_view(),
            start == old(git).history(),
            p == start.len(),
            cur == current.deep_view(),
            cur == current_at(git.history(), p),
            git::extends(start, git.history()),
            git::is_ask(git.history(), p, current_args()),
            read_deletions(git.history(), p + 1, base@, cur, all.take(i as int)).fits,
            read_deletions(git.history(), p + 1, base@, cur, all.take(i as int)).end
                == git.history().len(),
            read_deletions(git.history(), p + 1, base@, cur, all.take(i as int)).items
                == r.deep_view(),
        decreases plans@.len() - i,
    {
        let ghost before = git.history();
        let ghost earlier = r.deep_view();
        let checked_out = match &current {
            Some(name) => Some(name.as_str()),
            None => None,
        };
        let result = delete_one(git, base, checked_out, &plans[i]);
        let ghost v = result@;
        r.push(result);
        proof {
            lemma_deletions_stay(
                before,
                git.history(),
                p + 1,
                base@,
                cur,
                all.take(i as int),
            );
            assert(r.deep_view() =~= earlier.push(v));
            assert(all.take(i + 1).drop_last() =~= all.take(i as int));
            assert(all.take(i + 1).last() == plans@[i as int]@);
        }
        i += 1;
    }
    assert(all.take(i as int) =~= all);
    r
}

} // verus!
